use hayro_raster::page_args::{CliArgs, PageRange};
use hayro_raster::text::{is_white_space, parse_number, split_once, trim};
use hayro_raster::threads::{configured_threads, ThreadSetting};

const USAGE: &str = "\n\nUsage: cargo run --example render -- <PDF_PATH> [--page N] [--range START-END]\n  --page N        Render only page N (1-based)\n  --range S-E     Render inclusive page range S through E (1-based)\n\nNote: --page and --range are mutually exclusive.";

fn parse(args: &[&str]) -> Result<CliArgs, String> {
    let args: Vec<String> = args.iter().map(|s| s.to_string()).collect();
    CliArgs::parse(&args)
}

fn error(args: &[&str]) -> String {
    match parse(args) {
        Ok(_) => panic!("accepted"),
        Err(text) => {
            assert!(text.ends_with(USAGE));
            text[..text.len() - USAGE.len()].to_string()
        }
    }
}

#[test]
fn a_thread_setting_is_a_positive_number() {
    assert_eq!(configured_threads(None), ThreadSetting::Unset);
    assert_eq!(configured_threads(Some("")), ThreadSetting::Unset);
    assert_eq!(configured_threads(Some(" \t\n")), ThreadSetting::Unset);
    assert_eq!(configured_threads(Some("4")), ThreadSetting::Threads(4));
    assert_eq!(configured_threads(Some(" +12 \n")), ThreadSetting::Threads(12));
    assert_eq!(configured_threads(Some("0")), ThreadSetting::Invalid);
    assert_eq!(configured_threads(Some("-1")), ThreadSetting::Invalid);
    assert_eq!(configured_threads(Some("four")), ThreadSetting::Invalid);
    assert_eq!(configured_threads(Some("1 2")), ThreadSetting::Invalid);
    assert_eq!(ThreadSetting::Threads(4).threads(), Some(4));
    assert_eq!(ThreadSetting::Invalid.threads(), None);
    assert_eq!(ThreadSetting::Unset.threads(), None);
}

#[test]
fn numbers_are_read_like_the_standard_library_reads_them() {
    let max = usize::MAX.to_string();
    let over = format!("{}0", usize::MAX);
    let next = (usize::MAX as u128 + 1).to_string();
    for text in [
        "", "+", "-", "0", "00", "007", "+5", "++5", "-5", "-0", "5-", " 5", "5 ", "1_0", "12a",
        "\u{0661}", max.as_str(), over.as_str(), next.as_str(),
    ] {
        assert_eq!(parse_number(text), text.parse::<usize>().ok(), "{text}");
    }
}

#[test]
fn white_space_is_what_the_standard_library_says() {
    for v in 0..0x11_0000u32 {
        if let Some(c) = char::from_u32(v) {
            assert_eq!(is_white_space(c), c.is_whitespace(), "{v:x}");
        }
    }
    for text in ["", " ", "a", " a", "a ", "\u{3000}a b\u{2003}", "\u{200b}a", "\t\u{e9}\u{85}"] {
        assert_eq!(trim(text), text.trim());
    }
}

#[test]
fn a_text_is_split_at_the_first_separator() {
    for text in ["", "-", "a", "a-b", "-b", "a-", "a-b-c", "\u{e9}-\u{e9}"] {
        assert_eq!(split_once(text, '-'), text.split_once('-'));
    }
}

#[test]
fn a_path_alone_selects_every_page() {
    let args = parse(&["a.pdf"]).ok().unwrap();
    assert_eq!(args.pdf_path, "a.pdf");
    assert_eq!((args.page, args.range), (None, None));
    assert!(args.matches_page(0));
    assert!(args.matches_page(usize::MAX));
}

#[test]
fn a_page_is_counted_from_one() {
    let args = parse(&["a.pdf", "--page", "3"]).ok().unwrap();
    assert_eq!(args.page, Some(2));
    assert!(!args.matches_page(1));
    assert!(args.matches_page(2));
    assert!(!args.matches_page(3));
}

#[test]
fn a_range_has_both_its_ends() {
    let args = parse(&["a.pdf", "--range", " 2 - 4 "]).ok().unwrap();
    assert_eq!(args.range, Some(PageRange { first: 1, last: 3 }));
    let selected: Vec<usize> = (0..6).filter(|i| args.matches_page(*i)).collect();
    assert_eq!(selected, vec![1, 2, 3]);
    let one = parse(&["a.pdf", "--range", "5-5"]).ok().unwrap();
    assert_eq!(one.range, Some(PageRange { first: 4, last: 4 }));
}

#[test]
fn arguments_that_cannot_be_used_are_explained() {
    let page = "--page expects a positive integer (1-based)";
    let form = "--range expects START-END (1-based)";
    let order = "--range expects START-END with START <= END and both >= 1";
    assert_eq!(error(&[]), "missing PDF path");
    assert_eq!(error(&["a", "--page"]), "expected value after --page");
    assert_eq!(error(&["a", "--range"]), "expected value after --range");
    assert_eq!(error(&["a", "--page", "1", "--page", "2"]), "duplicate --page argument");
    assert_eq!(error(&["a", "--range", "1-2", "--range", "1-2"]), "duplicate --range argument");
    assert_eq!(error(&["a", "--range", "1-2", "--page", "1"]), "--page conflicts with --range");
    assert_eq!(error(&["a", "--page", "1", "--range", "1-2"]), "--range conflicts with --page");
    assert_eq!(error(&["a", "--page", "0"]), page);
    assert_eq!(error(&["a", "--page", "x"]), page);
    assert_eq!(error(&["a", "--page", " 1"]), page);
    assert_eq!(error(&["a", "--range", "12"]), form);
    assert_eq!(error(&["a", "--range", "1-x"]), form);
    assert_eq!(error(&["a", "--range", "x-1"]), form);
    assert_eq!(error(&["a", "--range", "1-2-3"]), form);
    assert_eq!(error(&["a", "--range", "3-2"]), order);
    assert_eq!(error(&["a", "--range", "0-2"]), order);
    assert_eq!(error(&["a", "--all"]), "unknown argument '--all'");
    assert_eq!(CliArgs::usage("oops"), format!("oops{USAGE}"));
}
