use crate::text::{parse_number, split_once, trim};
use vstd::prelude::*;

verus! {

/// Pages from the first to the last, both included, counted from zero.
#[derive(Clone, Copy, PartialEq, Eq, Structural, Debug)]
pub struct PageRange {
    pub first: usize,
    pub last: usize,
}

/// What is to be rendered.
pub struct CliArgs {
    pub pdf_path: String,
    /// The only page to render, counted from zero.
    pub page: Option<usize>,
    /// The only pages to render.
    pub range: Option<PageRange>,
}

/// What the options choose.
pub ghost struct Choice {
    pub page: Option<usize>,
    pub range: Option<PageRange>,
}

/// Whether a page, counted from zero, is to be rendered.
pub open spec fn selects(chosen: Choice, page_index: int) -> bool {
    match (chosen.page, chosen.range) {
        (Some(page), _) => page_index == page,
        (None, Some(range)) => range.first <= page_index <= range.last,
        (None, None) => true,
    }
}

/// What is shown when the arguments cannot be used.
pub open spec fn usage_text(msg: Seq<char>) -> Seq<char> {
    msg
        + "\n\nUsage: cargo run --example render -- <PDF_PATH> [--page N] [--range START-END]\n  --page N        Render only page N (1-based)\n  --range S-E     Render inclusive page range S through E (1-based)\n\nNote: --page and --range are mutually exclusive."@
}

/// The page range that a text like `2-5` stands for, where pages are counted from one, or what is
/// wrong with the text.
pub open spec fn page_range(value: Seq<char>) -> Result<PageRange, Seq<char>> {
    match crate::text::parts(value, '-') {
        Some((start, end)) => match (
            crate::text::number(crate::text::trimmed(start)),
            crate::text::number(crate::text::trimmed(end)),
        ) {
            (Some(start), Some(end)) => if start == 0 || end == 0 || start > end {
                Err("--range expects START-END with START <= END and both >= 1"@)
            } else {
                Ok(PageRange { first: (start - 1) as usize, last: (end - 1) as usize })
            },
            _ => Err("--range expects START-END (1-based)"@),
        },
        None => Err("--range expects START-END (1-based)"@),
    }
}

/// The page that a number counted from one stands for, or what is wrong with the text.
pub open spec fn page_number(value: Seq<char>) -> Result<usize, Seq<char>> {
    match crate::text::number(value) {
        Some(n) => if n == 0 {
            Err("--page expects a positive integer (1-based)"@)
        } else {
            Ok((n - 1) as usize)
        },
        None => Err("--page expects a positive integer (1-based)"@),
    }
}

/// What the options choose, given what was chosen before them, or what is wrong with them.
pub open spec fn options(args: Seq<Seq<char>>, chosen: Choice) -> Result<Choice, Seq<char>>
    decreases args.len(),
{
    if args.len() == 0 {
        Ok(chosen)
    } else if args[0] == "--page"@ {
        if args.len() < 2 {
            Err("expected value after --page"@)
        } else if chosen.page is Some {
            Err("duplicate --page argument"@)
        } else if chosen.range is Some {
            Err("--page conflicts with --range"@)
        } else {
            match page_number(args[1]) {
                Ok(page) => options(args.skip(2), Choice { page: Some(page), ..chosen }),
                Err(msg) => Err(msg),
            }
        }
    } else if args[0] == "--range"@ {
        if args.len() < 2 {
            Err("expected value after --range"@)
        } else if chosen.range is Some {
            Err("duplicate --range argument"@)
        } else if chosen.page is Some {
            Err("--range conflicts with --page"@)
        } else {
            match page_range(args[1]) {
                Ok(range) => options(args.skip(2), Choice { range: Some(range), ..chosen }),
                Err(msg) => Err(msg),
            }
        }
    } else {
        Err("unknown argument '"@ + args[0] + "'"@)
    }
}

/// The texts of the arguments.
pub open spec fn texts(args: Seq<String>) -> Seq<Seq<char>> {
    args.map_values(|s: String| s@)
}

/// What the arguments ask for, or what is shown when they cannot be used. The first argument is
/// the path of the document, and options follow.
pub open spec fn parsed(args: Seq<Seq<char>>) -> Result<(Seq<char>, Choice), Seq<char>> {
    if args.len() == 0 {
        Err(usage_text("missing PDF path"@))
    } else {
        match options(args.skip(1), Choice { page: None, range: None }) {
            Ok(chosen) => Ok((args[0], chosen)),
            Err(msg) => Err(usage_text(msg)),
        }
    }
}

/// Reads the value of `--page`.
fn parse_page(value: &str) -> (page: Result<usize, &'static str>)
    ensures
        match page {
            Ok(page) => page_number(value@) == Ok::<usize, Seq<char>>(page),
            Err(msg) => page_number(value@) == Err::<usize, Seq<char>>(msg@),
        },
{
    match parse_number(value) {
        Some(n) => if n == 0 {
            Err("--page expects a positive integer (1-based)")
        } else {
            Ok(n - 1)
        },
        None => Err("--page expects a positive integer (1-based)"),
    }
}

/// Reads the value of `--range`.
fn parse_range(value: &str) -> (range: Result<PageRange, &'static str>)
    ensures
        match range {
            Ok(range) => page_range(value@) == Ok::<PageRange, Seq<char>>(range),
            Err(msg) => page_range(value@) == Err::<PageRange, Seq<char>>(msg@),
        },
{
    let (start, end) = match split_once(value, '-') {
        Some((start, end)) => (start, end),
        None => {
            return Err("--range expects START-END (1-based)");
        },
    };
    let start: usize = match parse_number(trim(start)) {
        Some(n) => n,
        None => {
            return Err("--range expects START-END (1-based)");
        },
    };
    let end: usize = match parse_number(trim(end)) {
        Some(n) => n,
        None => {
            return Err("--range expects START-END (1-based)");
        },
    };
    if start == 0 || end == 0 || start > end {
        return Err("--range expects START-END with START <= END and both >= 1");
    }
    Ok(PageRange { first: start - 1, last: end - 1 })
}

impl CliArgs {
    /// What is shown when the arguments cannot be used.
    pub fn usage(msg: &str) -> (text: String)
        ensures
            text@ == usage_text(msg@),
    {
        let mut text: String = msg.to_string();
        text.append(
            "\n\nUsage: cargo run --example render -- <PDF_PATH> [--page N] [--range START-END]\n  --page N        Render only page N (1-based)\n  --range S-E     Render inclusive page range S through E (1-based)\n\nNote: --page and --range are mutually exclusive.",
        );
        text
    }

    /// Reads the arguments of the program, without its name.
    pub fn parse(args: &Vec<String>) -> (result: Result<Self, String>)
        ensures
            match result {
                Ok(cli) => parsed(texts(args@)) == Ok::<(Seq<char>, Choice), Seq<char>>(
                    (cli.pdf_path@, Choice { page: cli.page, range: cli.range }),
                ),
                Err(text) => parsed(texts(args@)) == Err::<(Seq<char>, Choice), Seq<char>>(text@),
            },
    {
        if args.len() == 0 {
            return Err(Self::usage("missing PDF path"));
        }
        let pdf_path: String = args[0].clone();
        let mut page: Option<usize> = None;
        let mut range: Option<PageRange> = None;
        let ghost all = texts(args@);
        let ghost whole = options(all.skip(1), Choice { page: None, range: None });
        let mut i: usize = 1;
        while i < args.len()
            invariant
                1 <= i <= args@.len(),
                all == texts(args@),
                whole == options(all.skip(1), Choice { page: None, range: None }),
                whole == options(all.skip(i as int), Choice { page, range }),
            decreases args@.len() - i,
        {
            let ghost rest = all.skip(i as int);
            assert(rest[0] == args@[i as int]@);
            let is_page: bool = args[i] == "--page".to_string();
            let is_range: bool = args[i] == "--range".to_string();
            if !is_page && !is_range {
                let mut msg: String = "unknown argument '".to_string();
                msg.append(args[i].as_str());
                msg.append("'");
                return Err(Self::usage(msg.as_str()));
            }
            if args.len() - i < 2 {
                return Err(
                    Self::usage(
                        if is_page {
                            "expected value after --page"
                        } else {
                            "expected value after --range"
                        },
                    ),
                );
            }
            assert(rest[1] == args@[i + 1]@);
            assert(rest.skip(2) =~= all.skip(i + 2));
            let value: &str = args[i + 1].as_str();
            if is_page {
                if page.is_some() {
                    return Err(Self::usage("duplicate --page argument"));
                }
                if range.is_some() {
                    return Err(Self::usage("--page conflicts with --range"));
                }
                match parse_page(value) {
                    Ok(n) => {
                        page = Some(n);
                    },
                    Err(msg) => {
                        return Err(Self::usage(msg));
                    },
                }
            } else {
                if range.is_some() {
                    return Err(Self::usage("duplicate --range argument"));
                }
                if page.is_some() {
                    return Err(Self::usage("--range conflicts with --page"));
                }
                match parse_range(value) {
                    Ok(r) => {
                        range = Some(r);
                    },
                    Err(msg) => {
                        return Err(Self::usage(msg));
                    },
                }
            }
            i = i + 2;
        }
        assert(all.skip(i as int).len() == 0);
        Ok(CliArgs { pdf_path, page, range })
    }

    /// Whether a page, counted from zero, is to be rendered.
    pub fn matches_page(&self, page_index: usize) -> (b: bool)
        ensures
            b == selects(Choice { page: self.page, range: self.range }, page_index as int),
    {
        match (self.page, self.range) {
            (Some(page), _) => page_index == page,
            (None, Some(range)) => range.first <= page_index && page_index <= range.last,
            (None, None) => true,
        }
    }
}

/// Whether a choice is one that the options can make: a page or a range but not both, and a range
/// that is not empty.
pub open spec fn single_choice(chosen: Choice) -> bool {
    &&& chosen.page is None || chosen.range is None
    &&& chosen.range matches Some(range) ==> range.first <= range.last
}

proof fn lemma_options_choose_once(args: Seq<Seq<char>>, chosen: Choice)
    requires
        single_choice(chosen),
        options(args, chosen) is Ok,
    ensures
        single_choice(options(args, chosen)->Ok_0),
    decreases args.len(),
{
    if args.len() >= 2 && args[0] == "--page"@ {
        if let Ok(page) = page_number(args[1]) {
            lemma_options_choose_once(args.skip(2), Choice { page: Some(page), ..chosen });
        }
    } else if args.len() >= 2 && args[0] == "--range"@ {
        if let Ok(range) = page_range(args[1]) {
            lemma_options_choose_once(args.skip(2), Choice { range: Some(range), ..chosen });
        }
    }
}

/// A page and a page range exclude each other, and a page range that is accepted holds a page.
pub proof fn law_page_and_range_exclude_each_other(args: Seq<Seq<char>>)
    requires
        parsed(args) is Ok,
    ensures
        single_choice(parsed(args)->Ok_0.1),
{
    lemma_options_choose_once(args.skip(1), Choice { page: None, range: None });
}

/// `--page` with a number that counts from one selects that page and no other.
pub proof fn law_page_option_selects_the_page(path: Seq<char>, value: Seq<char>, index: int)
    requires
        crate::text::number(value) matches Some(n) && n >= 1,
    ensures
        parsed(seq![path, "--page"@, value]) matches Ok((p, chosen)) && p == path && (selects(
            chosen,
            index,
        ) <==> index + 1 == crate::text::number(value).unwrap()),
{
    let none = Choice { page: None, range: None };
    let args = seq![path, "--page"@, value];
    let page = page_number(value)->Ok_0;
    assert(args.skip(1)[0] == "--page"@);
    assert(args.skip(1)[1] == value);
    assert(options(args.skip(1).skip(2), Choice { page: Some(page), ..none }) is Ok);
}

/// `--range` with two numbers that count from one selects the pages from the first to the last,
/// both included, and no others.
pub proof fn law_range_option_selects_the_range(path: Seq<char>, value: Seq<char>, index: int)
    requires
        page_range(value) is Ok,
    ensures
        parsed(seq![path, "--range"@, value]) matches Ok((p, chosen)) && p == path && (selects(
            chosen,
            index,
        ) <==> page_range(value)->Ok_0.first <= index <= page_range(value)->Ok_0.last),
{
    reveal_strlit("--page");
    reveal_strlit("--range");
    let none = Choice { page: None, range: None };
    let args = seq![path, "--range"@, value];
    assert("--page"@.len() != "--range"@.len());
    assert(args.skip(1)[0] == "--range"@);
    assert(args.skip(1)[1] == value);
    let range = page_range(value)->Ok_0;
    assert(options(args.skip(1).skip(2), Choice { range: Some(range), ..none }) is Ok);
}

/// A path alone selects every page.
pub proof fn law_path_alone_selects_every_page(path: Seq<char>, index: int)
    ensures
        parsed(seq![path]) matches Ok((p, chosen)) && p == path && selects(chosen, index),
{
    assert(seq![path].skip(1).len() == 0);
}

} // verus!
