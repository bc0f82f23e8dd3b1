use crate::page_args::CliArgs;
use crate::text::{is_white_space, parse_number, split_once, trim};
use crate::threads::{configured_threads, ThreadSetting};
use vstd::prelude::*;

verus! {

/// A text of one digit stands for the digit.
pub proof fn law_digit_is_a_number(s: &str, n: Option<usize>)
    requires
        call_ensures(parse_number, (s,), n),
        s@.len() == 1,
    ensures
        '0' <= s@[0] <= '9' ==> (n matches Some(v) && v == s@[0] as int - '0' as int),
        !('0' <= s@[0] <= '9') ==> n is None,
{
    let digits = crate::text::unsigned_digits(s@);
    if '0' <= s@[0] <= '9' {
        assert(digits =~= s@);
        reveal_with_fuel(crate::text::digits_value, 2);
        assert(digits.drop_last().len() == 0);
        assert(crate::text::digits_value(digits) == s@[0] as int - '0' as int);
    } else if s@[0] != '+' {
        assert(!crate::text::is_digit(digits[0]));
    }
}

/// One more digit multiplies a number by ten and adds the digit, as long as the result fits. Any
/// other character behind a number spoils it, and what is spoilt stays so.
pub proof fn law_one_more_character(s: &str, m: Option<usize>, t: &str, n: Option<usize>, c: char)
    requires
        call_ensures(parse_number, (s,), m),
        call_ensures(parse_number, (t,), n),
        t@ == s@.push(c),
        s@.len() > 1 || (s@.len() == 1 && s@[0] != '+'),
    ensures
        m matches Some(v) ==> '0' <= c <= '9' ==> v * 10 + (c as int - '0' as int) <= usize::MAX
            ==> (n matches Some(w) && w == v * 10 + (c as int - '0' as int)),
        m matches Some(v) ==> v * 10 + (c as int - '0' as int) > usize::MAX ==> n is None,
        !('0' <= c <= '9') ==> n is None,
        m is None ==> n is None,
{
    let a = crate::text::unsigned_digits(s@);
    let b = crate::text::unsigned_digits(t@);
    assert(b =~= a.push(c));
    assert(b.drop_last() =~= a);
    assert(crate::text::digits_value(b) == crate::text::digits_value(a) * 10 + (c as nat
        - '0' as nat) as nat);
    assert(b.last() == c);
    if !('0' <= c <= '9') {
        assert(!crate::text::is_digit(b[b.len() - 1]));
    }
    if crate::text::number(t@) is Some {
        assert forall|i: int| 0 <= i < a.len() implies crate::text::is_digit(#[trigger] a[i]) by {
            assert(a[i] == b[i]);
        }
    }
    if crate::text::number(s@) is Some && '0' <= c <= '9' {
        assert forall|i: int| 0 <= i < b.len() implies crate::text::is_digit(#[trigger] b[i]) by {
            if i < a.len() {
                assert(b[i] == a[i]);
            }
        }
    }
}

/// A plus sign in front of digits makes no difference, and neither nothing nor a plus sign alone
/// is a number.
pub proof fn law_plus_sign_makes_no_difference(
    s: &str,
    m: Option<usize>,
    t: &str,
    n: Option<usize>,
)
    requires
        call_ensures(parse_number, (s,), m),
        call_ensures(parse_number, (t,), n),
        t@ == seq!['+'] + s@,
    ensures
        s@.len() == 0 ==> m is None && n is None,
        s@.len() > 0 && s@[0] != '+' ==> m == n,
        s@.len() > 0 && s@[0] == '+' ==> n is None,
{
    let b = crate::text::unsigned_digits(t@);
    assert(b =~= s@);
    if s@.len() > 0 && s@[0] == '+' {
        assert(!crate::text::is_digit(b[0]));
    }
}

/// Where white space ends at the beginning of a text.
proof fn lemma_trim_start(s: Seq<char>) -> (i: int)
    ensures
        0 <= i <= s.len(),
        crate::text::trim_start(s) == s.skip(i),
        forall|k: int| 0 <= k < i ==> crate::text::white_space(#[trigger] s[k]),
        i < s.len() ==> !crate::text::white_space(s[i]),
    decreases s.len(),
{
    if s.len() > 0 && crate::text::white_space(s[0]) {
        let j = lemma_trim_start(s.skip(1));
        assert(s.skip(1).skip(j) =~= s.skip(j + 1));
        assert forall|k: int| 0 <= k < j + 1 implies crate::text::white_space(#[trigger] s[k]) by {
            if k > 0 {
                assert(s.skip(1)[k - 1] == s[k]);
            }
        }
        j + 1
    } else {
        assert(s.skip(0) =~= s);
        0
    }
}

/// Where white space begins at the end of a text.
proof fn lemma_trim_end(s: Seq<char>) -> (j: int)
    ensures
        0 <= j <= s.len(),
        crate::text::trim_end(s) == s.take(j),
        forall|k: int| j <= k < s.len() ==> crate::text::white_space(#[trigger] s[k]),
        j > 0 ==> !crate::text::white_space(s[j - 1]),
    decreases s.len(),
{
    if s.len() > 0 && crate::text::white_space(s.last()) {
        let j = lemma_trim_end(s.drop_last());
        assert(s.drop_last().take(j) =~= s.take(j));
        assert forall|k: int| j <= k < s.len() implies crate::text::white_space(
            #[trigger] s[k],
        ) by {
            if k < s.len() - 1 {
                assert(s.drop_last()[k] == s[k]);
            }
        }
        j
    } else {
        assert(s.take(s.len() as int) =~= s);
        s.len() as int
    }
}

/// What a trimmed text is a part of.
proof fn lemma_trimmed(s: Seq<char>) -> (cut: (int, int))
    ensures
        0 <= cut.0 <= cut.1 <= s.len(),
        crate::text::trimmed(s) == s.subrange(cut.0, cut.1),
        forall|k: int| 0 <= k < cut.0 ==> crate::text::white_space(#[trigger] s[k]),
        forall|k: int| cut.1 <= k < s.len() ==> crate::text::white_space(#[trigger] s[k]),
        cut.0 < cut.1 ==> !crate::text::white_space(s[cut.0]) && !crate::text::white_space(
            s[cut.1 - 1],
        ),
{
    let i = lemma_trim_start(s);
    let rest = s.skip(i);
    let j = lemma_trim_end(rest);
    assert(rest.take(j) =~= s.subrange(i, i + j));
    assert forall|k: int| i + j <= k < s.len() implies crate::text::white_space(#[trigger] s[k]) by {
        assert(rest[k - i] == s[k]);
    }
    if j > 0 {
        assert(rest[j - 1] == s[i + j - 1]);
        assert(rest[0] == s[i]);
    }
    (i, i + j)
}

/// Trimming takes away the white space at both ends and nothing else: what is left is the part
/// between two positions, with nothing but white space around it and none at its ends.
pub proof fn law_trimming_takes_white_space_away(s: &str, t: &str) -> (cut: (int, int))
    requires
        call_ensures(trim, (s,), t),
    ensures
        0 <= cut.0 <= cut.1 <= s@.len(),
        t@ == s@.subrange(cut.0, cut.1),
        forall|k: int| 0 <= k < cut.0 ==> crate::text::white_space(#[trigger] s@[k]),
        forall|k: int| cut.1 <= k < s@.len() ==> crate::text::white_space(#[trigger] s@[k]),
        t@.len() > 0 ==> !crate::text::white_space(t@[0]) && !crate::text::white_space(t@.last()),
{
    lemma_trimmed(s@)
}

/// Which characters are white space.
pub proof fn law_white_space(c: char, b: bool)
    requires
        call_ensures(is_white_space, (c,), b),
    ensures
        b == crate::text::white_space(c),
        c == ' ' || c == '\t' || c == '\n' || c == '\r' ==> b,
        '!' <= c <= '~' ==> !b,
{
}

/// Where a text has its first separator.
proof fn lemma_first_position(s: Seq<char>, separator: char)
    ensures
        0 <= crate::text::first_position(s, separator) <= s.len(),
        crate::text::first_position(s, separator) < s.len() ==> s[crate::text::first_position(
            s,
            separator,
        )] == separator,
        forall|k: int|
            0 <= k < crate::text::first_position(s, separator) ==> #[trigger] s[k] != separator,
    decreases s.len(),
{
    if s.len() > 0 && s[0] != separator {
        lemma_first_position(s.skip(1), separator);
        assert forall|k: int|
            0 <= k < crate::text::first_position(s, separator) implies #[trigger] s[k]
            != separator by {
            if k > 0 {
                assert(s.skip(1)[k - 1] == s[k]);
            }
        }
    }
}

/// A text is split at the first separator: the parts with the separator between them are the text,
/// and the first part has no separator. It is not split exactly if it has none.
pub proof fn law_text_is_split_at_the_first_separator(
    s: &str,
    separator: char,
    split: Option<(&str, &str)>,
)
    requires
        call_ensures(split_once, (s, separator), split),
    ensures
        split is None <==> forall|k: int| 0 <= k < s@.len() ==> #[trigger] s@[k] != separator,
        split matches Some((before, after)) ==> {
            &&& s@ == before@.push(separator) + after@
            &&& forall|k: int| 0 <= k < before@.len() ==> #[trigger] before@[k] != separator
        },
{
    lemma_first_position(s@, separator);
    let at = crate::text::first_position(s@, separator);
    if at < s@.len() {
        let before = s@.take(at);
        assert(s@ =~= before.push(separator) + s@.skip(at + 1));
        assert forall|k: int| 0 <= k < before.len() implies #[trigger] before[k] != separator by {
            assert(before[k] == s@[k]);
        }
        assert(s@[at] == separator);
    }
}

/// A number has no white space around it and holds no minus sign.
proof fn lemma_number_text(s: Seq<char>)
    requires
        crate::text::number(s) is Some,
    ensures
        crate::text::trimmed(s) == s,
        forall|k: int| 0 <= k < s.len() ==> #[trigger] s[k] != '-',
{
    let digits = crate::text::unsigned_digits(s);
    let skipped = s.len() - digits.len();
    assert forall|k: int| 0 <= k < s.len() implies #[trigger] s[k] != '-'
        && !crate::text::white_space(s[k]) by {
        if k >= skipped {
            assert(digits[k - skipped] == s[k]);
            assert(crate::text::is_digit(digits[k - skipped]));
        }
    }
    let cut = lemma_trimmed(s);
    if cut.0 > 0 {
        assert(crate::text::white_space(s[0]));
    }
    if cut.1 < s.len() {
        assert(crate::text::white_space(s[cut.1]));
    }
    assert(s.subrange(0, s.len() as int) =~= s);
}

/// The options differ.
proof fn lemma_options_differ()
    ensures
        "--page"@ != "--range"@,
{
    reveal_strlit("--page");
    reveal_strlit("--range");
    assert("--page"@.len() != "--range"@.len());
}

/// What the arguments of the program are, as texts.
proof fn lemma_texts(args: Seq<String>)
    ensures
        crate::page_args::texts(args).len() == args.len(),
        forall|i: int|
            0 <= i < args.len() ==> #[trigger] crate::page_args::texts(args)[i] == args[i]@,
{
}

/// Two texts with a minus sign between them, of which the first has none, are split there.
proof fn lemma_parts(s: Seq<char>, e: Seq<char>)
    requires
        forall|k: int| 0 <= k < s.len() ==> #[trigger] s[k] != '-',
    ensures
        crate::text::parts(s + seq!['-'] + e, '-') == Some((s, e)),
{
    let all = s + seq!['-'] + e;
    lemma_first_position(all, '-');
    let at = crate::text::first_position(all, '-');
    assert(all[s.len() as int] == '-');
    if at < s.len() {
        assert(all[at] == s[at]);
    }
    if at > s.len() {
        assert(all[s.len() as int] != '-');
    }
    assert(all.take(at) =~= s);
    assert(all.skip(at + 1) =~= e);
}

/// `--range` with two numbers, both counted from one, selects the pages from the first to the
/// second, both included, and no others.
pub proof fn law_range_selects_the_pages_between_its_numbers(
    args: &Vec<String>,
    result: Result<CliArgs, String>,
    s: Seq<char>,
    e: Seq<char>,
    m: usize,
    n: usize,
)
    requires
        call_ensures(CliArgs::parse, (args,), result),
        args@.len() == 3,
        args@[1]@ == "--range"@,
        args@[2]@ == s + seq!['-'] + e,
        crate::text::number(s) == Some(m),
        crate::text::number(e) == Some(n),
        1 <= m <= n,
    ensures
        result matches Ok(cli) && {
            &&& cli.pdf_path@ == args@[0]@
            &&& forall|index: usize, b: bool| #[trigger]
                call_ensures(CliArgs::matches_page, (&cli, index), b) ==> (b <==> m <= index + 1
                    <= n)
        },
{
    lemma_options_differ();
    lemma_texts(args@);
    lemma_number_text(s);
    lemma_number_text(e);
    lemma_parts(s, e);
    let all = crate::page_args::texts(args@);
    let rest = all.skip(1);
    let none = crate::page_args::Choice { page: None, range: None };
    assert(rest[0] == args@[1]@ && rest[1] == args@[2]@);
    assert(rest.skip(2).len() == 0);
    let range = crate::page_args::page_range(rest[1])->Ok_0;
    assert(crate::page_args::options(
        rest.skip(2),
        crate::page_args::Choice { range: Some(range), ..none },
    ) == Ok::<crate::page_args::Choice, Seq<char>>(
        crate::page_args::Choice { range: Some(range), ..none },
    ));
}

/// White space around the two numbers of a range makes no difference.
pub proof fn law_white_space_around_the_numbers_of_a_range(
    args: &Vec<String>,
    result: Result<CliArgs, String>,
    s: Seq<char>,
    e: Seq<char>,
    m: usize,
    n: usize,
)
    requires
        call_ensures(CliArgs::parse, (args,), result),
        args@.len() == 3,
        args@[1]@ == "--range"@,
        args@[2]@ == s + seq!['-'] + e,
        forall|k: int| 0 <= k < s.len() ==> #[trigger] s[k] != '-',
        crate::text::number(crate::text::trimmed(s)) == Some(m),
        crate::text::number(crate::text::trimmed(e)) == Some(n),
        1 <= m <= n,
    ensures
        result matches Ok(cli) && {
            &&& cli.pdf_path@ == args@[0]@
            &&& forall|index: usize, b: bool| #[trigger]
                call_ensures(CliArgs::matches_page, (&cli, index), b) ==> (b <==> m <= index + 1
                    <= n)
        },
{
    lemma_options_differ();
    lemma_texts(args@);
    lemma_parts(s, e);
    let all = crate::page_args::texts(args@);
    let rest = all.skip(1);
    let none = crate::page_args::Choice { page: None, range: None };
    assert(rest[0] == args@[1]@ && rest[1] == args@[2]@);
    assert(rest.skip(2).len() == 0);
    let range = crate::page_args::page_range(rest[1])->Ok_0;
    assert(crate::page_args::options(
        rest.skip(2),
        crate::page_args::Choice { range: Some(range), ..none },
    ) == Ok::<crate::page_args::Choice, Seq<char>>(
        crate::page_args::Choice { range: Some(range), ..none },
    ));
}

/// A page that is chosen is the only one that is rendered, whatever the range. A range holds its
/// first and its last page, and without either every page is rendered.
pub proof fn law_pages_that_match(cli: &CliArgs, index: usize, b: bool)
    requires
        call_ensures(CliArgs::matches_page, (cli, index), b),
    ensures
        cli.page matches Some(page) ==> (b <==> index == page),
        cli.page is None ==> (cli.range matches Some(range) ==> (b <==> range.first <= index
            <= range.last)),
        cli.page is None && cli.range is None ==> b,
{
}

/// `--page` with a number counted from one selects that page and no other.
pub proof fn law_page_selects_the_page_of_its_number(
    args: &Vec<String>,
    result: Result<CliArgs, String>,
    n: usize,
)
    requires
        call_ensures(CliArgs::parse, (args,), result),
        args@.len() == 3,
        args@[1]@ == "--page"@,
        crate::text::number(args@[2]@) == Some(n),
        1 <= n,
    ensures
        result matches Ok(cli) && {
            &&& cli.pdf_path@ == args@[0]@
            &&& forall|index: usize, b: bool| #[trigger]
                call_ensures(CliArgs::matches_page, (&cli, index), b) ==> (b <==> index + 1 == n)
        },
{
    lemma_texts(args@);
    let all = crate::page_args::texts(args@);
    let rest = all.skip(1);
    let none = crate::page_args::Choice { page: None, range: None };
    assert(rest[0] == args@[1]@ && rest[1] == args@[2]@);
    assert(rest.skip(2).len() == 0);
    let page = crate::page_args::page_number(rest[1])->Ok_0;
    assert(crate::page_args::options(
        rest.skip(2),
        crate::page_args::Choice { page: Some(page), ..none },
    ) == Ok::<crate::page_args::Choice, Seq<char>>(
        crate::page_args::Choice { page: Some(page), ..none },
    ));
}

/// A path alone selects every page.
pub proof fn law_path_alone_selects_all_pages(args: &Vec<String>, result: Result<CliArgs, String>)
    requires
        call_ensures(CliArgs::parse, (args,), result),
        args@.len() == 1,
    ensures
        result matches Ok(cli) && {
            &&& cli.pdf_path@ == args@[0]@
            &&& forall|index: usize, b: bool| #[trigger]
                call_ensures(CliArgs::matches_page, (&cli, index), b) ==> b
        },
{
    lemma_texts(args@);
    assert(crate::page_args::texts(args@).skip(1).len() == 0);
}

/// What the arguments behind a page or a range that was chosen are answered: a choice is final.
proof fn lemma_second_option(rest: Seq<Seq<char>>, chosen: crate::page_args::Choice)
    requires
        chosen.page is Some != chosen.range is Some,
        rest.len() > 0,
    ensures
        crate::page_args::options(rest, chosen) == Err::<crate::page_args::Choice, Seq<char>>(
            if rest[0] == "--page"@ {
                if rest.len() == 1 {
                    "expected value after --page"@
                } else if chosen.page is Some {
                    "duplicate --page argument"@
                } else {
                    "--page conflicts with --range"@
                }
            } else if rest[0] == "--range"@ {
                if rest.len() == 1 {
                    "expected value after --range"@
                } else if chosen.range is Some {
                    "duplicate --range argument"@
                } else {
                    "--range conflicts with --page"@
                }
            } else {
                "unknown argument '"@ + rest[0] + "'"@
            },
        ),
{
    lemma_options_differ();
}

/// What the first option is answered if it cannot be used: it is unknown, it has no value, or its
/// value is no number of a page or no range. Behind the message stands how to use the program.
pub proof fn law_first_option_that_cannot_be_used(
    args: &Vec<String>,
    result: Result<CliArgs, String>,
    usage: Seq<char>,
)
    requires
        call_ensures(CliArgs::parse, (args,), result),
        usage
            == "\n\nUsage: cargo run --example render -- <PDF_PATH> [--page N] [--range START-END]\n  --page N        Render only page N (1-based)\n  --range S-E     Render inclusive page range S through E (1-based)\n\nNote: --page and --range are mutually exclusive."@,
    ensures
        args@.len() == 0 ==> (result matches Err(text) && text@ == "missing PDF path"@ + usage),
        args@.len() >= 2 && args@[1]@ != "--page"@ && args@[1]@ != "--range"@ ==> (
        result matches Err(text) && text@ == "unknown argument '"@ + args@[1]@ + "'"@ + usage),
        args@.len() == 2 && args@[1]@ == "--page"@ ==> (result matches Err(text) && text@
            == "expected value after --page"@ + usage),
        args@.len() == 2 && args@[1]@ == "--range"@ ==> (result matches Err(text) && text@
            == "expected value after --range"@ + usage),
        args@.len() >= 3 && args@[1]@ == "--page"@ && !(crate::text::number(
            args@[2]@,
        ) matches Some(n) && n >= 1) ==> (result matches Err(text) && text@
            == "--page expects a positive integer (1-based)"@ + usage),
        args@.len() >= 3 && args@[1]@ == "--range"@ && (forall|k: int|
            0 <= k < args@[2]@.len() ==> #[trigger] args@[2]@[k] != '-') ==> (result matches Err(
            text,
        ) && text@ == "--range expects START-END (1-based)"@ + usage),
{
    lemma_options_differ();
    lemma_texts(args@);
    let all = crate::page_args::texts(args@);
    if args@.len() >= 2 {
        let rest = all.skip(1);
        assert(rest[0] == args@[1]@);
        if args@.len() >= 3 {
            assert(rest[1] == args@[2]@);
            lemma_first_position(args@[2]@, '-');
        }
    }
}

/// What the value of `--range` is answered if it has a minus sign and is no range: what stands on
/// either side of the first one, apart from white space, must be a number, and they must be in
/// order and count from one.
pub proof fn law_range_that_cannot_be_used(
    args: &Vec<String>,
    result: Result<CliArgs, String>,
    usage: Seq<char>,
    s: Seq<char>,
    e: Seq<char>,
)
    requires
        call_ensures(CliArgs::parse, (args,), result),
        usage
            == "\n\nUsage: cargo run --example render -- <PDF_PATH> [--page N] [--range START-END]\n  --page N        Render only page N (1-based)\n  --range S-E     Render inclusive page range S through E (1-based)\n\nNote: --page and --range are mutually exclusive."@,
        args@.len() >= 3,
        args@[1]@ == "--range"@,
        args@[2]@ == s + seq!['-'] + e,
        forall|k: int| 0 <= k < s.len() ==> #[trigger] s[k] != '-',
    ensures
        crate::text::number(crate::text::trimmed(s)) is None || crate::text::number(
            crate::text::trimmed(e),
        ) is None ==> (result matches Err(text) && text@ == "--range expects START-END (1-based)"@
            + usage),
        crate::text::number(crate::text::trimmed(s)) matches Some(m) ==> crate::text::number(
            crate::text::trimmed(e),
        ) matches Some(n) ==> !(1 <= m <= n) ==> (result matches Err(text) && text@
            == "--range expects START-END with START <= END and both >= 1"@ + usage),
        crate::text::number(crate::text::trimmed(s)) matches Some(m) ==> crate::text::number(
            crate::text::trimmed(e),
        ) matches Some(n) ==> 1 <= m <= n && args@.len() == 3 ==> result is Ok,
{
    lemma_options_differ();
    lemma_texts(args@);
    lemma_parts(s, e);
    let all = crate::page_args::texts(args@);
    let rest = all.skip(1);
    assert(rest[0] == args@[1]@ && rest[1] == args@[2]@);
    if args@.len() == 3 && crate::page_args::page_range(rest[1]) is Ok {
        let none = crate::page_args::Choice { page: None, range: None };
        let range = crate::page_args::page_range(rest[1])->Ok_0;
        assert(rest.skip(2).len() == 0);
        assert(crate::page_args::options(
            rest.skip(2),
            crate::page_args::Choice { range: Some(range), ..none },
        ) is Ok);
    }
}

/// A choice is final: behind a page or a range that could be used, every further argument is an
/// error, and the message says which.
pub proof fn law_choice_is_final(
    args: &Vec<String>,
    result: Result<CliArgs, String>,
    usage: Seq<char>,
    by_page: bool,
)
    requires
        call_ensures(CliArgs::parse, (args,), result),
        usage
            == "\n\nUsage: cargo run --example render -- <PDF_PATH> [--page N] [--range START-END]\n  --page N        Render only page N (1-based)\n  --range S-E     Render inclusive page range S through E (1-based)\n\nNote: --page and --range are mutually exclusive."@,
        args@.len() >= 4,
        by_page ==> args@[1]@ == "--page"@ && crate::page_args::page_number(args@[2]@) is Ok,
        !by_page ==> args@[1]@ == "--range"@ && crate::page_args::page_range(args@[2]@) is Ok,
    ensures
        result matches Err(text) && text@ == (if args@[3]@ == "--page"@ {
            if args@.len() == 4 {
                "expected value after --page"@
            } else if by_page {
                "duplicate --page argument"@
            } else {
                "--page conflicts with --range"@
            }
        } else if args@[3]@ == "--range"@ {
            if args@.len() == 4 {
                "expected value after --range"@
            } else if by_page {
                "--range conflicts with --page"@
            } else {
                "duplicate --range argument"@
            }
        } else {
            "unknown argument '"@ + args@[3]@ + "'"@
        }) + usage,
{
    lemma_options_differ();
    lemma_texts(args@);
    let all = crate::page_args::texts(args@);
    let rest = all.skip(1);
    assert(rest[0] == args@[1]@ && rest[1] == args@[2]@);
    let more = rest.skip(2);
    assert(more[0] == args@[3]@);
    let none = crate::page_args::Choice { page: None, range: None };
    let chosen = if by_page {
        crate::page_args::Choice {
            page: Some(crate::page_args::page_number(args@[2]@)->Ok_0),
            ..none
        }
    } else {
        crate::page_args::Choice {
            range: Some(crate::page_args::page_range(args@[2]@)->Ok_0),
            ..none
        }
    };
    lemma_second_option(more, chosen);
}

/// How to use the program is said behind the message.
pub proof fn law_usage_follows_the_message(msg: &str, text: String)
    requires
        call_ensures(CliArgs::usage, (msg,), text),
    ensures
        text@ == msg@
            + "\n\nUsage: cargo run --example render -- <PDF_PATH> [--page N] [--range START-END]\n  --page N        Render only page N (1-based)\n  --range S-E     Render inclusive page range S through E (1-based)\n\nNote: --page and --range are mutually exclusive."@,
{
}

/// Arguments that are accepted are a path alone, or a path with one option and its value.
pub proof fn law_accepted_arguments(args: &Vec<String>, result: Result<CliArgs, String>)
    requires
        call_ensures(CliArgs::parse, (args,), result),
        result is Ok,
    ensures
        args@.len() == 1 || args@.len() == 3,
        args@.len() == 3 ==> args@[1]@ == "--page"@ || args@[1]@ == "--range"@,
        args@.len() == 3 && args@[1]@ == "--page"@ ==> (crate::text::number(
            args@[2]@,
        ) matches Some(n) && n >= 1),
{
    lemma_options_differ();
    lemma_texts(args@);
    let all = crate::page_args::texts(args@);
    if args@.len() >= 2 {
        let rest = all.skip(1);
        assert(rest[0] == args@[1]@);
        if args@.len() >= 3 {
            assert(rest[1] == args@[2]@);
        }
        if args@.len() >= 4 {
            let more = rest.skip(2);
            let none = crate::page_args::Choice { page: None, range: None };
            if rest[0] == "--page"@ {
                lemma_second_option(
                    more,
                    crate::page_args::Choice {
                        page: Some(crate::page_args::page_number(rest[1])->Ok_0),
                        ..none
                    },
                );
            } else {
                lemma_second_option(
                    more,
                    crate::page_args::Choice {
                        range: Some(crate::page_args::page_range(rest[1])->Ok_0),
                        ..none
                    },
                );
            }
        }
    }
}

/// Nothing is left of a text exactly if it is all white space.
proof fn lemma_blank(s: Seq<char>)
    ensures
        crate::text::trimmed(s).len() == 0 <==> forall|k: int|
            0 <= k < s.len() ==> crate::text::white_space(#[trigger] s[k]),
{
    let cut = lemma_trimmed(s);
    if cut.0 < cut.1 {
        assert(!crate::text::white_space(s[cut.0]));
    } else {
        assert forall|k: int| 0 <= k < s.len() implies crate::text::white_space(#[trigger] s[k]) by {
            if k >= cut.0 {
                assert(cut.1 <= k);
            }
        }
    }
}

/// A thread setting is read as the number of threads exactly if it is, apart from white space
/// around it, a number that is not zero. It counts as not set exactly if there is none or nothing
/// but white space, and everything else is invalid.
pub proof fn law_thread_setting_is_a_positive_number(value: Option<&str>, setting: ThreadSetting)
    requires
        call_ensures(configured_threads, (value,), setting),
    ensures
        value is None ==> setting is Unset,
        value matches Some(text) ==> {
            &&& setting is Unset <==> forall|k: int|
                0 <= k < text@.len() ==> crate::text::white_space(#[trigger] text@[k])
            &&& setting matches ThreadSetting::Threads(n) ==> n > 0 && crate::text::number(
                crate::text::trimmed(text@),
            ) == Some(n)
            &&& crate::text::number(crate::text::trimmed(text@)) matches Some(n) ==> n > 0
                ==> setting == ThreadSetting::Threads(n)
            &&& crate::text::number(text@) matches Some(n) ==> n > 0 ==> setting
                == ThreadSetting::Threads(n)
        },
{
    if let Some(text) = value {
        let trimmed = crate::text::trimmed(text@);
        let number = crate::text::number(trimmed);
        lemma_blank(text@);
        assert(setting == (if trimmed.len() == 0 {
            ThreadSetting::Unset
        } else {
            match number {
                Some(n) => if n > 0 {
                    ThreadSetting::Threads(n)
                } else {
                    ThreadSetting::Invalid
                },
                None => ThreadSetting::Invalid,
            }
        }));
        assert(number is Some ==> trimmed.len() > 0);
        if crate::text::number(text@) is Some {
            lemma_number_text(text@);
        }
    }
}

/// Only a number of threads is one.
pub proof fn law_threads_of_a_setting(setting: ThreadSetting, n: Option<usize>)
    requires
        call_ensures(ThreadSetting::threads, (setting,), n),
    ensures
        n is Some <==> setting is Threads,
        setting matches ThreadSetting::Threads(m) ==> n == Some(m),
{
}

} // verus!
