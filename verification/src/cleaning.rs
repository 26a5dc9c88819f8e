//! Cleaning the lines of a listing: taking out what the auction house writes into every one.
use vstd::prelude::*;

use regex::Regex;

use crate::fields::{push_unique_line, with_line};
use crate::markup::borrowed_texts;
use crate::text::{normalize_whitespace, normalized, optional_text, texts};

verus! {

/// The terms of sale, from their first sentence on.
pub const TERMS_PATTERN: &'static str = r#"(?i)\bMcDougall Auctioneers Ltd\. strives to represent the item\(s\) as visible to the naked eye\..*?mandatory disposal fee\.?"#;

/// The terms of payment.
pub const PAYMENT_PATTERN: &'static str = r#"(?i)\bAll payments must be made in full before the item\(s\) can be released to the purchaser\..*?mandatory disposal fee\.?"#;

/// The words on the running condition of a vehicle.
pub const CONDITION_PATTERN: &'static str = r#"(?i)\bFrom the time this unit arrived at McDougall Auction'?s sale location, McDougall Auction verified its specific running condition\..*?the purchaser accepts the unit "as is\.?""#;

/// A quantity of one.
pub const QUANTITY_PATTERN: &'static str = r#"(?i)^Item Quantity:\s*1$"#;

/// A heading with nothing after it.
pub const HEADING_PATTERN: &'static str = r#"(?i)^(Other Details|Other Description):\s*$"#;

/// What stands in every listing, as patterns.
pub open spec fn generic_patterns() -> Seq<Seq<char>> {
    seq![
        TERMS_PATTERN@,
        PAYMENT_PATTERN@,
        CONDITION_PATTERN@,
        QUANTITY_PATTERN@,
        HEADING_PATTERN@,
    ]
}

/// The text that `regex` makes of another by putting a replacement in place of every match
/// of a pattern.
pub uninterp spec fn replaced(pattern: Seq<char>, text: Seq<char>, by: Seq<char>) -> Seq<char>;

/// `regex::Regex::replace_all` puts a replacement in place of every match of a pattern; what
/// comes out depends on the pattern, the text and the replacement alone. It is asked for the
/// patterns of this module only, all of which `Regex::new` can read.
#[verifier::external_body]
fn replace_all(pattern: &str, text: &str, by: &str) -> (r: String)
    requires
        generic_patterns().contains(pattern@),
    ensures
        r@ == replaced(pattern@, text@, by@),
{
    let regex = Regex::new(pattern).expect("generic detail regex should compile");
    regex.replace_all(text, by).into_owned()
}

/// What stands in every listing, as patterns.
pub fn generic_detail_regexes() -> (r: Vec<&'static str>)
    ensures
        borrowed_texts(r@) == generic_patterns(),
{
    let mut list: Vec<&'static str> = Vec::new();
    list.push(TERMS_PATTERN);
    list.push(PAYMENT_PATTERN);
    list.push(CONDITION_PATTERN);
    list.push(QUANTITY_PATTERN);
    list.push(HEADING_PATTERN);
    assert(borrowed_texts(list@) =~= generic_patterns());
    list
}

/// A text after the matches of one pattern have been taken out.
pub open spec fn without(pattern: Seq<char>, text: Seq<char>) -> Seq<char> {
    normalized(replaced(pattern, text, seq![' ']))
}

/// A text after the matches of the patterns have been taken out, one pattern after another.
pub open spec fn without_all(patterns: Seq<Seq<char>>, text: Seq<char>) -> Seq<char>
    decreases patterns.len(),
{
    if patterns.len() == 0 {
        text
    } else {
        without(patterns.last(), without_all(patterns.drop_last(), text))
    }
}

/// A line without what stands in every listing, where anything is left of it.
pub open spec fn cleaned_line(line: Seq<char>) -> Option<Seq<char>> {
    let rest = without_all(generic_patterns(), normalized(line));
    if rest.len() > 0 {
        Some(rest)
    } else {
        None
    }
}

/// The line, where one is left, added to the others.
pub open spec fn with_cleaned(lines: Seq<Seq<char>>, line: Option<Seq<char>>) -> Seq<Seq<char>> {
    match line {
        Some(line) => with_line(lines, line),
        None => lines,
    }
}

/// Lines cleaned one by one; what is left of them stands there once.
pub open spec fn cleaned_lines(lines: Seq<Seq<char>>) -> Seq<Seq<char>>
    decreases lines.len(),
{
    if lines.len() == 0 {
        seq![]
    } else {
        with_cleaned(cleaned_lines(lines.drop_last()), cleaned_line(lines.last()))
    }
}

/// A line without what stands in every listing, where anything is left of it.
pub fn clean_detail_line(line: &str) -> (r: Option<String>)
    ensures
        optional_text(r) == cleaned_line(line@),
{
    let mut cleaned = normalize_whitespace(line);
    let patterns = generic_detail_regexes();
    let mut i: usize = 0;
    let ghost all = generic_patterns();
    proof {
        reveal_strlit(" ");
        assert(" "@ =~= seq![' ']);
    }
    while i < patterns.len()
        invariant
            i <= patterns@.len(),
            all == generic_patterns(),
            all == borrowed_texts(patterns@),
            " "@ == seq![' '],
            cleaned@ == without_all(all.take(i as int), normalized(line@)),
        decreases patterns@.len() - i,
    {
        proof {
            assert(all[i as int] == patterns@[i as int]@);
            let next = all.take(i as int + 1);
            assert(next.drop_last() =~= all.take(i as int));
        }
        let rest = replace_all(patterns[i], cleaned.as_str(), " ");
        cleaned = normalize_whitespace(rest.as_str());
        i += 1;
    }
    assert(all.take(i as int) =~= all);
    if cleaned.as_str().is_empty() {
        None
    } else {
        Some(cleaned)
    }
}

/// Lines cleaned one by one; what is left of them stands there once.
pub fn clean_detail_lines(lines: &Vec<String>) -> (r: Vec<String>)
    ensures
        texts(r@) == cleaned_lines(texts(lines@)),
{
    let mut out: Vec<String> = Vec::new();
    let mut i: usize = 0;
    let ghost all = texts(lines@);
    assert(texts(out@) =~= cleaned_lines(all.take(0)));
    while i < lines.len()
        invariant
            i <= lines@.len(),
            all == texts(lines@),
            texts(out@) == cleaned_lines(all.take(i as int)),
        decreases lines@.len() - i,
    {
        let cleaned = clean_detail_line(lines[i].as_str());
        proof {
            let next = all.take(i as int + 1);
            assert(next.drop_last() =~= all.take(i as int));
            assert(next.last() == lines@[i as int]@);
        }
        match cleaned {
            Some(line) => push_unique_line(&mut out, line),
            None => {},
        }
        i += 1;
    }
    assert(all.take(i as int) =~= all);
    out
}

/// What is left of lines has no line twice, and no empty one.
pub proof fn law_cleaned_lines_are_distinct(lines: Seq<Seq<char>>)
    ensures
        cleaned_lines(lines).no_duplicates(),
        forall|i: int| 0 <= i < cleaned_lines(lines).len() ==> (#[trigger] cleaned_lines(
            lines,
        )[i]).len() > 0,
    decreases lines.len(),
{
    if lines.len() > 0 {
        let rest = cleaned_lines(lines.drop_last());
        law_cleaned_lines_are_distinct(lines.drop_last());
        match cleaned_line(lines.last()) {
            Some(line) => {
                crate::fields::law_with_line_keeps_lines_distinct(rest, line);
                assert forall|i: int| 0 <= i < cleaned_lines(lines).len() implies (
                #[trigger] cleaned_lines(lines)[i]).len() > 0 by {
                    if i < rest.len() {
                        assert(cleaned_lines(lines)[i] == rest[i]);
                    }
                }
            },
            None => {},
        }
    }
}

/// What is left of a line is written with single spaces between its words.
pub proof fn law_cleaned_line_is_normalized(line: Seq<char>)
    ensures
        cleaned_line(line) matches Some(rest) ==> normalized(rest) == rest,
{
    let patterns = generic_patterns();
    let before = without_all(patterns.drop_last(), normalized(line));
    crate::text::law_normalized_twice(replaced(patterns.last(), before, seq![' ']));
}

/// A line is cleaned of the five texts that stand in every listing, one after the other, each
/// match giving way to a space; and white space is put in order before and after.
pub proof fn law_line_is_cleaned_of_every_pattern(line: Seq<char>)
    ensures
        ({
            let gap = seq![' '];
            let a = normalized(replaced(TERMS_PATTERN@, normalized(line), gap));
            let b = normalized(replaced(PAYMENT_PATTERN@, a, gap));
            let c = normalized(replaced(CONDITION_PATTERN@, b, gap));
            let d = normalized(replaced(QUANTITY_PATTERN@, c, gap));
            let e = normalized(replaced(HEADING_PATTERN@, d, gap));
            cleaned_line(line) == if e.len() > 0 {
                Some(e)
            } else {
                None
            }
        }),
{
    let all = generic_patterns();
    let text = normalized(line);
    assert(all.drop_last() =~= seq![
        TERMS_PATTERN@,
        PAYMENT_PATTERN@,
        CONDITION_PATTERN@,
        QUANTITY_PATTERN@,
    ]);
    let four = all.drop_last();
    assert(four.drop_last() =~= seq![TERMS_PATTERN@, PAYMENT_PATTERN@, CONDITION_PATTERN@]);
    let three = four.drop_last();
    assert(three.drop_last() =~= seq![TERMS_PATTERN@, PAYMENT_PATTERN@]);
    let two = three.drop_last();
    assert(two.drop_last() =~= seq![TERMS_PATTERN@]);
    let one = two.drop_last();
    assert(one.drop_last() =~= seq![]);
    assert(without_all(one.drop_last(), text) == text);
    assert(without_all(one, text) == without(TERMS_PATTERN@, text));
    assert(without_all(two, text) == without(PAYMENT_PATTERN@, without_all(one, text)));
    assert(without_all(three, text) == without(CONDITION_PATTERN@, without_all(two, text)));
    assert(without_all(four, text) == without(QUANTITY_PATTERN@, without_all(three, text)));
    assert(without_all(all, text) == without(HEADING_PATTERN@, without_all(four, text)));
}

/// Cleaned lines are what is left of each of the lines, and nothing else; and further lines are
/// added behind.
pub proof fn law_cleaned_lines_are_those_left(lines: Seq<Seq<char>>, more: Seq<char>, x: Seq<char>)
    ensures
        cleaned_lines(lines).contains(x) <==> exists|i: int|
            0 <= i < lines.len() && cleaned_line(#[trigger] lines[i]) == Some(x),
        cleaned_lines(lines).is_prefix_of(cleaned_lines(lines.push(more))),
    decreases lines.len(),
{
    assert(lines.push(more).drop_last() =~= lines);
    let list = cleaned_lines(lines);
    let longer = cleaned_lines(lines.push(more));
    assert(list =~= longer.take(list.len() as int));
    if lines.len() > 0 {
        let rest = lines.drop_last();
        law_cleaned_lines_are_those_left(rest, more, x);
        let before = cleaned_lines(rest);
        if list.contains(x) {
            if before.contains(x) {
                let i = choose|i: int|
                    0 <= i < rest.len() && cleaned_line(#[trigger] rest[i]) == Some(x);
                assert(lines[i] == rest[i]);
            } else {
                assert(cleaned_line(lines[lines.len() - 1]) == Some(x));
            }
        }
        if exists|i: int| 0 <= i < lines.len() && cleaned_line(#[trigger] lines[i]) == Some(x) {
            let i = choose|i: int|
                0 <= i < lines.len() && cleaned_line(#[trigger] lines[i]) == Some(x);
            if i < rest.len() {
                assert(cleaned_line(rest[i]) == Some(x));
                let j = choose|j: int| 0 <= j < before.len() && before[j] == x;
                assert(list[j] == x);
            } else if !before.contains(x) {
                assert(list[list.len() - 1] == x);
            } else {
                let j = choose|j: int| 0 <= j < before.len() && before[j] == x;
                assert(list[j] == x);
            }
        }
    }
}

} // verus!
