//! The fields of a listing as they stand in its text: the place, the current bid, the
//! links to pictures.
use vstd::prelude::*;

use crate::numbers::{
    all_digits, decimal, digit_char, digit_value, digits_value, is_digit, law_unsigned_round_trip, lemma_decimal,
    parse_i64, signed_value,
};
use crate::text::{
    ascii_lowered, before, chars_of, contains, ends_with, find, first_at, has_ending, is_tight,
    last_at, law_splitting_takes_parts_one_by_one, law_trimming_takes_off_space, lemma_before_is,
    lemma_first_at, lemma_last_at, lower_ascii, occurs_at, rfind, slice_text, split_at_mark,
    split_mark, string_of, text_before, texts, trim, trimmed,
};

verus! {

/// The text of a place: what follows the last `Location:`, or the whole text, trimmed.
pub open spec fn location_text(s: Seq<char>) -> Seq<char> {
    match last_at(s, "Location:"@, s.len() as int) {
        Some(i) => trimmed(s.skip(i + "Location:"@.len())),
        None => trimmed(s),
    }
}

/// The text of a bid: what stands between the first `Bid:` and the next ` CAD`, or the end.
pub open spec fn bid_text(s: Seq<char>) -> Seq<char> {
    match first_at(s, "Bid:"@, 0) {
        Some(i) => {
            let tail = trimmed(s.skip(i + "Bid:"@.len()));
            match first_at(tail, " CAD"@, 0) {
                Some(k) => trimmed(tail.take(k)),
                None => tail,
            }
        },
        None => trimmed(s),
    }
}

/// The file endings of pictures.
pub open spec fn picture_endings() -> Seq<Seq<char>> {
    seq![".jpg"@, ".jpeg"@, ".png"@, ".gif"@, ".webp"@]
}

/// A link to a picture: without its query, and in lower case, it has a picture's ending.
pub open spec fn links_picture(s: Seq<char>) -> bool {
    exists|i: int|
        0 <= i < picture_endings().len() && ends_with(
            ascii_lowered(before(s, '?')),
            #[trigger] picture_endings()[i],
        )
}

/// The digits and points of a text, in order.
pub open spec fn digits_and_points(s: Seq<char>) -> Seq<char>
    decreases s.len(),
{
    if s.len() == 0 {
        seq![]
    } else {
        let rest = digits_and_points(s.drop_last());
        if is_digit(s.last()) || s.last() == '.' {
            rest.push(s.last())
        } else {
            rest
        }
    }
}

/// The two digits of cents that a fraction starts with, zeros standing for missing ones.
pub open spec fn cent_digits(fraction: Seq<char>) -> Seq<char> {
    if fraction.len() == 0 {
        seq!['0', '0']
    } else if fraction.len() == 1 {
        seq![fraction[0], '0']
    } else {
        fraction.take(2)
    }
}

/// The amount of a bid in cents: the digits before the first point are dollars, those after
/// it, up to the next point, the fraction.
pub open spec fn bid_cents(s: Seq<char>) -> Option<int> {
    let kept = digits_and_points(s);
    if kept.len() == 0 {
        None
    } else {
        let parts = split_at_mark(kept, '.');
        let fraction = if parts.len() > 1 {
            parts[1]
        } else {
            seq!['0']
        };
        match (signed_value(parts[0]), signed_value(cent_digits(fraction))) {
            (Some(dollars), Some(cents)) => Some(dollars * 100 + cents),
            _ => None,
        }
    }
}

/// The amount of a bid, where there is one, can be counted in cents of 64 bits.
pub open spec fn bid_fits(s: Seq<char>) -> bool {
    match bid_cents(s) {
        Some(n) => i64::MIN <= n <= i64::MAX,
        None => true,
    }
}

/// The place that a text names.
pub fn extract_location(value: &str) -> (r: String)
    ensures
        r@ == location_text(value@),
{
    let chars = chars_of(value);
    proof {
        reveal_strlit("Location:");
        lemma_last_at(value@, "Location:"@, value@.len() as int);
    }
    match rfind(&chars, "Location:") {
        Some(i) => {
            assert(i + 9 <= chars.len());
            let rest = slice_text(&chars, i + 9, chars.len());
            assert(rest@ =~= value@.skip(i + 9));
            trim(rest.as_str())
        },
        None => trim(value),
    }
}

/// The bid that a text names.
pub fn extract_bid(value: &str) -> (r: String)
    ensures
        r@ == bid_text(value@),
{
    let chars = chars_of(value);
    proof {
        reveal_strlit("Bid:");
        lemma_first_at(value@, "Bid:"@, 0);
    }
    match find(&chars, "Bid:") {
        Some(i) => {
            assert(i + 4 <= chars.len());
            let rest = slice_text(&chars, i + 4, chars.len());
            assert(rest@ =~= value@.skip(i + 4));
            let tail = trim(rest.as_str());
            let tail_chars = chars_of(tail.as_str());
            proof {
                lemma_first_at(tail@, " CAD"@, 0);
            }
            match find(&tail_chars, " CAD") {
                Some(k) => {
                    let head = slice_text(&tail_chars, 0, k);
                    assert(head@ =~= tail@.take(k as int));
                    trim(head.as_str())
                },
                None => tail,
            }
        },
        None => trim(value),
    }
}

/// Whether a link leads to a picture.
pub fn is_image_url(value: &str) -> (r: bool)
    ensures
        r == links_picture(value@),
{
    let path = text_before(value, '?');
    let lower = lower_ascii(path.as_str());
    let endings: [&str; 5] = [".jpg", ".jpeg", ".png", ".gif", ".webp"];
    let mut i: usize = 0;
    while i < 5
        invariant
            i <= 5,
            lower@ == ascii_lowered(before(value@, '?')),
            endings@.len() == 5,
            forall|k: int| 0 <= k < 5 ==> (#[trigger] endings@[k])@ == picture_endings()[k],
            forall|k: int| 0 <= k < i ==> !ends_with(lower@, #[trigger] picture_endings()[k]),
        decreases 5 - i,
    {
        if has_ending(lower.as_str(), endings[i]) {
            assert(ends_with(lower@, picture_endings()[i as int]));
            return true;
        }
        i += 1;
    }
    false
}

/// The digits and points of a text.
fn keep_digits_and_points(value: &str) -> (r: String)
    ensures
        r@ == digits_and_points(value@),
{
    let chars = chars_of(value);
    let mut out: String = String::new();
    let mut i: usize = 0;
    while i < chars.len()
        invariant
            i <= chars@.len(),
            out@ == digits_and_points(chars@.take(i as int)),
        decreases chars@.len() - i,
    {
        let c: char = chars[i];
        assert(chars@.take(i as int + 1).drop_last() =~= chars@.take(i as int));
        if ('0' <= c && c <= '9') || c == '.' {
            out.push(c);
        }
        i += 1;
    }
    assert(chars@.take(i as int) =~= chars@);
    out
}

/// The first two digits of a fraction.
fn first_cent_digits(fraction: &str) -> (r: String)
    ensures
        r@ == cent_digits(fraction@),
{
    let chars = chars_of(fraction);
    let mut out: Vec<char> = Vec::new();
    if chars.len() == 0 {
        out.push('0');
        out.push('0');
    } else if chars.len() == 1 {
        out.push(chars[0]);
        out.push('0');
    } else {
        out.push(chars[0]);
        out.push(chars[1]);
    }
    assert(out@ =~= cent_digits(fraction@));
    string_of(out.as_slice())
}

/// The dollars and the cents of a bid.
fn read_bid(value: &str) -> (r: Option<(i64, i64)>)
    ensures
        match r {
            Some((dollars, cents)) => bid_cents(value@) == Some(dollars * 100 + cents),
            None => bid_cents(value@) is None,
        },
{
    let kept = keep_digits_and_points(value);
    if kept.as_str().is_empty() {
        return None;
    }
    let parts = split_mark(kept.as_str(), '.');
    assert(texts(parts@).len() == parts@.len());
    let zero: String = "0".to_owned();
    proof {
        reveal_strlit("0");
        assert(zero@ =~= seq!['0']);
    }
    let fraction: &String = if parts.len() > 1 {
        assert(texts(parts@)[1] == parts@[1]@);
        &parts[1]
    } else {
        &zero
    };
    assert(texts(parts@)[0] == parts@[0]@);
    match parse_i64(parts[0].as_str()) {
        Some(dollars) => {
            let digits = first_cent_digits(fraction.as_str());
            match parse_i64(digits.as_str()) {
                Some(cents) => Some((dollars, cents)),
                None => None,
            }
        },
        None => None,
    }
}

/// Whether the amount of a bid, where there is one, can be counted in cents.
pub fn bid_is_countable(value: &str) -> (r: bool)
    ensures
        r == bid_fits(value@),
{
    match read_bid(value) {
        Some((dollars, cents)) => {
            let wide: i128 = dollars as i128 * 100 + cents as i128;
            i64::MIN as i128 <= wide && wide <= i64::MAX as i128
        },
        None => true,
    }
}

/// The amount of a bid in cents.
pub fn parse_bid_cents(value: &str) -> (r: Option<i64>)
    requires
        bid_fits(value@),
    ensures
        match r {
            Some(n) => bid_cents(value@) == Some(n as int),
            None => bid_cents(value@) is None,
        },
{
    match read_bid(value) {
        Some((dollars, cents)) => {
            let wide: i128 = dollars as i128 * 100 + cents as i128;
            Some(wide as i64)
        },
        None => None,
    }
}

/// A list of lines with one more, unless it holds that line already.
pub open spec fn with_line(lines: Seq<Seq<char>>, line: Seq<char>) -> Seq<Seq<char>> {
    if lines.contains(line) {
        lines
    } else {
        lines.push(line)
    }
}

/// Whether a list of lines holds a line.
pub fn has_line(lines: &Vec<String>, line: &String) -> (r: bool)
    ensures
        r == texts(lines@).contains(line@),
{
    let mut i: usize = 0;
    while i < lines.len()
        invariant
            i <= lines@.len(),
            forall|k: int| 0 <= k < i ==> (#[trigger] lines@[k])@ != line@,
        decreases lines@.len() - i,
    {
        if lines[i] == *line {
            assert(texts(lines@)[i as int] == line@);
            return true;
        }
        i += 1;
    }
    proof {
        if texts(lines@).contains(line@) {
            let k = choose|k: int| 0 <= k < texts(lines@).len() && texts(lines@)[k] == line@;
            assert(lines@[k]@ == line@);
        }
    }
    false
}

/// Adds a line to a list, unless the list holds it already.
pub fn push_unique_line(lines: &mut Vec<String>, line: String)
    ensures
        texts(final(lines)@) == with_line(texts(old(lines)@), line@),
{
    if !has_line(lines, &line) {
        assert(texts(lines@.push(line)) =~= texts(lines@).push(line@));
        lines.push(line);
    }
}

/// Adding lines one by one never makes a list hold a line twice.
pub proof fn law_with_line_keeps_lines_distinct(lines: Seq<Seq<char>>, line: Seq<char>)
    requires
        lines.no_duplicates(),
    ensures
        with_line(lines, line).no_duplicates(),
        with_line(lines, line).contains(line),
        with_line(with_line(lines, line), line) == with_line(lines, line),
{
    if !lines.contains(line) {
        assert(lines.push(line)[lines.len() as int] == line);
    }
}

/// The first position of a text in another is the first at which it stands there.
proof fn lemma_first_position(hay: Seq<char>, needle: Seq<char>, i: int)
    requires
        occurs_at(hay, needle, i),
        forall|j: int| 0 <= j < i ==> !occurs_at(hay, needle, j),
    ensures
        first_at(hay, needle, 0) == Some(i),
{
    lemma_first_at(hay, needle, 0);
}

/// Where the bid's text is a label that holds no other `Bid:`, the amount and the currency,
/// the bid is the amount; and so it is without the currency.
pub proof fn law_bid_is_the_amount(amount: Seq<char>)
    requires
        amount.len() > 0,
        is_tight(amount),
        !contains(amount, " CAD"@),
    ensures
        bid_text("Current Bid: "@ + amount + " CAD"@) == amount,
        bid_text("Current Bid: "@ + amount) == amount,
        !contains(amount, "Bid:"@) ==> bid_text(amount) == amount,
{
    reveal_strlit("Current Bid: ");
    reveal_strlit("Bid:");
    reveal_strlit(" CAD");
    law_trimming_takes_off_space(seq![], amount, seq![]);
    let space = seq![' '];
    let with = "Current Bid: "@ + amount + " CAD"@;
    let tail = amount + " CAD"@;
    assert(with.subrange(8, 12) =~= "Bid:"@);
    assert forall|j: int| 0 <= j < 8 implies !occurs_at(with, "Bid:"@, j) by {
        assert(with.subrange(j, j + 4)[0] == "Current Bid: "@[j]);
    }
    lemma_first_position(with, "Bid:"@, 8);
    assert(with.skip(12) =~= space + tail + seq![]);
    assert(tail[0] == amount[0]);
    assert(tail.last() == 'D');
    law_trimming_takes_off_space(space, tail, seq![]);
    assert(tail.subrange(amount.len() as int, amount.len() as int + 4) =~= " CAD"@);
    assert forall|j: int| 0 <= j < amount.len() implies !occurs_at(tail, " CAD"@, j) by {
        if occurs_at(tail, " CAD"@, j) {
            let piece = tail.subrange(j, j + 4);
            if j + 4 <= amount.len() {
                assert(amount.subrange(j, j + 4) =~= piece);
                assert(occurs_at(amount, " CAD"@, j));
            } else {
                let m = amount.len() - j;
                assert(piece[m] == tail[amount.len() as int]);
                assert(tail[amount.len() as int] == ' ');
                assert(" CAD"@[m] != ' ');
            }
        }
    }
    lemma_first_position(tail, " CAD"@, amount.len() as int);
    assert(tail.take(amount.len() as int) =~= amount);
    let bare = "Current Bid: "@ + amount;
    assert(bare.subrange(8, 12) =~= "Bid:"@);
    assert forall|j: int| 0 <= j < 8 implies !occurs_at(bare, "Bid:"@, j) by {
        assert(bare.subrange(j, j + 4)[0] == "Current Bid: "@[j]);
    }
    lemma_first_position(bare, "Bid:"@, 8);
    assert(bare.skip(12) =~= space + amount + seq![]);
    law_trimming_takes_off_space(space, amount, seq![]);
    lemma_first_at(amount, " CAD"@, 0);
    if !contains(amount, "Bid:"@) {
        lemma_first_at(amount, "Bid:"@, 0);
    }
}

/// Where the text of a place has a label before it, the place is what follows the label; and a
/// text without a label is the place itself.
pub proof fn law_place_follows_its_label(label: Seq<char>, place: Seq<char>)
    requires
        is_tight(place),
        !contains(place, "Location:"@),
    ensures
        location_text(label + "Location:"@ + seq![' '] + place) == place,
        location_text(label + "Location:"@ + place) == place,
        location_text(place) == place,
{
    reveal_strlit("Location:");
    let mark = "Location:"@;
    law_trimming_takes_off_space(seq![], place, seq![]);
    lemma_last_at(place, mark, place.len() as int);
    let n = label.len() as int;
    let spaced = label + mark + seq![' '] + place;
    let close = label + mark + place;
    assert(spaced.subrange(n, n + 9) =~= mark);
    assert(close.subrange(n, n + 9) =~= mark);
    assert(occurs_at(spaced, mark, n));
    assert(occurs_at(close, mark, n));
    assert forall|j: int| n < j implies !occurs_at(spaced, mark, j) by {
        lemma_no_label_after(label, seq![' '], place, j);
    }
    assert forall|j: int| n < j implies !occurs_at(close, mark, j) by {
        assert(close =~= label + mark + seq![] + place);
        lemma_no_label_after(label, seq![], place, j);
    }
    lemma_last_at(spaced, mark, spaced.len() as int);
    lemma_last_at(close, mark, close.len() as int);
    assert(spaced.skip(n + 9) =~= seq![' '] + place + seq![]);
    assert(close.skip(n + 9) =~= seq![] + place + seq![]);
    law_trimming_takes_off_space(seq![' '], place, seq![]);
}

/// No label starts behind the start of a label whose place holds none.
proof fn lemma_no_label_after(label: Seq<char>, gap: Seq<char>, place: Seq<char>, j: int)
    requires
        !contains(place, "Location:"@),
        gap.len() == 0 || gap == seq![' '],
        label.len() < j,
    ensures
        !occurs_at(label + "Location:"@ + gap + place, "Location:"@, j),
{
    reveal_strlit("Location:");
    let mark = "Location:"@;
    let s = label + mark + gap + place;
    let n = label.len() as int;
    if occurs_at(s, mark, j) {
        let piece = s.subrange(j, j + 9);
        assert(piece[0] == s[j]);
        assert(piece[0] == 'L');
        if j < n + 9 {
            assert(s[j] == mark[j - n]);
        } else if j < n + 9 + gap.len() {
            assert(s[j] == gap[j - n - 9]);
        } else {
            let k = j - n - 9 - gap.len();
            assert(place.subrange(k, k + 9) =~= piece);
            assert(occurs_at(place, mark, k));
        }
    }
}

/// What is neither digit nor point makes no difference to digits and points.
proof fn lemma_digits_and_points(a: Seq<char>, b: Seq<char>)
    ensures
        digits_and_points(a + b) == digits_and_points(a) + digits_and_points(b),
    decreases b.len(),
{
    if b.len() == 0 {
        assert(a + b =~= a);
        assert(digits_and_points(a) + digits_and_points(b) =~= digits_and_points(a));
    } else {
        assert((a + b).drop_last() =~= a + b.drop_last());
        lemma_digits_and_points(a, b.drop_last());
        assert(digits_and_points(a + b) =~= digits_and_points(a) + digits_and_points(b));
    }
}

/// Digits and points are all kept.
proof fn lemma_digits_are_kept(s: Seq<char>)
    requires
        forall|i: int| 0 <= i < s.len() ==> is_digit(#[trigger] s[i]) || s[i] == '.',
    ensures
        digits_and_points(s) == s,
    decreases s.len(),
{
    if s.len() > 0 {
        lemma_digits_are_kept(s.drop_last());
        assert(s.drop_last().push(s.last()) =~= s);
    }
}

/// The amount of dollars and cents, with a currency sign before it, is so many cents; a comma
/// or any other mark in it makes no difference.
pub proof fn law_bid_is_counted_in_cents(dollars: nat, cents: nat)
    requires
        dollars <= i64::MAX,
        cents < 100,
    ensures
        ({
            let fraction = seq![digit_char(cents / 10), digit_char(cents % 10)];
            &&& bid_cents(seq!['$'] + decimal(dollars) + seq!['.'] + fraction) == Some(
                dollars * 100int + cents,
            )
            &&& bid_cents(seq!['$'] + decimal(dollars)) == Some(dollars * 100int)
        }),
        forall|a: Seq<char>, b: Seq<char>| #[trigger]
            digits_and_points(a) == #[trigger] digits_and_points(b) ==> bid_cents(a) == bid_cents(b),
        forall|a: Seq<char>, b: Seq<char>, c: char|
            !is_digit(c) && c != '.' ==> #[trigger] bid_cents(a + seq![c] + b) == bid_cents(a + b),
{
    let fraction = seq![digit_char(cents / 10), digit_char(cents % 10)];
    let whole = decimal(dollars);
    let number = whole + seq!['.'] + fraction;
    lemma_decimal(dollars);
    law_unsigned_round_trip(dollars, i64::MAX as nat);
    assert(is_digit(fraction[0]) && is_digit(fraction[1]));
    assert forall|i: int| 0 <= i < number.len() implies is_digit(#[trigger] number[i]) || number[i]
        == '.' by {
        if i < whole.len() {
            assert(number[i] == whole[i]);
        } else if i > whole.len() {
            assert(number[i] == fraction[i - whole.len() - 1]);
        }
    }
    lemma_digits_are_kept(number);
    lemma_digits_are_kept(whole);
    assert forall|i: int| 0 <= i < whole.len() implies whole[i] != '.' by {
        assert(is_digit(whole[i]));
    }
    assert(!whole.contains('.'));
    assert(!fraction.contains('.'));
    law_splitting_takes_parts_one_by_one(whole, '.', fraction);
    law_splitting_takes_parts_one_by_one(fraction, '.', seq![]);
    assert(split_at_mark(number, '.') =~= seq![whole, fraction]);
    let sign = seq!['$'];
    assert(sign + whole + seq!['.'] + fraction =~= sign + number);
    lemma_digits_and_points(sign, number);
    lemma_digits_and_points(sign, whole);
    assert(sign.drop_last() =~= seq![]);
    assert(digits_and_points(sign.drop_last()) == Seq::<char>::empty());
    assert(digits_and_points(sign) =~= seq![]);
    assert(digits_and_points(sign + number) =~= number);
    assert(digits_and_points(sign + whole) =~= whole);
    assert(is_digit(whole[0]));
    assert(signed_value(whole) == Some(dollars as int));
    assert(cent_digits(fraction) =~= fraction);
    assert(fraction.drop_last() =~= seq![fraction[0]]);
    assert(seq![fraction[0]].drop_last() =~= seq![]);
    assert(digits_value(Seq::<char>::empty()) == 0);
    assert(digits_value(seq![fraction[0]]) == cents / 10) by {
        assert(digits_value(seq![fraction[0]].drop_last()) == 0);
    }
    assert(digits_value(fraction) == cents);
    assert(all_digits(fraction));
    assert(signed_value(fraction) == Some(cents as int));
    let none = cent_digits(seq!['0']);
    assert(none =~= seq!['0', '0']);
    assert(none.drop_last() =~= seq!['0']);
    assert(seq!['0'].drop_last() =~= seq![]);
    assert(digits_value(seq!['0']) == 0) by {
        assert(digits_value(seq!['0'].drop_last()) == 0);
    }
    assert(digits_value(none) == 0);
    assert(all_digits(none));
    assert(signed_value(none) == Some(0int));
    assert(bid_cents(sign + whole) == Some(dollars * 100int));
    assert forall|a: Seq<char>, b: Seq<char>, c: char| !is_digit(c) && c != '.' implies
        #[trigger] bid_cents(a + seq![c] + b) == bid_cents(a + b) by {
        lemma_digits_and_points(a + seq![c], b);
        lemma_digits_and_points(a, seq![c]);
        lemma_digits_and_points(a, b);
        assert(seq![c].drop_last() =~= seq![]);
        assert(digits_and_points(seq![c].drop_last()) == Seq::<char>::empty());
        assert(digits_and_points(seq![c]) =~= seq![]);
        assert(digits_and_points(a + seq![c]) =~= digits_and_points(a));
    }
}

/// A link is to a picture if and only if what stands before its query ends, in either case of
/// letters, as pictures do. The query makes no difference.
pub proof fn law_pictures_are_told_by_their_ending(path: Seq<char>, query: Seq<char>)
    requires
        !path.contains('?'),
    ensures
        links_picture(path + seq!['?'] + query) == links_picture(path),
        links_picture(path) <==> {
            ||| ends_with(ascii_lowered(path), ".jpg"@)
            ||| ends_with(ascii_lowered(path), ".jpeg"@)
            ||| ends_with(ascii_lowered(path), ".png"@)
            ||| ends_with(ascii_lowered(path), ".gif"@)
            ||| ends_with(ascii_lowered(path), ".webp"@)
        },
{
    lemma_before_is(path, '?', query);
    let all = picture_endings();
    assert(all[0] == ".jpg"@ && all[1] == ".jpeg"@ && all[2] == ".png"@ && all[3] == ".gif"@
        && all[4] == ".webp"@);
}

/// A fraction of one digit counts in tens of cents, and of a longer one only the first two digits
/// count. A text without digits is no amount.
pub proof fn law_fraction_counts_two_digits(
    dollars: nat,
    first: char,
    second: char,
    more: Seq<char>,
    text: Seq<char>,
)
    requires
        dollars <= i64::MAX,
        is_digit(first),
        is_digit(second),
        forall|i: int| 0 <= i < more.len() ==> is_digit(#[trigger] more[i]),
        digits_and_points(text).len() == 0,
    ensures
        bid_cents(decimal(dollars) + seq!['.'] + seq![first]) == Some(
            dollars * 100int + 10 * (first as int - '0' as int),
        ),
        bid_cents(decimal(dollars) + seq!['.'] + (seq![first, second] + more)) == Some(
            dollars * 100int + 10 * (first as int - '0' as int) + (second as int - '0' as int),
        ),
        bid_cents(text) is None,
{
    lemma_decimal(dollars);
    law_unsigned_round_trip(dollars, i64::MAX as nat);
    lemma_two_digits(first, '0');
    lemma_two_digits(first, second);
    lemma_bid_of_parts(dollars, seq![first]);
    assert(cent_digits(seq![first]) =~= seq![first, '0']);
    let long = seq![first, second] + more;
    assert forall|i: int| 0 <= i < long.len() implies is_digit(#[trigger] long[i]) by {
        if i >= 2 {
            assert(long[i] == more[i - 2]);
        }
    }
    lemma_bid_of_parts(dollars, long);
    assert(cent_digits(long) =~= seq![first, second]);
}

/// Two digits stand for their number.
proof fn lemma_two_digits(first: char, second: char)
    requires
        is_digit(first),
        is_digit(second),
    ensures
        signed_value(seq![first, second]) == Some(
            10 * (first as int - '0' as int) + (second as int - '0' as int),
        ),
{
    let s = seq![first, second];
    assert(s.drop_last() =~= seq![first]);
    assert(seq![first].drop_last() =~= seq![]);
    assert(digits_value(Seq::<char>::empty()) == 0);
    assert(digits_value(seq![first].drop_last()) == 0);
    assert(digits_value(s) == digits_value(seq![first]) * 10 + digit_value(second));
    assert(all_digits(s));
}

/// A bid of dollars and a fraction is read part by part.
proof fn lemma_bid_of_parts(dollars: nat, fraction: Seq<char>)
    requires
        dollars <= i64::MAX,
        fraction.len() > 0,
        forall|i: int| 0 <= i < fraction.len() ==> is_digit(#[trigger] fraction[i]),
    ensures
        bid_cents(decimal(dollars) + seq!['.'] + fraction) == match signed_value(
            cent_digits(fraction),
        ) {
            Some(cents) => Some(dollars * 100int + cents),
            None => None,
        },
{
    let whole = decimal(dollars);
    let number = whole + seq!['.'] + fraction;
    lemma_decimal(dollars);
    law_unsigned_round_trip(dollars, i64::MAX as nat);
    assert forall|i: int| 0 <= i < number.len() implies is_digit(#[trigger] number[i]) || number[i]
        == '.' by {
        if i < whole.len() {
            assert(number[i] == whole[i]);
        } else if i > whole.len() {
            assert(number[i] == fraction[i - whole.len() - 1]);
        }
    }
    lemma_digits_are_kept(number);
    assert forall|i: int| 0 <= i < whole.len() implies whole[i] != '.' by {
        assert(is_digit(whole[i]));
    }
    assert forall|i: int| 0 <= i < fraction.len() implies fraction[i] != '.' by {
        assert(is_digit(fraction[i]));
    }
    assert(!whole.contains('.'));
    assert(!fraction.contains('.'));
    law_splitting_takes_parts_one_by_one(whole, '.', fraction);
    law_splitting_takes_parts_one_by_one(fraction, '.', seq![]);
    assert(split_at_mark(number, '.') =~= seq![whole, fraction]);
    assert(is_digit(whole[0]));
    assert(signed_value(whole) == Some(dollars as int));
}

} // verus!
