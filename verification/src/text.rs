//! Text as sequences of characters: the searching, trimming and splitting that the
//! listing parsers and the screen text are built from.
use vstd::prelude::*;
use vstd::utf8::{encode_utf8, encode_utf8_decode_utf8};

verus! {

/// `String::push` appends one character at the end of the string.
pub assume_specification[ String::push ](s: &mut String, c: char)
    ensures
        final(s)@ == old(s)@.push(c),
;

/// What `str::to_lowercase` makes of a text without ASCII capitals.
pub uninterp spec fn lowercase_form(text: Seq<char>) -> Seq<char>;

/// The lowercase form of a text.
pub open spec fn lowercase_text(text: Seq<char>) -> Seq<char> {
    lowercase_form(ascii_lowered(text))
}

/// `str::to_lowercase` gives the lowercase form of a text, which the Unicode tables decide
/// from the text alone. An ASCII capital and its small letter have the same lowercase form, and
/// are alike for the letters around them.
pub assume_specification[ str::to_lowercase ](s: &str) -> (r: String)
    ensures
        r@ == lowercase_form(ascii_lowered(s@)),
;

/// The texts of a list of strings.
pub open spec fn texts(list: Seq<String>) -> Seq<Seq<char>> {
    list.map_values(|s: String| s@)
}

/// The text of an optional string.
pub open spec fn optional_text(text: Option<String>) -> Option<Seq<char>> {
    match text {
        Some(t) => Some(t@),
        None => None,
    }
}

/// A character with the Unicode property `White_Space`.
pub open spec fn is_space(c: char) -> bool {
    ||| '\u{9}' <= c <= '\u{d}'
    ||| c == ' '
    ||| c == '\u{85}'
    ||| c == '\u{a0}'
    ||| c == '\u{1680}'
    ||| '\u{2000}' <= c <= '\u{200a}'
    ||| c == '\u{2028}'
    ||| c == '\u{2029}'
    ||| c == '\u{202f}'
    ||| c == '\u{205f}'
    ||| c == '\u{3000}'
}

/// Whether a character is white space.
pub fn is_whitespace(c: char) -> (r: bool)
    ensures
        r == is_space(c),
{
    ('\u{9}' <= c && c <= '\u{d}') || c == ' ' || c == '\u{85}' || c == '\u{a0}' || c == '\u{1680}'
        || ('\u{2000}' <= c && c <= '\u{200a}') || c == '\u{2028}' || c == '\u{2029}' || c
        == '\u{202f}' || c == '\u{205f}' || c == '\u{3000}'
}

/// A text without the white space it starts with.
pub open spec fn without_leading_space(s: Seq<char>) -> Seq<char>
    decreases s.len(),
{
    if s.len() > 0 && is_space(s[0]) {
        without_leading_space(s.drop_first())
    } else {
        s
    }
}

/// A text without the white space it ends with.
pub open spec fn without_trailing_space(s: Seq<char>) -> Seq<char>
    decreases s.len(),
{
    if s.len() > 0 && is_space(s.last()) {
        without_trailing_space(s.drop_last())
    } else {
        s
    }
}

/// A text without the white space around it.
pub open spec fn trimmed(s: Seq<char>) -> Seq<char> {
    without_trailing_space(without_leading_space(s))
}

/// The length of the word a text starts with.
pub open spec fn word_len(s: Seq<char>) -> nat
    decreases s.len(),
{
    if s.len() == 0 || is_space(s[0]) {
        0
    } else {
        1 + word_len(s.drop_first())
    }
}

/// The words of a text, in order: its longest runs of characters that are not white space.
pub open spec fn words(s: Seq<char>) -> Seq<Seq<char>>
    decreases s.len(),
{
    if s.len() == 0 {
        seq![]
    } else if is_space(s[0]) {
        words(s.drop_first())
    } else {
        proof {
            lemma_word_len(s);
        }
        seq![s.take(word_len(s) as int)] + words(s.skip(word_len(s) as int))
    }
}

/// A list of texts put together, with a separator between neighbours.
pub open spec fn joined(parts: Seq<Seq<char>>, separator: Seq<char>) -> Seq<char>
    decreases parts.len(),
{
    if parts.len() == 0 {
        seq![]
    } else if parts.len() == 1 {
        parts[0]
    } else {
        joined(parts.drop_last(), separator) + separator + parts.last()
    }
}

/// The words of a text with one space between neighbours.
pub open spec fn normalized(s: Seq<char>) -> Seq<char> {
    joined(words(s), seq![' '])
}

/// `needle` stands in `hay` at position `i`.
pub open spec fn occurs_at(hay: Seq<char>, needle: Seq<char>, i: int) -> bool {
    &&& 0 <= i
    &&& i + needle.len() <= hay.len()
    &&& hay.subrange(i, i + needle.len()) == needle
}

/// The first position, from `from` on, at which `needle` stands in `hay`.
pub open spec fn first_at(hay: Seq<char>, needle: Seq<char>, from: int) -> Option<int>
    decreases hay.len() + 1 - from,
{
    if from < 0 || from + needle.len() > hay.len() {
        None
    } else if occurs_at(hay, needle, from) {
        Some(from)
    } else {
        first_at(hay, needle, from + 1)
    }
}

/// The last position, up to `upto`, at which `needle` stands in `hay`.
pub open spec fn last_at(hay: Seq<char>, needle: Seq<char>, upto: int) -> Option<int>
    decreases upto + 1,
{
    if upto < 0 {
        None
    } else if occurs_at(hay, needle, upto) {
        Some(upto)
    } else {
        last_at(hay, needle, upto - 1)
    }
}

/// `needle` stands somewhere in `hay`.
pub open spec fn contains(hay: Seq<char>, needle: Seq<char>) -> bool {
    exists|i: int| occurs_at(hay, needle, i)
}

/// `tail` stands at the end of `s`.
pub open spec fn ends_with(s: Seq<char>, tail: Seq<char>) -> bool {
    occurs_at(s, tail, s.len() - tail.len())
}

/// The part of a text before the first `mark`, or the whole text where there is none.
pub open spec fn before(s: Seq<char>, mark: char) -> Seq<char>
    decreases s.len(),
{
    if s.len() == 0 || s[0] == mark {
        seq![]
    } else {
        seq![s[0]] + before(s.drop_first(), mark)
    }
}

/// The parts of a text between the marks: always at least one.
pub open spec fn split_at_mark(s: Seq<char>, mark: char) -> Seq<Seq<char>>
    decreases s.len(),
{
    let head = before(s, mark);
    if head.len() >= s.len() {
        seq![s]
    } else {
        seq![head] + split_at_mark(s.skip(head.len() as int + 1), mark)
    }
}

/// A text without the carriage return it ends with.
pub open spec fn without_return(s: Seq<char>) -> Seq<char> {
    if s.len() > 0 && s.last() == '\r' {
        s.drop_last()
    } else {
        s
    }
}

/// The lines of a text, without the line feeds, or carriage returns and line feeds, that end
/// them. The last line needs no end.
pub open spec fn text_lines(s: Seq<char>) -> Seq<Seq<char>> {
    let parts = split_at_mark(s, '\n');
    let ended = parts.drop_last().map_values(|part: Seq<char>| without_return(part));
    if parts.last().len() > 0 {
        ended.push(parts.last())
    } else {
        ended
    }
}

/// The ASCII lowercase form of a character.
pub open spec fn ascii_lower(c: char) -> char {
    if 'A' <= c <= 'Z' {
        ((c as u32) + 32) as char
    } else {
        c
    }
}

/// A text with its ASCII letters in lower case.
pub open spec fn ascii_lowered(s: Seq<char>) -> Seq<char> {
    s.map_values(|c: char| ascii_lower(c))
}

/// The ASCII uppercase form of a character.
pub open spec fn ascii_upper(c: char) -> char {
    if 'a' <= c <= 'z' {
        ((c as u32) - 32) as char
    } else {
        c
    }
}

/// A text with its ASCII letters in upper case.
pub open spec fn ascii_uppered(s: Seq<char>) -> Seq<char> {
    s.map_values(|c: char| ascii_upper(c))
}

/// A text followed by spaces up to a width, counted in characters.
pub open spec fn padded(s: Seq<char>, width: nat) -> Seq<char> {
    if s.len() >= width {
        s
    } else {
        s + Seq::new((width - s.len()) as nat, |i: int| ' ')
    }
}

pub proof fn lemma_word_len(s: Seq<char>)
    ensures
        word_len(s) <= s.len(),
        forall|i: int| 0 <= i < word_len(s) ==> !is_space(#[trigger] s[i]),
        word_len(s) < s.len() ==> is_space(s[word_len(s) as int]),
    decreases s.len(),
{
    if s.len() > 0 && !is_space(s[0]) {
        let rest = s.drop_first();
        lemma_word_len(rest);
        assert forall|i: int| 0 <= i < word_len(s) implies !is_space(#[trigger] s[i]) by {
            if i > 0 {
                assert(s[i] == rest[i - 1]);
            }
        }
        if word_len(s) < s.len() {
            assert(s[word_len(s) as int] == rest[word_len(rest) as int]);
        }
    }
}

/// A run of characters that are not white space, as far as it goes.
proof fn lemma_word_len_is(s: Seq<char>, n: int)
    requires
        0 <= n <= s.len(),
        forall|i: int| 0 <= i < n ==> !is_space(#[trigger] s[i]),
        n < s.len() ==> is_space(s[n]),
    ensures
        word_len(s) == n,
{
    lemma_word_len(s);
    let m = word_len(s) as int;
    if m < n {
        assert(!is_space(s[m]));
    } else if m > n {
        assert(!is_space(s[n]));
    }
}

/// The characters of a text.
pub fn chars_of(s: &str) -> (r: Vec<char>)
    ensures
        r@ == s@,
{
    let mut out: Vec<char> = Vec::new();
    for c in it: s.chars()
        invariant
            it.seq() == s@,
            out@ == s@.take(it.index() as int),
    {
        out.push(c);
        assert(s@.take(it.index() as int).push(c) =~= s@.take(it.index() as int + 1));
    }
    assert(s@.take(s@.len() as int) =~= s@);
    out
}

/// The text made of the given characters.
pub fn string_of(chars: &[char]) -> (r: String)
    ensures
        r@ == chars@,
{
    let mut out: String = String::new();
    let mut i: usize = 0;
    assert(chars@.take(0) =~= Seq::<char>::empty());
    while i < chars.len()
        invariant
            i <= chars@.len(),
            out@ == chars@.take(i as int),
        decreases chars@.len() - i,
    {
        out.push(chars[i]);
        assert(chars@.take(i as int).push(chars@[i as int]) =~= chars@.take(i as int + 1));
        i += 1;
    }
    assert(chars@.take(i as int) =~= chars@);
    out
}

/// The characters from `from` up to `upto` as a text.
pub fn slice_text(chars: &Vec<char>, from: usize, upto: usize) -> (r: String)
    requires
        from <= upto <= chars@.len(),
    ensures
        r@ == chars@.subrange(from as int, upto as int),
{
    string_of(vstd::slice::slice_subrange(chars.as_slice(), from, upto))
}

/// Whether two texts are the same.
pub fn same_text(a: &str, b: &str) -> (r: bool)
    ensures
        r == (a@ == b@),
{
    let left = a.as_bytes();
    let right = b.as_bytes();
    if left.len() != right.len() {
        return false;
    }
    let mut i: usize = 0;
    while i < left.len()
        invariant
            i <= left@.len() == right@.len(),
            left@ == encode_utf8(a@),
            right@ == encode_utf8(b@),
            forall|k: int| 0 <= k < i ==> left@[k] == right@[k],
        decreases left@.len() - i,
    {
        if left[i] != right[i] {
            return false;
        }
        i += 1;
    }
    proof {
        assert(left@ =~= right@);
        encode_utf8_decode_utf8(a@);
        encode_utf8_decode_utf8(b@);
    }
    true
}

/// A text without the white space around it.
pub fn trim(s: &str) -> (r: String)
    ensures
        r@ == trimmed(s@),
{
    let chars = chars_of(s);
    let mut from: usize = 0;
    assert(chars@.skip(0) =~= chars@);
    while from < chars.len() && is_whitespace(chars[from])
        invariant
            from <= chars@.len(),
            without_leading_space(chars@.skip(from as int)) == without_leading_space(chars@),
        decreases chars@.len() - from,
    {
        assert(chars@.skip(from as int).drop_first() =~= chars@.skip(from as int + 1));
        from += 1;
    }
    let ghost rest = chars@.skip(from as int);
    assert(without_leading_space(chars@) == rest);
    let mut upto: usize = chars.len();
    assert(rest.take(upto - from) =~= rest);
    while upto > from && is_whitespace(chars[upto - 1])
        invariant
            from <= upto <= chars@.len(),
            rest == chars@.skip(from as int),
            without_trailing_space(rest.take(upto - from)) == without_trailing_space(rest),
        decreases upto,
    {
        assert(rest.take(upto - from).drop_last() =~= rest.take(upto - from - 1));
        assert(rest.take(upto - from).last() == chars@[upto - 1]);
        upto -= 1;
    }
    proof {
        let kept = rest.take(upto - from);
        if kept.len() > 0 {
            assert(kept.last() == chars@[upto - 1]);
        }
        assert(kept =~= chars@.subrange(from as int, upto as int));
    }
    slice_text(&chars, from, upto)
}

/// The words of a text, in order.
pub fn split_words(s: &str) -> (r: Vec<String>)
    ensures
        texts(r@) == words(s@),
{
    let chars = chars_of(s);
    let mut out: Vec<String> = Vec::new();
    let mut i: usize = 0;
    assert(chars@.skip(0) =~= chars@);
    assert(texts(out@) + words(chars@) =~= words(chars@));
    while i < chars.len()
        invariant
            i <= chars@.len(),
            chars@ == s@,
            texts(out@) + words(chars@.skip(i as int)) == words(chars@),
        decreases chars@.len() - i,
    {
        let ghost rest = chars@.skip(i as int);
        if is_whitespace(chars[i]) {
            assert(rest.drop_first() =~= chars@.skip(i as int + 1));
            i += 1;
        } else {
            let start: usize = i;
            while i < chars.len() && !is_whitespace(chars[i])
                invariant
                    start <= i <= chars@.len(),
                    forall|k: int| start <= k < i ==> !is_space(#[trigger] chars@[k]),
                decreases chars@.len() - i,
            {
                i += 1;
            }
            let word = slice_text(&chars, start, i);
            proof {
                let n = i - start;
                assert forall|k: int| 0 <= k < n implies !is_space(#[trigger] rest[k]) by {
                    assert(rest[k] == chars@[start + k]);
                }
                if n < rest.len() {
                    assert(rest[n] == chars@[i as int]);
                }
                lemma_word_len_is(rest, n);
                assert(rest.take(n) =~= word@);
                assert(rest.skip(n) =~= chars@.skip(i as int));
                assert(texts(out@.push(word)) =~= texts(out@).push(word@));
                assert(texts(out@).push(word@) + words(rest.skip(n)) =~= texts(out@) + (seq![word@]
                    + words(rest.skip(n))));
            }
            out.push(word);
        }
    }
    assert(words(chars@.skip(i as int)) =~= seq![]);
    assert(texts(out@) + words(chars@.skip(i as int)) =~= texts(out@));
    out
}

/// A list of texts put together, with a separator between neighbours.
pub fn join(parts: &Vec<String>, separator: &str) -> (r: String)
    ensures
        r@ == joined(texts(parts@), separator@),
{
    let mut out: String = String::new();
    let mut i: usize = 0;
    let ghost all = texts(parts@);
    assert(out@ =~= joined(all.take(0), separator@));
    while i < parts.len()
        invariant
            i <= parts@.len(),
            all == texts(parts@),
            out@ == joined(all.take(i as int), separator@),
        decreases parts@.len() - i,
    {
        if i > 0 {
            out.append(separator);
        }
        out.append(parts[i].as_str());
        proof {
            let next = all.take(i as int + 1);
            assert(next.drop_last() =~= all.take(i as int));
            assert(next.last() == parts@[i as int]@);
            if i == 0 {
                assert(out@ =~= next[0]);
            }
        }
        i += 1;
    }
    assert(all.take(i as int) =~= all);
    out
}

/// The words of a text with one space between neighbours.
pub fn normalize_whitespace(value: &str) -> (r: String)
    ensures
        r@ == normalized(value@),
{
    let list = split_words(value);
    proof {
        reveal_strlit(" ");
        assert(" "@ =~= seq![' ']);
    }
    join(&list, " ")
}

/// Whether `needle` stands in `hay` at position `i`.
fn stands_at(hay: &Vec<char>, needle: &Vec<char>, i: usize) -> (r: bool)
    ensures
        r == occurs_at(hay@, needle@, i as int),
{
    if hay.len() < needle.len() || i > hay.len() - needle.len() {
        return false;
    }
    let mut k: usize = 0;
    while k < needle.len()
        invariant
            k <= needle@.len(),
            i + needle.len() <= hay.len(),
            forall|m: int| 0 <= m < k ==> hay@[i + m] == #[trigger] needle@[m],
        decreases needle@.len() - k,
    {
        if hay[i + k] != needle[k] {
            assert(hay@.subrange(i as int, i + needle@.len())[k as int] == hay@[i + k]);
            return false;
        }
        k += 1;
    }
    assert forall|m: int| 0 <= m < needle@.len() implies hay@.subrange(
        i as int,
        i + needle@.len(),
    )[m] == needle@[m] by {}
    assert(hay@.subrange(i as int, i + needle@.len()) =~= needle@);
    true
}

/// The first position at which `needle` stands in `hay`.
pub fn find(hay: &Vec<char>, needle: &str) -> (r: Option<usize>)
    ensures
        match r {
            Some(i) => first_at(hay@, needle@, 0) == Some(i as int),
            None => first_at(hay@, needle@, 0) is None,
        },
{
    let mark = chars_of(needle);
    if hay.len() < mark.len() {
        return None;
    }
    let last: usize = hay.len() - mark.len();
    let mut i: usize = 0;
    while i <= last
        invariant
            i <= last + 1,
            last + mark@.len() == hay@.len(),
            mark@ == needle@,
            first_at(hay@, needle@, 0) == first_at(hay@, needle@, i as int),
        decreases last + 1 - i,
    {
        if stands_at(hay, &mark, i) {
            return Some(i);
        }
        if i == last {
            assert(first_at(hay@, needle@, i + 1) is None);
            return None;
        }
        i += 1;
    }
    None
}

/// The last position at which `needle` stands in `hay`.
pub fn rfind(hay: &Vec<char>, needle: &str) -> (r: Option<usize>)
    ensures
        match r {
            Some(i) => last_at(hay@, needle@, hay@.len() as int) == Some(i as int),
            None => last_at(hay@, needle@, hay@.len() as int) is None,
        },
{
    let mark = chars_of(needle);
    let mut i: usize = hay.len();
    while i > 0
        invariant
            i <= hay@.len(),
            mark@ == needle@,
            last_at(hay@, needle@, hay@.len() as int) == last_at(hay@, needle@, i as int),
        decreases i,
    {
        if stands_at(hay, &mark, i) {
            return Some(i);
        }
        i -= 1;
    }
    if stands_at(hay, &mark, 0) {
        Some(0)
    } else {
        assert(last_at(hay@, needle@, -1) is None);
        None
    }
}

/// A first position is a position, and none comes before it.
pub proof fn lemma_first_at(hay: Seq<char>, needle: Seq<char>, from: int)
    requires
        0 <= from,
    ensures
        match first_at(hay, needle, from) {
            Some(i) => from <= i && occurs_at(hay, needle, i) && forall|j: int|
                from <= j < i ==> !occurs_at(hay, needle, j),
            None => forall|j: int| from <= j ==> !occurs_at(hay, needle, j),
        },
    decreases hay.len() + 1 - from,
{
    if from + needle.len() <= hay.len() && !occurs_at(hay, needle, from) {
        lemma_first_at(hay, needle, from + 1);
    }
}

/// A last position is a position, and none comes after it.
pub proof fn lemma_last_at(hay: Seq<char>, needle: Seq<char>, upto: int)
    ensures
        match last_at(hay, needle, upto) {
            Some(i) => i <= upto && occurs_at(hay, needle, i) && forall|j: int|
                i < j <= upto ==> !occurs_at(hay, needle, j),
            None => forall|j: int| j <= upto ==> !occurs_at(hay, needle, j),
        },
    decreases upto + 1,
{
    if upto >= 0 && !occurs_at(hay, needle, upto) {
        lemma_last_at(hay, needle, upto - 1);
    }
}

/// Whether `needle` stands somewhere in `hay`.
pub fn contains_text(hay: &str, needle: &str) -> (r: bool)
    ensures
        r == contains(hay@, needle@),
{
    let chars = chars_of(hay);
    proof {
        lemma_first_at(hay@, needle@, 0);
    }
    find(&chars, needle).is_some()
}

/// Whether the lowercase form of `value` holds `needle_lower`.
pub fn contains_case_insensitive(value: &str, needle_lower: &str) -> (r: bool)
    ensures
        r == contains(lowercase_text(value@), needle_lower@),
{
    let lower = value.to_lowercase();
    contains_text(lower.as_str(), needle_lower)
}

/// The position of the first `mark` from `from` on, or the length where there is none.
fn mark_from(chars: &Vec<char>, from: usize, mark: char) -> (r: usize)
    requires
        from <= chars@.len(),
    ensures
        from <= r <= chars@.len(),
        before(chars@.skip(from as int), mark) == chars@.subrange(from as int, r as int),
        r < chars@.len() ==> chars@[r as int] == mark,
{
    let mut i: usize = from;
    let ghost rest = chars@.skip(from as int);
    assert(rest.take(0) + before(rest.skip(0), mark) =~= before(rest, mark)) by {
        assert(rest.skip(0) =~= rest);
    }
    while i < chars.len() && chars[i] != mark
        invariant
            from <= i <= chars@.len(),
            rest == chars@.skip(from as int),
            rest.take(i - from) + before(rest.skip(i - from), mark) == before(rest, mark),
        decreases chars@.len() - i,
    {
        proof {
            let here = rest.skip(i - from);
            assert(here[0] == chars@[i as int]);
            assert(here.drop_first() =~= rest.skip(i - from + 1));
            assert(rest.take(i - from) + (seq![here[0]] + before(here.drop_first(), mark))
                =~= rest.take(i - from + 1) + before(here.drop_first(), mark));
        }
        i += 1;
    }
    proof {
        let here = rest.skip(i - from);
        if i < chars@.len() {
            assert(here[0] == chars@[i as int]);
        }
        assert(before(here, mark) =~= seq![]);
        assert(rest.take(i - from) + before(here, mark) =~= chars@.subrange(from as int, i as int));
    }
    i
}

/// The part of a text before the first `mark`, or the whole text where there is none.
pub fn text_before(s: &str, mark: char) -> (r: String)
    ensures
        r@ == before(s@, mark),
{
    let chars = chars_of(s);
    let end = mark_from(&chars, 0, mark);
    assert(chars@.skip(0) =~= chars@);
    slice_text(&chars, 0, end)
}

/// The parts of a text between the marks.
pub fn split_mark(s: &str, mark: char) -> (r: Vec<String>)
    ensures
        texts(r@) == split_at_mark(s@, mark),
{
    let chars = chars_of(s);
    let mut out: Vec<String> = Vec::new();
    let mut from: usize = 0;
    assert(chars@.skip(0) =~= chars@);
    assert(texts(out@) + split_at_mark(chars@, mark) =~= split_at_mark(chars@, mark));
    loop
        invariant
            chars@ == s@,
            from <= chars@.len(),
            texts(out@) + split_at_mark(chars@.skip(from as int), mark) == split_at_mark(s@, mark),
        decreases chars@.len() - from,
    {
        let end = mark_from(&chars, from, mark);
        let part = slice_text(&chars, from, end);
        let ghost rest = chars@.skip(from as int);
        proof {
            assert(texts(out@.push(part)) =~= texts(out@).push(part@));
        }
        if end == chars.len() {
            proof {
                assert(part@ =~= rest);
                assert(split_at_mark(rest, mark) == seq![rest]);
                assert(texts(out@) + seq![rest] =~= texts(out@).push(part@));
            }
            out.push(part);
            return out;
        }
        proof {
            assert(rest.skip(part@.len() as int + 1) =~= chars@.skip(end as int + 1));
            assert(split_at_mark(rest, mark) == seq![part@] + split_at_mark(
                chars@.skip(end as int + 1),
                mark,
            ));
            assert(texts(out@) + (seq![part@] + split_at_mark(chars@.skip(end as int + 1), mark))
                =~= texts(out@).push(part@) + split_at_mark(chars@.skip(end as int + 1), mark));
        }
        out.push(part);
        from = end + 1;
    }
}

/// A text without the carriage return it ends with.
fn drop_return(s: &str) -> (r: String)
    ensures
        r@ == without_return(s@),
{
    let chars = chars_of(s);
    let n: usize = chars.len();
    if n > 0 && chars[n - 1] == '\r' {
        let r = slice_text(&chars, 0, n - 1);
        assert(r@ =~= without_return(s@));
        r
    } else {
        s.to_owned()
    }
}

/// There is always a part before the first mark.
proof fn lemma_split_has_a_part(s: Seq<char>, mark: char)
    ensures
        split_at_mark(s, mark).len() > 0,
    decreases s.len(),
{
}

/// The lines of a text, without what ends them.
pub fn split_lines(s: &str) -> (r: Vec<String>)
    ensures
        texts(r@) == text_lines(s@),
{
    let parts = split_mark(s, '\n');
    proof {
        lemma_split_has_a_part(s@, '\n');
    }
    let last: usize = parts.len() - 1;
    let ghost all = texts(parts@);
    let ghost ended = all.drop_last().map_values(|part: Seq<char>| without_return(part));
    let mut lines: Vec<String> = Vec::new();
    let mut i: usize = 0;
    assert(texts(lines@) =~= ended.take(0));
    while i < last
        invariant
            i <= last,
            last == parts@.len() - 1,
            all == texts(parts@),
            ended == all.drop_last().map_values(|part: Seq<char>| without_return(part)),
            texts(lines@) == ended.take(i as int),
        decreases last - i,
    {
        let line = drop_return(parts[i].as_str());
        proof {
            assert(line@ == ended[i as int]);
            assert(texts(lines@.push(line)) =~= texts(lines@).push(line@));
            assert(ended.take(i + 1) =~= ended.take(i as int).push(ended[i as int]));
        }
        lines.push(line);
        i += 1;
    }
    assert(ended.take(i as int) =~= ended);
    assert(all.last() == parts@[last as int]@);
    if !parts[last].as_str().is_empty() {
        let line = parts[last].as_str().to_owned();
        assert(texts(lines@.push(line)) =~= texts(lines@).push(line@));
        lines.push(line);
    }
    lines
}

/// A text with its ASCII letters in lower case.
pub fn lower_ascii(s: &str) -> (r: String)
    ensures
        r@ == ascii_lowered(s@),
{
    let chars = chars_of(s);
    let mut out: String = String::new();
    let mut i: usize = 0;
    while i < chars.len()
        invariant
            i <= chars@.len(),
            out@ == ascii_lowered(chars@.take(i as int)),
        decreases chars@.len() - i,
    {
        let c: char = chars[i];
        let low: char = if 'A' <= c && c <= 'Z' {
            let code: u8 = c as u8;
            (code + 32) as char
        } else {
            c
        };
        out.push(low);
        assert(ascii_lowered(chars@.take(i as int + 1)) =~= ascii_lowered(
            chars@.take(i as int),
        ).push(low));
        i += 1;
    }
    assert(chars@.take(i as int) =~= chars@);
    out
}

/// Whether a text ends with another.
pub fn has_ending(s: &str, tail: &str) -> (r: bool)
    ensures
        r == ends_with(s@, tail@),
{
    let chars = chars_of(s);
    let mark = chars_of(tail);
    if chars.len() < mark.len() {
        return false;
    }
    stands_at(&chars, &mark, chars.len() - mark.len())
}

/// A text followed by spaces up to a width, counted in characters.
pub fn pad(s: &str, width: usize) -> (r: String)
    ensures
        r@ == padded(s@, width as nat),
{
    let mut out: String = s.to_owned();
    let count: usize = s.unicode_len();
    if count >= width {
        return out;
    }
    let missing: usize = width - count;
    let mut i: usize = 0;
    assert(out@ =~= s@ + Seq::new(0, |k: int| ' '));
    while i < missing
        invariant
            i <= missing,
            out@ == s@ + Seq::new(i as nat, |k: int| ' '),
        decreases missing - i,
    {
        out.push(' ');
        assert((s@ + Seq::new(i as nat, |k: int| ' ')).push(' ') =~= s@ + Seq::new(
            (i + 1) as nat,
            |k: int| ' ',
        ));
        i += 1;
    }
    out
}

/// Two texts put together.
pub fn concat(a: &str, b: &str) -> (r: String)
    ensures
        r@ == a@ + b@,
{
    let mut out: String = a.to_owned();
    out.append(b);
    out
}

/// A word: a text without white space that is not empty.
pub open spec fn is_word(s: Seq<char>) -> bool {
    &&& s.len() > 0
    &&& forall|i: int| 0 <= i < s.len() ==> !is_space(#[trigger] s[i])
}

/// Every part that splitting a text into words gives is a word.
pub proof fn lemma_words_are_words(s: Seq<char>)
    ensures
        forall|i: int| 0 <= i < words(s).len() ==> is_word(#[trigger] words(s)[i]),
    decreases s.len(),
{
    if s.len() > 0 {
        if is_space(s[0]) {
            lemma_words_are_words(s.drop_first());
            assert(words(s) == words(s.drop_first()));
        } else {
            lemma_word_len(s);
            let n = word_len(s) as int;
            lemma_words_are_words(s.skip(n));
            assert(words(s) == seq![s.take(n)] + words(s.skip(n)));
            assert forall|i: int| 0 <= i < words(s).len() implies is_word(
                #[trigger] words(s)[i],
            ) by {
                if i == 0 {
                    assert(words(s)[0] == s.take(n));
                } else {
                    assert(words(s)[i] == words(s.skip(n))[i - 1]);
                }
            }
        }
    }
}

/// The words of a word, white space and a rest.
proof fn lemma_words_of_word_then_rest(word: Seq<char>, gap: char, rest: Seq<char>)
    requires
        is_word(word),
        is_space(gap),
    ensures
        words(word + seq![gap] + rest) == seq![word] + words(rest),
{
    let s = word + seq![gap] + rest;
    assert forall|i: int| 0 <= i < word.len() implies !is_space(#[trigger] s[i]) by {
        assert(s[i] == word[i]);
    }
    assert(s[word.len() as int] == gap);
    lemma_word_len_is(s, word.len() as int);
    assert(s.take(word.len() as int) =~= word);
    let tail = s.skip(word.len() as int);
    assert(tail[0] == gap);
    assert(tail.drop_first() =~= rest);
    assert(words(tail) == words(rest));
}

/// A word is its own only word.
pub proof fn lemma_words_of_word(word: Seq<char>)
    requires
        is_word(word),
    ensures
        words(word) == seq![word],
{
    lemma_word_len_is(word, word.len() as int);
    assert(word.take(word.len() as int) =~= word);
    assert(words(word.skip(word.len() as int)) =~= seq![]);
    assert(seq![word] + Seq::<Seq<char>>::empty() =~= seq![word]);
}

/// A joined list, taken from its first part on.
proof fn lemma_joined_from_front(parts: Seq<Seq<char>>, separator: Seq<char>)
    requires
        parts.len() > 1,
    ensures
        joined(parts, separator) == parts[0] + separator + joined(parts.drop_first(), separator),
    decreases parts.len(),
{
    let rest = parts.drop_first();
    if parts.len() == 2 {
        assert(parts.drop_last() =~= seq![parts[0]]);
        assert(rest =~= seq![parts[1]]);
        assert(joined(parts.drop_last(), separator) == parts[0]);
    } else {
        lemma_joined_from_front(parts.drop_last(), separator);
        assert(parts.drop_last().drop_first() =~= rest.drop_last());
        assert(rest.last() == parts.last());
        let middle = joined(rest.drop_last(), separator);
        assert((parts[0] + separator + middle) + separator + parts.last() =~= parts[0] + separator
            + (middle + separator + parts.last()));
    }
}

/// Splitting undoes joining: words put together with one white space character between
/// neighbours split into the same words.
pub proof fn law_words_of_joined(parts: Seq<Seq<char>>, gap: char)
    requires
        is_space(gap),
        forall|i: int| 0 <= i < parts.len() ==> is_word(#[trigger] parts[i]),
    ensures
        words(joined(parts, seq![gap])) == parts,
    decreases parts.len(),
{
    if parts.len() == 0 {
        assert(words(joined(parts, seq![gap])) =~= parts);
    } else if parts.len() == 1 {
        lemma_words_of_word(parts[0]);
        assert(seq![parts[0]] =~= parts);
    } else {
        let rest = parts.drop_first();
        lemma_joined_from_front(parts, seq![gap]);
        assert forall|i: int| 0 <= i < rest.len() implies is_word(#[trigger] rest[i]) by {
            assert(rest[i] == parts[i + 1]);
        }
        law_words_of_joined(rest, gap);
        lemma_words_of_word_then_rest(parts[0], gap, joined(rest, seq![gap]));
        assert(seq![parts[0]] + rest =~= parts);
    }
}

/// Which case the ASCII letters of a text have makes no difference to a search in it, and
/// nothing at all is found in every text.
pub proof fn law_search_ignores_ascii_case(value: Seq<char>, needle: Seq<char>)
    ensures
        contains(lowercase_text(ascii_uppered(value)), needle) == contains(
            lowercase_text(value),
            needle,
        ),
        contains(lowercase_text(ascii_lowered(value)), needle) == contains(
            lowercase_text(value),
            needle,
        ),
        contains(lowercase_text(value), seq![]),
{
    assert(ascii_lowered(ascii_uppered(value)) =~= ascii_lowered(value));
    assert(ascii_lowered(ascii_lowered(value)) =~= ascii_lowered(value));
    let lower = lowercase_text(value);
    assert(lower.subrange(0, 0) =~= seq![]);
    assert(occurs_at(lower, seq![], 0));
}

/// Normalizing a text that is normalized already changes nothing.
pub proof fn law_normalized_twice(s: Seq<char>)
    ensures
        normalized(normalized(s)) == normalized(s),
        words(normalized(s)) == words(s),
{
    lemma_words_are_words(s);
    law_words_of_joined(words(s), ' ');
}

/// A text of white space alone.
pub open spec fn all_space(s: Seq<char>) -> bool {
    forall|i: int| 0 <= i < s.len() ==> is_space(#[trigger] s[i])
}

/// A text that neither starts nor ends with white space.
pub open spec fn is_tight(s: Seq<char>) -> bool {
    s.len() > 0 ==> !is_space(s[0]) && !is_space(s.last())
}

/// White space before a text is taken off.
proof fn lemma_without_leading_space(a: Seq<char>, s: Seq<char>)
    requires
        all_space(a),
    ensures
        without_leading_space(a + s) == without_leading_space(s),
    decreases a.len(),
{
    if a.len() == 0 {
        assert(a + s =~= s);
    } else {
        assert((a + s).drop_first() =~= a.drop_first() + s);
        assert forall|i: int| 0 <= i < a.drop_first().len() implies is_space(
            #[trigger] a.drop_first()[i],
        ) by {
            assert(a.drop_first()[i] == a[i + 1]);
        }
        assert(is_space((a + s)[0]));
        lemma_without_leading_space(a.drop_first(), s);
    }
}

/// White space after a text is taken off.
proof fn lemma_without_trailing_space(s: Seq<char>, b: Seq<char>)
    requires
        all_space(b),
    ensures
        without_trailing_space(s + b) == without_trailing_space(s),
    decreases b.len(),
{
    if b.len() == 0 {
        assert(s + b =~= s);
    } else {
        assert((s + b).drop_last() =~= s + b.drop_last());
        assert(is_space((s + b).last()));
        lemma_without_trailing_space(s, b.drop_last());
    }
}

/// What is taken off before a text is white space, and what is left starts with none.
proof fn lemma_leading_space_is_space(s: Seq<char>)
    ensures
        ({
            let rest = without_leading_space(s);
            let n = s.len() - rest.len();
            &&& 0 <= n
            &&& rest == s.skip(n)
            &&& all_space(s.take(n))
            &&& rest.len() > 0 ==> !is_space(rest[0])
        }),
    decreases s.len(),
{
    if s.len() > 0 && is_space(s[0]) {
        let t = s.drop_first();
        lemma_leading_space_is_space(t);
        let rest = without_leading_space(s);
        let n = s.len() - rest.len();
        assert(s.skip(n) =~= t.skip(n - 1));
        assert forall|i: int| 0 <= i < n implies is_space(#[trigger] s.take(n)[i]) by {
            if i > 0 {
                assert(t.take(n - 1)[i - 1] == s.take(n)[i]);
            }
        }
    } else {
        assert(s.skip(0) =~= s);
    }
}

/// What is taken off after a text is white space, and what is left ends with none.
proof fn lemma_trailing_space_is_space(s: Seq<char>)
    ensures
        ({
            let rest = without_trailing_space(s);
            &&& rest.len() <= s.len()
            &&& rest == s.take(rest.len() as int)
            &&& all_space(s.skip(rest.len() as int))
            &&& rest.len() > 0 ==> !is_space(rest.last())
        }),
    decreases s.len(),
{
    if s.len() > 0 && is_space(s.last()) {
        let t = s.drop_last();
        lemma_trailing_space_is_space(t);
        let n = without_trailing_space(s).len() as int;
        assert(s.take(n) =~= t.take(n));
        assert forall|i: int| 0 <= i < s.len() - n implies is_space(#[trigger] s.skip(n)[i]) by {
            if i < s.len() - n - 1 {
                assert(t.skip(n)[i] == s.skip(n)[i]);
            }
        }
    } else {
        assert(s.take(s.len() as int) =~= s);
    }
}

/// Trimming takes the white space around a text off, and nothing else.
pub proof fn law_trimming_takes_off_space(a: Seq<char>, s: Seq<char>, b: Seq<char>)
    requires
        all_space(a),
        is_tight(s),
        all_space(b),
    ensures
        trimmed(a + s + b) == s,
        trimmed(s) == s,
{
    assert(a + s + b =~= a + (s + b));
    lemma_without_leading_space(a, s + b);
    if s.len() > 0 {
        assert((s + b)[0] == s[0]);
        assert(without_leading_space(s + b) == s + b);
    } else {
        assert(s + b =~= b);
        lemma_leading_space_is_space(b);
        let rest = without_leading_space(b);
        if rest.len() > 0 {
            assert(rest[0] == b[b.len() - rest.len()]);
        }
        assert(rest =~= s + seq![]);
    }
    lemma_without_trailing_space(s, b);
    lemma_without_trailing_space(s, seq![]);
    assert(without_trailing_space(s) == s);
}

/// A text is what trimming leaves of it with white space around, and trimming leaves none at
/// either end.
pub proof fn law_trimmed_text_is_within(s: Seq<char>)
    ensures
        is_tight(trimmed(s)),
        exists|a: Seq<char>, b: Seq<char>|
            #[trigger] all_space(a) && #[trigger] all_space(b) && s == a + trimmed(s) + b,
{
    let rest = without_leading_space(s);
    lemma_leading_space_is_space(s);
    lemma_trailing_space_is_space(rest);
    let n = s.len() - rest.len();
    let m = trimmed(s).len() as int;
    let a = s.take(n);
    let b = rest.skip(m);
    assert(all_space(a) && all_space(b));
    assert(s =~= a + trimmed(s) + b);
    if m > 0 {
        assert(trimmed(s)[0] == rest[0]);
    }
}

/// What stands before a mark holds no mark, and ends at the first one.
proof fn lemma_before(s: Seq<char>, mark: char)
    ensures
        before(s, mark).len() <= s.len(),
        before(s, mark) == s.take(before(s, mark).len() as int),
        !before(s, mark).contains(mark),
        before(s, mark).len() < s.len() ==> s[before(s, mark).len() as int] == mark,
    decreases s.len(),
{
    if s.len() > 0 && s[0] != mark {
        let t = s.drop_first();
        lemma_before(t, mark);
        let n = before(s, mark).len() as int;
        assert(before(s, mark) =~= s.take(n)) by {
            assert(t.take(n - 1) =~= s.take(n).drop_first());
        }
        assert forall|i: int| 0 <= i < n implies before(s, mark)[i] != mark by {
            if i > 0 {
                assert(before(t, mark)[i - 1] == before(s, mark)[i]);
                assert(before(t, mark).contains(before(t, mark)[i - 1]));
            }
        }
    } else {
        assert(before(s, mark) =~= s.take(0));
    }
}

/// A text without a mark is all that stands before one.
pub proof fn lemma_before_is(head: Seq<char>, mark: char, rest: Seq<char>)
    requires
        !head.contains(mark),
    ensures
        before(head, mark) == head,
        before(head + seq![mark] + rest, mark) == head,
    decreases head.len(),
{
    let s = head + seq![mark] + rest;
    if head.len() == 0 {
        assert(s[0] == mark);
        assert(before(s, mark) =~= head);
        assert(before(head, mark) =~= head);
    } else {
        let t = head.drop_first();
        assert(head.contains(head[0]));
        assert forall|i: int| 0 <= i < t.len() implies t[i] != mark by {
            assert(head.contains(head[i + 1]));
        }
        lemma_before_is(t, mark, rest);
        assert(s.drop_first() =~= t + seq![mark] + rest);
        assert(s[0] == head[0]);
        assert(head =~= seq![head[0]] + t);
    }
}

/// Splitting a text and putting the parts together again with the mark gives it back, and no
/// part holds the mark.
pub proof fn law_splitting_is_undone_by_joining(s: Seq<char>, mark: char)
    ensures
        split_at_mark(s, mark).len() > 0,
        joined(split_at_mark(s, mark), seq![mark]) == s,
        forall|i: int|
            0 <= i < split_at_mark(s, mark).len() ==> !(#[trigger] split_at_mark(
                s,
                mark,
            )[i]).contains(mark),
    decreases s.len(),
{
    let head = before(s, mark);
    let parts = split_at_mark(s, mark);
    lemma_before(s, mark);
    if head.len() < s.len() {
        let rest = s.skip(head.len() as int + 1);
        law_splitting_is_undone_by_joining(rest, mark);
        let tail = split_at_mark(rest, mark);
        assert(parts == seq![head] + tail);
        assert(parts.drop_first() =~= tail);
        lemma_joined_from_front(parts, seq![mark]);
        assert(s =~= head + seq![mark] + rest);
        assert forall|i: int| 0 <= i < parts.len() implies !(#[trigger] parts[i]).contains(mark) by {
            if i > 0 {
                assert(parts[i] == tail[i - 1]);
            }
        }
    } else {
        assert(head =~= s);
        assert(parts =~= seq![s]);
    }
}

/// Splitting a text of a part, the mark and a rest gives the part and what splitting the rest
/// gives; and one without the mark is its only part.
pub proof fn law_splitting_takes_parts_one_by_one(head: Seq<char>, mark: char, rest: Seq<char>)
    requires
        !head.contains(mark),
    ensures
        split_at_mark(head, mark) == seq![head],
        split_at_mark(head + seq![mark] + rest, mark) == seq![head] + split_at_mark(rest, mark),
{
    lemma_before_is(head, mark, rest);
    let s = head + seq![mark] + rest;
    assert(s.skip(head.len() as int + 1) =~= rest);
}

/// A padded text is the text with spaces behind it, and has the width unless the text is
/// longer.
pub proof fn law_padding_only_adds_spaces(s: Seq<char>, width: nat)
    ensures
        s.is_prefix_of(padded(s, width)),
        padded(s, width).len() == if s.len() > width {
            s.len()
        } else {
            width
        },
        forall|i: int|
            s.len() <= i < padded(s, width).len() ==> #[trigger] padded(s, width)[i] == ' ',
{
    assert(s =~= padded(s, width).take(s.len() as int));
}

/// The lines of a text that ends a line with a line feed, with or without a carriage return
/// before it, are that line and those of the rest.
pub proof fn law_lines_end_at_line_feeds(line: Seq<char>, rest: Seq<char>)
    requires
        !line.contains('\n'),
    ensures
        text_lines(line + seq!['\n'] + rest) == seq![without_return(line)] + text_lines(rest),
        text_lines(line) == if line.len() > 0 {
            seq![line]
        } else {
            seq![]
        },
        line.len() == 0 || line.last() != '\r' ==> without_return(line) == line && without_return(
            line.push('\r'),
        ) == line,
{
    law_splitting_takes_parts_one_by_one(line, '\n', rest);
    lemma_split_has_a_part(rest, '\n');
    let parts = split_at_mark(rest, '\n');
    let all = seq![line] + parts;
    assert(all.drop_last() =~= seq![line] + parts.drop_last());
    assert(text_lines(line + seq!['\n'] + rest) =~= seq![without_return(line)] + text_lines(rest));
    assert(text_lines(line) =~= if line.len() > 0 {
        seq![line]
    } else {
        seq![]
    });
    assert(line.push('\r').drop_last() =~= line);
}

/// A text stands in another that is put together around it, and only in such.
pub proof fn law_contained_text_stands_within(hay: Seq<char>, needle: Seq<char>)
    ensures
        contains(hay, needle) <==> exists|a: Seq<char>, b: Seq<char>| hay == #[trigger] (a + needle
            + b),
{
    if contains(hay, needle) {
        let i = choose|i: int| occurs_at(hay, needle, i);
        let a = hay.take(i);
        let b = hay.skip(i + needle.len());
        assert(hay =~= a + needle + b);
    }
    if exists|a: Seq<char>, b: Seq<char>| hay == #[trigger] (a + needle + b) {
        let (a, b) = choose|a: Seq<char>, b: Seq<char>| hay == #[trigger] (a + needle + b);
        assert(hay.subrange(a.len() as int, (a.len() + needle.len()) as int) =~= needle);
        assert(occurs_at(hay, needle, a.len() as int));
    }
}

/// Letters and digits are no white space; blanks, tabulators, line ends and the blank that does
/// not break are.
pub proof fn law_white_space_is_no_text(c: char)
    ensures
        'a' <= c <= 'z' || 'A' <= c <= 'Z' || '0' <= c <= '9' ==> !is_space(c),
        '!' <= c <= '~' ==> !is_space(c),
        c == ' ' || c == '\t' || c == '\n' || c == '\r' || c == '\u{a0}' ==> is_space(c),
{
}

/// White space between two texts parts their words.
pub proof fn law_words_of_two_texts(a: Seq<char>, gap: char, b: Seq<char>)
    requires
        is_space(gap),
    ensures
        words(a + seq![gap] + b) == words(a) + words(b),
    decreases a.len(),
{
    let s = a + seq![gap] + b;
    if a.len() == 0 {
        assert(s[0] == gap);
        assert(s.drop_first() =~= b);
        assert(words(a) + words(b) =~= words(b));
    } else if is_space(a[0]) {
        assert(s[0] == a[0]);
        assert(s.drop_first() =~= a.drop_first() + seq![gap] + b);
        law_words_of_two_texts(a.drop_first(), gap, b);
    } else {
        assert(s[0] == a[0]);
        lemma_word_len(a);
        lemma_word_len(s);
        lemma_word_len_before_space(a, gap, b);
        let n = word_len(a) as int;
        assert(n > 0);
        assert(s.take(n) =~= a.take(n));
        assert(s.skip(n) =~= a.skip(n) + seq![gap] + b);
        law_words_of_two_texts(a.skip(n), gap, b);
        assert(words(s) =~= words(a) + words(b));
    }
}

/// A word ends at white space at the latest.
proof fn lemma_word_len_before_space(a: Seq<char>, gap: char, b: Seq<char>)
    requires
        is_space(gap),
    ensures
        word_len(a + seq![gap] + b) == word_len(a),
    decreases a.len(),
{
    let s = a + seq![gap] + b;
    if a.len() == 0 {
        assert(s[0] == gap);
    } else {
        assert(s[0] == a[0]);
        assert(s.drop_first() =~= a.drop_first() + seq![gap] + b);
        lemma_word_len_before_space(a.drop_first(), gap, b);
    }
}

/// A text in order has the words of the text, with one space between two of them and none at
/// either end.
pub proof fn law_text_in_order_has_the_same_words(s: Seq<char>)
    ensures
        words(normalized(s)) == words(s),
        normalized(s) == joined(words(s), seq![' ']),
        is_tight(normalized(s)),
        normalized(s).len() == 0 <==> words(s).len() == 0,
{
    law_normalized_twice(s);
    lemma_words_are_words(s);
    lemma_joined_words_are_tight(words(s));
}

/// Words put together neither start nor end with white space.
proof fn lemma_joined_words_are_tight(parts: Seq<Seq<char>>)
    requires
        forall|i: int| 0 <= i < parts.len() ==> is_word(#[trigger] parts[i]),
    ensures
        is_tight(joined(parts, seq![' '])),
        parts.len() > 0 ==> joined(parts, seq![' ']).len() > 0,
    decreases parts.len(),
{
    let all = joined(parts, seq![' ']);
    if parts.len() == 1 {
        assert(is_word(parts[0]));
        assert(!is_space(parts[0][0]));
        assert(!is_space(parts[0][parts[0].len() - 1]));
    } else if parts.len() > 1 {
        let rest = parts.drop_last();
        assert forall|i: int| 0 <= i < rest.len() implies is_word(#[trigger] rest[i]) by {
            assert(rest[i] == parts[i]);
        }
        lemma_joined_words_are_tight(rest);
        let last = parts.last();
        assert(is_word(parts[parts.len() - 1]));
        assert(!is_space(last[last.len() - 1]));
        assert(all[0] == joined(rest, seq![' '])[0]);
        assert(all.last() == last.last());
    }
}

} // verus!
