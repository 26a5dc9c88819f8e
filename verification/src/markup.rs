//! Elements of a page: what a page's markup holds, asked for by selectors.
use vstd::prelude::*;

use scraper::{ElementRef, Html, Selector};

use crate::text::{
    join, joined, law_text_in_order_has_the_same_words, law_words_of_two_texts,
    normalize_whitespace, normalized, optional_text, texts, words,
};

verus! {

/// What is known of an element: the attributes that were asked for, in the order in which
/// they were, and its pieces of text.
pub struct Element {
    pub attributes: Vec<Option<String>>,
    pub pieces: Vec<String>,
}

/// An element of a page, and for each inner selector the elements below it that match.
pub struct Found {
    pub element: Element,
    pub inner: Vec<Vec<Element>>,
}

/// The contents of an element: attributes and pieces of text.
#[verifier::ext_equal]
pub struct ElementText {
    pub attributes: Seq<Option<Seq<char>>>,
    pub pieces: Seq<Seq<char>>,
}

/// The contents of an element and of the elements found below it.
#[verifier::ext_equal]
pub struct FoundText {
    pub element: ElementText,
    pub inner: Seq<Seq<ElementText>>,
}

impl View for Element {
    type V = ElementText;

    open spec fn view(&self) -> ElementText {
        ElementText {
            attributes: self.attributes@.map_values(|a: Option<String>| optional_text(a)),
            pieces: texts(self.pieces@),
        }
    }
}

/// The contents of a list of elements.
pub open spec fn element_texts(list: Seq<Element>) -> Seq<ElementText> {
    list.map_values(|e: Element| e@)
}

impl View for Found {
    type V = FoundText;

    open spec fn view(&self) -> FoundText {
        FoundText {
            element: self.element@,
            inner: self.inner@.map_values(|list: Vec<Element>| element_texts(list@)),
        }
    }
}

/// The contents of a list of what was found.
pub open spec fn found_texts(list: Seq<Found>) -> Seq<FoundText> {
    list.map_values(|f: Found| f@)
}

/// The contents of what was found, or the selector that could not be read.
pub open spec fn found_outcome(r: Result<Vec<Found>, String>) -> Result<Seq<FoundText>, Seq<char>> {
    match r {
        Ok(list) => Ok(found_texts(list@)),
        Err(selector) => Err(selector@),
    }
}

/// The texts of a list of borrowed strings.
pub open spec fn borrowed_texts(list: Seq<&str>) -> Seq<Seq<char>> {
    list.map_values(|s: &str| s@)
}

/// What `scraper` finds in a whole page: for each element that matches the outer selector,
/// in the order of the page, the element and, for each inner selector, the elements below
/// it that match; or the first of the selectors that cannot be read.
pub uninterp spec fn document_found(
    page: Seq<char>,
    outer: Seq<char>,
    inner: Seq<Seq<char>>,
    attributes: Seq<Seq<char>>,
) -> Result<Seq<FoundText>, Seq<char>>;

/// What `scraper` finds in a piece of a page.
pub uninterp spec fn fragment_found(
    page: Seq<char>,
    outer: Seq<char>,
    inner: Seq<Seq<char>>,
    attributes: Seq<Seq<char>>,
) -> Result<Seq<FoundText>, Seq<char>>;

/// As many lists of inner elements as inner selectors, and as many attributes as were asked
/// for.
pub open spec fn has_shape(found: FoundText, inner: nat, attributes: nat) -> bool {
    &&& found.element.attributes.len() == attributes
    &&& found.inner.len() == inner
    &&& forall|i: int, k: int|
        0 <= i < inner && 0 <= k < found.inner[i].len()
            ==> (#[trigger] found.inner[i][k]).attributes.len() == attributes
}

/// `scraper::Html::parse_document`, `Selector::parse`, `Html::select`, `ElementRef::select`,
/// `ElementRef::attr` and `ElementRef::text`: which elements of a page match a selector, and
/// which below them match others, with their attributes and texts. All of it depends on the
/// page, the selectors and the attributes' names alone. Where a selector cannot be read, there is
/// the first such selector. What is found holds one list of elements for each inner selector, and one
/// place for each attribute asked for.
#[verifier::external_body]
fn find_in_document(page: &str, outer: &str, inner: &[&str], attributes: &[&str]) -> (r: Result<
    Vec<Found>,
    String,
>)
    ensures
        found_outcome(r) == document_found(
            page@,
            outer@,
            borrowed_texts(inner@),
            borrowed_texts(attributes@),
        ),
        r matches Ok(list) ==> forall|i: int|
            0 <= i < list@.len() ==> has_shape(
                (#[trigger] list@[i])@,
                inner@.len(),
                attributes@.len(),
            ),
{
    let parse = |s: &&str| Selector::parse(s).map_err(|_| s.to_string());
    let outer = parse(&outer)?;
    let inner = inner.iter().map(parse).collect::<Result<Vec<_>, _>>()?;
    let read = |e: ElementRef| Element {
        attributes: attributes.iter().map(|name| e.attr(name).map(str::to_owned)).collect(),
        pieces: e.text().map(str::to_owned).collect()
    };
    Ok(Html::parse_document(page).select(&outer).map(|e| Found {
        element: read(e),
        inner: inner.iter().map(|s| e.select(s).map(read).collect()).collect()
    }).collect())
}

/// The same with `scraper::Html::parse_fragment`, which reads a piece of a page.
#[verifier::external_body]
fn find_in_fragment(page: &str, outer: &str, inner: &[&str], attributes: &[&str]) -> (r: Result<
    Vec<Found>,
    String,
>)
    ensures
        found_outcome(r) == fragment_found(
            page@,
            outer@,
            borrowed_texts(inner@),
            borrowed_texts(attributes@),
        ),
        r matches Ok(list) ==> forall|i: int|
            0 <= i < list@.len() ==> has_shape(
                (#[trigger] list@[i])@,
                inner@.len(),
                attributes@.len(),
            ),
{
    let parse = |s: &&str| Selector::parse(s).map_err(|_| s.to_string());
    let outer = parse(&outer)?;
    let inner = inner.iter().map(parse).collect::<Result<Vec<_>, _>>()?;
    let read = |e: ElementRef| Element {
        attributes: attributes.iter().map(|name| e.attr(name).map(str::to_owned)).collect(),
        pieces: e.text().map(str::to_owned).collect()
    };
    Ok(Html::parse_fragment(page).select(&outer).map(|e| Found {
        element: read(e),
        inner: inner.iter().map(|s| e.select(s).map(read).collect()).collect()
    }).collect())
}

/// What is found in a page, or in a piece of one.
pub open spec fn page_found(
    page: Seq<char>,
    whole: bool,
    outer: Seq<char>,
    inner: Seq<Seq<char>>,
    attributes: Seq<Seq<char>>,
) -> Result<Seq<FoundText>, Seq<char>> {
    if whole {
        document_found(page, outer, inner, attributes)
    } else {
        fragment_found(page, outer, inner, attributes)
    }
}

/// Every element of a list has the shape that was asked for.
pub open spec fn all_shaped(list: Seq<Found>, inner: nat, attributes: nat) -> bool {
    forall|i: int|
        0 <= i < list.len() ==> has_shape((#[trigger] list[i])@, inner, attributes)
}

/// The elements of a page, or of a piece of one, that match a selector.
pub fn find_in_page(page: &str, whole: bool, outer: &str, inner: &[&str], attributes: &[&str]) -> (r:
    Result<Vec<Found>, String>)
    ensures
        found_outcome(r) == page_found(
            page@,
            whole,
            outer@,
            borrowed_texts(inner@),
            borrowed_texts(attributes@),
        ),
        r matches Ok(list) ==> all_shaped(list@, inner@.len(), attributes@.len()),
{
    if whole {
        find_in_document(page, outer, inner, attributes)
    } else {
        find_in_fragment(page, outer, inner, attributes)
    }
}

/// The text of an element: its pieces with single spaces between the words.
pub open spec fn text_of(e: ElementText) -> Seq<char> {
    normalized(joined(e.pieces, seq![' ']))
}

/// The text of an element.
pub fn text_from_node(node: &Element) -> (r: String)
    ensures
        r@ == text_of(node@),
{
    proof {
        reveal_strlit(" ");
        assert(" "@ =~= seq![' ']);
    }
    let whole = join(&node.pieces, " ");
    normalize_whitespace(whole.as_str())
}

/// The text of an element has the words of its pieces, in their order, and nothing else.
pub proof fn law_text_has_the_words_of_its_pieces(element: ElementText, more: Seq<char>)
    ensures
        words(text_of(element)) == words(joined(element.pieces, seq![' '])),
        element.pieces.len() > 0 ==> words(
            text_of(ElementText { pieces: element.pieces.push(more), ..element }),
        ) == words(text_of(element)) + words(more),
        element.pieces == seq![more] ==> words(text_of(element)) == words(more),
        text_of(element) == joined(words(text_of(element)), seq![' ']),
{
    let whole = joined(element.pieces, seq![' ']);
    law_text_in_order_has_the_same_words(whole);
    if element.pieces.len() > 0 {
        let longer = ElementText { pieces: element.pieces.push(more), ..element };
        assert(longer.pieces.drop_last() =~= element.pieces);
        law_text_in_order_has_the_same_words(joined(longer.pieces, seq![' ']));
        law_words_of_two_texts(whole, ' ', more);
    }
}

/// A whole page is read as one, and a piece of a page as a piece.
pub proof fn law_pages_and_pieces_are_told_apart(
    page: Seq<char>,
    outer: Seq<char>,
    inner: Seq<Seq<char>>,
    attributes: Seq<Seq<char>>,
)
    ensures
        page_found(page, true, outer, inner, attributes) == document_found(
            page,
            outer,
            inner,
            attributes,
        ),
        page_found(page, false, outer, inner, attributes) == fragment_found(
            page,
            outer,
            inner,
            attributes,
        ),
{
}

} // verus!
