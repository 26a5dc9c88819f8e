//! Auctions, lots and their details, read from the pages that list them.
use vstd::prelude::*;

use crate::fields::{
    bid_cents, bid_fits, bid_is_countable, bid_text, digits_and_points, extract_bid,
    extract_location, is_image_url, law_bid_is_the_amount, links_picture, location_text,
    parse_bid_cents,
};
use crate::links::{join_url, joined_url, BASE_URL};
use crate::markup::{
    all_shaped, borrowed_texts, element_texts, find_in_page, found_texts, has_shape, page_found,
    text_from_node, text_of, Element, ElementText, Found, FoundText,
};
use crate::moments::{
    event_close, optional_moment, parse_event_close, parse_lot_close, rfc3339_moment, Moment,
};
use crate::numbers::{decimal, law_unsigned_round_trip, parse_usize, unsigned_value};
use crate::text::{
    concat, contains, is_tight, law_trimming_takes_off_space, optional_text, texts, trim, trimmed,
};

verus! {

/// Why a page could not be read.
#[derive(Debug)]
pub enum ListingError {
    /// A selector that cannot be read.
    Selector(String),
    /// A link that leads to no address, with the words for why.
    Link(String),
    /// The closing time of an auction that is none.
    Close(String),
    /// The number of the next item that is none.
    NextItem(String),
    /// A bid too large to count in cents.
    Bid(String),
}

/// Why a page could not be read, with the text at fault or the words on it.
pub enum Fault {
    Selector(Seq<char>),
    Link(Seq<char>),
    Close(Seq<char>),
    NextItem(Seq<char>),
    Bid(Seq<char>),
}

impl View for ListingError {
    type V = Fault;

    open spec fn view(&self) -> Fault {
        match *self {
            ListingError::Selector(s) => Fault::Selector(s@),
            ListingError::Link(s) => Fault::Link(s@),
            ListingError::Close(s) => Fault::Close(s@),
            ListingError::NextItem(s) => Fault::NextItem(s@),
            ListingError::Bid(s) => Fault::Bid(s@),
        }
    }
}

/// The words for why a page could not be read.
pub open spec fn fault_words(fault: Fault) -> Seq<char> {
    match fault {
        Fault::Selector(selector) => "invalid selector: "@ + selector,
        Fault::Link(words) => words,
        Fault::Close(value) => "failed to parse event close time: "@ + value,
        Fault::NextItem(value) => "invalid next item value: "@ + value,
        Fault::Bid(value) => "bid too large: "@ + value,
    }
}

impl ListingError {
    /// The words for this error.
    pub fn text(&self) -> (r: String)
        ensures
            r@ == fault_words(self@),
    {
        match self {
            ListingError::Selector(selector) => concat("invalid selector: ", selector.as_str()),
            ListingError::Link(words) => words.as_str().to_owned(),
            ListingError::Close(value) => {
                concat("failed to parse event close time: ", value.as_str())
            },
            ListingError::NextItem(value) => concat("invalid next item value: ", value.as_str()),
            ListingError::Bid(value) => concat("bid too large: ", value.as_str()),
        }
    }
}

/// An auction as the list of auctions shows it.
#[derive(Debug)]
pub struct EventStub {
    pub title: String,
    pub url: String,
    pub location: String,
    pub close_at: Option<Moment>,
}

/// What an auction's entry says.
pub struct EventText {
    pub title: Seq<char>,
    pub url: Seq<char>,
    pub location: Seq<char>,
    pub close_at: Option<(int, int)>,
}

impl View for EventStub {
    type V = EventText;

    open spec fn view(&self) -> EventText {
        EventText {
            title: self.title@,
            url: self.url@,
            location: self.location@,
            close_at: optional_moment(self.close_at),
        }
    }
}

/// A lot of an auction.
#[derive(Debug)]
pub struct Lot {
    pub name: String,
    pub url: String,
    pub thumbnail_url: Option<String>,
    pub location: String,
    pub bid_display: String,
    pub bid_cents: Option<i64>,
    pub close_at: Option<Moment>,
}

/// What a lot's entry says.
pub struct LotText {
    pub name: Seq<char>,
    pub url: Seq<char>,
    pub thumbnail_url: Option<Seq<char>>,
    pub location: Seq<char>,
    pub bid_display: Seq<char>,
    pub bid_cents: Option<int>,
    pub close_at: Option<(int, int)>,
}

/// An optional amount as a whole number.
pub open spec fn amount(n: Option<i64>) -> Option<int> {
    match n {
        Some(n) => Some(n as int),
        None => None,
    }
}

impl View for Lot {
    type V = LotText;

    open spec fn view(&self) -> LotText {
        LotText {
            name: self.name@,
            url: self.url@,
            thumbnail_url: optional_text(self.thumbnail_url),
            location: self.location@,
            bid_display: self.bid_display@,
            bid_cents: amount(self.bid_cents),
            close_at: optional_moment(self.close_at),
        }
    }
}

/// A document that belongs to a lot.
#[derive(Debug)]
pub struct DetailLink {
    pub label: String,
    pub url: String,
}

/// The details of a lot.
#[derive(Debug)]
pub struct LotDetails {
    pub photos: Vec<String>,
    pub info_lines: Vec<String>,
    pub documents: Vec<DetailLink>,
}

/// What the details of a lot say.
#[verifier::ext_equal]
pub struct DetailsText {
    pub photos: Seq<Seq<char>>,
    pub info_lines: Seq<Seq<char>>,
    pub documents: Seq<(Seq<char>, Seq<char>)>,
}

/// The labels and addresses of documents.
pub open spec fn link_texts(list: Seq<DetailLink>) -> Seq<(Seq<char>, Seq<char>)> {
    list.map_values(|d: DetailLink| (d.label@, d.url@))
}

impl View for LotDetails {
    type V = DetailsText;

    open spec fn view(&self) -> DetailsText {
        DetailsText {
            photos: texts(self.photos@),
            info_lines: texts(self.info_lines@),
            documents: link_texts(self.documents@),
        }
    }
}

/// The entries of a list of auctions.
pub open spec fn event_texts(list: Seq<EventStub>) -> Seq<EventText> {
    list.map_values(|e: EventStub| e@)
}

/// The entries of a list of lots.
pub open spec fn lot_texts(list: Seq<Lot>) -> Seq<LotText> {
    list.map_values(|l: Lot| l@)
}

/// The attributes that the listings are read by, in this order.
pub open spec fn attribute_names() -> Seq<Seq<char>> {
    seq!["href"@, "src"@, "data-src"@, "value"@]
}

/// The attribute of a link's address.
pub const HREF: usize = 0;

/// The attribute of a picture's address.
pub const SRC: usize = 1;

/// The attribute of the address of a picture that is loaded late.
pub const DATA_SRC: usize = 2;

/// The attribute of an input's value.
pub const VALUE: usize = 3;

/// The first element that an inner selector found.
pub open spec fn first_of(found: FoundText, which: int) -> Option<ElementText> {
    if found.inner[which].len() > 0 {
        Some(found.inner[which][0])
    } else {
        None
    }
}

/// The first element that an inner selector found.
fn first_inner(found: &Found, which: usize) -> (r: Option<&Element>)
    requires
        which < found@.inner.len(),
    ensures
        match r {
            Some(e) => first_of(found@, which as int) == Some(e@),
            None => first_of(found@, which as int) is None,
        },
{
    let list: &Vec<Element> = &found.inner[which];
    assert(found@.inner[which as int] == element_texts(list@));
    if list.len() > 0 {
        assert(element_texts(list@)[0] == list@[0]@);
        Some(&list[0])
    } else {
        None
    }
}

/// One of the attributes of an element.
fn attribute(e: &Element, which: usize) -> (r: Option<&String>)
    requires
        which < e@.attributes.len(),
    ensures
        match r {
            Some(s) => e@.attributes[which as int] == Some(s@),
            None => e@.attributes[which as int] is None,
        },
{
    match &e.attributes[which] {
        Some(s) => Some(s),
        None => None,
    }
}

/// The place that an entry names, or nothing.
pub open spec fn place_of(e: Option<ElementText>) -> Seq<char> {
    match e {
        Some(e) => location_text(text_of(e)),
        None => seq![],
    }
}

/// The place that an entry names, or nothing.
fn read_place(found: &Found, which: usize) -> (r: String)
    requires
        which < found@.inner.len(),
    ensures
        r@ == place_of(first_of(found@, which as int)),
{
    match first_inner(found, which) {
        Some(node) => {
            let text = text_from_node(node);
            extract_location(text.as_str())
        },
        None => {
            let none: String = String::new();
            assert(none@ =~= seq![]);
            none
        },
    }
}

/// The selectors for the parts of an auction's entry.
pub open spec fn event_parts() -> Seq<Seq<char>> {
    seq![".item-title h4 a"@, ".item-location"@, ".item-date-no-feature h3"@]
}

/// What is read from an auction's entry: an entry without a link, an address or a title is
/// passed over.
pub open spec fn event_of_item(item: FoundText) -> Result<Option<EventText>, Fault> {
    match first_of(item, 0) {
        None => Ok(None),
        Some(link) => match link.attributes[HREF as int] {
            None => Ok(None),
            Some(href) => if text_of(link).len() == 0 {
                Ok(None)
            } else {
                let close = match first_of(item, 2) {
                    Some(node) => match event_close(text_of(node)) {
                        Ok(close_at) => Ok(close_at),
                        Err(()) => Err(Fault::Close(text_of(node))),
                    },
                    None => Ok(None),
                };
                match close {
                    Err(fault) => Err(fault),
                    Ok(close_at) => match joined_url(BASE_URL@, href) {
                        Err(words) => Err(Fault::Link(words)),
                        Ok(url) => Ok(
                            Some(
                                EventText {
                                    title: text_of(link),
                                    url,
                                    location: place_of(first_of(item, 1)),
                                    close_at,
                                },
                            ),
                        ),
                    },
                }
            },
        },
    }
}

/// What is read from a list of auctions: the first entry at fault spoils it.
pub open spec fn events_of_items(items: Seq<FoundText>) -> Result<Seq<EventText>, Fault>
    decreases items.len(),
{
    if items.len() == 0 {
        Ok(seq![])
    } else {
        match events_of_items(items.drop_last()) {
            Err(fault) => Err(fault),
            Ok(list) => match event_of_item(items.last()) {
                Err(fault) => Err(fault),
                Ok(None) => Ok(list),
                Ok(Some(event)) => Ok(list.push(event)),
            },
        }
    }
}

/// The selectors for the parts of a lot's entry.
pub open spec fn lot_parts() -> Seq<Seq<char>> {
    seq![
        ".item-img img"@,
        ".item-title h4 a"@,
        ".item-location"@,
        ".current-bid"@,
        "input[id^=\"txtLotEndDate\"]"@,
    ]
}

/// The address of the picture in an entry, where it has one that leads to a picture.
pub open spec fn thumbnail_of(e: Option<ElementText>) -> Option<Seq<char>> {
    match e {
        None => None,
        Some(e) => {
            let src = match e.attributes[SRC as int] {
                Some(src) => Some(src),
                None => e.attributes[DATA_SRC as int],
            };
            match src {
                Some(src) => if links_picture(src) {
                    match joined_url(BASE_URL@, src) {
                        Ok(url) => Some(url),
                        Err(_) => None,
                    }
                } else {
                    None
                },
                None => None,
            }
        },
    }
}

/// The bid in an entry, as the screen shows it.
pub open spec fn bid_of(e: Option<ElementText>) -> Seq<char> {
    match e {
        Some(e) => if bid_text(text_of(e)).len() > 0 {
            bid_text(text_of(e))
        } else {
            "N/A"@
        },
        None => "N/A"@,
    }
}

/// When the lot of an entry closes.
pub open spec fn lot_close_of(e: Option<ElementText>) -> Option<(int, int)> {
    match e {
        Some(e) => match e.attributes[VALUE as int] {
            Some(value) => rfc3339_moment(value),
            None => None,
        },
        None => None,
    }
}

/// What is read from a lot's entry: an entry without a link, an address or a name is passed
/// over.
pub open spec fn lot_of_item(item: FoundText) -> Result<Option<LotText>, Fault> {
    match first_of(item, 1) {
        None => Ok(None),
        Some(link) => match link.attributes[HREF as int] {
            None => Ok(None),
            Some(href) => if text_of(link).len() == 0 {
                Ok(None)
            } else {
                let bid = bid_of(first_of(item, 3));
                match joined_url(BASE_URL@, href) {
                    Err(words) => Err(Fault::Link(words)),
                    Ok(url) => if !bid_fits(bid) {
                        Err(Fault::Bid(bid))
                    } else {
                        Ok(
                            Some(
                                LotText {
                                    name: text_of(link),
                                    url,
                                    thumbnail_url: thumbnail_of(first_of(item, 0)),
                                    location: place_of(first_of(item, 2)),
                                    bid_display: bid,
                                    bid_cents: bid_cents(bid),
                                    close_at: lot_close_of(first_of(item, 4)),
                                },
                            ),
                        )
                    },
                }
            },
        },
    }
}

/// What is read from a list of lots: the first entry at fault spoils it.
pub open spec fn lots_of_items(items: Seq<FoundText>) -> Result<Seq<LotText>, Fault>
    decreases items.len(),
{
    if items.len() == 0 {
        Ok(seq![])
    } else {
        match lots_of_items(items.drop_last()) {
            Err(fault) => Err(fault),
            Ok(list) => match lot_of_item(items.last()) {
                Err(fault) => Err(fault),
                Ok(None) => Ok(list),
                Ok(Some(lot)) => Ok(list.push(lot)),
            },
        }
    }
}

/// The outcome of reading an auction's entry.
pub open spec fn event_outcome(r: Result<Option<EventStub>, ListingError>) -> Result<
    Option<EventText>,
    Fault,
> {
    match r {
        Ok(Some(event)) => Ok(Some(event@)),
        Ok(None) => Ok(None),
        Err(e) => Err(e@),
    }
}

/// The outcome of reading a lot's entry.
pub open spec fn lot_outcome(r: Result<Option<Lot>, ListingError>) -> Result<
    Option<LotText>,
    Fault,
> {
    match r {
        Ok(Some(lot)) => Ok(Some(lot@)),
        Ok(None) => Ok(None),
        Err(e) => Err(e@),
    }
}

/// Reads an auction's entry.
pub fn event_from_item(item: &Found) -> (r: Result<Option<EventStub>, ListingError>)
    requires
        has_shape(item@, 3, 4),
    ensures
        event_outcome(r) == event_of_item(item@),
{
    assert(first_of(item@, 0) matches Some(e) ==> item@.inner[0][0] == e);
    let link = match first_inner(item, 0) {
        Some(link) => link,
        None => return Ok(None),
    };
    let href = match attribute(link, HREF) {
        Some(href) => href,
        None => return Ok(None),
    };
    let title = text_from_node(link);
    if title.as_str().is_empty() {
        return Ok(None);
    }
    let location = read_place(item, 1);
    let close_at = match first_inner(item, 2) {
        Some(node) => {
            let text = text_from_node(node);
            match parse_event_close(text.as_str()) {
                Ok(close_at) => close_at,
                Err(()) => return Err(ListingError::Close(text)),
            }
        },
        None => None,
    };
    match join_url(BASE_URL, href.as_str()) {
        Ok(url) => Ok(Some(EventStub { title, url, location, close_at })),
        Err(words) => Err(ListingError::Link(words)),
    }
}

/// Reads the address of the picture in an entry.
fn read_thumbnail(item: &Found) -> (r: Option<String>)
    requires
        has_shape(item@, 5, 4),
    ensures
        optional_text(r) == thumbnail_of(first_of(item@, 0)),
{
    assert(first_of(item@, 0) matches Some(e) ==> item@.inner[0][0] == e);
    let node = match first_inner(item, 0) {
        Some(node) => node,
        None => return None,
    };
    let src = match attribute(node, SRC) {
        Some(src) => src,
        None => match attribute(node, DATA_SRC) {
            Some(src) => src,
            None => return None,
        },
    };
    if is_image_url(src.as_str()) {
        match join_url(BASE_URL, src.as_str()) {
            Ok(url) => Some(url),
            Err(_) => None,
        }
    } else {
        None
    }
}

/// Reads the bid in an entry.
fn read_bid_display(item: &Found) -> (r: String)
    requires
        has_shape(item@, 5, 4),
    ensures
        r@ == bid_of(first_of(item@, 3)),
{
    match first_inner(item, 3) {
        Some(node) => {
            let text = text_from_node(node);
            let bid = extract_bid(text.as_str());
            if bid.as_str().is_empty() {
                "N/A".to_owned()
            } else {
                bid
            }
        },
        None => "N/A".to_owned(),
    }
}

/// Reads when the lot of an entry closes.
fn read_lot_close(item: &Found) -> (r: Option<Moment>)
    requires
        has_shape(item@, 5, 4),
    ensures
        optional_moment(r) == lot_close_of(first_of(item@, 4)),
{
    assert(first_of(item@, 4) matches Some(e) ==> item@.inner[4][0] == e);
    match first_inner(item, 4) {
        Some(node) => match attribute(node, VALUE) {
            Some(value) => parse_lot_close(value.as_str()),
            None => None,
        },
        None => None,
    }
}

/// Reads a lot's entry, and says where its bid is too large to count.
pub fn lot_from_item(item: &Found) -> (r: Result<Option<Lot>, ListingError>)
    requires
        has_shape(item@, 5, 4),
    ensures
        lot_outcome(r) == lot_of_item(item@),
{
    assert(first_of(item@, 1) matches Some(e) ==> item@.inner[1][0] == e);
    let link = match first_inner(item, 1) {
        Some(link) => link,
        None => return Ok(None),
    };
    let href = match attribute(link, HREF) {
        Some(href) => href,
        None => return Ok(None),
    };
    let name = text_from_node(link);
    if name.as_str().is_empty() {
        return Ok(None);
    }
    let thumbnail_url = read_thumbnail(item);
    let location = read_place(item, 2);
    let bid_display = read_bid_display(item);
    let close_at = read_lot_close(item);
    match join_url(BASE_URL, href.as_str()) {
        Ok(url) => {
            if !bid_is_countable(bid_display.as_str()) {
                return Err(ListingError::Bid(bid_display));
            }
            let bid_cents = parse_bid_cents(bid_display.as_str());
            Ok(
                Some(
                    Lot { name, url, thumbnail_url, location, bid_display, bid_cents, close_at },
                ),
            )
        },
        Err(words) => Err(ListingError::Link(words)),
    }
}

/// The outcome of reading a list of auctions.
pub open spec fn events_outcome(r: Result<Vec<EventStub>, ListingError>) -> Result<
    Seq<EventText>,
    Fault,
> {
    match r {
        Ok(list) => Ok(event_texts(list@)),
        Err(e) => Err(e@),
    }
}

/// The outcome of reading a list of lots.
pub open spec fn lots_outcome(r: Result<Vec<Lot>, ListingError>) -> Result<Seq<LotText>, Fault> {
    match r {
        Ok(list) => Ok(lot_texts(list@)),
        Err(e) => Err(e@),
    }
}

/// A fault among the first entries spoils the list.
proof fn lemma_event_fault_spoils(items: Seq<FoundText>, n: int)
    requires
        0 <= n <= items.len(),
        events_of_items(items.take(n)) is Err,
    ensures
        events_of_items(items) == events_of_items(items.take(n)),
    decreases items.len() - n,
{
    if n < items.len() {
        assert(items.take(n + 1).drop_last() =~= items.take(n));
        lemma_event_fault_spoils(items, n + 1);
    } else {
        assert(items.take(n) =~= items);
    }
}

/// A fault among the first entries spoils the list.
proof fn lemma_lot_fault_spoils(items: Seq<FoundText>, n: int)
    requires
        0 <= n <= items.len(),
        lots_of_items(items.take(n)) is Err,
    ensures
        lots_of_items(items) == lots_of_items(items.take(n)),
    decreases items.len() - n,
{
    if n < items.len() {
        assert(items.take(n + 1).drop_last() =~= items.take(n));
        lemma_lot_fault_spoils(items, n + 1);
    } else {
        assert(items.take(n) =~= items);
    }
}

/// Reads the entries of a list of auctions.
pub fn events_from_items(items: &Vec<Found>) -> (r: Result<Vec<EventStub>, ListingError>)
    requires
        all_shaped(items@, 3, 4),
    ensures
        events_outcome(r) == events_of_items(found_texts(items@)),
{
    let mut events: Vec<EventStub> = Vec::new();
    let mut i: usize = 0;
    let ghost all = found_texts(items@);
    assert(event_texts(events@) =~= seq![]);
    while i < items.len()
        invariant
            i <= items@.len(),
            all == found_texts(items@),
            all_shaped(items@, 3, 4),
            events_of_items(all.take(i as int)) == Ok::<_, Fault>(event_texts(events@)),
        decreases items@.len() - i,
    {
        proof {
            let next = all.take(i as int + 1);
            assert(next.drop_last() =~= all.take(i as int));
            assert(next.last() == items@[i as int]@);
        }
        match event_from_item(&items[i]) {
            Ok(Some(event)) => {
                assert(event_texts(events@.push(event)) =~= event_texts(events@).push(event@));
                events.push(event);
            },
            Ok(None) => {},
            Err(e) => {
                proof {
                    lemma_event_fault_spoils(all, i as int + 1);
                }
                return Err(e);
            },
        }
        i += 1;
    }
    assert(all.take(i as int) =~= all);
    Ok(events)
}

/// Reads the entries of a list of lots, and says where a bid is too large to count.
pub fn lots_from_items(items: &Vec<Found>) -> (r: Result<Vec<Lot>, ListingError>)
    requires
        all_shaped(items@, 5, 4),
    ensures
        lots_outcome(r) == lots_of_items(found_texts(items@)),
{
    let mut lots: Vec<Lot> = Vec::new();
    let mut i: usize = 0;
    let ghost all = found_texts(items@);
    assert(lot_texts(lots@) =~= seq![]);
    while i < items.len()
        invariant
            i <= items@.len(),
            all == found_texts(items@),
            all_shaped(items@, 5, 4),
            lots_of_items(all.take(i as int)) == Ok::<_, Fault>(lot_texts(lots@)),
        decreases items@.len() - i,
    {
        proof {
            let next = all.take(i as int + 1);
            assert(next.drop_last() =~= all.take(i as int));
            assert(next.last() == items@[i as int]@);
        }
        match lot_from_item(&items[i]) {
            Ok(Some(lot)) => {
                assert(lot_texts(lots@.push(lot)) =~= lot_texts(lots@).push(lot@));
                lots.push(lot);
            },
            Ok(None) => {},
            Err(e) => {
                proof {
                    lemma_lot_fault_spoils(all, i as int + 1);
                }
                return Err(e);
            },
        }
        i += 1;
    }
    assert(all.take(i as int) =~= all);
    Ok(lots)
}

/// The auctions on a page, or on a piece of one.
pub open spec fn page_events(page: Seq<char>, whole: bool) -> Result<Seq<EventText>, Fault> {
    match page_found(page, whole, ".online-auction-item"@, event_parts(), attribute_names()) {
        Ok(items) => events_of_items(items),
        Err(selector) => Err(Fault::Selector(selector)),
    }
}

/// The lots on a page, or on a piece of one.
pub open spec fn page_lots(page: Seq<char>, whole: bool) -> Result<Seq<LotText>, Fault> {
    match page_found(page, whole, ".auction-product-item"@, lot_parts(), attribute_names()) {
        Ok(items) => lots_of_items(items),
        Err(selector) => Err(Fault::Selector(selector)),
    }
}

/// Reads the auctions on a page, or on a piece of one.
pub fn parse_events_from_html(page: &str, whole: bool) -> (r: Result<Vec<EventStub>, ListingError>)
    ensures
        events_outcome(r) == page_events(page@, whole),
{
    let parts: [&str; 3] = [".item-title h4 a", ".item-location", ".item-date-no-feature h3"];
    let names: [&str; 4] = ["href", "src", "data-src", "value"];
    assert(borrowed_texts(parts@) =~= event_parts());
    assert(borrowed_texts(names@) =~= attribute_names());
    match find_in_page(page, whole, ".online-auction-item", &parts, &names) {
        Ok(items) => events_from_items(&items),
        Err(selector) => Err(ListingError::Selector(selector)),
    }
}

/// Reads the lots on a page, or on a piece of one. A bid too large to count in cents is a
/// fault of the page.
pub fn parse_lots_from_html(page: &str, whole: bool) -> (r: Result<Vec<Lot>, ListingError>)
    ensures
        lots_outcome(r) == page_lots(page@, whole),
{
    let parts: [&str; 5] = [
        ".item-img img",
        ".item-title h4 a",
        ".item-location",
        ".current-bid",
        "input[id^=\"txtLotEndDate\"]",
    ];
    let names: [&str; 4] = ["href", "src", "data-src", "value"];
    assert(borrowed_texts(parts@) =~= lot_parts());
    assert(borrowed_texts(names@) =~= attribute_names());
    match find_in_page(page, whole, ".auction-product-item", &parts, &names) {
        Ok(items) => lots_from_items(&items),
        Err(selector) => Err(ListingError::Selector(selector)),
    }
}

/// Reads the auctions on a page.
pub fn parse_events(html: &str) -> (r: Result<Vec<EventStub>, ListingError>)
    ensures
        events_outcome(r) == page_events(html@, true),
{
    parse_events_from_html(html, true)
}

/// Reads the auctions on a piece of a page.
pub fn parse_events_fragment(html: &str) -> (r: Result<Vec<EventStub>, ListingError>)
    ensures
        events_outcome(r) == page_events(html@, false),
{
    parse_events_from_html(html, false)
}

/// Reads the lots on a page.
pub fn parse_lots(html: &str) -> (r: Result<Vec<Lot>, ListingError>)
    ensures
        lots_outcome(r) == page_lots(html@, true),
{
    parse_lots_from_html(html, true)
}

/// Reads the lots on a piece of a page.
pub fn parse_lots_fragment(html: &str) -> (r: Result<Vec<Lot>, ListingError>)
    ensures
        lots_outcome(r) == page_lots(html@, false),
{
    parse_lots_from_html(html, false)
}

/// The number of the next item that a page names, by the elements found for it.
pub open spec fn next_item_of(items: Seq<FoundText>) -> Result<Option<nat>, Fault> {
    if items.len() == 0 {
        Ok(None)
    } else {
        match items[0].element.attributes[VALUE as int] {
            None => Ok(None),
            Some(value) => {
                let digits = trimmed(value);
                if digits.len() == 0 {
                    Ok(None)
                } else {
                    match unsigned_value(digits, usize::MAX as nat) {
                        Some(n) => Ok(Some(n)),
                        None => Err(Fault::NextItem(digits)),
                    }
                }
            },
        }
    }
}

/// The number of the next item that a page names.
pub open spec fn page_next_item(page: Seq<char>) -> Result<Option<nat>, Fault> {
    match page_found(page, true, "#txtNextItem"@, seq![], attribute_names()) {
        Ok(items) => next_item_of(items),
        Err(selector) => Err(Fault::Selector(selector)),
    }
}

/// The outcome of reading the number of the next item.
pub open spec fn next_item_outcome(r: Result<Option<usize>, ListingError>) -> Result<
    Option<nat>,
    Fault,
> {
    match r {
        Ok(Some(n)) => Ok(Some(n as nat)),
        Ok(None) => Ok(None),
        Err(e) => Err(e@),
    }
}

/// Reads the number of the next item from the elements found for it.
pub fn next_item_from_items(items: &Vec<Found>) -> (r: Result<Option<usize>, ListingError>)
    requires
        all_shaped(items@, 0, 4),
    ensures
        next_item_outcome(r) == next_item_of(found_texts(items@)),
{
    if items.len() == 0 {
        return Ok(None);
    }
    assert(found_texts(items@)[0] == items@[0]@);
    match attribute(&items[0].element, VALUE) {
        None => Ok(None),
        Some(value) => {
            let digits = trim(value.as_str());
            if digits.as_str().is_empty() {
                return Ok(None);
            }
            match parse_usize(digits.as_str()) {
                Some(n) => Ok(Some(n)),
                None => Err(ListingError::NextItem(digits)),
            }
        },
    }
}

/// Reads the number of the next item that a page names.
pub fn parse_next_item(html: &str) -> (r: Result<Option<usize>, ListingError>)
    ensures
        next_item_outcome(r) == page_next_item(html@),
{
    let parts: [&str; 0] = [];
    let names: [&str; 4] = ["href", "src", "data-src", "value"];
    assert(borrowed_texts(parts@) =~= seq![]);
    assert(borrowed_texts(names@) =~= attribute_names());
    match find_in_page(html, true, "#txtNextItem", &parts, &names) {
        Ok(items) => next_item_from_items(&items),
        Err(selector) => Err(ListingError::Selector(selector)),
    }
}

/// A lot that is read from an entry has the name and the address of its link. Its bid is the
/// one that its bid's element names, and the amount that it is sorted by is that of the bid that
/// is shown; an entry without a bid's element shows that there is none. It closes when the value
/// of its last element says, and stands where the text of its place says.
pub proof fn law_lot_says_what_its_entry_says(item: FoundText, lot: LotText, amount: Seq<char>)
    requires
        lot_of_item(item) == Ok::<_, Fault>(Some(lot)),
    ensures
        item.inner[1].len() > 0,
        lot.name == text_of(item.inner[1][0]) && lot.name.len() > 0,
        item.inner[1][0].attributes[0] matches Some(href) && joined_url(
            "https://www.mcdougallauction.com/"@,
            href,
        ) == Ok::<_, Seq<char>>(lot.url),
        item.inner[2].len() > 0 ==> lot.location == location_text(text_of(item.inner[2][0])),
        item.inner[2].len() == 0 ==> lot.location.len() == 0,
        item.inner[3].len() == 0 ==> lot.bid_display == "N/A"@,
        amount.len() > 0 && is_tight(amount) && !contains(amount, " CAD"@) && item.inner[3].len()
            > 0 && (text_of(item.inner[3][0]) == "Current Bid: "@ + amount + " CAD"@ || text_of(
            item.inner[3][0],
        ) == "Current Bid: "@ + amount) ==> lot.bid_display == amount,
        lot.bid_display.len() > 0,
        lot.bid_cents == bid_cents(lot.bid_display),
        item.inner[4].len() > 0 ==> (match item.inner[4][0].attributes[3] {
            Some(value) => lot.close_at == rfc3339_moment(value),
            None => lot.close_at is None,
        }),
        item.inner[4].len() == 0 ==> lot.close_at is None,
{
    if amount.len() > 0 && is_tight(amount) && !contains(amount, " CAD"@) {
        law_bid_is_the_amount(amount);
    }
    reveal_strlit("N/A");
}

/// The picture of a lot is the one that its picture's element names, now or for late loading,
/// where that leads to a picture.
pub proof fn law_thumbnail_is_the_picture(item: FoundText, lot: LotText)
    requires
        lot_of_item(item) == Ok::<_, Fault>(Some(lot)),
        item.inner[0].len() > 0,
    ensures
        ({
            let now = item.inner[0][0].attributes[1];
            let late = item.inner[0][0].attributes[2];
            &&& (now matches Some(src) ==> links_picture(src) ==> match joined_url(
                "https://www.mcdougallauction.com/"@,
                src,
            ) {
                Ok(url) => lot.thumbnail_url == Some(url),
                Err(_) => lot.thumbnail_url is None,
            })
            &&& (now matches Some(src) ==> !links_picture(src) ==> lot.thumbnail_url is None)
            &&& (late matches Some(src) ==> now is None && links_picture(src) ==> match joined_url(
                "https://www.mcdougallauction.com/"@,
                src,
            ) {
                Ok(url) => lot.thumbnail_url == Some(url),
                Err(_) => lot.thumbnail_url is None,
            })
            &&& (now is None && late is None ==> lot.thumbnail_url is None)
        }),
        attribute_names()[0] == "href"@,
        attribute_names()[1] == "src"@,
        attribute_names()[2] == "data-src"@,
        attribute_names()[3] == "value"@,
{
}

/// An entry gives a lot if and only if it has a link with an address and a text, the address can
/// be joined to that of the auction house, and the bid can be counted. One without link, address
/// or text is passed over.
pub proof fn law_entries_with_a_link_are_lots(item: FoundText)
    ensures
        lot_of_item(item) == Ok::<Option<LotText>, Fault>(None) <==> item.inner[1].len() == 0
            || item.inner[1][0].attributes[0] is None || text_of(item.inner[1][0]).len() == 0,
        item.inner[1].len() > 0 && text_of(item.inner[1][0]).len() > 0 && (
        item.inner[1][0].attributes[0] matches Some(href) && joined_url(
            "https://www.mcdougallauction.com/"@,
            href,
        ) is Ok) && (item.inner[3].len() > 0 ==> bid_fits(bid_text(text_of(item.inner[3][0]))))
            ==> lot_of_item(item) matches Ok(Some(_)),
        event_of_item(item) == Ok::<Option<EventText>, Fault>(None) <==> item.inner[0].len() == 0
            || item.inner[0][0].attributes[0] is None || text_of(item.inner[0][0]).len() == 0,
{
    reveal_strlit("N/A");
    let none = "N/A"@;
    assert(none =~= seq!['N', '/', 'A']);
    assert(none.drop_last() =~= seq!['N', '/']);
    assert(seq!['N', '/'].drop_last() =~= seq!['N']);
    assert(seq!['N'].drop_last() =~= seq![]);
    assert(digits_and_points(Seq::<char>::empty()) =~= seq![]);
    assert(digits_and_points(seq!['N']) =~= seq![]);
    assert(digits_and_points(seq!['N', '/']) =~= seq![]);
    assert(digits_and_points(none) =~= seq![]);
    assert(bid_cents(none) is None);
}

/// An auction that is read from an entry has the title and the address of its link, stands where
/// the text of its place says, and closes when the text of its date says.
pub proof fn law_auction_says_what_its_entry_says(item: FoundText, event: EventText)
    requires
        event_of_item(item) == Ok::<_, Fault>(Some(event)),
    ensures
        item.inner[0].len() > 0,
        event.title == text_of(item.inner[0][0]) && event.title.len() > 0,
        item.inner[0][0].attributes[0] matches Some(href) && joined_url(
            "https://www.mcdougallauction.com/"@,
            href,
        ) == Ok::<_, Seq<char>>(event.url),
        item.inner[1].len() > 0 ==> event.location == location_text(text_of(item.inner[1][0])),
        item.inner[1].len() == 0 ==> event.location.len() == 0,
        item.inner[2].len() > 0 ==> event_close(text_of(item.inner[2][0])) == Ok::<_, ()>(
            event.close_at,
        ),
        item.inner[2].len() == 0 ==> event.close_at is None,
{
}

/// What is read entry by entry: the first entry at fault spoils it.
spec fn collected<E>(
    items: Seq<FoundText>,
    read: spec_fn(FoundText) -> Result<Option<E>, Fault>,
) -> Result<Seq<E>, Fault>
    decreases items.len(),
{
    if items.len() == 0 {
        Ok(seq![])
    } else {
        match collected(items.drop_last(), read) {
            Err(fault) => Err(fault),
            Ok(list) => match read(items.last()) {
                Err(fault) => Err(fault),
                Ok(None) => Ok(list),
                Ok(Some(entry)) => Ok(list.push(entry)),
            },
        }
    }
}

/// A list is what some entries give when they are read, and nothing else; and where each entry
/// gives something, it is in the order of the entries.
pub open spec fn are_read_from<E>(
    items: Seq<FoundText>,
    read: spec_fn(FoundText) -> Result<Option<E>, Fault>,
    list: Seq<E>,
) -> bool {
    &&& forall|i: int|
        0 <= i < items.len() ==> #[trigger] read(items[i]) is Ok && (read(items[i]) matches Ok(
            Some(entry),
        ) ==> list.contains(entry))
    &&& forall|k: int|
        0 <= k < list.len() ==> exists|i: int|
            0 <= i < items.len() && #[trigger] read(items[i]) == Ok::<_, Fault>(
                Some(#[trigger] list[k]),
            )
    &&& (forall|i: int| 0 <= i < items.len() ==> #[trigger] read(items[i]) matches Ok(Some(_)))
        ==> list.len() == items.len() && forall|i: int|
        0 <= i < items.len() ==> #[trigger] read(items[i]) == Ok::<_, Fault>(Some(list[i]))
}

/// What is read entry by entry holds what each entry gives, and nothing else.
proof fn lemma_collected<E>(
    items: Seq<FoundText>,
    read: spec_fn(FoundText) -> Result<Option<E>, Fault>,
    list: Seq<E>,
)
    requires
        collected(items, read) == Ok::<_, Fault>(list),
    ensures
        are_read_from(items, read, list),
    decreases items.len(),
{
    if items.len() > 0 {
        let rest = items.drop_last();
        let before = collected(rest, read)->Ok_0;
        lemma_collected(rest, read, before);
        assert forall|i: int| 0 <= i < items.len() implies #[trigger] read(items[i]) is Ok && (read(
            items[i],
        ) matches Ok(Some(entry)) ==> list.contains(entry)) by {
            if i < rest.len() {
                assert(read(rest[i]) == read(items[i]));
                match read(items[i]) {
                    Ok(Some(entry)) => {
                        let j = choose|j: int| 0 <= j < before.len() && before[j] == entry;
                        assert(list[j] == entry);
                    },
                    _ => {},
                }
            } else {
                match read(items[i]) {
                    Ok(Some(entry)) => {
                        assert(list[list.len() - 1] == entry);
                    },
                    _ => {},
                }
            }
        }
        assert forall|k: int| 0 <= k < list.len() implies exists|i: int|
            0 <= i < items.len() && #[trigger] read(items[i]) == Ok::<_, Fault>(
                Some(#[trigger] list[k]),
            ) by {
            if k < before.len() {
                assert(before[k] == list[k]);
                let i = choose|i: int|
                    0 <= i < rest.len() && #[trigger] read(rest[i]) == Ok::<_, Fault>(
                        Some(before[k]),
                    );
                assert(read(items[i]) == read(rest[i]));
            } else {
                assert(read(items[items.len() - 1]) == Ok::<_, Fault>(Some(list[k])));
            }
        }
        if forall|i: int| 0 <= i < items.len() ==> #[trigger] read(items[i]) matches Ok(Some(_)) {
            assert forall|i: int| 0 <= i < rest.len() implies #[trigger] read(
                rest[i],
            ) matches Ok(Some(_)) by {
                assert(read(rest[i]) == read(items[i]));
            }
            assert(read(items[items.len() - 1]) matches Ok(Some(_)));
            assert forall|i: int| 0 <= i < items.len() implies #[trigger] read(items[i])
                == Ok::<_, Fault>(Some(list[i])) by {
                if i < rest.len() {
                    assert(read(rest[i]) == read(items[i]));
                }
            }
        }
    }
}

/// What a page lists is what its entries give, in their order: each entry that gives a lot, and
/// no other.
pub proof fn law_lots_of_a_page_are_those_of_its_entries(
    items: Seq<FoundText>,
    lots: Seq<LotText>,
)
    requires
        lots_of_items(items) == Ok::<_, Fault>(lots),
    ensures
        are_read_from(items, |item: FoundText| lot_of_item(item), lots),
{
    lemma_lots_are_collected(items);
    lemma_collected(items, |item: FoundText| lot_of_item(item), lots);
}

/// What a page lists is collected entry by entry.
proof fn lemma_lots_are_collected(items: Seq<FoundText>)
    ensures
        lots_of_items(items) == collected(items, |item: FoundText| lot_of_item(item)),
    decreases items.len(),
{
    if items.len() > 0 {
        lemma_lots_are_collected(items.drop_last());
    }
}

/// The auctions on a page are what its entries give, in their order: each entry that gives an
/// auction, and no other.
pub proof fn law_auctions_of_a_page_are_those_of_its_entries(
    items: Seq<FoundText>,
    events: Seq<EventText>,
)
    requires
        events_of_items(items) == Ok::<_, Fault>(events),
    ensures
        are_read_from(items, |item: FoundText| event_of_item(item), events),
{
    lemma_events_are_collected(items);
    lemma_collected(items, |item: FoundText| event_of_item(item), events);
}

/// What a page lists is collected entry by entry.
proof fn lemma_events_are_collected(items: Seq<FoundText>)
    ensures
        events_of_items(items) == collected(items, |item: FoundText| event_of_item(item)),
    decreases items.len(),
{
    if items.len() > 0 {
        lemma_events_are_collected(items.drop_last());
    }
}

/// The pages are read by the classes and names that the auction house gives to the elements.
pub proof fn law_pages_are_read_by_their_classes(page: Seq<char>, whole: bool)
    ensures
        page_found(
            page,
            whole,
            ".online-auction-item"@,
            seq![".item-title h4 a"@, ".item-location"@, ".item-date-no-feature h3"@],
            seq!["href"@, "src"@, "data-src"@, "value"@],
        ) matches Ok(items) ==> page_events(page, whole) == events_of_items(items),
        page_found(
            page,
            whole,
            ".auction-product-item"@,
            seq![
                ".item-img img"@,
                ".item-title h4 a"@,
                ".item-location"@,
                ".current-bid"@,
                "input[id^=\"txtLotEndDate\"]"@,
            ],
            seq!["href"@, "src"@, "data-src"@, "value"@],
        ) matches Ok(items) ==> page_lots(page, whole) == lots_of_items(items),
{
}

/// The number of the next item is the value of the first element that is to hold it.
pub proof fn law_next_item_is_the_value(items: Seq<FoundText>, n: nat)
    requires
        items.len() > 0,
        n <= usize::MAX,
    ensures
        items[0].element.attributes[3] == Some(decimal(n)) ==> next_item_of(items) == Ok::<
            _,
            Fault,
        >(Some(n)),
        items[0].element.attributes[3] is None ==> next_item_of(items) == Ok::<Option<nat>, Fault>(
            None,
        ),
        next_item_of(Seq::empty()) == Ok::<Option<nat>, Fault>(None),
{
    law_unsigned_round_trip(n, usize::MAX as nat);
    law_trimming_takes_off_space(seq![], decimal(n), seq![]);
}

/// What lots, auctions and details say is what their fields hold, each its own.
pub proof fn law_entries_say_their_fields(event: EventStub, lot: Lot, details: LotDetails)
    ensures
        event@.title == event.title@ && event@.url == event.url@ && event@.location
            == event.location@ && event@.close_at == optional_moment(event.close_at),
        lot@.name == lot.name@ && lot@.url == lot.url@ && lot@.location == lot.location@,
        lot@.bid_display == lot.bid_display@ && lot@.close_at == optional_moment(lot.close_at),
        lot.bid_cents matches Some(cents) ==> lot@.bid_cents == Some(cents as int),
        lot.bid_cents is None ==> lot@.bid_cents is None,
        lot.thumbnail_url matches Some(url) ==> lot@.thumbnail_url == Some(url@),
        lot.thumbnail_url is None ==> lot@.thumbnail_url is None,
        details@.photos == texts(details.photos@) && details@.info_lines == texts(
            details.info_lines@,
        ),
        details@.documents.len() == details.documents@.len(),
        forall|i: int|
            0 <= i < details.documents@.len() ==> #[trigger] details@.documents[i] == (
                details.documents@[i].label@,
                details.documents@[i].url@,
            ),
{
}

/// The words for a fault end with the text at fault, behind words for what is wrong with it; those
/// for an address are the ones that came with it.
pub proof fn law_words_name_what_is_at_fault(value: Seq<char>)
    ensures
        fault_words(Fault::Link(value)) == value,
        fault_words(Fault::Selector(value)) == "invalid selector: "@ + value,
        fault_words(Fault::Close(value)) == "failed to parse event close time: "@ + value,
        fault_words(Fault::NextItem(value)) == "invalid next item value: "@ + value,
        value.is_suffix_of(fault_words(Fault::Bid(value))),
{
    let words = fault_words(Fault::Bid(value));
    assert(value =~= words.skip(words.len() - value.len()));
}

} // verus!
