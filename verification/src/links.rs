//! Addresses of pages.
use vstd::prelude::*;

use reqwest::Url;

use crate::numbers::{decimal, decimal_text};
use crate::text::concat;

verus! {

/// The start page of the auction house.
pub const BASE_URL: &'static str = "https://www.mcdougallauction.com/";

/// The page that lists all auctions.
pub const EVENT_LIST_URL: &'static str = "https://www.mcdougallauction.com/auction-event-list.php";

/// A list of named values as texts.
pub open spec fn pair_texts(list: Seq<(String, String)>) -> Seq<(Seq<char>, Seq<char>)> {
    list.map_values(|p: (String, String)| (p.0@, p.1@))
}

/// A list of named values as texts, or the words for why there is none.
pub open spec fn pairs_outcome(list: Result<Vec<(String, String)>, String>) -> Result<
    Seq<(Seq<char>, Seq<char>)>,
    Seq<char>,
> {
    match list {
        Ok(list) => Ok(pair_texts(list@)),
        Err(words) => Err(words@),
    }
}

/// An address, or the words for why there is none.
pub open spec fn address_outcome(r: Result<String, String>) -> Result<Seq<char>, Seq<char>> {
    match r {
        Ok(address) => Ok(address@),
        Err(words) => Err(words@),
    }
}

/// The address that a link on a page leads to, or the words for why it leads to none.
pub uninterp spec fn joined_url(base: Seq<char>, link: Seq<char>) -> Result<Seq<char>, Seq<char>>;

/// The named values that an address carries in its query, or the words for why it is none.
pub uninterp spec fn query_of(address: Seq<char>) -> Result<
    Seq<(Seq<char>, Seq<char>)>,
    Seq<char>,
>;

/// An address with more named values in its query, or the words for why it is none.
pub uninterp spec fn with_query(
    address: Seq<char>,
    pairs: Seq<(Seq<char>, Seq<char>)>,
) -> Result<Seq<char>, Seq<char>>;

/// `reqwest::Url::join` resolves a link against the address of the page it stands on, by
/// these two alone; where one of them cannot be read, there are the words of the error.
#[verifier::external_body]
pub(crate) fn join_url(base: &str, link: &str) -> (r: Result<String, String>)
    ensures
        address_outcome(r) == joined_url(base@, link@),
{
    match Url::parse(base).and_then(|page| page.join(link)) {
        Ok(url) => Ok(url.to_string()),
        Err(error) => Err(error.to_string()),
    }
}

/// `reqwest::Url::query_pairs` gives the named values of an address's query, by the address
/// alone; where the address cannot be read, there are the words of the error.
#[verifier::external_body]
fn read_query(address: &str) -> (r: Result<Vec<(String, String)>, String>)
    ensures
        pairs_outcome(r) == query_of(address@),
{
    let url = Url::parse(address).map_err(|error| error.to_string())?;
    Ok(url.query_pairs().map(|(key, value)| (key.into_owned(), value.into_owned())).collect())
}

/// `reqwest::Url::query_pairs_mut` and `append_pair` put named values at the end of an
/// address's query, by these alone; where the address cannot be read, there are the words of
/// the error.
#[verifier::external_body]
fn append_query(address: &str, pairs: &Vec<(String, String)>) -> (r: Result<String, String>)
    ensures
        address_outcome(r) == with_query(address@, pair_texts(pairs@)),
{
    let mut url = Url::parse(address).map_err(|error| error.to_string())?;
    url.query_pairs_mut().extend_pairs(pairs.iter());
    Ok(url.to_string())
}

/// The page that hands out listings piece by piece.
pub open spec fn more_url() -> Seq<char> {
    BASE_URL@ + "searchmore.php"@
}

/// The query for a piece of a listing.
pub open spec fn more_pairs(
    kind: Seq<char>,
    next_item: nat,
    extra: Seq<(Seq<char>, Seq<char>)>,
) -> Seq<(Seq<char>, Seq<char>)> {
    seq![("type"@, kind), ("nextitem"@, decimal(next_item))] + extra
}

/// The query for a piece of a listing.
fn more_query(kind: &str, next_item: usize, extra: Vec<(String, String)>) -> (r: Vec<
    (String, String),
>)
    ensures
        pair_texts(r@) == more_pairs(kind@, next_item as nat, pair_texts(extra@)),
{
    let mut pairs: Vec<(String, String)> = Vec::new();
    pairs.push(("type".to_owned(), kind.to_owned()));
    pairs.push(("nextitem".to_owned(), decimal_text(next_item as u64)));
    let ghost head = pairs@;
    let mut rest: Vec<(String, String)> = extra;
    pairs.append(&mut rest);
    assert(pairs@ =~= head + extra@);
    assert(pair_texts(pairs@) =~= more_pairs(kind@, next_item as nat, pair_texts(extra@)));
    pairs
}

/// The address of a piece of the list of auctions.
pub open spec fn events_page(next_item: nat) -> Result<Seq<char>, Seq<char>> {
    with_query(more_url(), more_pairs("event"@, next_item, seq![]))
}

/// The address of a piece of the list of an auction's lots, by the address of the auction.
pub open spec fn lots_page(event_url: Seq<char>, next_item: nat) -> Result<
    Seq<char>,
    Seq<char>,
> {
    match query_of(event_url) {
        Ok(extra) => with_query(more_url(), more_pairs("eventproducts"@, next_item, extra)),
        Err(words) => Err(words),
    }
}

/// The address of a piece of the list of auctions.
pub fn events_page_url(next_item: usize) -> (r: Result<String, String>)
    ensures
        address_outcome(r) == events_page(next_item as nat),
{
    let address = concat(BASE_URL, "searchmore.php");
    let none: Vec<(String, String)> = Vec::new();
    assert(pair_texts(none@) =~= seq![]);
    let pairs = more_query("event", next_item, none);
    append_query(address.as_str(), &pairs)
}

/// The address of a piece of the list of an auction's lots, by the address of the auction.
pub fn lots_page_url(event_url: &str, next_item: usize) -> (r: Result<String, String>)
    ensures
        address_outcome(r) == lots_page(event_url@, next_item as nat),
{
    match read_query(event_url) {
        Ok(extra) => {
            let address = concat(BASE_URL, "searchmore.php");
            let pairs = more_query("eventproducts", next_item, extra);
            append_query(address.as_str(), &pairs)
        },
        Err(words) => Err(words),
    }
}

/// The pieces of the list of auctions, and of an auction's lots, are asked for at one address of
/// the auction house, by their kind and the number of their first item; those of lots carry what
/// the address of the auction carries too.
pub proof fn law_pieces_are_asked_for_by_their_item(
    event_url: Seq<char>,
    next_item: nat,
    extra: Seq<(Seq<char>, Seq<char>)>,
)
    ensures
        events_page(next_item) == with_query(
            "https://www.mcdougallauction.com/"@ + "searchmore.php"@,
            seq![("type"@, "event"@), ("nextitem"@, decimal(next_item))],
        ),
        query_of(event_url) == Ok::<_, Seq<char>>(extra) ==> lots_page(event_url, next_item)
            == with_query(
            "https://www.mcdougallauction.com/"@ + "searchmore.php"@,
            seq![("type"@, "eventproducts"@), ("nextitem"@, decimal(next_item))] + extra,
        ),
        query_of(event_url) matches Err(words) ==> lots_page(event_url, next_item) == Err::<
            Seq<char>,
            _,
        >(words),
{
    assert(more_pairs("event"@, next_item, seq![]) =~= seq![
        ("type"@, "event"@),
        ("nextitem"@, decimal(next_item)),
    ]);
}

} // verus!
