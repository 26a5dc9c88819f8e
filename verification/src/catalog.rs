//! The auctions to show, their lots, and the order of both.
use vstd::prelude::*;

use crate::keys::lemma_picked;
use crate::listing::{lot_texts, EventStub, EventText, Lot, LotText};
use crate::moments::{in_calendar, later, optional_moment, utc_now, Moment};
use crate::ranking::{
    first_telling, is_stable_sort, lemma_text_rank, option_rank, rank_options, rank_options_desc,
    rank_texts, ranked_views, sort_stably, telling, text_rank, Rank, Ranked,
};
use crate::text::{chars_of, contains, contains_case_insensitive, lowercase_text};

verus! {

/// What the lots of an auction are sorted by.
#[derive(Debug, Clone, Copy, PartialEq, Eq, Structural)]
pub enum SortKey {
    Close,
    Price,
    Name,
}

impl SortKey {
    /// The name of a sort key.
    pub open spec fn name(self) -> Seq<char> {
        match self {
            SortKey::Close => "close"@,
            SortKey::Price => "price"@,
            SortKey::Name => "name"@,
        }
    }

    /// The name of this sort key.
    pub fn text(&self) -> (r: &'static str)
        ensures
            r@ == self.name(),
    {
        match self {
            SortKey::Close => "close",
            SortKey::Price => "price",
            SortKey::Name => "name",
        }
    }
}

/// What is asked for: the city, a part of the name, the order, whether to show what has
/// closed, and whether to print rather than to browse.
#[derive(Debug)]
pub struct Cli {
    pub city: String,
    pub query: Option<String>,
    pub sort: SortKey,
    pub include_past: bool,
    pub plain: bool,
}

/// An auction with its lots.
#[derive(Debug)]
pub struct AuctionEvent {
    pub title: String,
    pub url: String,
    pub location: String,
    pub close_at: Option<Moment>,
    pub lots: Vec<Lot>,
}

/// What an auction with its lots says.
#[verifier::ext_equal]
pub struct AuctionText {
    pub title: Seq<char>,
    pub url: Seq<char>,
    pub location: Seq<char>,
    pub close_at: Option<(int, int)>,
    pub lots: Seq<LotText>,
}

impl View for AuctionEvent {
    type V = AuctionText;

    open spec fn view(&self) -> AuctionText {
        AuctionText {
            title: self.title@,
            url: self.url@,
            location: self.location@,
            close_at: optional_moment(self.close_at),
            lots: lot_texts(self.lots@),
        }
    }
}

/// What a list of auctions says.
pub open spec fn auction_texts(events: Seq<AuctionEvent>) -> Seq<AuctionText> {
    events.map_values(|e: AuctionEvent| e@)
}

/// The seconds of a closing time.
pub open spec fn close_second(close_at: Option<(int, int)>) -> Option<i64> {
    match close_at {
        Some(m) => Some(m.0 as i64),
        None => None,
    }
}

/// The amount of a bid.
pub open spec fn bid_amount(cents: Option<int>) -> Option<i64> {
    match cents {
        Some(n) => Some(n as i64),
        None => None,
    }
}

/// How two names rank, in lower case.
pub open spec fn name_rank(a: Seq<char>, b: Seq<char>) -> Rank {
    text_rank(lowercase_text(a), lowercase_text(b))
}

/// How two closing times rank: the earlier first, unknown ones last.
pub open spec fn close_rank(a: Option<(int, int)>, b: Option<(int, int)>) -> Rank {
    option_rank(close_second(a), close_second(b))
}

/// How two lots rank: by closing time and name; by bid, those without one first and then the
/// highest, and then by closing time and name; or by name and closing time.
pub open spec fn lot_rank(by: SortKey, a: LotText, b: LotText) -> Rank {
    let close = close_rank(a.close_at, b.close_at);
    let name = name_rank(a.name, b.name);
    match by {
        SortKey::Close => first_telling(close, name),
        SortKey::Price => first_telling(
            option_rank(bid_amount(b.bid_cents), bid_amount(a.bid_cents)),
            first_telling(close, name),
        ),
        SortKey::Name => first_telling(name, close),
    }
}

/// The order of lots by a sort key.
pub open spec fn lot_order(by: SortKey) -> spec_fn(LotText, LotText) -> Rank {
    |a: LotText, b: LotText| lot_rank(by, a, b)
}

/// The earlier of two closing times.
pub open spec fn earlier_close(a: Option<(int, int)>, b: Option<(int, int)>) -> Option<(int, int)> {
    match (a, b) {
        (Some(x), Some(y)) => if later(x, y) {
            b
        } else {
            a
        },
        (None, _) => b,
        (_, None) => a,
    }
}

/// When the first of some lots closes.
pub open spec fn first_close(lots: Seq<LotText>) -> Option<(int, int)>
    decreases lots.len(),
{
    if lots.len() == 0 {
        None
    } else {
        earlier_close(first_close(lots.drop_last()), lots.last().close_at)
    }
}

/// When an auction closes: when the first of its lots does, or as it says itself.
pub open spec fn primary_close(event: AuctionText) -> Option<(int, int)> {
    match first_close(event.lots) {
        Some(m) => Some(m),
        None => event.close_at,
    }
}

/// How two auctions rank: by closing time and title.
pub open spec fn auction_rank(a: AuctionText, b: AuctionText) -> Rank {
    first_telling(
        close_rank(primary_close(a), primary_close(b)),
        name_rank(a.title, b.title),
    )
}

/// The order of auctions.
pub open spec fn auction_order() -> spec_fn(AuctionText, AuctionText) -> Rank {
    |a: AuctionText, b: AuctionText| auction_rank(a, b)
}

/// The seconds of a closing time.
fn close_timestamp(close_at: &Option<Moment>) -> (r: Option<i64>)
    ensures
        r == close_second(optional_moment(*close_at)),
{
    match close_at {
        Some(m) => Some(m.timestamp()),
        None => None,
    }
}

impl Ranked for Lot {
    type By = SortKey;

    type Note = Vec<char>;

    open spec fn order(by: SortKey) -> spec_fn(LotText, LotText) -> Rank {
        lot_order(by)
    }

    open spec fn noted(note: Vec<char>, entry: LotText) -> bool {
        note@ == lowercase_text(entry.name)
    }

    proof fn lemma_order(by: SortKey) {
        let order = lot_order(by);
        assert forall|a: LotText, b: LotText| (#[trigger] order(a, b) == Rank::Before) == (order(b, a)
            == Rank::After) by {
            lemma_text_rank(lowercase_text(a.name), lowercase_text(b.name), seq![]);
            lemma_text_rank(lowercase_text(b.name), lowercase_text(a.name), seq![]);
        }
        assert forall|a: LotText, b: LotText, c: LotText|
            #![trigger order(a, c), order(b, c)]
            order(a, c) == Rank::Before implies order(a, b) == Rank::Before || order(b, c)
            == Rank::Before by {
            let x = lowercase_text(a.name);
            let y = lowercase_text(b.name);
            let z = lowercase_text(c.name);
            lemma_text_rank(x, y, z);
            lemma_text_rank(y, z, x);
            lemma_text_rank(x, z, y);
            lemma_text_rank(y, x, z);
            lemma_text_rank(z, y, x);
            lemma_text_rank(z, x, y);
        }
    }

    fn note(&self) -> (r: Vec<char>) {
        let lower = self.name.to_lowercase();
        chars_of(lower.as_str())
    }

    fn rank(by: &SortKey, a: &Lot, a_note: &Vec<char>, b: &Lot, b_note: &Vec<char>) -> (r: Rank) {
        let close = rank_options(close_timestamp(&a.close_at), close_timestamp(&b.close_at));
        match by {
            SortKey::Close => telling(close, rank_texts(a_note, b_note)),
            SortKey::Price => telling(
                rank_options_desc(a.bid_cents, b.bid_cents),
                telling(close, rank_texts(a_note, b_note)),
            ),
            SortKey::Name => telling(rank_texts(a_note, b_note), close),
        }
    }
}

impl Ranked for AuctionEvent {
    type By = ();

    type Note = (Option<i64>, Vec<char>);

    open spec fn order(by: ()) -> spec_fn(AuctionText, AuctionText) -> Rank {
        auction_order()
    }

    open spec fn noted(note: (Option<i64>, Vec<char>), entry: AuctionText) -> bool {
        &&& note.0 == close_second(primary_close(entry))
        &&& note.1@ == lowercase_text(entry.title)
    }

    proof fn lemma_order(by: ()) {
        let order = auction_order();
        assert forall|a: AuctionText, b: AuctionText| (#[trigger] order(a, b) == Rank::Before) == (
        order(b, a) == Rank::After) by {
            lemma_text_rank(lowercase_text(a.title), lowercase_text(b.title), seq![]);
            lemma_text_rank(lowercase_text(b.title), lowercase_text(a.title), seq![]);
        }
        assert forall|a: AuctionText, b: AuctionText, c: AuctionText|
            #![trigger order(a, c), order(b, c)]
            order(a, c) == Rank::Before implies order(a, b) == Rank::Before || order(b, c)
            == Rank::Before by {
            let x = lowercase_text(a.title);
            let y = lowercase_text(b.title);
            let z = lowercase_text(c.title);
            lemma_text_rank(x, y, z);
            lemma_text_rank(y, z, x);
            lemma_text_rank(x, z, y);
            lemma_text_rank(y, x, z);
            lemma_text_rank(z, y, x);
            lemma_text_rank(z, x, y);
        }
    }

    fn note(&self) -> (r: (Option<i64>, Vec<char>)) {
        let lower = self.title.to_lowercase();
        (close_timestamp(&self.primary_close_at()), chars_of(lower.as_str()))
    }

    fn rank(
        by: &(),
        a: &AuctionEvent,
        a_note: &(Option<i64>, Vec<char>),
        b: &AuctionEvent,
        b_note: &(Option<i64>, Vec<char>),
    ) -> (r: Rank) {
        telling(rank_options(a_note.0, b_note.0), rank_texts(&a_note.1, &b_note.1))
    }
}

impl AuctionEvent {
    /// When this auction closes: when the first of its lots does, or as it says itself.
    pub fn primary_close_at(&self) -> (r: Option<Moment>)
        ensures
            optional_moment(r) == primary_close(self@),
    {
        let mut first: Option<Moment> = None;
        let mut i: usize = 0;
        let ghost all = self@.lots;
        assert(all.take(0) =~= seq![]);
        while i < self.lots.len()
            invariant
                i <= self.lots@.len(),
                all == lot_texts(self.lots@),
                optional_moment(first) == first_close(all.take(i as int)),
            decreases self.lots@.len() - i,
        {
            proof {
                let next = all.take(i + 1);
                assert(next.drop_last() =~= all.take(i as int));
                assert(next.last() == self.lots@[i as int]@);
            }
            match (first, self.lots[i].close_at) {
                (Some(x), Some(y)) => {
                    if x.is_after(&y) {
                        first = Some(y);
                    }
                },
                (None, close_at) => {
                    first = close_at;
                },
                (Some(_), None) => {},
            }
            i += 1;
        }
        assert(all.take(i as int) =~= all);
        match first {
            Some(m) => Some(m),
            None => self.close_at,
        }
    }
}

/// Sorts the lots of an auction. Lots that rank the same keep their order.
pub fn sort_lots(lots: Vec<Lot>, sort_key: SortKey) -> (r: Vec<Lot>)
    ensures
        is_stable_sort(lot_texts(lots@), lot_texts(r@), lot_order(sort_key)),
{
    let ghost before = lots@;
    let r = sort_stably(lots, &sort_key);
    assert(ranked_views(before) =~= lot_texts(before));
    assert(ranked_views(r@) =~= lot_texts(r@));
    r
}

/// The part of a lot's name that is asked for stands in it.
pub open spec fn name_is_wanted(cli: Cli, name: Seq<char>) -> bool {
    match cli.query {
        Some(query) => contains(lowercase_text(name), lowercase_text(query@)),
        None => true,
    }
}

/// A place is in the city that is asked for.
pub open spec fn place_is_wanted(cli: Cli, location: Seq<char>) -> bool {
    contains(lowercase_text(location), lowercase_text(cli.city@))
}

/// A lot is asked for: by its place and its name, and because it is still to close.
pub open spec fn lot_is_wanted(cli: Cli, now: (int, int), lot: LotText) -> bool {
    &&& place_is_wanted(cli, lot.location)
    &&& name_is_wanted(cli, lot.name)
    &&& cli.include_past || (lot.close_at matches Some(close) && later(close, now))
}

/// The lots that are asked for.
pub open spec fn wanted_lots(cli: Cli, now: (int, int), lots: Seq<LotText>) -> Seq<LotText> {
    lots.filter(|lot: LotText| lot_is_wanted(cli, now, lot))
}

/// Whether the lots of an auction are asked for, by its place.
pub fn wants_event(cli: &Cli, event: &EventStub) -> (r: bool)
    ensures
        r == place_is_wanted(*cli, event@.location),
{
    let city = cli.city.to_lowercase();
    contains_case_insensitive(event.location.as_str(), city.as_str())
}

/// Keeps the lots that are asked for.
pub fn select_lots(cli: &Cli, now: &Moment, lots: Vec<Lot>) -> (r: Vec<Lot>)
    ensures
        lot_texts(r@) == wanted_lots(*cli, now@, lot_texts(lots@)),
{
    let city = cli.city.to_lowercase();
    let query = match &cli.query {
        Some(query) => Some(query.to_lowercase()),
        None => None,
    };
    let ghost all = lot_texts(lots@);
    let ghost whole = lots@;
    let ghost pred = |lot: LotText| lot_is_wanted(*cli, now@, lot);
    let mut kept: Vec<Lot> = Vec::new();
    reveal(Seq::filter);
    assert(lot_texts(kept@) =~= all.take(0).filter(pred));
    for lot in it: lots
        invariant
            it.seq() == whole,
            all == lot_texts(whole),
            pred == (|lot: LotText| lot_is_wanted(*cli, now@, lot)),
            city@ == lowercase_text(cli.city@),
            match cli.query {
                Some(q) => query matches Some(lower) && lower@ == lowercase_text(q@),
                None => query is None,
            },
            lot_texts(kept@) == all.take(it.index() as int).filter(pred),
    {
        proof {
            let i = it.index() as int;
            assert(all.take(i + 1) =~= all.take(i).push(all[i]));
            all.take(i).lemma_filter_push(all[i], pred);
            assert(lot_texts(kept@.push(lot)) =~= lot_texts(kept@).push(lot@));
        }
        let named = match &query {
            Some(query) => contains_case_insensitive(lot.name.as_str(), query.as_str()),
            None => true,
        };
        let open = match &lot.close_at {
            Some(close_at) => close_at.is_after(now),
            None => false,
        };
        if contains_case_insensitive(lot.location.as_str(), city.as_str()) && named && (
        cli.include_past || open) {
            kept.push(lot);
        }
    }
    assert(all.take(all.len() as int) =~= all);
    kept
}

/// An auction as it is shown: with the lots that are asked for in order, and not at all where
/// its place is not asked for or no lot is.
pub open spec fn shows_auction(
    cli: Cli,
    now: (int, int),
    event: EventText,
    lots: Seq<LotText>,
    shown: Option<AuctionText>,
) -> bool {
    let wanted = wanted_lots(cli, now, lots);
    if !place_is_wanted(cli, event.location) || wanted.len() == 0 {
        shown is None
    } else {
        shown matches Some(auction) && {
            &&& auction.title == event.title
            &&& auction.url == event.url
            &&& auction.location == event.location
            &&& auction.close_at == event.close_at
            &&& is_stable_sort(wanted, auction.lots, lot_order(cli.sort))
        }
    }
}

/// What an optional auction says.
pub open spec fn optional_auction(event: Option<AuctionEvent>) -> Option<AuctionText> {
    match event {
        Some(e) => Some(e@),
        None => None,
    }
}

/// The auction to show for one that was listed with its lots.
pub fn auction_to_show(cli: &Cli, now: &Moment, event: EventStub, lots: Vec<Lot>) -> (r: Option<
    AuctionEvent,
>)
    ensures
        shows_auction(*cli, now@, event@, lot_texts(lots@), optional_auction(r)),
{
    if !wants_event(cli, &event) {
        return None;
    }
    let lots = select_lots(cli, now, lots);
    if lots.len() == 0 {
        return None;
    }
    let lots = sort_lots(lots, cli.sort);
    Some(
        AuctionEvent {
            title: event.title,
            url: event.url,
            location: event.location,
            close_at: event.close_at,
            lots,
        },
    )
}

/// What a listed auction and its lots say.
pub open spec fn listed_texts(listed: Seq<(EventStub, Vec<Lot>)>) -> Seq<
    (EventText, Seq<LotText>),
> {
    listed.map_values(|e: (EventStub, Vec<Lot>)| (e.0@, lot_texts(e.1@)))
}

/// Each auction that was listed is shown as it should be.
pub open spec fn shows_each(
    cli: Cli,
    now: (int, int),
    listed: Seq<(EventText, Seq<LotText>)>,
    shown: Seq<Option<AuctionText>>,
) -> bool {
    &&& shown.len() == listed.len()
    &&& forall|i: int|
        0 <= i < listed.len() ==> shows_auction(
            cli,
            now,
            (#[trigger] listed[i]).0,
            listed[i].1,
            shown[i],
        )
}

/// Those auctions of a list that are shown.
pub open spec fn shown_only(shown: Seq<Option<AuctionText>>) -> Seq<AuctionText>
    decreases shown.len(),
{
    if shown.len() == 0 {
        seq![]
    } else {
        match shown.last() {
            Some(auction) => shown_only(shown.drop_last()).push(auction),
            None => shown_only(shown.drop_last()),
        }
    }
}

/// The auctions to show, in order, for those that were listed with their lots.
pub fn load_data(cli: &Cli, now: &Moment, listed: Vec<(EventStub, Vec<Lot>)>) -> (r: Vec<
    AuctionEvent,
>)
    ensures
        exists|shown: Seq<Option<AuctionText>>| #[trigger]
            shows_each(*cli, now@, listed_texts(listed@), shown) && is_stable_sort(
                shown_only(shown),
                auction_texts(r@),
                auction_order(),
            ),
{
    let ghost all = listed_texts(listed@);
    let ghost whole = listed@;
    let mut events: Vec<AuctionEvent> = Vec::new();
    let ghost mut shown: Seq<Option<AuctionText>> = seq![];
    assert(auction_texts(events@) =~= shown_only(shown));
    for entry in it: listed
        invariant
            it.seq() == whole,
            all == listed_texts(whole),
            shown.len() == it.index(),
            forall|i: int|
                0 <= i < shown.len() ==> shows_auction(
                    *cli,
                    now@,
                    (#[trigger] all[i]).0,
                    all[i].1,
                    shown[i],
                ),
            auction_texts(events@) == shown_only(shown),
    {
        let ghost i = it.index() as int;
        let (event, lots) = entry;
        assert(all[i] == (event@, lot_texts(lots@)));
        let auction = auction_to_show(cli, now, event, lots);
        proof {
            let ghost more = shown.push(optional_auction(auction));
            assert(more.drop_last() =~= shown);
            shown = more;
        }
        match auction {
            Some(auction) => {
                assert(auction_texts(events@.push(auction)) =~= auction_texts(events@).push(
                    auction@,
                ));
                events.push(auction);
            },
            None => {},
        }
    }
    let ghost before = events@;
    let sorted = sort_stably(events, &());
    assert(ranked_views(before) =~= auction_texts(before));
    assert(ranked_views(sorted@) =~= auction_texts(sorted@));
    assert(shows_each(*cli, now@, all, shown));
    sorted
}

/// A lot is worth keeping what was fetched for it: it has not closed yet, or it does not say
/// when it does.
pub open spec fn lot_is_active(lot: LotText, now: (int, int)) -> bool {
    lot.close_at matches Some(close) ==> later(close, now)
}

/// Whether a lot is worth keeping what was fetched for it.
pub fn lot_cache_is_active(lot: &Lot, now: &Moment) -> (r: bool)
    ensures
        r == lot_is_active(lot@, now@),
{
    match &lot.close_at {
        Some(close_at) => close_at.is_after(now),
        None => true,
    }
}

/// When what was fetched for a lot is no longer worth keeping.
pub fn lot_cache_expires_at(lot: &Lot) -> (r: Option<i64>)
    ensures
        r == close_second(lot@.close_at),
{
    close_timestamp(&lot.close_at)
}

/// Whether a lot is open, by the present point in time.
pub open spec fn status_of(lot: LotText, now: (int, int)) -> Seq<char> {
    match lot.close_at {
        Some(close) => if later(close, now) {
            "Open"@
        } else {
            "Closed"@
        },
        None => "Unknown"@,
    }
}

/// Whether a lot is open at a point in time.
pub fn lot_status_at(lot: &Lot, now: &Moment) -> (r: &'static str)
    ensures
        r@ == status_of(lot@, now@),
{
    match &lot.close_at {
        Some(close_at) => if close_at.is_after(now) {
            "Open"
        } else {
            "Closed"
        },
        None => "Unknown",
    }
}

/// Whether a lot is open now.
pub fn lot_status(lot: &Lot) -> (r: &'static str)
    ensures
        exists|now: (int, int)|
            in_calendar(now.0, now.1) && r@ == #[trigger] status_of(lot@, now),
        lot@.close_at is None ==> r@ == "Unknown"@,
{
    let now = utc_now();
    lot_status_at(lot, &now)
}

/// A list of auctions holds nothing that was not asked for: each lot that is shown was listed
/// and is asked for.
pub proof fn law_only_wanted_lots_are_shown(
    cli: Cli,
    now: (int, int),
    event: EventText,
    lots: Seq<LotText>,
    shown: Option<AuctionText>,
)
    requires
        shows_auction(cli, now, event, lots, shown),
    ensures
        shown matches Some(auction) ==> auction.lots.len() > 0 && forall|i: int|
            0 <= i < auction.lots.len() ==> lots.contains(#[trigger] auction.lots[i])
                && lot_is_wanted(cli, now, auction.lots[i]),
{
    let wanted = wanted_lots(cli, now, lots);
    let pred = |lot: LotText| lot_is_wanted(cli, now, lot);
    match shown {
        Some(auction) => {
            if place_is_wanted(cli, event.location) && wanted.len() > 0 {
                wanted.to_multiset_ensures();
                auction.lots.to_multiset_ensures();
                assert(auction.lots.len() == wanted.len());
                lemma_picked(lots, pred);
                assert forall|i: int| 0 <= i < auction.lots.len() implies lots.contains(
                    #[trigger] auction.lots[i],
                ) && lot_is_wanted(cli, now, auction.lots[i]) by {
                    let lot = auction.lots[i];
                    assert(auction.lots.contains(lot));
                    assert(auction.lots.to_multiset().count(lot) > 0);
                    assert(wanted.contains(lot));
                    let j = choose|j: int| 0 <= j < wanted.len() && wanted[j] == lot;
                    lots.lemma_filter_pred(pred, j);
                }
            }
        },
        None => {},
    }
}

/// An auction closes no later than any of its lots.
pub proof fn law_primary_close_is_first(event: AuctionText, i: int)
    requires
        0 <= i < event.lots.len(),
        event.lots[i].close_at is Some,
    ensures
        primary_close(event) is Some,
        !later(primary_close(event)->0, event.lots[i].close_at->0),
{
    lemma_first_close(event.lots, i);
}

/// The first closing time of some lots is no later than any of theirs.
proof fn lemma_first_close(lots: Seq<LotText>, i: int)
    requires
        0 <= i < lots.len(),
        lots[i].close_at is Some,
    ensures
        first_close(lots) is Some,
        !later(first_close(lots)->0, lots[i].close_at->0),
    decreases lots.len(),
{
    if i < lots.len() - 1 {
        assert(lots.drop_last()[i] == lots[i]);
        lemma_first_close(lots.drop_last(), i);
    }
}

/// A lot is kept if and only if it was listed, the city that is asked for stands in its place,
/// the query, where there is one, stands in its name, and it is still to close or past ones
/// are asked for too. The case of letters makes no difference, and nothing else of the lot
/// does. What is kept keeps its order.
pub proof fn law_lots_are_kept_by_city_query_and_close(
    cli: Cli,
    now: (int, int),
    lots: Seq<LotText>,
    lot: LotText,
)
    ensures
        wanted_lots(cli, now, lots).contains(lot) <==> {
            &&& lots.contains(lot)
            &&& contains(lowercase_text(lot.location), lowercase_text(cli.city@))
            &&& (cli.query matches Some(query) ==> contains(
                lowercase_text(lot.name),
                lowercase_text(query@),
            ))
            &&& (cli.include_past || (lot.close_at matches Some(close) && (close.0 > now.0 || (
            close.0 == now.0 && close.1 > now.1))))
        },
        forall|first: Seq<LotText>, second: Seq<LotText>|
            #[trigger] wanted_lots(cli, now, first + second) == wanted_lots(cli, now, first)
                + wanted_lots(cli, now, second),
{
    let pred = |lot: LotText| lot_is_wanted(cli, now, lot);
    let kept = wanted_lots(cli, now, lots);
    if kept.contains(lot) {
        let j = choose|j: int| 0 <= j < kept.len() && kept[j] == lot;
        lots.lemma_filter_pred(pred, j);
        lemma_picked(lots, pred);
    }
    if lots.contains(lot) && lot_is_wanted(cli, now, lot) {
        let j = choose|j: int| 0 <= j < lots.len() && lots[j] == lot;
        lots.lemma_filter_contains(pred, j);
    }
    assert forall|first: Seq<LotText>, second: Seq<LotText>| #[trigger]
        wanted_lots(cli, now, first + second) == wanted_lots(cli, now, first) + wanted_lots(
            cli,
            now,
            second,
        ) by {
        Seq::filter_distributes_over_add(first, second, pred);
    }
}

/// A lot's numbers are such as lots can have: its closing time lies in the calendar, and its
/// bid can be counted in 64 bits.
pub open spec fn is_lot(lot: LotText) -> bool {
    &&& (lot.close_at matches Some(close) ==> in_calendar(close.0, close.1))
    &&& (lot.bid_cents matches Some(cents) ==> i64::MIN <= cents <= i64::MAX)
}

/// One closing time does not come after another by its seconds. One that is not known comes
/// last.
pub open spec fn closes_in_order(first: Option<(int, int)>, second: Option<(int, int)>) -> bool {
    second matches Some(y) ==> first matches Some(x) && x.0 <= y.0
}

/// Lots sorted by name stand in the order of their names in lower case, whatever their closing
/// times. Only lots of one name stand in the order of these.
pub proof fn law_lots_sorted_by_name(before: Seq<LotText>, after: Seq<LotText>, i: int, k: int)
    requires
        is_stable_sort(before, after, lot_order(SortKey::Name)),
        0 <= i < k < after.len(),
        is_lot(after[i]),
        is_lot(after[k]),
    ensures
        text_rank(lowercase_text(after[i].name), lowercase_text(after[k].name)) != Rank::After,
        text_rank(lowercase_text(after[i].name), lowercase_text(after[k].name)) == Rank::Level
            ==> closes_in_order(after[i].close_at, after[k].close_at),
        after.to_multiset() == before.to_multiset(),
{
    let order = lot_order(SortKey::Name);
    assert(order(after[i], after[k]) != Rank::After);
}

/// Lots sorted by closing time stand in its order, and those that do not say when they close
/// come last. Only lots that close in the same second stand in the order of their names.
pub proof fn law_lots_sorted_by_close(before: Seq<LotText>, after: Seq<LotText>, i: int, k: int)
    requires
        is_stable_sort(before, after, lot_order(SortKey::Close)),
        0 <= i < k < after.len(),
        is_lot(after[i]),
        is_lot(after[k]),
    ensures
        closes_in_order(after[i].close_at, after[k].close_at),
        closes_in_order(after[k].close_at, after[i].close_at) ==> text_rank(
            lowercase_text(after[i].name),
            lowercase_text(after[k].name),
        ) != Rank::After,
        after.to_multiset() == before.to_multiset(),
{
    let order = lot_order(SortKey::Close);
    assert(order(after[i], after[k]) != Rank::After);
}

/// Lots sorted by price start with those without a bid, and go on from the highest bid to the
/// lowest. Only lots of one bid stand in the order of their closing times, and only those of
/// one closing time in the order of their names.
pub proof fn law_lots_sorted_by_price(before: Seq<LotText>, after: Seq<LotText>, i: int, k: int)
    requires
        is_stable_sort(before, after, lot_order(SortKey::Price)),
        0 <= i < k < after.len(),
        is_lot(after[i]),
        is_lot(after[k]),
    ensures
        after[i].bid_cents matches Some(x) ==> after[k].bid_cents matches Some(y) && x >= y,
        after[i].bid_cents == after[k].bid_cents ==> closes_in_order(
            after[i].close_at,
            after[k].close_at,
        ),
        after[i].bid_cents == after[k].bid_cents && closes_in_order(
            after[k].close_at,
            after[i].close_at,
        ) ==> text_rank(lowercase_text(after[i].name), lowercase_text(after[k].name))
            != Rank::After,
        after.to_multiset() == before.to_multiset(),
{
    let order = lot_order(SortKey::Price);
    assert(order(after[i], after[k]) != Rank::After);
}

/// When an auction closes is when one of its lots does, and none earlier; only where no lot
/// says when it closes, it is as the auction says itself.
pub proof fn law_auction_closes_with_its_first_lot(event: AuctionText)
    ensures
        (exists|i: int| 0 <= i < event.lots.len() && (#[trigger] event.lots[i]).close_at is Some)
            ==> exists|i: int|
            0 <= i < event.lots.len() && (#[trigger] event.lots[i]).close_at is Some
                && event.lots[i].close_at == primary_close(event),
        (forall|i: int| 0 <= i < event.lots.len() ==> (#[trigger] event.lots[i]).close_at is None)
            ==> primary_close(event) == event.close_at,
        forall|i: int| #![trigger event.lots[i]]
            0 <= i < event.lots.len() ==> (event.lots[i].close_at matches Some(close) ==> {
                &&& primary_close(event) matches Some(first)
                &&& first.0 < close.0 || (first.0 == close.0 && first.1 <= close.1)
            }),
{
    lemma_first_close_is_one(event.lots);
    assert forall|i: int| #![trigger event.lots[i]]
        0 <= i < event.lots.len() && event.lots[i].close_at is Some implies ({
        &&& primary_close(event) matches Some(first)
        &&& first.0 < (event.lots[i].close_at->0).0 || (first.0 == (event.lots[i].close_at->0).0
            && first.1 <= (event.lots[i].close_at->0).1)
    }) by {
        lemma_first_close(event.lots, i);
    }
}

/// The first closing time of some lots is that of one of them.
proof fn lemma_first_close_is_one(lots: Seq<LotText>)
    ensures
        first_close(lots) is Some ==> exists|i: int|
            0 <= i < lots.len() && (#[trigger] lots[i]).close_at == first_close(lots),
        first_close(lots) is None ==> forall|i: int|
            0 <= i < lots.len() ==> (#[trigger] lots[i]).close_at is None,
    decreases lots.len(),
{
    if lots.len() > 0 {
        let rest = lots.drop_last();
        lemma_first_close_is_one(rest);
        if first_close(lots) is Some {
            if first_close(lots) == first_close(rest) {
                let i = choose|i: int|
                    0 <= i < rest.len() && (#[trigger] rest[i]).close_at == first_close(rest);
                assert(lots[i].close_at == first_close(lots));
            } else {
                assert(lots[lots.len() - 1].close_at == first_close(lots));
            }
        } else {
            assert forall|i: int| 0 <= i < lots.len() implies (#[trigger] lots[i]).close_at is None by {
                if i < lots.len() - 1 {
                    assert(rest[i] == lots[i]);
                }
            }
        }
    }
}

/// An auction says when it closes, and its lots do, as auctions can.
pub open spec fn is_auction(event: AuctionText) -> bool {
    &&& (event.close_at matches Some(close) ==> in_calendar(close.0, close.1))
    &&& forall|i: int| 0 <= i < event.lots.len() ==> is_lot(#[trigger] event.lots[i])
}

/// Auctions stand in the order of when they close, and those that do not say when come last.
/// Only auctions that close in the same second stand in the order of their titles.
pub proof fn law_auctions_sorted_by_close(
    before: Seq<AuctionText>,
    after: Seq<AuctionText>,
    i: int,
    k: int,
)
    requires
        is_stable_sort(before, after, auction_order()),
        0 <= i < k < after.len(),
        is_auction(after[i]),
        is_auction(after[k]),
    ensures
        closes_in_order(primary_close(after[i]), primary_close(after[k])),
        closes_in_order(primary_close(after[k]), primary_close(after[i])) ==> text_rank(
            lowercase_text(after[i].title),
            lowercase_text(after[k].title),
        ) != Rank::After,
        after.to_multiset() == before.to_multiset(),
{
    let order = auction_order();
    assert(order(after[i], after[k]) != Rank::After);
    lemma_first_close_is_one(after[i].lots);
    lemma_first_close_is_one(after[k].lots);
}

/// A list that is another one sorted holds what that holds.
proof fn lemma_sorted_holds_same<A>(before: Seq<A>, after: Seq<A>, x: A)
    requires
        before.to_multiset() == after.to_multiset(),
    ensures
        before.contains(x) == after.contains(x),
{
    before.to_multiset_ensures();
    after.to_multiset_ensures();
    assert(before.contains(x) == (before.to_multiset().count(x) > 0));
    assert(after.contains(x) == (after.to_multiset().count(x) > 0));
}

/// Those that are shown of some auctions are all of those that are there, in order.
proof fn lemma_shown_only(shown: Seq<Option<AuctionText>>, auction: AuctionText)
    ensures
        shown_only(shown).contains(auction) == shown.contains(Some(auction)),
    decreases shown.len(),
{
    if shown.len() > 0 {
        let rest = shown.drop_last();
        lemma_shown_only(rest, auction);
        if shown.contains(Some(auction)) {
            let i = choose|i: int| 0 <= i < shown.len() && shown[i] == Some(auction);
            if i < rest.len() {
                assert(rest[i] == Some(auction));
                let list = shown_only(rest);
                let j = choose|j: int| 0 <= j < list.len() && list[j] == auction;
                assert(shown_only(shown)[j] == auction);
            } else {
                let list = shown_only(shown);
                assert(list[list.len() - 1] == auction);
            }
        }
        if shown_only(shown).contains(auction) {
            let list = shown_only(shown);
            let j = choose|j: int| 0 <= j < list.len() && list[j] == auction;
            if j < shown_only(rest).len() {
                assert(shown_only(rest)[j] == auction);
                let i = choose|i: int| 0 <= i < rest.len() && rest[i] == Some(auction);
                assert(shown[i] == Some(auction));
            } else {
                assert(shown[shown.len() - 1] == Some(auction));
            }
        }
    }
}

/// A listed auction in the city that is asked for, with a lot that is asked for, is shown with
/// that lot, under its title and address; an auction in another place is not shown.
pub proof fn law_wanted_lots_are_shown(
    cli: Cli,
    now: (int, int),
    listed: Seq<(EventText, Seq<LotText>)>,
    shown: Seq<Option<AuctionText>>,
    auctions: Seq<AuctionText>,
    i: int,
    lot: LotText,
)
    requires
        shows_each(cli, now, listed, shown),
        is_stable_sort(shown_only(shown), auctions, auction_order()),
        0 <= i < listed.len(),
        contains(lowercase_text(listed[i].0.location), lowercase_text(cli.city@)),
        listed[i].1.contains(lot),
        contains(lowercase_text(lot.location), lowercase_text(cli.city@)),
        cli.query matches Some(query) ==> contains(
            lowercase_text(lot.name),
            lowercase_text(query@),
        ),
        cli.include_past || (lot.close_at matches Some(close) && (close.0 > now.0 || (close.0
            == now.0 && close.1 > now.1))),
    ensures
        exists|k: int| #![trigger auctions[k]]
            0 <= k < auctions.len() && auctions[k].title == listed[i].0.title && auctions[k].url
                == listed[i].0.url && auctions[k].location == listed[i].0.location
                && auctions[k].close_at == listed[i].0.close_at && auctions[k].lots.contains(lot),
{
    law_lots_are_kept_by_city_query_and_close(cli, now, listed[i].1, lot);
    let wanted = wanted_lots(cli, now, listed[i].1);
    assert(wanted.len() > 0);
    assert(shows_auction(cli, now, listed[i].0, listed[i].1, shown[i]));
    let auction = shown[i]->0;
    lemma_sorted_holds_same(wanted, auction.lots, lot);
    assert(shown.contains(Some(auction)));
    lemma_shown_only(shown, auction);
    lemma_sorted_holds_same(shown_only(shown), auctions, auction);
    let k = choose|k: int| 0 <= k < auctions.len() && auctions[k] == auction;
    assert(auctions[k].lots.contains(lot));
}

/// Every auction that is shown was listed under its title and address, stands in the city that
/// is asked for, and has a lot; and each of its lots was listed with it, stands in the city,
/// has the query in its name, and is still to close or past ones are asked for too.
pub proof fn law_shown_auctions_are_wanted(
    cli: Cli,
    now: (int, int),
    listed: Seq<(EventText, Seq<LotText>)>,
    shown: Seq<Option<AuctionText>>,
    auctions: Seq<AuctionText>,
    k: int,
)
    requires
        shows_each(cli, now, listed, shown),
        is_stable_sort(shown_only(shown), auctions, auction_order()),
        0 <= k < auctions.len(),
    ensures
        contains(lowercase_text(auctions[k].location), lowercase_text(cli.city@)),
        auctions[k].lots.len() > 0,
        exists|i: int| #![trigger listed[i]]
            0 <= i < listed.len() && auctions[k].title == listed[i].0.title && auctions[k].url
                == listed[i].0.url && auctions[k].location == listed[i].0.location && (forall|
                lot: LotText,
            | #[trigger]
                auctions[k].lots.contains(lot) ==> listed[i].1.contains(lot)),
        forall|lot: LotText| #[trigger]
            auctions[k].lots.contains(lot) ==> {
                &&& contains(lowercase_text(lot.location), lowercase_text(cli.city@))
                &&& (cli.query matches Some(query) ==> contains(
                    lowercase_text(lot.name),
                    lowercase_text(query@),
                ))
                &&& (cli.include_past || (lot.close_at matches Some(close) && (close.0 > now.0 || (
                close.0 == now.0 && close.1 > now.1))))
            },
{
    let auction = auctions[k];
    lemma_sorted_holds_same(shown_only(shown), auctions, auction);
    assert(auctions.contains(auction));
    lemma_shown_only(shown, auction);
    let i = choose|i: int| 0 <= i < shown.len() && shown[i] == Some(auction);
    assert(shows_auction(cli, now, listed[i].0, listed[i].1, shown[i]));
    let wanted = wanted_lots(cli, now, listed[i].1);
    wanted.to_multiset_ensures();
    auction.lots.to_multiset_ensures();
    assert forall|lot: LotText| #[trigger] auction.lots.contains(lot) implies wanted.contains(
        lot,
    ) by {
        lemma_sorted_holds_same(wanted, auction.lots, lot);
    }
    assert forall|lot: LotText| #[trigger] auction.lots.contains(lot) implies listed[i].1.contains(
        lot,
    ) by {
        law_lots_are_kept_by_city_query_and_close(cli, now, listed[i].1, lot);
    }
    assert forall|lot: LotText| #[trigger] auction.lots.contains(lot) implies ({
        &&& contains(lowercase_text(lot.location), lowercase_text(cli.city@))
        &&& (cli.query matches Some(query) ==> contains(
            lowercase_text(lot.name),
            lowercase_text(query@),
        ))
        &&& (cli.include_past || (lot.close_at matches Some(close) && (close.0 > now.0 || (close.0
            == now.0 && close.1 > now.1))))
    }) by {
        law_lots_are_kept_by_city_query_and_close(cli, now, listed[i].1, lot);
    }
}

/// A lot is said to be open until it closes and to be closed from then on, where it says when;
/// and what was fetched for it is worth keeping unless it is closed.
pub proof fn law_status_follows_close(lot: LotText, now: (int, int))
    ensures
        lot.close_at is None <==> status_of(lot, now) == "Unknown"@,
        status_of(lot, now) == "Open"@ <==> (lot.close_at matches Some(close) && (close.0 > now.0
            || (close.0 == now.0 && close.1 > now.1))),
        lot_is_active(lot, now) <==> status_of(lot, now) != "Closed"@,
{
    reveal_strlit("Unknown");
    reveal_strlit("Open");
    reveal_strlit("Closed");
    assert("Unknown"@.len() == 7 && "Open"@.len() == 4 && "Closed"@.len() == 6);
}

/// What an auction says is what its fields hold.
pub proof fn law_auctions_say_their_fields(event: AuctionEvent)
    ensures
        event@.title == event.title@ && event@.url == event.url@ && event@.location
            == event.location@,
        event@.close_at == optional_moment(event.close_at),
        event@.lots == lot_texts(event.lots@),
{
}

} // verus!
