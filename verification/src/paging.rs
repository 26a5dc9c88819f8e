//! Listings that come in pieces: the first page, then one piece after another until a piece
//! brings nothing.
use vstd::prelude::*;

use crate::links::{events_page, events_page_url, lots_page, lots_page_url};
use crate::listing::{
    event_texts, lot_texts, page_events, page_lots, page_next_item, parse_events,
    parse_events_fragment, parse_lots, parse_lots_fragment, parse_next_item, EventStub, EventText,
    Fault, ListingError, Lot, LotText,
};
use crate::text::{same_text, trim, trimmed};

verus! {

/// How many entries a piece of a listing holds.
pub const PAGE_SIZE: usize = 14;

/// An entry of a listing, known by its address.
pub trait Listed: View {
    /// The address of an entry.
    spec fn address(entry: Self::V) -> Seq<char>;

    /// The address of this entry.
    fn url_text(&self) -> (r: &String)
        ensures
            r@ == Self::address(self@),
    ;
}

impl Listed for EventStub {
    open spec fn address(entry: EventText) -> Seq<char> {
        entry.url
    }

    fn url_text(&self) -> (r: &String) {
        &self.url
    }
}

impl Listed for Lot {
    open spec fn address(entry: LotText) -> Seq<char> {
        entry.url
    }

    fn url_text(&self) -> (r: &String) {
        &self.url
    }
}

/// What a list of entries says.
pub open spec fn entries<T: View>(list: Seq<T>) -> Seq<T::V> {
    list.map_values(|e: T| e@)
}

/// A listing holds an entry with an address.
pub open spec fn lists_address<T: Listed>(list: Seq<T::V>, url: Seq<char>) -> bool {
    exists|i: int| 0 <= i < list.len() && T::address(#[trigger] list[i]) == url
}

/// A listing with more entries after its own, except those whose address it holds already.
pub open spec fn merged<T: Listed>(list: Seq<T::V>, more: Seq<T::V>) -> Seq<T::V>
    decreases more.len(),
{
    if more.len() == 0 {
        list
    } else {
        let before = merged::<T>(list, more.drop_last());
        if lists_address::<T>(before, T::address(more.last())) {
            before
        } else {
            before.push(more.last())
        }
    }
}

/// Whether a listing holds an entry with an address.
fn knows_address<T: Listed>(list: &Vec<T>, url: &String) -> (r: bool)
    ensures
        r == lists_address::<T>(entries(list@), url@),
{
    let mut i: usize = 0;
    let ghost all = entries(list@);
    while i < list.len()
        invariant
            i <= list@.len(),
            all == entries(list@),
            forall|k: int| 0 <= k < i ==> T::address(#[trigger] all[k]) != url@,
        decreases list@.len() - i,
    {
        assert(all[i as int] == list@[i as int]@);
        if same_text(list[i].url_text().as_str(), url.as_str()) {
            return true;
        }
        i += 1;
    }
    false
}

/// Puts more entries after those of a listing, except those whose address it holds already.
pub fn merge_new<T: Listed>(list: &mut Vec<T>, more: Vec<T>)
    ensures
        entries(final(list)@) == merged::<T>(entries(old(list)@), entries(more@)),
{
    let ghost first = entries(list@);
    let ghost all = entries(more@);
    let ghost whole = more@;
    assert(all.take(0) =~= seq![]);
    for entry in it: more
        invariant
            it.seq() == whole,
            all == entries(whole),
            entries(list@) == merged::<T>(first, all.take(it.index() as int)),
    {
        let ghost i = it.index() as int;
        proof {
            let next = all.take(i + 1);
            assert(next.drop_last() =~= all.take(i));
            assert(next.last() == entry@);
        }
        if !knows_address(list, entry.url_text()) {
            assert(entries(list@.push(entry)) =~= entries(list@).push(entry@));
            list.push(entry);
        }
    }
    assert(all.take(all.len() as int) =~= all);
}

/// Merging keeps every entry of a listing where it was, adds only entries that are new to it,
/// and adds no address twice.
pub proof fn law_merging_keeps_entries<T: Listed>(list: Seq<T::V>, more: Seq<T::V>)
    ensures
        merged::<T>(list, more).len() >= list.len(),
        forall|i: int| 0 <= i < list.len() ==> #[trigger] merged::<T>(list, more)[i] == list[i],
        forall|i: int, k: int|
            list.len() <= k < merged::<T>(list, more).len() && 0 <= i < k ==> T::address(
                #[trigger] merged::<T>(list, more)[i],
            ) != T::address(#[trigger] merged::<T>(list, more)[k]),
        forall|i: int|
            0 <= i < more.len() ==> lists_address::<T>(
                merged::<T>(list, more),
                T::address(#[trigger] more[i]),
            ),
        forall|k: int|
            list.len() <= k < merged::<T>(list, more).len() ==> more.contains(
                #[trigger] merged::<T>(list, more)[k],
            ),
    decreases more.len(),
{
    if more.len() > 0 {
        let before = merged::<T>(list, more.drop_last());
        let after = merged::<T>(list, more);
        law_merging_keeps_entries::<T>(list, more.drop_last());
        assert forall|i: int, k: int|
            list.len() <= k < after.len() && 0 <= i < k implies T::address(#[trigger] after[i])
            != T::address(#[trigger] after[k]) by {
            assert(after[i] == before[i]);
            if k < before.len() {
                assert(after[k] == before[k]);
            }
        }
        assert forall|k: int| list.len() <= k < after.len() implies more.contains(
            #[trigger] after[k],
        ) by {
            if k < before.len() {
                assert(after[k] == before[k]);
                let i = choose|i: int|
                    0 <= i < more.drop_last().len() && more.drop_last()[i] == before[k];
                assert(more[i] == before[k]);
            } else {
                assert(after[k] == more.last());
            }
        }
        assert forall|i: int| 0 <= i < more.len() implies lists_address::<T>(
            after,
            T::address(#[trigger] more[i]),
        ) by {
            if i < more.len() - 1 {
                assert(more.drop_last()[i] == more[i]);
                let j = choose|j: int|
                    0 <= j < before.len() && T::address(#[trigger] before[j]) == T::address(
                        more[i],
                    );
                assert(after[j] == before[j]);
            } else if lists_address::<T>(before, T::address(more.last())) {
            } else {
                assert(after[before.len() as int] == more.last());
            }
        }
    }
}

/// What a piece of a listing brings: nothing where it is blank, or says so, or holds no
/// entry; its entries otherwise.
pub open spec fn piece_of_events(fragment: Seq<char>) -> Result<Option<Seq<EventText>>, Fault> {
    if trimmed(fragment).len() == 0 {
        Ok(None)
    } else {
        match page_events(trimmed(fragment), false) {
            Err(fault) => Err(fault),
            Ok(more) => if more.len() == 0 {
                Ok(None)
            } else {
                Ok(Some(more))
            },
        }
    }
}

/// What a piece of the list of an auction's lots brings.
pub open spec fn piece_of_lots(fragment: Seq<char>) -> Result<Option<Seq<LotText>>, Fault> {
    if trimmed(fragment).len() == 0 || trimmed(fragment) == "No More Items"@ {
        Ok(None)
    } else {
        match page_lots(trimmed(fragment), false) {
            Err(fault) => Err(fault),
            Ok(more) => if more.len() == 0 {
                Ok(None)
            } else {
                Ok(Some(more))
            },
        }
    }
}

/// The list of auctions as far as it has come.
pub struct EventPages {
    pub events: Vec<EventStub>,
    /// The number of the next item, where there may be more.
    pub next_item: Option<usize>,
}

/// The list of an auction's lots as far as it has come.
pub struct LotPages {
    pub lots: Vec<Lot>,
    /// The number of the next item, where there may be more.
    pub next_item: Option<usize>,
}

/// An optional number as a whole number.
pub open spec fn count(n: Option<usize>) -> Option<nat> {
    match n {
        Some(n) => Some(n as nat),
        None => None,
    }
}

/// The number of the item behind a piece of a list, where there are such numbers.
pub open spec fn item_after(item: Option<nat>) -> Option<nat> {
    match item {
        Some(n) => if n + PAGE_SIZE <= usize::MAX {
            Some(n + PAGE_SIZE as nat)
        } else {
            None
        },
        None => None,
    }
}

/// The number of the item behind a piece of a list.
fn step_item(item: Option<usize>) -> (r: Option<usize>)
    ensures
        count(r) == item_after(count(item)),
{
    match item {
        Some(n) => if n <= usize::MAX - PAGE_SIZE {
            Some(n + PAGE_SIZE)
        } else {
            None
        },
        None => None,
    }
}

/// A piece of the list of auctions was taken in.
pub open spec fn events_taken_in(
    before: EventPages,
    fragment: Seq<char>,
    after: EventPages,
    r: Result<(), ListingError>,
) -> bool {
    match piece_of_events(fragment) {
        Err(fault) => (r matches Err(e) && e@ == fault) && after == before,
        Ok(None) => r is Ok && after.events == before.events && after.next_item is None,
        Ok(Some(more)) => r is Ok && entries(after.events@) == merged::<EventStub>(
            entries(before.events@),
            more,
        ) && count(after.next_item) == item_after(count(before.next_item)),
    }
}

/// A piece of the list of an auction's lots was taken in.
pub open spec fn lots_taken_in(
    before: LotPages,
    fragment: Seq<char>,
    after: LotPages,
    r: Result<(), ListingError>,
) -> bool {
    match piece_of_lots(fragment) {
        Err(fault) => (r matches Err(e) && e@ == fault) && after == before,
        Ok(None) => r is Ok && after.lots == before.lots && after.next_item is None,
        Ok(Some(more)) => r is Ok && entries(after.lots@) == merged::<Lot>(
            entries(before.lots@),
            more,
        ) && count(after.next_item) == item_after(count(before.next_item)),
    }
}

impl EventPages {
    /// Starts with the first page.
    pub fn start(html: &str) -> (r: Result<EventPages, ListingError>)
        ensures
            match (page_events(html@, true), page_next_item(html@)) {
                (Ok(events), Ok(next_item)) => r matches Ok(pages) && entries(pages.events@)
                    == events && count(pages.next_item) == next_item,
                (Err(fault), _) => r matches Err(e) && e@ == fault,
                (Ok(_), Err(fault)) => r matches Err(e) && e@ == fault,
            },
    {
        let events = match parse_events(html) {
            Ok(events) => events,
            Err(e) => return Err(e),
        };
        assert(entries(events@) =~= event_texts(events@));
        match parse_next_item(html) {
            Ok(next_item) => Ok(EventPages { events, next_item }),
            Err(e) => Err(e),
        }
    }

    /// The address of the next piece, where there may be one.
    pub fn next_url(&self) -> (r: Option<Result<String, ListingError>>)
        ensures
            match self.next_item {
                None => r is None,
                Some(n) => match events_page(n as nat) {
                    Ok(url) => r matches Some(Ok(s)) && s@ == url,
                    Err(words) => r matches Some(Err(e)) && e@ == Fault::Link(words),
                },
            },
    {
        match self.next_item {
            None => None,
            Some(n) => match events_page_url(n) {
                Ok(url) => Some(Ok(url)),
                Err(words) => Some(Err(ListingError::Link(words))),
            },
        }
    }

    /// Takes in the next piece. One that brings nothing is the last, and so is one behind which
    /// items have no numbers.
    pub fn take_in(&mut self, fragment: &str) -> (r: Result<(), ListingError>)
        ensures
            events_taken_in(*old(self), fragment@, *final(self), r),
            page_events(trimmed(fragment@), false) matches Ok(more) ==> trimmed(fragment@).len() > 0
                && more.len() > 0 ==> {
                &&& r is Ok
                &&& entries(old(self).events@).is_prefix_of(entries(final(self).events@))
                &&& forall|i: int|
                    0 <= i < more.len() ==> exists|k: int|
                        0 <= k < final(self).events@.len() && final(self).events@[k]@.url == (
                        #[trigger] more[i]).url
                &&& (old(self).next_item matches Some(n) ==> n + PAGE_SIZE <= usize::MAX ==> final(self).next_item
                    == Some((n + PAGE_SIZE) as usize))
            },
    {
        let piece = trim(fragment);
        if piece.as_str().is_empty() {
            self.next_item = None;
            return Ok(());
        }
        let more = match parse_events_fragment(piece.as_str()) {
            Ok(more) => more,
            Err(e) => return Err(e),
        };
        assert(entries(more@) =~= event_texts(more@));
        if more.len() == 0 {
            self.next_item = None;
            return Ok(());
        }
        merge_new(&mut self.events, more);
        self.next_item = step_item(self.next_item);
        proof {
            law_piece_adds_its_auctions(*old(self), fragment@, *self, Ok(()));
        }
        Ok(())
    }
}

impl LotPages {
    /// Starts with the first page.
    pub fn start(html: &str) -> (r: Result<LotPages, ListingError>)
        ensures
            match (page_lots(html@, true), page_next_item(html@)) {
                (Ok(lots), Ok(next_item)) => r matches Ok(pages) && entries(pages.lots@) == lots
                    && count(pages.next_item) == next_item,
                (Err(fault), _) => r matches Err(e) && e@ == fault,
                (Ok(_), Err(fault)) => r matches Err(e) && e@ == fault,
            },
    {
        let lots = match parse_lots(html) {
            Ok(lots) => lots,
            Err(e) => return Err(e),
        };
        assert(entries(lots@) =~= lot_texts(lots@));
        match parse_next_item(html) {
            Ok(next_item) => Ok(LotPages { lots, next_item }),
            Err(e) => Err(e),
        }
    }

    /// The address of the next piece, where there may be one, by the address of the auction.
    pub fn next_url(&self, event_url: &str) -> (r: Option<Result<String, ListingError>>)
        ensures
            match self.next_item {
                None => r is None,
                Some(n) => match lots_page(event_url@, n as nat) {
                    Ok(url) => r matches Some(Ok(s)) && s@ == url,
                    Err(words) => r matches Some(Err(e)) && e@ == Fault::Link(words),
                },
            },
    {
        match self.next_item {
            None => None,
            Some(n) => match lots_page_url(event_url, n) {
                Ok(url) => Some(Ok(url)),
                Err(words) => Some(Err(ListingError::Link(words))),
            },
        }
    }

    /// Takes in the next piece. One that brings nothing is the last, and so is one behind which
    /// items have no numbers.
    pub fn take_in(&mut self, fragment: &str) -> (r: Result<(), ListingError>)
        ensures
            lots_taken_in(*old(self), fragment@, *final(self), r),
            page_lots(trimmed(fragment@), false) matches Ok(more) ==> trimmed(fragment@).len() > 0
                && trimmed(fragment@) != "No More Items"@
                && more.len() > 0 ==> {
                &&& r is Ok
                &&& entries(old(self).lots@).is_prefix_of(entries(final(self).lots@))
                &&& forall|i: int|
                    0 <= i < more.len() ==> exists|k: int|
                        0 <= k < final(self).lots@.len() && final(self).lots@[k]@.url == (
                        #[trigger] more[i]).url
                &&& (old(self).next_item matches Some(n) ==> n + PAGE_SIZE <= usize::MAX ==> final(self).next_item
                    == Some((n + PAGE_SIZE) as usize))
            },
    {
        let piece = trim(fragment);
        if piece.as_str().is_empty() || same_text(piece.as_str(), "No More Items") {
            self.next_item = None;
            return Ok(());
        }
        let more = match parse_lots_fragment(piece.as_str()) {
            Ok(more) => more,
            Err(e) => return Err(e),
        };
        assert(entries(more@) =~= lot_texts(more@));
        if more.len() == 0 {
            self.next_item = None;
            return Ok(());
        }
        merge_new(&mut self.lots, more);
        self.next_item = step_item(self.next_item);
        proof {
            law_piece_adds_its_lots(*old(self), fragment@, *self, Ok(()));
        }
        Ok(())
    }
}

/// A piece that lists auctions brings each of them into the list, behind those that were there
/// and none twice, and the next piece is asked for so many items further on. A piece that
/// lists none, or is blank, ends the list; one that is at fault changes nothing.
pub proof fn law_piece_adds_its_auctions(
    before: EventPages,
    fragment: Seq<char>,
    after: EventPages,
    r: Result<(), ListingError>,
)
    requires
        events_taken_in(before, fragment, after, r),
    ensures
        page_events(trimmed(fragment), false) matches Ok(more) ==> trimmed(fragment).len() > 0
            && more.len() > 0 ==> {
            &&& r is Ok
            &&& entries(before.events@).is_prefix_of(entries(after.events@))
            &&& forall|i: int|
                0 <= i < more.len() ==> exists|k: int|
                    0 <= k < after.events@.len() && after.events@[k]@.url == (#[trigger] more[i]).url
            &&& forall|k: int|
                before.events@.len() <= k < after.events@.len() ==> more.contains(
                    (#[trigger] after.events@[k])@,
                )
            &&& forall|i: int, k: int|
                before.events@.len() <= k < after.events@.len() && 0 <= i < k
                    ==> #[trigger] after.events@[i]@.url != #[trigger] after.events@[k]@.url
            &&& (before.next_item matches Some(n) ==> n + PAGE_SIZE <= usize::MAX ==> after.next_item
                    == Some((n + PAGE_SIZE) as usize))
        },
        (trimmed(fragment).len() == 0 || (page_events(trimmed(fragment), false) matches Ok(
            more,
        ) && more.len() == 0)) ==> r is Ok && after.events == before.events && after.next_item is None,
        !(trimmed(fragment).len() == 0) && page_events(trimmed(fragment), false) is Err ==> after == before && r is Err,
{
    if !(trimmed(fragment).len() == 0) {
        match page_events(trimmed(fragment), false) {
            Ok(more) => if more.len() > 0 {
                let old_list = entries(before.events@);
                let new_list = entries(after.events@);
                law_merging_keeps_entries::<EventStub>(old_list, more);
                assert(old_list =~= new_list.take(old_list.len() as int));
                assert forall|i: int| 0 <= i < more.len() implies exists|k: int|
                    0 <= k < after.events@.len() && after.events@[k]@.url == (
                    #[trigger] more[i]).url by {
                    assert(lists_address::<EventStub>(new_list, EventStub::address(more[i])));
                    let k = choose|k: int|
                        0 <= k < new_list.len() && EventStub::address(#[trigger] new_list[k])
                            == EventStub::address(more[i]);
                    assert(after.events@[k]@ == new_list[k]);
                }
                assert forall|k: int|
                    before.events@.len() <= k < after.events@.len() implies more.contains(
                    (#[trigger] after.events@[k])@,
                ) by {
                    assert(new_list[k] == after.events@[k]@);
                }
                assert forall|i: int, k: int|
                    before.events@.len() <= k < after.events@.len() && 0 <= i < k implies
                    #[trigger] after.events@[i]@.url != #[trigger] after.events@[k]@.url by {
                    assert(new_list[i] == after.events@[i]@);
                    assert(new_list[k] == after.events@[k]@);
                    assert(EventStub::address(new_list[i]) != EventStub::address(new_list[k]));
                }
            },
            Err(_) => {},
        }
    }
}

/// A piece that lists lots brings each of them into the list, behind those that were there
/// and none twice, and the next piece is asked for so many items further on. A piece that
/// lists none, is blank, or says that there are no more ends the list; one that is at fault
/// changes nothing.
pub proof fn law_piece_adds_its_lots(
    before: LotPages,
    fragment: Seq<char>,
    after: LotPages,
    r: Result<(), ListingError>,
)
    requires
        lots_taken_in(before, fragment, after, r),
    ensures
        page_lots(trimmed(fragment), false) matches Ok(more) ==> trimmed(fragment).len() > 0
            && trimmed(fragment) != "No More Items"@
            && more.len() > 0 ==> {
            &&& r is Ok
            &&& entries(before.lots@).is_prefix_of(entries(after.lots@))
            &&& forall|i: int|
                0 <= i < more.len() ==> exists|k: int|
                    0 <= k < after.lots@.len() && after.lots@[k]@.url == (#[trigger] more[i]).url
            &&& forall|k: int|
                before.lots@.len() <= k < after.lots@.len() ==> more.contains(
                    (#[trigger] after.lots@[k])@,
                )
            &&& forall|i: int, k: int|
                before.lots@.len() <= k < after.lots@.len() && 0 <= i < k
                    ==> #[trigger] after.lots@[i]@.url != #[trigger] after.lots@[k]@.url
            &&& (before.next_item matches Some(n) ==> n + PAGE_SIZE <= usize::MAX ==> after.next_item
                    == Some((n + PAGE_SIZE) as usize))
        },
        (trimmed(fragment).len() == 0 || trimmed(fragment) == "No More Items"@ || (page_lots(trimmed(fragment), false) matches Ok(
            more,
        ) && more.len() == 0)) ==> r is Ok && after.lots == before.lots && after.next_item is None,
        !(trimmed(fragment).len() == 0 || trimmed(fragment) == "No More Items"@) && page_lots(trimmed(fragment), false) is Err ==> after == before && r is Err,
{
    if !(trimmed(fragment).len() == 0 || trimmed(fragment) == "No More Items"@) {
        match page_lots(trimmed(fragment), false) {
            Ok(more) => if more.len() > 0 {
                let old_list = entries(before.lots@);
                let new_list = entries(after.lots@);
                law_merging_keeps_entries::<Lot>(old_list, more);
                assert(old_list =~= new_list.take(old_list.len() as int));
                assert forall|i: int| 0 <= i < more.len() implies exists|k: int|
                    0 <= k < after.lots@.len() && after.lots@[k]@.url == (
                    #[trigger] more[i]).url by {
                    assert(lists_address::<Lot>(new_list, Lot::address(more[i])));
                    let k = choose|k: int|
                        0 <= k < new_list.len() && Lot::address(#[trigger] new_list[k])
                            == Lot::address(more[i]);
                    assert(after.lots@[k]@ == new_list[k]);
                }
                assert forall|k: int|
                    before.lots@.len() <= k < after.lots@.len() implies more.contains(
                    (#[trigger] after.lots@[k])@,
                ) by {
                    assert(new_list[k] == after.lots@[k]@);
                }
                assert forall|i: int, k: int|
                    before.lots@.len() <= k < after.lots@.len() && 0 <= i < k implies
                    #[trigger] after.lots@[i]@.url != #[trigger] after.lots@[k]@.url by {
                    assert(new_list[i] == after.lots@[i]@);
                    assert(new_list[k] == after.lots@[k]@);
                    assert(Lot::address(new_list[i]) != Lot::address(new_list[k]));
                }
            },
            Err(_) => {},
        }
    }
}

} // verus!
