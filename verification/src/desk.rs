//! What is fetched in the background: what waits, what is on its way and what has come.
use vstd::prelude::*;

use crate::keys::{
    enqueued, lemma_enqueued, lemma_with_live_urls, lemma_without, with_live_urls, without, Keys,
};
use crate::listing::LotDetails;
use crate::preview::PhotoPreview;
use crate::table::{live_entries, Table};

verus! {

/// How far something fetched has come.
pub enum FetchState<T> {
    Loading,
    Loaded(T),
    Failed(String),
}

/// How far the details of a lot have come.
pub type DetailState = FetchState<LotDetails>;

/// How far a photo has come.
pub type PhotoState = FetchState<PhotoPreview>;

/// Things fetched by their address: the state of each, the addresses that wait in their
/// order, those that were sent for, and how many answers are still owed.
pub struct FetchDesk<T> {
    pub states: Table<String, FetchState<T>>,
    pub queue: Keys<String>,
    pub active: Keys<String>,
    pub in_flight: usize,
}

/// What a desk holds.
pub ghost struct DeskView<T> {
    pub states: Map<Seq<char>, FetchState<T>>,
    pub queue: Seq<Seq<char>>,
    pub active: Seq<Seq<char>>,
    pub in_flight: nat,
}

impl<T> View for FetchDesk<T> {
    type V = DeskView<T>;

    open spec fn view(&self) -> DeskView<T> {
        DeskView {
            states: self.states@,
            queue: self.queue@,
            active: self.active@,
            in_flight: self.in_flight as nat,
        }
    }
}

/// A list with a key in it, last where it was not there.
pub open spec fn with_key<A>(keys: Seq<A>, key: A) -> Seq<A> {
    if keys.contains(key) {
        keys
    } else {
        keys.push(key)
    }
}

/// An answer for an address has come, good or bad.
pub open spec fn is_settled<T>(desk: DeskView<T>, url: Seq<char>) -> bool {
    desk.states.contains_key(url) && (desk.states[url] is Loaded || desk.states[url] is Failed)
}

/// The desk after an address was asked for: nothing changes where its answer has come or is
/// on its way. Otherwise it is loading and waits, at the front where it has priority. One that
/// waits already keeps its place but for priority.
pub open spec fn requested<T>(desk: DeskView<T>, url: Seq<char>, priority: bool) -> DeskView<T> {
    if is_settled(desk, url) || desk.active.contains(url) {
        desk
    } else {
        DeskView {
            states: desk.states.insert(url, FetchState::Loading),
            queue: enqueued(desk.queue, url, priority),
            ..desk
        }
    }
}

/// Asking for an address shows: it was neither waiting nor known.
pub open spec fn request_shows<T>(desk: DeskView<T>, url: Seq<char>) -> bool {
    &&& !is_settled(desk, url)
    &&& !desk.active.contains(url)
    &&& desk.queue.contains(url) ==> !desk.states.contains_key(url)
}

/// The address to send for next, where fewer answers than the limit are owed.
pub open spec fn next_due<T>(desk: DeskView<T>, limit: nat) -> Option<Seq<char>> {
    if desk.in_flight < limit && desk.queue.len() > 0 {
        Some(desk.queue[0])
    } else {
        None
    }
}

/// The desk after the first address was taken from those that wait.
pub open spec fn dequeued<T>(desk: DeskView<T>) -> DeskView<T> {
    DeskView { queue: desk.queue.drop_first(), ..desk }
}

/// The desk after an address was sent for.
pub open spec fn sent<T>(desk: DeskView<T>, url: Seq<char>) -> DeskView<T> {
    DeskView { active: with_key(desk.active, url), in_flight: desk.in_flight + 1, ..desk }
}

/// The desk after an answer for an address has come.
pub open spec fn answered<T>(desk: DeskView<T>, url: Seq<char>) -> DeskView<T> {
    DeskView {
        active: without(desk.active, url),
        in_flight: if desk.in_flight > 0 {
            (desk.in_flight - 1) as nat
        } else {
            0
        },
        ..desk
    }
}

/// The desk with a state for an address.
pub open spec fn settled<T>(desk: DeskView<T>, url: Seq<char>, state: FetchState<T>) -> DeskView<
    T,
> {
    DeskView { states: desk.states.insert(url, state), ..desk }
}

/// The desk without a state for an address.
pub open spec fn forgotten<T>(desk: DeskView<T>, url: Seq<char>) -> DeskView<T> {
    DeskView { states: desk.states.remove(url), ..desk }
}

/// The desk with what belongs to live addresses. What is owed stays owed.
pub open spec fn pruned<T>(desk: DeskView<T>, live: Seq<Seq<char>>) -> DeskView<T> {
    DeskView {
        states: live_entries::<String, FetchState<T>>(desk.states, live),
        queue: with_live_urls::<String>(desk.queue, live),
        active: with_live_urls::<String>(desk.active, live),
        ..desk
    }
}

/// Nothing waits twice, nothing is sent for twice, and nothing that was sent for waits.
pub open spec fn tidy<T>(desk: DeskView<T>) -> bool {
    &&& desk.queue.no_duplicates()
    &&& desk.active.no_duplicates()
    &&& forall|url: Seq<char>| !(desk.queue.contains(url) && #[trigger] desk.active.contains(url))
}

impl<T> FetchDesk<T> {
    /// The desk at which nothing was asked for.
    pub fn new() -> (r: Self)
        ensures
            r@ == (DeskView::<T> {
                states: Map::empty(),
                queue: Seq::empty(),
                active: Seq::empty(),
                in_flight: 0,
            }),
    {
        FetchDesk { states: Table::new(), queue: Keys::new(), active: Keys::new(), in_flight: 0 }
    }

    /// Whether the answer for an address has come.
    pub fn is_settled(&self, url: &String) -> (r: bool)
        ensures
            r == is_settled(self@, url@),
    {
        match self.states.get(url) {
            Some(FetchState::Loaded(_)) => true,
            Some(FetchState::Failed(_)) => true,
            _ => false,
        }
    }

    /// Asks for an address. Says whether that shows.
    pub fn request(&mut self, url: String, priority: bool) -> (r: bool)
        ensures
            final(self)@ == requested(old(self)@, url@, priority),
            r == request_shows(old(self)@, url@),
    {
        if self.is_settled(&url) || self.active.contains(&url) {
            return false;
        }
        let is_new = self.states.insert(url.clone(), FetchState::Loading);
        let waits = self.queue.contains(&url);
        self.queue.enqueue(url, priority);
        is_new || !waits
    }

    /// Takes the address to send for next from those that wait.
    pub fn take_next(&mut self, limit: usize) -> (r: Option<String>)
        ensures
            match next_due(old(self)@, limit as nat) {
                Some(url) => (r matches Some(next) && next@ == url) && final(self)@ == dequeued(
                    old(self)@,
                ),
                None => r is None && final(self)@ == old(self)@,
            },
    {
        if self.in_flight < limit {
            self.queue.pop_front()
        } else {
            None
        }
    }

    /// Notes that an address was sent for.
    pub fn note_sent(&mut self, url: String)
        requires
            old(self)@.in_flight < usize::MAX,
        ensures
            final(self)@ == sent(old(self)@, url@),
    {
        if !self.active.contains(&url) {
            self.active.push_back(url);
        }
        self.in_flight = self.in_flight + 1;
    }

    /// Notes that an answer for an address has come.
    pub fn note_answer(&mut self, url: &String)
        ensures
            final(self)@ == answered(old(self)@, url@),
    {
        self.in_flight = self.in_flight.saturating_sub(1);
        self.active.remove(url);
    }

    /// Sets the state for an address.
    pub fn settle(&mut self, url: String, state: FetchState<T>)
        ensures
            final(self)@ == settled(old(self)@, url@, state),
    {
        let _ = self.states.insert(url, state);
    }

    /// Forgets the state for an address.
    pub fn forget(&mut self, url: &String)
        ensures
            final(self)@ == forgotten(old(self)@, url@),
    {
        let _ = self.states.remove(url);
    }

    /// Keeps what belongs to live addresses.
    pub fn prune(&mut self, live: &Keys<String>)
        ensures
            final(self)@ == pruned(old(self)@, live@),
    {
        self.states.keep_urls(live);
        self.queue.keep_urls(live);
        self.active.keep_urls(live);
    }
}

/// A desk stays tidy: whatever is asked for, answered, settled, forgotten or pruned, and
/// whatever is taken from the queue and then sent for.
pub proof fn law_desk_stays_tidy<T>(
    desk: DeskView<T>,
    url: Seq<char>,
    priority: bool,
    state: FetchState<T>,
    live: Seq<Seq<char>>,
)
    requires
        tidy(desk),
    ensures
        tidy(requested(desk, url, priority)),
        tidy(answered(desk, url)),
        tidy(settled(desk, url, state)),
        tidy(forgotten(desk, url)),
        tidy(pruned(desk, live)),
        desk.queue.len() > 0 ==> tidy(dequeued(desk)) && tidy(
            sent(dequeued(desk), desk.queue[0]),
        ),
{
    lemma_enqueued(desk.queue, url, priority);
    lemma_without(desk.active, url);
    lemma_with_live_urls::<String>(desk.queue, live);
    lemma_with_live_urls::<String>(desk.active, live);
    if desk.queue.len() > 0 {
        let first = desk.queue[0];
        let left = desk.queue.drop_first();
        assert(desk.queue.contains(first));
        assert forall|u: Seq<char>| #[trigger] left.contains(u) implies desk.queue.contains(u)
            && u != first by {
            let i = choose|i: int| 0 <= i < left.len() && left[i] == u;
            assert(desk.queue[i + 1] == u);
        }
        assert(left.no_duplicates());
        assert forall|u: Seq<char>| !(left.contains(u) && #[trigger] sent(
            dequeued(desk),
            first,
        ).active.contains(u)) by {
            vstd::seq_lib::lemma_seq_contains_after_push(desk.active, first, u);
        }
        assert(!desk.active.contains(first));
        assert(desk.active.push(first).no_duplicates());
    }
}

/// Sending only what is due keeps what is owed within the limit.
pub proof fn law_owed_stays_within_limit<T>(desk: DeskView<T>, limit: nat, url: Seq<char>)
    requires
        desk.in_flight <= limit,
    ensures
        next_due(desk, limit) matches Some(due) ==> sent(dequeued(desk), due).in_flight <= limit,
        answered(desk, url).in_flight <= limit,
        next_due(desk, limit) is None ==> desk.in_flight == limit || desk.queue.len() == 0,
{
}

/// Asking for an address twice is asking for it once, and asking again does not show.
pub proof fn law_asking_twice_is_asking_once<T>(desk: DeskView<T>, url: Seq<char>, priority: bool)
    ensures
        requested(requested(desk, url, priority), url, priority) == requested(desk, url, priority),
        !request_shows(requested(desk, url, priority), url),
{
    let once = requested(desk, url, priority);
    lemma_enqueued(desk.queue, url, priority);
    if !is_settled(desk, url) && !desk.active.contains(url) {
        assert(once.queue.contains(url));
        assert(requested(once, url, priority).states =~= once.states);
    }
}

/// What is asked for with priority is next, unless its answer has come or is on its way.
pub proof fn law_priority_is_next<T>(desk: DeskView<T>, url: Seq<char>, limit: nat)
    requires
        !is_settled(desk, url),
        !desk.active.contains(url),
        desk.in_flight < limit,
    ensures
        next_due(requested(desk, url, true), limit) == Some(url),
{
}

/// Asking for an address whose answer is neither there nor on its way makes it loading and lets
/// it wait, in front of all others with priority and behind them without; it changes nothing of
/// any other address, and nothing at all where the answer is there or on its way.
pub proof fn law_asking_lets_an_address_wait<T>(
    desk: DeskView<T>,
    url: Seq<char>,
    priority: bool,
    other: Seq<char>,
)
    requires
        other != url,
    ensures
        ({
            let after = requested(desk, url, priority);
            &&& after.active == desk.active && after.in_flight == desk.in_flight
            &&& after.queue.contains(other) == desk.queue.contains(other)
            &&& after.states.contains_key(other) == desk.states.contains_key(other)
            &&& desk.states.contains_key(other) ==> after.states[other] == desk.states[other]
            &&& desk.states.contains_key(url) && desk.states[url] is Loaded ==> after == desk
            &&& desk.states.contains_key(url) && desk.states[url] is Failed ==> after == desk
            &&& desk.active.contains(url) ==> after == desk
            &&& !desk.active.contains(url) && (desk.states.contains_key(url) ==> desk.states[url]
                is Loading) ==> {
                &&& after.states.contains_key(url) && after.states[url] is Loading
                &&& after.queue.contains(url)
                &&& priority ==> after.queue[0] == url
                &&& !priority && !desk.queue.contains(url) ==> after.queue.last() == url
            }
        }),
{
    lemma_enqueued(desk.queue, url, priority);
}

/// What waits first is sent for first; it is then owed and no longer waits. An answer is no
/// longer owed, and the address can be asked for anew.
pub proof fn law_first_come_first_sent<T>(desk: DeskView<T>, limit: nat, url: Seq<char>)
    requires
        tidy(desk),
    ensures
        desk.queue.len() > 0 && desk.in_flight < limit ==> next_due(desk, limit) == Some(
            desk.queue[0],
        ),
        desk.queue.len() > 0 ==> {
            let first = desk.queue[0];
            let after = sent(dequeued(desk), first);
            &&& after.queue == desk.queue.skip(1)
            &&& !after.queue.contains(first)
            &&& after.active.contains(first)
            &&& after.in_flight == desk.in_flight + 1
            &&& after.states == desk.states
        },
        !answered(desk, url).active.contains(url),
        answered(desk, url).states == desk.states && answered(desk, url).queue == desk.queue,
        desk.in_flight > 0 ==> answered(desk, url).in_flight == desk.in_flight - 1,
        desk.in_flight == 0 ==> answered(desk, url).in_flight == 0,
{
    lemma_without(desk.active, url);
    if desk.queue.len() > 0 {
        let first = desk.queue[0];
        let left = desk.queue.drop_first();
        assert(left =~= desk.queue.skip(1));
        if left.contains(first) {
            let i = choose|i: int| 0 <= i < left.len() && left[i] == first;
            assert(desk.queue[i + 1] == first);
        }
        vstd::seq_lib::lemma_seq_contains_after_push(desk.active, first, first);
    }
}

/// Letting go leaves exactly what belongs to live addresses, as it was, and all that is owed.
pub proof fn law_only_live_addresses_are_left<T>(
    desk: DeskView<T>,
    live: Seq<Seq<char>>,
    url: Seq<char>,
)
    ensures
        ({
            let after = pruned(desk, live);
            &&& after.states.contains_key(url) <==> desk.states.contains_key(url)
                && live.contains(url)
            &&& after.states.contains_key(url) ==> after.states[url] == desk.states[url]
            &&& after.queue.contains(url) <==> desk.queue.contains(url) && live.contains(url)
            &&& after.active.contains(url) <==> desk.active.contains(url) && live.contains(url)
            &&& after.in_flight == desk.in_flight
        }),
{
    lemma_with_live_urls::<String>(desk.queue, live);
    lemma_with_live_urls::<String>(desk.active, live);
}

/// Asking for an address shows if and only if it becomes known or starts to wait by that.
pub proof fn law_asking_shows_what_is_new<T>(desk: DeskView<T>, url: Seq<char>, priority: bool)
    ensures
        request_shows(desk, url) <==> {
            let after = requested(desk, url, priority);
            ||| after.states.contains_key(url) != desk.states.contains_key(url)
            ||| after.queue.contains(url) != desk.queue.contains(url)
        },
{
    lemma_enqueued(desk.queue, url, priority);
}

/// What a desk holds is what its fields hold.
pub proof fn law_desks_hold_their_fields<T>(desk: FetchDesk<T>)
    ensures
        desk@.states == desk.states@ && desk@.queue == desk.queue@ && desk@.active == desk.active@,
        desk@.in_flight == desk.in_flight,
{
}

} // verus!
