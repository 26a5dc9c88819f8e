//! Asking for details and photos, the nearest first.
use vstd::prelude::*;

use crate::browser::{elapsed, App};
use crate::catalog::AuctionEvent;
use crate::desk::{is_settled, request_shows, requested, DeskView, FetchState};
use crate::keys::lemma_enqueued;
use crate::listing::{lot_texts, LotDetails, LotText};
use crate::moments::{in_calendar, utc_now, Moment};
use crate::preview::PhotoPreview;
use crate::text::texts;
use crate::work::{
    asked_behind, asked_details, asked_in_front, asked_terminal, by_priority,
    law_every_lot_asked_for_waits, law_nearer_entries_come_first,
    law_other_lots_are_those_of_other_auctions, law_photos_are_those_of_the_lots, lot_is_kept,
    other_urls, outwards,
    photos_at, photos_in_front, terminal_in_front, urls_at, Work,
    GLOBAL_BACKGROUND_HYDRATION_INTERVAL,
};

verus! {

/// The lots of other auctions are to be asked for again.
pub open spec fn others_are_due(last: Option<u64>, now: u64) -> bool {
    last matches Some(since) ==> elapsed(since, now) >= GLOBAL_BACKGROUND_HYDRATION_INTERVAL
}

/// What is fetched and made after what is selected was asked for: its details and photo; where
/// the selection has changed, those of its auction; and in between the details of the others.
pub open spec fn hydrated<P, B>(app: App<P, B>, now: (int, int), ticks: u64) -> Work<P, B> {
    let lots = app.lots();
    let own_details = match app.selected_url() {
        Some(url) => asked_details(app.details@, lots, now, url, true),
        None => app.details@,
    };
    let own_photos = match app.primary_photo() {
        Some(url) => requested(app.photos@, url, true),
        None => app.photos@,
    };
    let dirty = app.current_auction_hydration_dirty;
    let details = if dirty {
        asked_in_front(own_details, lots, now, app.priority_urls())
    } else {
        own_details
    };
    let photos = if dirty {
        photos_in_front(own_photos, app.priority_photos())
    } else {
        own_photos
    };
    Work {
        details: if others_are_due(app.last_global_hydration_at, ticks) {
            asked_behind(details, lots, now, other_urls(app.shown(), app.event_index as nat))
        } else {
            details
        },
        photos,
        gallery: if dirty {
            terminal_in_front(
                app.gallery@,
                photos.states,
                app.has_graphics,
                app.last_photo_area_size,
                app.priority_photos(),
            )
        } else {
            app.gallery@
        },
    }
}

/// Asking for what is selected shows.
pub open spec fn hydration_shows<P, B>(app: App<P, B>, now: (int, int)) -> bool {
    ||| app.selected_url() matches Some(url) && lot_is_kept(app.lots(), url, now) && request_shows(
        app.details@,
        url,
    )
    ||| app.primary_photo() matches Some(url) && request_shows(app.photos@, url)
}

/// Asking for details leaves those that have come.
proof fn lemma_request_keeps_loaded<T>(desk: DeskView<T>, url: Seq<char>, priority: bool)
    ensures
        forall|k: Seq<char>|
            desk.states.contains_key(k) && desk.states[k] is Loaded ==> requested(
                desk,
                url,
                priority,
            ).states.contains_key(k) && #[trigger] requested(desk, url, priority).states[k]
                == desk.states[k],
        forall|k: Seq<char>|
            requested(desk, url, priority).states.contains_key(k) && #[trigger] requested(
                desk,
                url,
                priority,
            ).states[k] is Loaded ==> desk.states.contains_key(k) && desk.states[k] == requested(
                desk,
                url,
                priority,
            ).states[k],
{
}

/// All positions of a list from a selected one outwards, each once.
pub proof fn law_priority_reaches_all(selected: nat, count: nat)
    ensures
        by_priority(selected, count).no_duplicates(),
        forall|i: int| #[trigger] by_priority(selected, count).contains(i) <==> 0 <= i < count,
        by_priority(selected, count).len() == count,
{
    if count > 0 {
        let start = if selected < count {
            selected as int
        } else {
            count - 1
        };
        lemma_outwards(start, count as int, count - 1);
        let all = by_priority(selected, count);
        assert forall|i: int| #[trigger] all.contains(i) <==> 0 <= i < count by {}
        all.unique_seq_to_set();
        assert(all.to_set() =~= vstd::set_lib::set_int_range(0, count as int));
        vstd::set_lib::lemma_int_range(0, count as int);
    } else {
        assert(by_priority(selected, count).len() == 0);
    }
}

/// Positions up to a distance are those that lie within it, each once.
proof fn lemma_outwards(selected: int, count: int, distance: int)
    requires
        0 <= selected < count,
        0 <= distance,
    ensures
        outwards(selected, count, distance).no_duplicates(),
        forall|i: int|
            #[trigger] outwards(selected, count, distance).contains(i) <==> 0 <= i < count
                && selected - distance <= i <= selected + distance,
    decreases distance,
{
    let all = outwards(selected, count, distance);
    if distance == 0 {
        assert(all =~= seq![selected]);
        assert forall|i: int| #[trigger] all.contains(i) <==> 0 <= i < count && selected <= i
            <= selected by {
            if i == selected {
                assert(all[0] == i);
            }
        }
    } else {
        lemma_outwards(selected, count, distance - 1);
        let nearer = outwards(selected, count, distance - 1);
        let after = if selected + distance < count {
            nearer.push(selected + distance)
        } else {
            nearer
        };
        assert forall|i: int| #[trigger] all.contains(i) <==> 0 <= i < count && selected - distance
            <= i <= selected + distance by {
            vstd::seq_lib::lemma_seq_contains_after_push(nearer, selected + distance, i);
            vstd::seq_lib::lemma_seq_contains_after_push(after, selected - distance, i);
            assert(nearer.contains(i) <==> 0 <= i < count && selected - (distance - 1) <= i
                <= selected + (distance - 1));
        }
        assert(!nearer.contains(selected + distance));
        assert(after.no_duplicates());
        vstd::seq_lib::lemma_seq_contains_after_push(
            nearer,
            selected + distance,
            selected - distance,
        );
        assert(!after.contains(selected - distance));
    }
}

/// All positions of a list from a selected one outwards.
pub fn positions_by_priority(selected: usize, count: usize) -> (r: Vec<usize>)
    ensures
        r@.map_values(|i: usize| i as int) == by_priority(selected as nat, count as nat),
{
    let mut positions: Vec<usize> = Vec::new();
    if count == 0 {
        assert(positions@.map_values(|i: usize| i as int) =~= seq![]);
        return positions;
    }
    let start: usize = if selected < count {
        selected
    } else {
        count - 1
    };
    positions.push(start);
    assert(positions@.map_values(|i: usize| i as int) =~= outwards(start as int, count as int, 0));
    let mut distance: usize = 1;
    while distance < count
        invariant
            start < count,
            1 <= distance <= count,
            positions@.map_values(|i: usize| i as int) == outwards(
                start as int,
                count as int,
                distance - 1,
            ),
        decreases count - distance,
    {
        let ghost nearer = positions@.map_values(|i: usize| i as int);
        if distance < count - start {
            positions.push(start + distance);
            assert(positions@.map_values(|i: usize| i as int) =~= nearer.push(start + distance));
        }
        let ghost after = positions@.map_values(|i: usize| i as int);
        if start >= distance {
            positions.push(start - distance);
            assert(positions@.map_values(|i: usize| i as int) =~= after.push(start - distance));
        }
        distance += 1;
    }
    positions
}

/// The addresses of lots at some positions.
fn collect_urls(event: &AuctionEvent, positions: &Vec<usize>) -> (r: Vec<String>)
    requires
        forall|k: int| 0 <= k < positions@.len() ==> #[trigger] positions@[k] < event.lots@.len(),
    ensures
        texts(r@) == urls_at(event@.lots, positions@.map_values(|i: usize| i as int)),
{
    let mut urls: Vec<String> = Vec::new();
    let mut k: usize = 0;
    while k < positions.len()
        invariant
            k <= positions@.len(),
            forall|k: int|
                0 <= k < positions@.len() ==> #[trigger] positions@[k] < event.lots@.len(),
            urls@.len() == k,
            forall|j: int|
                0 <= j < k ==> (#[trigger] urls@[j])@ == event.lots@[positions@[j] as int].url@,
        decreases positions@.len() - k,
    {
        urls.push(event.lots[positions[k]].url.clone());
        k += 1;
    }
    assert(texts(urls@) =~= urls_at(event@.lots, positions@.map_values(|i: usize| i as int)));
    urls
}

/// The photos of lots at some positions, where they have one.
fn collect_photos(event: &AuctionEvent, positions: &Vec<usize>) -> (r: Vec<String>)
    requires
        forall|k: int| 0 <= k < positions@.len() ==> #[trigger] positions@[k] < event.lots@.len(),
    ensures
        texts(r@) == photos_at(event@.lots, positions@.map_values(|i: usize| i as int)),
{
    let ghost all = positions@.map_values(|i: usize| i as int);
    let mut urls: Vec<String> = Vec::new();
    let mut k: usize = 0;
    assert(texts(urls@) =~= photos_at(event@.lots, all.take(0)));
    while k < positions.len()
        invariant
            k <= positions@.len(),
            all == positions@.map_values(|i: usize| i as int),
            forall|k: int|
                0 <= k < positions@.len() ==> #[trigger] positions@[k] < event.lots@.len(),
            texts(urls@) == photos_at(event@.lots, all.take(k as int)),
        decreases positions@.len() - k,
    {
        proof {
            let next = all.take(k + 1);
            assert(next.drop_last() =~= all.take(k as int));
            assert(next.last() == positions@[k as int] as int);
            assert(event@.lots[positions@[k as int] as int]
                == event.lots@[positions@[k as int] as int]@);
        }
        match &event.lots[positions[k]].thumbnail_url {
            Some(url) => {
                let url = url.clone();
                assert(texts(urls@.push(url)) =~= texts(urls@).push(url@));
                urls.push(url);
            },
            None => {},
        }
        k += 1;
    }
    assert(all.take(k as int) =~= all);
    urls
}

impl<P, B> App<P, B> {
    /// The addresses of the selected auction's lots, from the selected one outwards.
    pub fn current_auction_lot_urls_by_priority(&self) -> (r: Vec<String>)
        ensures
            texts(r@) == self.priority_urls(),
    {
        match self.current_event() {
            Some(event) => {
                let positions = positions_by_priority(self.lot_index, event.lots.len());
                proof {
                    self.lemma_positions(event.lots@.len(), positions@);
                }
                collect_urls(event, &positions)
            },
            None => {
                let urls: Vec<String> = Vec::new();
                assert(texts(urls@) =~= self.priority_urls());
                urls
            },
        }
    }

    /// The positions by priority lie within the list.
    proof fn lemma_positions(&self, count: nat, positions: Seq<usize>)
        requires
            positions.map_values(|i: usize| i as int) == by_priority(
                self.lot_index as nat,
                count,
            ),
        ensures
            forall|k: int| 0 <= k < positions.len() ==> #[trigger] positions[k] < count,
    {
        law_priority_reaches_all(self.lot_index as nat, count);
        let all = positions.map_values(|i: usize| i as int);
        assert forall|k: int| 0 <= k < positions.len() implies #[trigger] positions[k] < count by {
            assert(all[k] == positions[k] as int);
            assert(all.contains(all[k]));
        }
    }

    /// The photos of the selected auction's lots, from the selected one outwards.
    pub fn current_auction_photo_urls_by_priority(&self) -> (r: Vec<String>)
        ensures
            texts(r@) == self.priority_photos(),
    {
        match self.current_event() {
            Some(event) => {
                let positions = positions_by_priority(self.lot_index, event.lots.len());
                proof {
                    self.lemma_positions(event.lots@.len(), positions@);
                }
                collect_photos(event, &positions)
            },
            None => {
                let urls: Vec<String> = Vec::new();
                assert(texts(urls@) =~= self.priority_photos());
                urls
            },
        }
    }

    /// The addresses of the lots of the other auctions.
    pub fn other_auction_lot_urls(&self) -> (r: Vec<String>)
        ensures
            texts(r@) == other_urls(self.shown(), self.event_index as nat),
    {
        let ghost all = self.shown();
        let index: usize = self.event_index;
        let mut urls: Vec<String> = Vec::new();
        let mut i: usize = 0;
        assert(texts(urls@) =~= other_urls(all.take(0), index as nat));
        while i < self.events.len()
            invariant
                i <= self.events@.len(),
                all == self.shown(),
                texts(urls@) == other_urls(all.take(i as int), index as nat),
            decreases self.events@.len() - i,
        {
            let ghost own = all[i as int].lots.map_values(|lot: LotText| lot.url);
            proof {
                let next = all.take(i + 1);
                assert(next.drop_last() =~= all.take(i as int));
                assert(next.last() == all[i as int]);
                assert(all[i as int].lots == lot_texts(self.events@[i as int].lots@));
            }
            if i != index {
                let ghost before = texts(urls@);
                let mut j: usize = 0;
                assert(before + own.take(0) =~= before);
                while j < self.events[i].lots.len()
                    invariant
                        i < self.events@.len(),
                        j <= self.events@[i as int].lots@.len(),
                        own.len() == self.events@[i as int].lots@.len(),
                        forall|k: int|
                            0 <= k < own.len() ==> #[trigger] own[k]
                                == self.events@[i as int].lots@[k].url@,
                        texts(urls@) == before + own.take(j as int),
                    decreases self.events@[i as int].lots@.len() - j,
                {
                    let url = self.events[i].lots[j].url.clone();
                    assert(texts(urls@.push(url)) =~= texts(urls@).push(url@));
                    assert(before + own.take(j + 1) =~= (before + own.take(j as int)).push(
                        own[j as int],
                    ));
                    urls.push(url);
                    j += 1;
                }
                assert(own.take(j as int) =~= own);
            }
            i += 1;
        }
        assert(all.take(i as int) =~= all);
        urls
    }

    /// Asks for the details of a lot, at a point in time. Says whether that shows.
    pub fn queue_lot_details_at(&mut self, lot_url: String, priority: bool, now: &Moment) -> (r:
        bool)
        ensures
            final(self).details@ == asked_details(
                old(self).details@,
                old(self).lots(),
                now@,
                lot_url@,
                priority,
            ),
            *final(self) == (App { details: final(self).details, ..*old(self) }),
            r == (lot_is_kept(old(self).lots(), lot_url@, now@) && request_shows(
                old(self).details@,
                lot_url@,
            )),
    {
        if !self.is_cacheable_lot_url(lot_url.as_str(), now) {
            return false;
        }
        self.details.request(lot_url, priority)
    }

    /// Asks for the details of a lot, now. Says whether that shows.
    pub fn queue_lot_details(&mut self, lot_url: String, priority: bool) -> (r: bool)
        ensures
            exists|now: (int, int)|
                #![trigger lot_is_kept(old(self).lots(), lot_url@, now)]
                in_calendar(now.0, now.1) && final(self).details@ == asked_details(
                    old(self).details@,
                    old(self).lots(),
                    now,
                    lot_url@,
                    priority,
                ) && r == (lot_is_kept(old(self).lots(), lot_url@, now) && request_shows(
                    old(self).details@,
                    lot_url@,
                )),
            *final(self) == (App { details: final(self).details, ..*old(self) }),
    {
        let now = utc_now();
        let r = self.queue_lot_details_at(lot_url, priority, &now);
        assert(r == (lot_is_kept(old(self).lots(), lot_url@, now@) && request_shows(
            old(self).details@,
            lot_url@,
        )));
        r
    }

    /// Asks for the details of some lots, so that the first comes first.
    pub fn queue_detail_batch_front(&mut self, lot_urls: Vec<String>, now: &Moment)
        ensures
            final(self).details@ == asked_in_front(
                old(self).details@,
                old(self).lots(),
                now@,
                texts(lot_urls@),
            ),
            *final(self) == (App { details: final(self).details, ..*old(self) }),
    {
        let mut urls = lot_urls;
        let ghost goal = asked_in_front(self.details@, self.lots(), now@, texts(urls@));
        while urls.len() > 0
            invariant
                asked_in_front(self.details@, self.lots(), now@, texts(urls@)) == goal,
                *self == (App { details: self.details, ..*old(self) }),
            decreases urls@.len(),
        {
            let ghost all = texts(urls@);
            match urls.pop() {
                Some(url) => {
                    assert(texts(urls@) =~= all.drop_last());
                    assert(all.last() == url@);
                    let _ = self.queue_lot_details_at(url, true, now);
                },
                None => {},
            }
        }
    }

    /// Asks for a photo. Says whether that shows.
    pub fn queue_photo_preview(&mut self, photo_url: String, priority: bool) -> (r: bool)
        ensures
            final(self).photos@ == requested(old(self).photos@, photo_url@, priority),
            *final(self) == (App { photos: final(self).photos, ..*old(self) }),
            r == request_shows(old(self).photos@, photo_url@),
    {
        self.photos.request(photo_url, priority)
    }

    /// Asks for some photos, so that the first comes first.
    pub fn queue_photo_batch_front(&mut self, photo_urls: Vec<String>)
        ensures
            final(self).photos@ == photos_in_front(old(self).photos@, texts(photo_urls@)),
            *final(self) == (App { photos: final(self).photos, ..*old(self) }),
    {
        let mut urls = photo_urls;
        let ghost goal = photos_in_front(self.photos@, texts(urls@));
        while urls.len() > 0
            invariant
                photos_in_front(self.photos@, texts(urls@)) == goal,
                *self == (App { photos: self.photos, ..*old(self) }),
            decreases urls@.len(),
        {
            let ghost all = texts(urls@);
            match urls.pop() {
                Some(url) => {
                    assert(texts(urls@) =~= all.drop_last());
                    assert(all.last() == url@);
                    let _ = self.queue_photo_preview(url, true);
                },
                None => {},
            }
        }
    }

    /// Asks for a photo as terminal graphics.
    pub fn queue_terminal_photo_render(
        &mut self,
        photo_url: String,
        width: u16,
        height: u16,
        priority: bool,
    )
        ensures
            final(self).gallery@ == asked_terminal(
                old(self).gallery@,
                old(self).photos@.states,
                old(self).has_graphics,
                (photo_url@, width, height),
                priority,
            ),
            *final(self) == (App { gallery: final(self).gallery, ..*old(self) }),
    {
        if width == 0 || height == 0 || !self.has_graphics {
            return;
        }
        match self.photos.states.get(&photo_url) {
            Some(FetchState::Loaded(_)) => {},
            _ => {
                return;
            },
        }
        self.gallery.order((photo_url, width, height), priority);
    }

    /// Asks for some photos as terminal graphics, so that the first comes first.
    pub fn queue_terminal_photo_batch_front(&mut self, photo_urls: Vec<String>)
        ensures
            final(self).gallery@ == terminal_in_front(
                old(self).gallery@,
                old(self).photos@.states,
                old(self).has_graphics,
                old(self).last_photo_area_size,
                texts(photo_urls@),
            ),
            *final(self) == (App { gallery: final(self).gallery, ..*old(self) }),
    {
        let (width, height) = match self.last_photo_area_size {
            Some(area) => area,
            None => {
                return;
            },
        };
        let mut urls = photo_urls;
        let ghost goal = terminal_in_front(
            self.gallery@,
            self.photos@.states,
            self.has_graphics,
            self.last_photo_area_size,
            texts(urls@),
        );
        while urls.len() > 0
            invariant
                terminal_in_front(
                    self.gallery@,
                    self.photos@.states,
                    self.has_graphics,
                    self.last_photo_area_size,
                    texts(urls@),
                ) == goal,
                self.last_photo_area_size == Some((width, height)),
                *self == (App { gallery: self.gallery, ..*old(self) }),
            decreases urls@.len(),
        {
            let ghost all = texts(urls@);
            match urls.pop() {
                Some(url) => {
                    assert(texts(urls@) =~= all.drop_last());
                    assert(all.last() == url@);
                    self.queue_terminal_photo_render(url, width, height, true);
                },
                None => {},
            }
        }
    }

    /// Asks for the details of some lots behind all others.
    fn queue_details_behind(&mut self, lot_urls: Vec<String>, now: &Moment)
        ensures
            final(self).details@ == asked_behind(
                old(self).details@,
                old(self).lots(),
                now@,
                texts(lot_urls@),
            ),
            *final(self) == (App { details: final(self).details, ..*old(self) }),
    {
        let ghost all = texts(lot_urls@);
        let ghost whole = lot_urls@;
        let ghost start = self.details@;
        assert(all.take(0) =~= seq![]);
        for url in it: lot_urls
            invariant
                it.seq() == whole,
                all == texts(whole),
                start == old(self).details@,
                self.details@ == asked_behind(
                    start,
                    old(self).lots(),
                    now@,
                    all.take(it.index() as int),
                ),
                *self == (App { details: self.details, ..*old(self) }),
        {
            proof {
                let i = it.index() as int;
                let next = all.take(i + 1);
                assert(next.drop_last() =~= all.take(i));
                assert(next.last() == url@);
            }
            let _ = self.queue_lot_details_at(url, false, now);
        }
        assert(all.take(all.len() as int) =~= all);
    }

    /// Asks for what is selected, and in between for the rest. Says whether that shows.
    pub fn hydrate_current_context(&mut self, now: &Moment, ticks: u64) -> (r: bool)
        ensures
            final(self).work() == hydrated(*old(self), now@, ticks),
            *final(self) == (App {
                details: final(self).details,
                photos: final(self).photos,
                gallery: final(self).gallery,
                current_auction_hydration_dirty: false,
                last_global_hydration_at: if others_are_due(
                    old(self).last_global_hydration_at,
                    ticks,
                ) {
                    Some(ticks)
                } else {
                    old(self).last_global_hydration_at
                },
                ..*old(self)
            }),
            r == hydration_shows(*old(self), now@),
    {
        let mut changed = false;
        if let Some(lot_url) = self.current_lot_url() {
            proof {
                lemma_request_keeps_loaded(self.details@, lot_url@, true);
            }
            changed = self.queue_lot_details_at(lot_url, true, now);
        }
        assert(self.primary_photo() == old(self).primary_photo());
        if let Some(photo_url) = self.primary_photo_url() {
            let shows = self.queue_photo_preview(photo_url, true);
            changed = changed || shows;
        }
        if self.current_auction_hydration_dirty {
            let lot_urls = self.current_auction_lot_urls_by_priority();
            self.queue_detail_batch_front(lot_urls, now);
            let photo_urls = self.current_auction_photo_urls_by_priority();
            self.queue_photo_batch_front(photo_urls);
            let photo_urls = self.current_auction_photo_urls_by_priority();
            self.queue_terminal_photo_batch_front(photo_urls);
            self.current_auction_hydration_dirty = false;
        }
        let due = match self.last_global_hydration_at {
            Some(since) => ticks.saturating_sub(since) >= GLOBAL_BACKGROUND_HYDRATION_INTERVAL,
            None => true,
        };
        if due {
            let lot_urls = self.other_auction_lot_urls();
            self.queue_details_behind(lot_urls, now);
            self.last_global_hydration_at = Some(ticks);
        }
        changed
    }
}

/// Of some lots whose details are asked for in front, the first is next, where they are worth
/// keeping and their answer has not come and is not on its way.
pub proof fn law_first_of_batch_is_next(
    desk: DeskView<LotDetails>,
    lots: Seq<LotText>,
    now: (int, int),
    urls: Seq<Seq<char>>,
)
    requires
        urls.len() > 0,
        lot_is_kept(lots, urls[0], now),
        !is_settled(desk, urls[0]),
        !desk.active.contains(urls[0]),
    ensures
        asked_in_front(desk, lots, now, urls).queue.len() > 0,
        asked_in_front(desk, lots, now, urls).queue[0] == urls[0],
    decreases urls.len(),
{
    let next = asked_details(desk, lots, now, urls.last(), true);
    if urls.len() == 1 {
        assert(urls.drop_last() =~= seq![]);
        assert(asked_in_front(next, lots, now, urls.drop_last()) == next);
    } else {
        assert(urls.drop_last()[0] == urls[0]);
        law_first_of_batch_is_next(next, lots, now, urls.drop_last());
    }
}

/// Asking behind all others leaves what waits in front where it is.
proof fn lemma_behind_leaves_the_front(
    desk: DeskView<LotDetails>,
    lots: Seq<LotText>,
    now: (int, int),
    urls: Seq<Seq<char>>,
)
    requires
        desk.queue.len() > 0,
    ensures
        asked_behind(desk, lots, now, urls).queue.len() > 0,
        asked_behind(desk, lots, now, urls).queue[0] == desk.queue[0],
    decreases urls.len(),
{
    if urls.len() > 0 {
        lemma_behind_leaves_the_front(desk, lots, now, urls.drop_last());
    }
}

/// The details of the selected lot are sent for before all others, unless their answer is there
/// or on its way, or the lot is past.
pub proof fn law_selected_lot_is_sent_for_first<P, B>(app: App<P, B>, now: (int, int), ticks: u64)
    requires
        app.event_index < app.shown().len(),
        app.lot_index < app.shown()[app.event_index as int].lots.len(),
    ensures
        ({
            let lot = app.shown()[app.event_index as int].lots[app.lot_index as int];
            !is_settled(app.details@, lot.url) && !app.details@.active.contains(lot.url)
                && lot_is_kept(app.lots(), lot.url, now) ==> {
                &&& hydrated(app, now, ticks).details.queue.len() > 0
                &&& hydrated(app, now, ticks).details.queue[0] == lot.url
            }
        }),
{
    let auction = app.shown()[app.event_index as int];
    let lot = auction.lots[app.lot_index as int];
    let lots = app.lots();
    if !is_settled(app.details@, lot.url) && !app.details@.active.contains(lot.url) && lot_is_kept(
        lots,
        lot.url,
        now,
    ) {
        let own = asked_details(app.details@, lots, now, lot.url, true);
        assert(own.queue[0] == lot.url);
        let urls = app.priority_urls();
        law_nearer_entries_come_first(app.lot_index as nat, auction.lots.len());
        assert(urls[0] == lot.url);
        assert(!is_settled(own, lot.url));
        law_first_of_batch_is_next(own, lots, now, urls);
        let dirty = asked_in_front(own, lots, now, urls);
        lemma_behind_leaves_the_front(
            own,
            lots,
            now,
            other_urls(app.shown(), app.event_index as nat),
        );
        lemma_behind_leaves_the_front(
            dirty,
            lots,
            now,
            other_urls(app.shown(), app.event_index as nat),
        );
    }
}

/// Of some photos that are asked for in front, the first is next, where its answer has not come
/// and is not on its way.
pub proof fn law_first_photo_of_batch_is_next(
    desk: DeskView<PhotoPreview>,
    urls: Seq<Seq<char>>,
)
    requires
        urls.len() > 0,
        !is_settled(desk, urls[0]),
        !desk.active.contains(urls[0]),
    ensures
        photos_in_front(desk, urls).queue.len() > 0,
        photos_in_front(desk, urls).queue[0] == urls[0],
    decreases urls.len(),
{
    let next = requested(desk, urls.last(), true);
    if urls.len() == 1 {
        assert(urls.drop_last() =~= seq![]);
        assert(photos_in_front(next, urls.drop_last()) == next);
    } else {
        assert(urls.drop_last()[0] == urls[0]);
        law_first_photo_of_batch_is_next(next, urls.drop_last());
    }
}

/// The photo of the selected lot is sent for before all others, unless its answer is there or on
/// its way.
pub proof fn law_selected_photo_is_sent_for_first<P, B>(
    app: App<P, B>,
    now: (int, int),
    ticks: u64,
    url: Seq<char>,
)
    requires
        app.event_index < app.shown().len(),
        app.lot_index < app.shown()[app.event_index as int].lots.len(),
        app.shown()[app.event_index as int].lots[app.lot_index as int].thumbnail_url == Some(url),
        !is_settled(app.photos@, url),
        !app.photos@.active.contains(url),
    ensures
        hydrated(app, now, ticks).photos.queue.len() > 0,
        hydrated(app, now, ticks).photos.queue[0] == url,
{
    let auction = app.shown()[app.event_index as int];
    let own = requested(app.photos@, url, true);
    let positions = by_priority(app.lot_index as nat, auction.lots.len());
    law_nearer_entries_come_first(app.lot_index as nat, auction.lots.len());
    law_photos_are_those_of_the_lots(auction.lots, positions, url);
    assert(app.priority_photos()[0] == url);
    law_first_photo_of_batch_is_next(own, app.priority_photos());
}

/// The lots of the other auctions are asked for at the start, and then every thirty seconds.
pub proof fn law_others_are_asked_for_every_half_minute(since: u64, now: u64)
    ensures
        others_are_due(None, now),
        others_are_due(Some(since), now) <==> now >= since + 30_000_000_000,
{
}

/// Asking for a photo keeps those that wait, lets it wait itself, and settles none.
proof fn lemma_photo_request(desk: DeskView<PhotoPreview>, asked: Seq<char>, url: Seq<char>)
    ensures
        desk.queue.contains(url) ==> requested(desk, asked, true).queue.contains(url),
        asked == url && !is_settled(desk, url) && !desk.active.contains(url) ==> requested(
            desk,
            asked,
            true,
        ).queue.contains(url),
        is_settled(requested(desk, asked, true), url) == is_settled(desk, url),
        requested(desk, asked, true).active == desk.active,
{
    lemma_enqueued(desk.queue, asked, true);
}

/// Photos that are asked for wait, and so do those that waited before.
proof fn lemma_photos_wait(
    desk: DeskView<PhotoPreview>,
    urls: Seq<Seq<char>>,
    url: Seq<char>,
)
    requires
        urls.contains(url) || desk.queue.contains(url),
        !is_settled(desk, url),
        !desk.active.contains(url),
    ensures
        photos_in_front(desk, urls).queue.contains(url),
    decreases urls.len(),
{
    if urls.len() > 0 {
        let last = urls.last();
        let rest = urls.drop_last();
        let next = requested(desk, last, true);
        lemma_photo_request(desk, last, url);
        if last != url && urls.contains(url) {
            let i = choose|i: int| 0 <= i < urls.len() && urls[i] == url;
            assert(rest[i] == url);
            assert(rest.contains(url));
        }
        assert(rest.contains(url) || next.queue.contains(url));
        lemma_photos_wait(next, rest, url);
        assert(photos_in_front(desk, urls) == photos_in_front(next, rest));
    }
}

/// Where the selection has changed, the details and the photos of all lots of its auction wait
/// from then on, unless they are there, on their way or not worth keeping.
pub proof fn law_whole_auction_is_asked_for<P, B>(
    app: App<P, B>,
    now: (int, int),
    ticks: u64,
    k: int,
)
    requires
        app.current_auction_hydration_dirty,
        app.event_index < app.shown().len(),
        app.lot_index < app.shown()[app.event_index as int].lots.len(),
        0 <= k < app.shown()[app.event_index as int].lots.len(),
    ensures
        ({
            let lot = app.shown()[app.event_index as int].lots[k];
            &&& !is_settled(app.details@, lot.url) && !app.details@.active.contains(lot.url)
                && lot_is_kept(app.lots(), lot.url, now) ==> hydrated(
                app,
                now,
                ticks,
            ).details.queue.contains(lot.url)
            &&& (lot.thumbnail_url matches Some(url) ==> !is_settled(app.photos@, url)
                && !app.photos@.active.contains(url) ==> hydrated(
                app,
                now,
                ticks,
            ).photos.queue.contains(url))
        }),
{
    let auction = app.shown()[app.event_index as int];
    let lot = auction.lots[k];
    let lots = app.lots();
    let positions = by_priority(app.lot_index as nat, auction.lots.len());
    law_priority_reaches_all(app.lot_index as nat, auction.lots.len());
    assert(positions.contains(k));
    let i = choose|i: int| 0 <= i < positions.len() && positions[i] == k;
    let own = asked_details(
        app.details@,
        lots,
        now,
        auction.lots[app.lot_index as int].url,
        true,
    );
    if !is_settled(app.details@, lot.url) && !app.details@.active.contains(lot.url) && lot_is_kept(
        lots,
        lot.url,
        now,
    ) {
        assert(app.priority_urls()[i] == lot.url);
        assert(app.priority_urls().contains(lot.url));
        assert(!is_settled(own, lot.url));
        law_every_lot_asked_for_waits(own, lots, now, app.priority_urls(), lot.url);
        let front = asked_in_front(own, lots, now, app.priority_urls());
        lemma_front_keeps_unsettled(own, lots, now, app.priority_urls(), lot.url);
        law_every_lot_asked_for_waits(
            front,
            lots,
            now,
            other_urls(app.shown(), app.event_index as nat),
            lot.url,
        );
    }
    match lot.thumbnail_url {
        Some(url) => {
            law_photos_are_those_of_the_lots(auction.lots, positions, url);
            assert(auction.lots[positions[i]].thumbnail_url == Some(url));
            assert(app.priority_photos().contains(url));
            if !is_settled(app.photos@, url) && !app.photos@.active.contains(url) {
                match app.primary_photo() {
                    Some(primary) => {
                        let asked = requested(app.photos@, primary, true);
                        assert(!is_settled(asked, url));
                        lemma_photos_wait(asked, app.priority_photos(), url);
                    },
                    None => {
                        lemma_photos_wait(app.photos@, app.priority_photos(), url);
                    },
                }
            }
        },
        None => {},
    }
}

/// Asking for details in front settles none and sends for none.
proof fn lemma_front_keeps_unsettled(
    desk: DeskView<LotDetails>,
    lots: Seq<LotText>,
    now: (int, int),
    urls: Seq<Seq<char>>,
    url: Seq<char>,
)
    ensures
        is_settled(asked_in_front(desk, lots, now, urls), url) == is_settled(desk, url),
        asked_in_front(desk, lots, now, urls).active == desk.active,
    decreases urls.len(),
{
    if urls.len() > 0 {
        let next = asked_details(desk, lots, now, urls.last(), true);
        assert(is_settled(next, url) == is_settled(desk, url));
        lemma_front_keeps_unsettled(next, lots, now, urls.drop_last(), url);
    }
}

/// When the lots of the other auctions are due, their details wait from then on too.
pub proof fn law_other_auctions_are_asked_for<P, B>(
    app: App<P, B>,
    now: (int, int),
    ticks: u64,
    e: int,
    k: int,
)
    requires
        others_are_due(app.last_global_hydration_at, ticks),
        0 <= e < app.shown().len(),
        e != app.event_index,
        0 <= k < app.shown()[e].lots.len(),
        !is_settled(app.details@, app.shown()[e].lots[k].url),
        !app.details@.active.contains(app.shown()[e].lots[k].url),
        lot_is_kept(app.lots(), app.shown()[e].lots[k].url, now),
    ensures
        hydrated(app, now, ticks).details.queue.contains(app.shown()[e].lots[k].url),
{
    let url = app.shown()[e].lots[k].url;
    let lots = app.lots();
    let others = other_urls(app.shown(), app.event_index as nat);
    law_other_lots_are_those_of_other_auctions(app.shown(), app.event_index as nat, url);
    assert(others.contains(url));
    let own = match app.selected_url() {
        Some(selected) => asked_details(app.details@, lots, now, selected, true),
        None => app.details@,
    };
    assert(!is_settled(own, url));
    lemma_front_keeps_unsettled(own, lots, now, app.priority_urls(), url);
    let front = asked_in_front(own, lots, now, app.priority_urls());
    law_every_lot_asked_for_waits(own, lots, now, others, url);
    law_every_lot_asked_for_waits(front, lots, now, others, url);
}

/// Asking for what is selected shows where its details are worth keeping and neither known nor
/// waiting, or its photo is neither known nor waiting; and it does not where both are known.
pub proof fn law_asking_for_the_selected_shows_what_is_new<P, B>(app: App<P, B>, now: (int, int))
    ensures
        app.selected_url() matches Some(url) ==> (lot_is_kept(app.lots(), url, now)
            && !app.details@.states.contains_key(url) && !app.details@.active.contains(url)
            ==> hydration_shows(app, now)),
        app.primary_photo() matches Some(url) ==> (!app.photos@.states.contains_key(url)
            && !app.photos@.active.contains(url) ==> hydration_shows(app, now)),
        (app.selected_url() matches Some(url) ==> app.details@.active.contains(url) || is_settled(
            app.details@,
            url,
        )) && (app.primary_photo() matches Some(url) ==> app.photos@.active.contains(url)
            || is_settled(app.photos@, url)) ==> !hydration_shows(app, now),
{
}

} // verus!
