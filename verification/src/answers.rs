//! Taking in the details and photos that have come, sending for more, and letting go of what
//! is past.
use vstd::prelude::*;

use crate::browser::{clamped, lot_at, lot_count, lots_of, summary, App, FocusPane};
use crate::catalog::{auction_texts, lot_cache_is_active, lot_is_active, AuctionEvent};
use crate::desk::{
    answered, dequeued, forgotten, is_settled, next_due, pruned, requested, sent, settled, DeskView,
    FetchState,
};
use crate::gallery::{
    accepted, dispatched, kept_live, lemma_trimming_adds_nothing, next_photo, refused, shut, trimmed_buffers, trimmed_states,
    without_photo, TerminalPhotoState,
};
use crate::keys::{
    lemma_enqueued, lemma_with_live_urls, lemma_without, Keys, TerminalPhotoKey,
};
use crate::listing::{LotDetails, LotText};
use crate::moments::{in_calendar, utc_now, Moment};
use crate::preview::PhotoPreview;
use crate::text::{concat, optional_text, same_text, texts};
use crate::work::{
    asked_details, asked_terminal, details_hold_photo, is_photo_expiry, lot_expiry, lot_is_kept,
    photo_is_kept, same_face, terminal_in_front, Work, DETAIL_PREFETCH_IN_FLIGHT_LIMIT,
    PHOTO_PREFETCH_IN_FLIGHT_LIMIT, TERMINAL_PHOTO_IN_FLIGHT_LIMIT,
};

verus! {

/// What is fetched after a lot of the selected auction was asked for, with its photo.
pub open spec fn prefetched<P, B>(app: App<P, B>, now: (int, int), index: nat) -> Work<P, B> {
    match lot_at(app.shown(), app.event_index as nat, index) {
        Some(lot) => Work {
            details: asked_details(app.details@, app.lots(), now, lot.url, true),
            photos: match lot.thumbnail_url {
                Some(url) => requested(app.photos@, url, true),
                None => app.photos@,
            },
            gallery: app.gallery@,
        },
        None => app.work(),
    }
}

/// What is fetched after an answer on the details of a lot has come: nothing is kept of it
/// where the lot is past; otherwise it settles the lot, and its first photo is asked for.
pub open spec fn with_detail_answer<P, B>(
    app: App<P, B>,
    now: (int, int),
    lot_url: Seq<char>,
    result: Result<LotDetails, String>,
) -> Work<P, B> {
    let desk = answered(app.details@, lot_url);
    if !lot_is_kept(app.lots(), lot_url, now) {
        Work { details: forgotten(desk, lot_url), ..app.work() }
    } else {
        match result {
            Ok(details) => Work {
                details: settled(desk, lot_url, FetchState::Loaded(details)),
                photos: if details.photos@.len() > 0 {
                    requested(
                        app.photos@,
                        details.photos@[0]@,
                        app.selected_url() == Some(lot_url),
                    )
                } else {
                    app.photos@
                },
                ..app.work()
            },
            Err(error) => Work {
                details: settled(desk, lot_url, FetchState::Failed(error)),
                ..app.work()
            },
        }
    }
}

/// What is fetched and made after an answer on a photo has come: nothing is kept of it where
/// no lot has it; otherwise it settles the photo, what was made of it goes, and it is asked
/// for as terminal graphics.
pub open spec fn with_photo_answer<P, B>(
    app: App<P, B>,
    now: (int, int),
    photo_url: Seq<char>,
    result: Result<PhotoPreview, String>,
) -> Work<P, B> {
    let desk = answered(app.photos@, photo_url);
    if !photo_is_kept(app.lots(), app.details@.states, photo_url, now) {
        Work { photos: forgotten(desk, photo_url), ..app.work() }
    } else {
        let photos = settled(
            desk,
            photo_url,
            match result {
                Ok(preview) => FetchState::Loaded(preview),
                Err(error) => FetchState::Failed(error),
            },
        );
        let gallery = without_photo(app.gallery@, photo_url);
        Work {
            photos,
            gallery: match (result, app.last_photo_area_size) {
                (Ok(_), Some((width, height))) => asked_terminal(
                    gallery,
                    photos.states,
                    app.has_graphics,
                    (photo_url, width, height),
                    false,
                ),
                _ => gallery,
            },
            ..app.work()
        }
    }
}

/// The next details to send for and the desk after they were taken from those that wait, and
/// whether details that waited in vain were let go of.
pub open spec fn next_details(
    desk: DeskView<LotDetails>,
    lots: Seq<LotText>,
    now: (int, int),
) -> (DeskView<LotDetails>, Option<Seq<char>>, bool)
    decreases desk.queue.len(),
{
    match next_due(desk, DETAIL_PREFETCH_IN_FLIGHT_LIMIT as nat) {
        None => (desk, None, false),
        Some(url) => if lot_is_kept(lots, url, now) {
            (dequeued(desk), Some(url), false)
        } else {
            let rest = next_details(forgotten(dequeued(desk), url), lots, now);
            (rest.0, rest.1, true)
        },
    }
}

/// The numbers of what is kept.
pub open spec fn sizes<P, B>(work: Work<P, B>) -> Seq<nat> {
    seq![
        work.details.states.dom().len(),
        work.details.queue.len(),
        work.details.active.len(),
        work.photos.states.dom().len(),
        work.photos.queue.len(),
        work.photos.active.len(),
        work.gallery.states.dom().len(),
        work.gallery.lru.len(),
        work.gallery.queue.len(),
        work.gallery.active.len(),
        work.gallery.buffers.dom().len(),
        work.gallery.buffer_lru.len(),
    ]
}

/// What is left where only some lots and photos are worth keeping.
pub open spec fn pruned_work<P, B>(
    work: Work<P, B>,
    lots: Seq<Seq<char>>,
    photos: Seq<Seq<char>>,
    photo_limit: nat,
    buffer_limit: nat,
) -> Work<P, B> {
    Work {
        details: pruned(work.details, lots),
        photos: pruned(work.photos, photos),
        gallery: trimmed_buffers(
            trimmed_states(kept_live(work.gallery, photos), photo_limit),
            buffer_limit,
        ),
    }
}

/// Some addresses are those of the lots worth keeping what was fetched for them.
pub open spec fn are_live_lots(urls: Seq<Seq<char>>, lots: Seq<LotText>, now: (int, int)) -> bool {
    forall|url: Seq<char>| #[trigger] urls.contains(url) == lot_is_kept(lots, url, now)
}

/// Some addresses are those of the photos worth keeping.
pub open spec fn are_live_photos(
    urls: Seq<Seq<char>>,
    lots: Seq<LotText>,
    states: Map<Seq<char>, FetchState<LotDetails>>,
    now: (int, int),
) -> bool {
    forall|url: Seq<char>| #[trigger] urls.contains(url) == photo_is_kept(lots, states, url, now)
}

/// What is left of an app's work at a point in time: what belongs to lots worth keeping, and
/// to photos that they or the details that are left have.
pub open spec fn is_pruned<P, B>(app: App<P, B>, now: (int, int), left: Work<P, B>) -> bool {
    exists|lots: Seq<Seq<char>>, photos: Seq<Seq<char>>|
        #![trigger pruned(app.details@, lots), pruned(app.photos@, photos)]
        {
            &&& are_live_lots(lots, app.lots(), now)
            &&& are_live_photos(photos, app.lots(), pruned(app.details@, lots).states, now)
            &&& left == pruned_work(
                app.work(),
                lots,
                photos,
                app.photo_limit(),
                app.buffer_limit(),
            )
        }
}

/// An auction was selected, and its first lot: nothing changes where there is no such auction.
pub open spec fn event_selected<P, B>(
    before: App<P, B>,
    index: usize,
    now: (int, int),
    after: App<P, B>,
) -> bool {
    if index >= before.shown().len() {
        after == before
    } else {
        let chosen = App {
            event_index: index,
            lot_index: 0,
            details_scroll: 0,
            current_auction_hydration_dirty: true,
            focus: FocusPane::Events,
            ..before
        };
        let fetched = prefetched(chosen, now, 0);
        &&& after.work() == (Work {
            gallery: terminal_in_front(
                fetched.gallery,
                fetched.photos.states,
                chosen.has_graphics,
                chosen.last_photo_area_size,
                chosen.priority_photos(),
            ),
            ..fetched
        })
        &&& after.status@ == "Selected auction: "@ + before.shown()[index as int].title
        &&& same_face(App { status: after.status, ..chosen }, after)
    }
}

/// A lot of the selected auction was selected: nothing changes where there is no such lot.
pub open spec fn lot_selected<P, B>(
    before: App<P, B>,
    index: usize,
    now: (int, int),
    after: App<P, B>,
) -> bool {
    match lot_at(before.shown(), before.event_index as nat, index as nat) {
        None => after == before,
        Some(lot) => {
            let chosen = App { lot_index: index, focus: FocusPane::Lots, ..before };
            &&& after.work() == prefetched(chosen, now, index as nat)
            &&& after.status@ == "Selected lot: "@ + lot.name
            &&& same_face(App { status: after.status, ..chosen }, after)
        },
    }
}

/// Whether two texts, each where it is there, are the same and there.
fn is_text(a: &Option<String>, b: &str) -> (r: bool)
    ensures
        r == (optional_text(*a) == Some(b@)),
{
    match a {
        Some(a) => same_text(a.as_str(), b),
        None => false,
    }
}

/// Puts an address into a list, where it is not there yet.
fn add_url(urls: &mut Keys<String>, url: &String)
    ensures
        forall|u: Seq<char>| #[trigger]
            final(urls)@.contains(u) == (u == url@ || old(urls)@.contains(u)),
{
    if !urls.contains(url) {
        proof {
            assert forall|u: Seq<char>| #[trigger] urls@.push(url@).contains(u) == (u == url@
                || urls@.contains(u)) by {
                vstd::seq_lib::lemma_seq_contains_after_push(urls@, url@, u);
            }
        }
        urls.push_back(url.clone());
    }
}

impl<P, B> App<P, B> {
    /// Asks for a lot of the selected auction, with its photo.
    pub fn prefetch_lot_index(&mut self, index: usize, now: &Moment)
        ensures
            final(self).work() == prefetched(*old(self), now@, index as nat),
            same_face(*old(self), *final(self)),
    {
        let found = match self.current_event() {
            Some(event) => if index < event.lots.len() {
                let lot = &event.lots[index];
                let thumbnail_url = match &lot.thumbnail_url {
                    Some(url) => Some(url.clone()),
                    None => None,
                };
                Some((lot.url.clone(), thumbnail_url))
            } else {
                None
            },
            None => None,
        };
        if let Some((lot_url, thumbnail_url)) = found {
            let _ = self.queue_lot_details_at(lot_url, true, now);
            if let Some(thumbnail_url) = thumbnail_url {
                let _ = self.queue_photo_preview(thumbnail_url, true);
            }
        }
    }

    /// Takes in an answer on the details of a lot. Says whether the lot is selected.
    pub fn process_detail_result(
        &mut self,
        lot_url: String,
        result: Result<LotDetails, String>,
        now: &Moment,
    ) -> (r: bool)
        ensures
            final(self).work() == with_detail_answer(*old(self), now@, lot_url@, result),
            same_face(*old(self), *final(self)),
            r == (old(self).selected_url() == Some(lot_url@)),
    {
        let selected = self.current_lot_url();
        let affects_current = is_text(&selected, lot_url.as_str());
        self.details.note_answer(&lot_url);
        if !self.is_cacheable_lot_url(lot_url.as_str(), now) {
            self.details.forget(&lot_url);
            return affects_current;
        }
        match result {
            Ok(details) => {
                let photo = if details.photos.len() > 0 {
                    Some(details.photos[0].clone())
                } else {
                    None
                };
                self.details.settle(lot_url, FetchState::Loaded(details));
                if let Some(photo_url) = photo {
                    let _ = self.queue_photo_preview(photo_url, affects_current);
                }
            },
            Err(error) => {
                self.details.settle(lot_url, FetchState::Failed(error));
            },
        }
        affects_current
    }

    /// Takes in an answer on a photo. Says whether it is the photo to show.
    pub fn process_photo_result(
        &mut self,
        photo_url: String,
        result: Result<PhotoPreview, String>,
        now: &Moment,
    ) -> (r: bool)
        ensures
            final(self).work() == with_photo_answer(*old(self), now@, photo_url@, result),
            same_face(*old(self), *final(self)),
            r == (old(self).primary_photo() == Some(photo_url@)),
    {
        let primary = self.primary_photo_url();
        let affects_current = is_text(&primary, photo_url.as_str());
        self.photos.note_answer(&photo_url);
        if !self.is_cacheable_photo_url_at(photo_url.as_str(), now) {
            self.photos.forget(&photo_url);
            return affects_current;
        }
        let loaded = result.is_ok();
        let state = match result {
            Ok(preview) => FetchState::Loaded(preview),
            Err(error) => FetchState::Failed(error),
        };
        self.gallery.forget_photo(&photo_url);
        self.photos.settle(photo_url.clone(), state);
        if loaded {
            if let Some((width, height)) = self.last_photo_area_size {
                self.queue_terminal_photo_render(photo_url, width, height, false);
            }
        }
        affects_current
    }

    /// Takes in a photo made as terminal graphics. Says whether it is the photo to show.
    pub fn process_terminal_photo_result(
        &mut self,
        key: TerminalPhotoKey,
        state: TerminalPhotoState<P>,
    ) -> (r: bool)
        ensures
            final(self).work() == (Work {
                gallery: accepted(old(self).gallery@, key@, state, old(self).photo_limit()),
                ..old(self).work()
            }),
            same_face(*old(self), *final(self)),
            r == (old(self).primary_photo() == Some(key.0@)),
    {
        let primary = self.primary_photo_url();
        let affects_current = is_text(&primary, key.0.as_str());
        let limit = self.terminal_photo_state_limit();
        self.gallery.accept(key, state, limit);
        affects_current
    }

    /// Takes the next details to send for from those that wait, with the second until which
    /// they may be kept. Says also whether details that waited in vain were let go of.
    pub fn next_detail_request(&mut self, now: &Moment) -> (r: (Option<(String, Option<i64>)>, bool))
        ensures
            (final(self).details@, (match r.0 {
                Some((url, _)) => Some(url@),
                None => None,
            }), r.1) == next_details(old(self).details@, old(self).lots(), now@),
            r.0 matches Some((url, expires_at)) ==> expires_at == lot_expiry(
                old(self).lots(),
                url@,
            ),
            *final(self) == (App { details: final(self).details, ..*old(self) }),
    {
        let ghost goal = next_details(self.details@, self.lots(), now@);
        let mut changed = false;
        loop
            invariant
                goal == next_details(old(self).details@, old(self).lots(), now@),
                goal.0 == next_details(self.details@, self.lots(), now@).0,
                goal.1 == next_details(self.details@, self.lots(), now@).1,
                goal.2 == (changed || next_details(self.details@, self.lots(), now@).2),
                *self == (App { details: self.details, ..*old(self) }),
            decreases self.details@.queue.len(),
        {
            match self.details.take_next(DETAIL_PREFETCH_IN_FLIGHT_LIMIT) {
                None => {
                    return (None, changed);
                },
                Some(lot_url) => {
                    if self.is_cacheable_lot_url(lot_url.as_str(), now) {
                        let expires_at = self.lot_cache_expires_at(lot_url.as_str());
                        return (Some((lot_url, expires_at)), changed);
                    }
                    self.details.forget(&lot_url);
                    changed = true;
                },
            }
        }
    }

    /// Notes that details were sent for.
    pub fn detail_request_sent(&mut self, lot_url: String)
        requires
            old(self).details@.in_flight < usize::MAX,
        ensures
            final(self).details@ == sent(old(self).details@, lot_url@),
            *final(self) == (App { details: final(self).details, ..*old(self) }),
    {
        self.details.note_sent(lot_url);
    }

    /// Notes that details could not be sent for.
    pub fn detail_request_failed(&mut self, lot_url: String, error: &str)
        ensures
            failed_with(
                old(self).details@,
                final(self).details@,
                lot_url@,
                "failed to queue detail load: "@ + error@,
            ),
            *final(self) == (App { details: final(self).details, ..*old(self) }),
    {
        let message = concat("failed to queue detail load: ", error);
        self.details.settle(lot_url, FetchState::Failed(message));
    }

    /// Takes the next photo to send for from those that wait, with a second until which it may
    /// be kept.
    pub fn next_photo_request(&mut self) -> (r: Option<(String, Option<i64>)>)
        ensures
            match next_due(old(self).photos@, PHOTO_PREFETCH_IN_FLIGHT_LIMIT as nat) {
                Some(url) => (r matches Some((photo_url, expires_at)) && photo_url@ == url
                    && is_photo_expiry(
                    old(self).lots(),
                    old(self).details@.states,
                    url,
                    expires_at,
                )) && final(self).photos@ == dequeued(old(self).photos@),
                None => r is None && final(self).photos@ == old(self).photos@,
            },
            *final(self) == (App { photos: final(self).photos, ..*old(self) }),
    {
        match self.photos.take_next(PHOTO_PREFETCH_IN_FLIGHT_LIMIT) {
            Some(photo_url) => {
                let expires_at = self.photo_cache_expires_at(photo_url.as_str());
                Some((photo_url, expires_at))
            },
            None => None,
        }
    }

    /// Notes that a photo was sent for.
    pub fn photo_request_sent(&mut self, photo_url: String)
        requires
            old(self).photos@.in_flight < usize::MAX,
        ensures
            final(self).photos@ == sent(old(self).photos@, photo_url@),
            *final(self) == (App { photos: final(self).photos, ..*old(self) }),
    {
        self.photos.note_sent(photo_url);
    }

    /// Notes that a photo could not be sent for.
    pub fn photo_request_failed(&mut self, photo_url: String, error: &str)
        ensures
            failed_with(
                old(self).photos@,
                final(self).photos@,
                photo_url@,
                "failed to queue photo load: "@ + error@,
            ),
            *final(self) == (App { photos: final(self).photos, ..*old(self) }),
    {
        let message = concat("failed to queue photo load: ", error);
        self.photos.settle(photo_url, FetchState::Failed(message));
    }

    /// Takes the next photo to make as terminal graphics from those that wait. Without terminal
    /// graphics there is none, and all that is for them goes.
    pub fn next_terminal_photo(&mut self) -> (r: Option<TerminalPhotoKey>)
        ensures
            (final(self).gallery@, (match r {
                Some(key) => Some(key@),
                None => None,
            })) == if old(self).has_graphics {
                next_photo(
                    old(self).gallery@,
                    old(self).photos@.states,
                    TERMINAL_PHOTO_IN_FLIGHT_LIMIT as nat,
                )
            } else {
                (shut(old(self).gallery@), None)
            },
            *final(self) == (App { gallery: final(self).gallery, ..*old(self) }),
    {
        if !self.has_graphics {
            self.gallery.shut();
            return None;
        }
        self.gallery.take_next(&self.photos, TERMINAL_PHOTO_IN_FLIGHT_LIMIT)
    }

    /// Notes that a photo was sent off to be made.
    pub fn terminal_photo_sent(&mut self, key: TerminalPhotoKey)
        requires
            old(self).gallery@.in_flight < usize::MAX,
        ensures
            final(self).gallery@ == dispatched(old(self).gallery@, key@),
            *final(self) == (App { gallery: final(self).gallery, ..*old(self) }),
    {
        self.gallery.note_sent(key);
    }

    /// Notes that a photo could not be sent off to be made.
    pub fn terminal_photo_refused(&mut self, key: TerminalPhotoKey)
        ensures
            final(self).gallery@ == refused(old(self).gallery@, key@),
            *final(self) == (App { gallery: final(self).gallery, ..*old(self) }),
    {
        self.gallery.note_refused(key);
    }

    /// The addresses of the lots worth keeping what was fetched for them.
    fn live_lot_urls(&self, now: &Moment) -> (r: Keys<String>)
        ensures
            are_live_lots(r@, self.lots(), now@),
    {
        let lots = lots_of(&self.events);
        let ghost all = self.lots();
        let mut urls: Keys<String> = Keys::new();
        let mut i: usize = 0;
        assert forall|u: Seq<char>| !#[trigger] lot_is_kept(all.take(0), u, now@) by {}
        while i < lots.len()
            invariant
                i <= lots@.len() == all.len(),
                forall|k: int| 0 <= k < lots@.len() ==> (#[trigger] lots@[k])@ == all[k],
                are_live_lots(urls@, all.take(i as int), now@),
            decreases lots@.len() - i,
        {
            let ghost before = urls@;
            let active = lot_cache_is_active(lots[i], now);
            if active {
                add_url(&mut urls, &lots[i].url);
            }
            proof {
                assert(lots@[i as int]@ == all[i as int]);
                assert forall|u: Seq<char>| #[trigger] urls@.contains(u) == lot_is_kept(
                    all.take(i + 1),
                    u,
                    now@,
                ) by {
                    assert(before.contains(u) == lot_is_kept(all.take(i as int), u, now@));
                    lemma_kept_step(all, i as int, u, now@);
                }
            }
            i += 1;
        }
        assert(all.take(i as int) =~= all);
        urls
    }

    /// The addresses of the photos worth keeping.
    fn live_photo_urls(&self, now: &Moment) -> (r: Keys<String>)
        ensures
            are_live_photos(r@, self.lots(), self.details@.states, now@),
    {
        let lots = lots_of(&self.events);
        let ghost all = self.lots();
        let mut urls: Keys<String> = Keys::new();
        let mut i: usize = 0;
        while i < lots.len()
            invariant
                i <= lots@.len() == all.len(),
                forall|k: int| 0 <= k < lots@.len() ==> (#[trigger] lots@[k])@ == all[k],
                forall|u: Seq<char>| #[trigger]
                    urls@.contains(u) == is_shown_photo(all.take(i as int), u, now@),
            decreases lots@.len() - i,
        {
            let ghost before = urls@;
            let active = lot_cache_is_active(lots[i], now);
            if active {
                if let Some(url) = &lots[i].thumbnail_url {
                    add_url(&mut urls, url);
                }
            }
            proof {
                assert(lots@[i as int]@ == all[i as int]);
                assert forall|u: Seq<char>| #[trigger] urls@.contains(u) == is_shown_photo(
                    all.take(i + 1),
                    u,
                    now@,
                ) by {
                    assert(before.contains(u) == is_shown_photo(all.take(i as int), u, now@));
                    lemma_shown_step(all, i as int, u, now@);
                }
            }
            i += 1;
        }
        assert(all.take(i as int) =~= all);
        let ghost states = self.details@.states;
        let ghost order = self.details.states.order();
        let count = self.details.states.len();
        let mut i: usize = 0;
        while i < count
            invariant
                i <= count == order.len(),
                order == self.details.states.order(),
                states == self.details@.states,
                forall|u: Seq<char>| #[trigger]
                    urls@.contains(u) == (is_shown_photo(all, u, now@) || exists|k: int|
                        0 <= k < i && details_hold_photo(states, #[trigger] order[k], u)),
            decreases count - i,
        {
            let (lot_url, state) = self.details.states.entry(i);
            let ghost before = urls@;
            let ghost mut own: Seq<Seq<char>> = seq![];
            if let FetchState::Loaded(details) = state {
                proof {
                    own = texts(details.photos@);
                }
                let mut j: usize = 0;
                while j < details.photos.len()
                    invariant
                        j <= details.photos@.len(),
                        own == texts(details.photos@),
                        forall|u: Seq<char>| #[trigger]
                            urls@.contains(u) == (before.contains(u) || own.take(j as int).contains(u)),
                    decreases details.photos@.len() - j,
                {
                    let ghost within = urls@;
                    add_url(&mut urls, &details.photos[j]);
                    proof {
                        assert(own.take(j + 1) =~= own.take(j as int).push(own[j as int]));
                        assert forall|u: Seq<char>| #[trigger] urls@.contains(u) == (
                        before.contains(u) || own.take(j + 1).contains(u)) by {
                            assert(within.contains(u) == (before.contains(u) || own.take(
                                j as int,
                            ).contains(u)));
                            vstd::seq_lib::lemma_seq_contains_after_push(
                                own.take(j as int),
                                own[j as int],
                                u,
                            );
                        }
                    }
                    j += 1;
                }
                assert(own.take(j as int) =~= own);
            }
            proof {
                assert forall|u: Seq<char>| #[trigger] urls@.contains(u) == (is_shown_photo(
                    all,
                    u,
                    now@,
                ) || exists|k: int|
                    0 <= k < i + 1 && details_hold_photo(states, #[trigger] order[k], u)) by {
                    assert(details_hold_photo(states, order[i as int], u) == own.contains(u));
                    assert(before.contains(u) == (is_shown_photo(all, u, now@) || exists|k: int|
                        0 <= k < i && details_hold_photo(states, #[trigger] order[k], u)));
                    if own.contains(u) {
                        assert(details_hold_photo(states, order[i as int], u));
                    }
                }
            }
            i += 1;
        }
        proof {
            assert forall|u: Seq<char>| #[trigger] urls@.contains(u) == photo_is_kept(
                all,
                states,
                u,
                now@,
            ) by {
                if exists|lot_url: Seq<char>| #[trigger] details_hold_photo(states, lot_url, u) {
                    let lot_url = choose|lot_url: Seq<char>| #[trigger]
                        details_hold_photo(states, lot_url, u);
                    assert(order.contains(lot_url));
                    let k = choose|k: int| 0 <= k < order.len() && order[k] == lot_url;
                    assert(details_hold_photo(states, order[k], u));
                }
            }
        }
        urls
    }

    /// The numbers of what is kept.
    fn kept_counts(&self) -> (r: Vec<usize>)
        ensures
            r@.map_values(|n: usize| n as nat) == sizes(self.work()),
    {
        let r: Vec<usize> = vec![
            self.details.states.len(),
            self.details.queue.len(),
            self.details.active.len(),
            self.photos.states.len(),
            self.photos.queue.len(),
            self.photos.active.len(),
            self.gallery.states.len(),
            self.gallery.lru.len(),
            self.gallery.queue.len(),
            self.gallery.active.len(),
            self.gallery.buffers.len(),
            self.gallery.buffer_lru.len(),
        ];
        assert(r@.map_values(|n: usize| n as nat) =~= sizes(self.work()));
        r
    }

    /// Lets go of what is past at a point in time. Says whether there was any.
    pub fn prune_expired_caches_at(&mut self, now: &Moment) -> (r: bool)
        ensures
            is_pruned(*old(self), now@, final(self).work()),
            same_face(*old(self), *final(self)),
            r == (sizes(final(self).work()) != sizes(old(self).work())),
    {
        let before = self.kept_counts();
        let lots = self.live_lot_urls(now);
        self.details.prune(&lots);
        let photos = self.live_photo_urls(now);
        self.photos.prune(&photos);
        self.gallery.keep_live(&photos);
        let limit = self.terminal_photo_state_limit();
        self.gallery.trim_terminal_photo_states(limit);
        let limit = self.photo_render_buffer_limit();
        self.gallery.trim_photo_render_buffers(limit);
        proof {
            let app = *old(self);
            assert(pruned(app.details@, lots@) == self.details@);
            assert(pruned(app.photos@, photos@) == self.photos@);
            assert(self.work() == pruned_work(
                app.work(),
                lots@,
                photos@,
                app.photo_limit(),
                app.buffer_limit(),
            ));
        }
        let after = self.kept_counts();
        !same_counts(&before, &after)
    }

    /// Lets go of what is past. Says whether there was any.
    pub fn prune_expired_caches(&mut self) -> (r: bool)
        ensures
            exists|now: (int, int)|
                in_calendar(now.0, now.1) && #[trigger] is_pruned(
                    *old(self),
                    now,
                    final(self).work(),
                ),
            same_face(*old(self), *final(self)),
            r == (sizes(final(self).work()) != sizes(old(self).work())),
    {
        let now = utc_now();
        let r = self.prune_expired_caches_at(&now);
        assert(is_pruned(*old(self), now@, self.work()));
        r
    }

    /// Selects an auction and its first lot.
    pub fn select_event(&mut self, index: usize, now: &Moment)
        ensures
            event_selected(*old(self), index, now@, *final(self)),
            old(self).selection_is_valid() ==> final(self).selection_is_valid(),
    {
        if index >= self.events.len() {
            return;
        }
        self.event_index = index;
        self.lot_index = 0;
        self.details_scroll = 0;
        self.current_auction_hydration_dirty = true;
        self.set_focus(FocusPane::Events);
        self.clamp_selection();
        self.prefetch_lot_index(self.lot_index, now);
        let photo_urls = self.current_auction_photo_urls_by_priority();
        self.queue_terminal_photo_batch_front(photo_urls);
        let status = match self.current_event() {
            Some(event) => Some(concat("Selected auction: ", event.title.as_str())),
            None => None,
        };
        if let Some(status) = status {
            self.status = status;
        }
    }

    /// Selects a lot of the selected auction.
    pub fn select_lot(&mut self, index: usize, now: &Moment)
        ensures
            lot_selected(*old(self), index, now@, *final(self)),
            old(self).selection_is_valid() ==> final(self).selection_is_valid(),
    {
        let count = match self.current_event() {
            Some(event) => event.lots.len(),
            None => {
                return;
            },
        };
        if index >= count {
            return;
        }
        self.lot_index = index;
        self.set_focus(FocusPane::Lots);
        self.prefetch_lot_index(index, now);
        let status = match self.current_lot() {
            Some(lot) => Some(concat("Selected lot: ", lot.name.as_str())),
            None => None,
        };
        if let Some(status) = status {
            self.status = status;
        }
    }

    /// Takes in auctions that were loaded anew.
    pub fn refreshed(&mut self, events: Vec<AuctionEvent>, loaded_at: Moment)
        ensures
            final(self).events == events,
            final(self).loaded_at == loaded_at,
            final(self).status@ == summary("Refreshed live auction data."@, auction_texts(events@)),
            final(self).event_index == clamped(old(self).event_index as nat, events@.len()),
            final(self).lot_index == clamped(
                old(self).lot_index as nat,
                lot_count(auction_texts(events@), final(self).event_index as nat),
            ),
            final(self).selection_is_valid(),
            same_face(
                App {
                    events,
                    loaded_at,
                    status: final(self).status,
                    event_index: final(self).event_index,
                    lot_index: final(self).lot_index,
                    event_offset: if events@.len() == 0 {
                        0
                    } else {
                        old(self).event_offset
                    },
                    lot_offset: if events@.len() == 0 {
                        0
                    } else {
                        old(self).lot_offset
                    },
                    current_auction_hydration_dirty: true,
                    last_global_hydration_at: None,
                    ..*old(self)
                },
                *final(self),
            ),
            is_pruned(
                App {
                    events,
                    event_index: final(self).event_index,
                    ..*old(self)
                },
                loaded_at@,
                final(self).work(),
            ),
    {
        self.events = events;
        self.loaded_at = loaded_at;
        self.clamp_selection();
        let ghost loaded = *self;
        let _ = self.prune_expired_caches_at(&loaded_at);
        proof {
            let app = App { events, event_index: self.event_index, ..*old(self) };
            lemma_pruned_by_what_is_shown(loaded, app, loaded_at@, self.work());
        }
        self.current_auction_hydration_dirty = true;
        self.last_global_hydration_at = None;
        self.sync_status("Refreshed live auction data.");
    }

    /// Says that auctions could not be loaded anew.
    pub fn refresh_failed(&mut self, error: &str)
        ensures
            final(self).status@ == "Refresh failed: "@ + error@,
            *final(self) == (App { status: final(self).status, ..*old(self) }),
    {
        self.status = concat("Refresh failed: ", error);
    }

    /// The name and the address of the selected lot, to open it.
    pub fn lot_to_open(&self) -> (r: Option<(String, String)>)
        ensures
            match self.selected() {
                Some(lot) => r matches Some((name, url)) && name@ == lot.name && url@ == lot.url,
                None => r is None,
            },
    {
        match self.current_lot() {
            Some(lot) => Some((lot.name.clone(), lot.url.clone())),
            None => None,
        }
    }

    /// Says that a lot was opened.
    pub fn lot_opened(&mut self, name: &str)
        ensures
            final(self).status@ == "Opened "@ + name@ + " in your browser."@,
            *final(self) == (App { status: final(self).status, ..*old(self) }),
    {
        let mut status = concat("Opened ", name);
        status.append(" in your browser.");
        self.status = status;
    }

    /// Says that a lot could not be opened.
    pub fn lot_not_opened(&mut self, name: &str, error: &str)
        ensures
            final(self).status@ == "Could not open browser for "@ + name@ + ": "@ + error@,
            *final(self) == (App { status: final(self).status, ..*old(self) }),
    {
        let mut status = concat("Could not open browser for ", name);
        status.append(": ");
        status.append(error);
        self.status = status;
    }
}

/// A desk is another with a failure for an address.
pub open spec fn failed_with<T>(
    before: DeskView<T>,
    after: DeskView<T>,
    url: Seq<char>,
    message: Seq<char>,
) -> bool {
    &&& after.states.contains_key(url)
    &&& after.states[url] matches FetchState::Failed(m) && m@ == message
    &&& after == settled(before, url, after.states[url])
}

/// A photo is shown by a lot that is worth keeping what was fetched for it.
pub open spec fn is_shown_photo(lots: Seq<LotText>, url: Seq<char>, now: (int, int)) -> bool {
    exists|i: int|
        0 <= i < lots.len() && (#[trigger] lots[i]).thumbnail_url == Some(url) && lot_is_active(
            lots[i],
            now,
        )
}

/// One more lot can only make more addresses worth keeping.
proof fn lemma_kept_step(lots: Seq<LotText>, i: int, url: Seq<char>, now: (int, int))
    requires
        0 <= i < lots.len(),
    ensures
        lot_is_kept(lots.take(i + 1), url, now) == (lot_is_kept(lots.take(i), url, now) || (
        lots[i].url == url && lot_is_active(lots[i], now))),
{
    let more = lots.take(i + 1);
    let fewer = lots.take(i);
    if lot_is_kept(fewer, url, now) {
        let k = choose|k: int|
            0 <= k < fewer.len() && (#[trigger] fewer[k]).url == url && lot_is_active(
                fewer[k],
                now,
            );
        assert(more[k] == fewer[k]);
    }
    if lots[i].url == url && lot_is_active(lots[i], now) {
        assert(more[i] == lots[i]);
    }
    if lot_is_kept(more, url, now) {
        let k = choose|k: int|
            0 <= k < more.len() && (#[trigger] more[k]).url == url && lot_is_active(more[k], now);
        if k < i {
            assert(fewer[k] == more[k]);
        }
    }
}

/// One more lot can only show more photos.
proof fn lemma_shown_step(lots: Seq<LotText>, i: int, url: Seq<char>, now: (int, int))
    requires
        0 <= i < lots.len(),
    ensures
        is_shown_photo(lots.take(i + 1), url, now) == (is_shown_photo(lots.take(i), url, now) || (
        lots[i].thumbnail_url == Some(url) && lot_is_active(lots[i], now))),
{
    let more = lots.take(i + 1);
    let fewer = lots.take(i);
    if is_shown_photo(fewer, url, now) {
        let k = choose|k: int|
            0 <= k < fewer.len() && (#[trigger] fewer[k]).thumbnail_url == Some(url)
                && lot_is_active(fewer[k], now);
        assert(more[k] == fewer[k]);
    }
    if lots[i].thumbnail_url == Some(url) && lot_is_active(lots[i], now) {
        assert(more[i] == lots[i]);
    }
    if is_shown_photo(more, url, now) {
        let k = choose|k: int|
            0 <= k < more.len() && (#[trigger] more[k]).thumbnail_url == Some(url)
                && lot_is_active(more[k], now);
        if k < i {
            assert(fewer[k] == more[k]);
        }
    }
}

/// Whether two lists of numbers are the same.
fn same_counts(a: &Vec<usize>, b: &Vec<usize>) -> (r: bool)
    ensures
        r == (a@.map_values(|n: usize| n as nat) == b@.map_values(|n: usize| n as nat)),
{
    let ghost x = a@.map_values(|n: usize| n as nat);
    let ghost y = b@.map_values(|n: usize| n as nat);
    if a.len() != b.len() {
        assert(x.len() != y.len());
        return false;
    }
    let mut i: usize = 0;
    while i < a.len()
        invariant
            i <= a@.len() == b@.len(),
            x == a@.map_values(|n: usize| n as nat),
            y == b@.map_values(|n: usize| n as nat),
            forall|k: int| 0 <= k < i ==> a@[k] == b@[k],
        decreases a@.len() - i,
    {
        if a[i] != b[i] {
            assert(x[i as int] != y[i as int]);
            return false;
        }
        i += 1;
    }
    assert(x =~= y);
    true
}

/// What is left depends on what an app shows and on its work alone.
proof fn lemma_pruned_by_what_is_shown<P, B>(
    a: App<P, B>,
    b: App<P, B>,
    now: (int, int),
    left: Work<P, B>,
)
    requires
        a.events == b.events,
        a.event_index == b.event_index,
        a.work() == b.work(),
        is_pruned(a, now, left),
    ensures
        is_pruned(b, now, left),
{
    let (lots, photos) = choose|lots: Seq<Seq<char>>, photos: Seq<Seq<char>>|
        #![trigger pruned(a.details@, lots), pruned(a.photos@, photos)]
        {
            &&& are_live_lots(lots, a.lots(), now)
            &&& are_live_photos(photos, a.lots(), pruned(a.details@, lots).states, now)
            &&& left == pruned_work(a.work(), lots, photos, a.photo_limit(), a.buffer_limit())
        };
    assert(pruned(b.details@, lots) == pruned(a.details@, lots));
    assert(pruned(b.photos@, photos) == pruned(a.photos@, photos));
}

/// After what is past has gone, all details that are left belong to lots worth keeping them,
/// none of those went, and all that waits or is on its way belongs to such lots.
pub proof fn law_pruning_keeps_what_is_live<P, B>(
    app: App<P, B>,
    now: (int, int),
    left: Work<P, B>,
    url: Seq<char>,
)
    requires
        is_pruned(app, now, left),
    ensures
        left.details.states.contains_key(url) <==> app.details@.states.contains_key(url)
            && lot_is_kept(app.lots(), url, now),
        left.details.states.contains_key(url) ==> left.details.states[url]
            == app.details@.states[url],
        left.photos.states.contains_key(url) <==> app.photos@.states.contains_key(url)
            && photo_is_kept(app.lots(), left.details.states, url, now),
        left.photos.states.contains_key(url) ==> left.photos.states[url] == app.photos@.states[url],
        left.details.queue.contains(url) ==> lot_is_kept(app.lots(), url, now),
        left.details.active.contains(url) ==> lot_is_kept(app.lots(), url, now),
        left.photos.queue.contains(url) ==> photo_is_kept(
            app.lots(),
            left.details.states,
            url,
            now,
        ),
{
    let (lots, photos) = choose|lots: Seq<Seq<char>>, photos: Seq<Seq<char>>|
        #![trigger pruned(app.details@, lots), pruned(app.photos@, photos)]
        {
            &&& are_live_lots(lots, app.lots(), now)
            &&& are_live_photos(photos, app.lots(), pruned(app.details@, lots).states, now)
            &&& left == pruned_work(
                app.work(),
                lots,
                photos,
                app.photo_limit(),
                app.buffer_limit(),
            )
        };
    assert(lots.contains(url) == lot_is_kept(app.lots(), url, now));
    assert(photos.contains(url) == photo_is_kept(app.lots(), left.details.states, url, now));
    lemma_with_live_urls::<String>(app.details@.queue, lots);
    lemma_with_live_urls::<String>(app.details@.active, lots);
    lemma_with_live_urls::<String>(app.photos@.queue, photos);
}

/// An answer on the details of a lot that is worth keeping settles that lot and no other: with
/// the details, or with the error. It is no longer owed, and the first photo of the details waits
/// from then on, before all others where the lot is selected. An answer on a lot that is past
/// leaves nothing.
pub proof fn law_answer_settles_its_lot<P, B>(
    app: App<P, B>,
    now: (int, int),
    lot_url: Seq<char>,
    result: Result<LotDetails, String>,
    other: Seq<char>,
)
    requires
        other != lot_url,
    ensures
        ({
            let after = with_detail_answer(app, now, lot_url, result);
            &&& !after.details.active.contains(lot_url)
            &&& app.details@.in_flight > 0 ==> after.details.in_flight == app.details@.in_flight - 1
            &&& after.details.queue == app.details@.queue
            &&& after.details.states.contains_key(other) == app.details@.states.contains_key(other)
            &&& app.details@.states.contains_key(other) ==> after.details.states[other]
                == app.details@.states[other]
            &&& after.gallery == app.gallery@
            &&& !lot_is_kept(app.lots(), lot_url, now) ==> !after.details.states.contains_key(
                lot_url,
            ) && after.photos == app.photos@
            &&& lot_is_kept(app.lots(), lot_url, now) ==> after.details.states.contains_key(lot_url)
            &&& lot_is_kept(app.lots(), lot_url, now) ==> (match result {
                Ok(details) => {
                    &&& after.details.states[lot_url] == FetchState::Loaded(details)
                    &&& details.photos@.len() > 0 && !is_settled(app.photos@, details.photos@[0]@)
                        && !app.photos@.active.contains(details.photos@[0]@)
                        ==> after.photos.queue.contains(details.photos@[0]@) && (
                    app.selected_url() == Some(lot_url) ==> after.photos.queue[0]
                        == details.photos@[0]@)
                    &&& details.photos@.len() == 0 ==> after.photos == app.photos@
                },
                Err(error) => after.details.states[lot_url] == FetchState::<LotDetails>::Failed(
                    error,
                ) && after.photos == app.photos@,
            })
        }),
{
    lemma_without(app.details@.active, lot_url);
    match result {
        Ok(details) => {
            if details.photos@.len() > 0 {
                lemma_enqueued(app.photos@.queue, details.photos@[0]@, true);
                lemma_enqueued(app.photos@.queue, details.photos@[0]@, false);
            }
        },
        Err(_) => {},
    }
}

/// An answer on a photo that is worth keeping settles that photo and no other: with the picture,
/// or with the error. It is no longer owed, and nothing that was made or drawn of it before is
/// left. An answer on a photo that no lot has leaves nothing.
pub proof fn law_answer_settles_its_photo<P, B>(
    app: App<P, B>,
    now: (int, int),
    photo_url: Seq<char>,
    result: Result<PhotoPreview, String>,
    other: Seq<char>,
)
    requires
        other != photo_url,
    ensures
        ({
            let after = with_photo_answer(app, now, photo_url, result);
            let kept = photo_is_kept(app.lots(), app.details@.states, photo_url, now);
            &&& !after.photos.active.contains(photo_url)
            &&& app.photos@.in_flight > 0 ==> after.photos.in_flight == app.photos@.in_flight - 1
            &&& after.photos.queue == app.photos@.queue
            &&& after.photos.states.contains_key(other) == app.photos@.states.contains_key(other)
            &&& app.photos@.states.contains_key(other) ==> after.photos.states[other]
                == app.photos@.states[other]
            &&& after.details == app.details@
            &&& !kept ==> !after.photos.states.contains_key(photo_url) && after.gallery
                == app.gallery@
            &&& kept ==> after.photos.states.contains_key(photo_url)
            &&& kept ==> (match result {
                Ok(photo) => after.photos.states[photo_url] == FetchState::Loaded(photo),
                Err(error) => after.photos.states[photo_url] == FetchState::<PhotoPreview>::Failed(
                    error,
                ),
            })
            &&& kept ==> forall|key: (Seq<char>, u16, u16)|
                key.0 == photo_url ==> !#[trigger] after.gallery.states.contains_key(key)
            &&& kept ==> forall|key: (Seq<char>, u16, u16, bool)|
                key.0 == photo_url ==> !#[trigger] after.gallery.buffers.contains_key(key)
        }),
{
    lemma_without(app.photos@.active, photo_url);
}

/// The details that are sent for next are the first of those that wait whose lot is worth keeping
/// them; all before them are let go of, and nothing else is.
pub proof fn law_next_details_are_the_first_worth_keeping(
    desk: DeskView<LotDetails>,
    lots: Seq<LotText>,
    now: (int, int),
)
    requires
        desk.in_flight < 3,
    ensures
        match next_details(desk, lots, now).1 {
            Some(url) => exists|n: int| {
                &&& 0 <= n < desk.queue.len()
                &&& desk.queue[n] == url
                &&& lot_is_kept(lots, url, now)
                &&& forall|i: int|
                    0 <= i < n ==> !lot_is_kept(lots, #[trigger] desk.queue[i], now)
                &&& next_details(desk, lots, now).0.queue == #[trigger] desk.queue.skip(n + 1)
            },
            None => forall|i: int|
                0 <= i < desk.queue.len() ==> !lot_is_kept(lots, #[trigger] desk.queue[i], now),
        },
        next_details(desk, lots, now).0.in_flight == desk.in_flight,
        next_details(desk, lots, now).0.active == desk.active,
    decreases desk.queue.len(),
{
    if desk.queue.len() > 0 {
        let url = desk.queue[0];
        if lot_is_kept(lots, url, now) {
            assert(desk.queue.drop_first() =~= desk.queue.skip(0int + 1));
        } else {
            let rest = forgotten(dequeued(desk), url);
            law_next_details_are_the_first_worth_keeping(rest, lots, now);
            assert(next_details(desk, lots, now).0 == next_details(rest, lots, now).0);
            match next_details(rest, lots, now).1 {
                Some(next) => {
                    let n = choose|n: int| {
                        &&& 0 <= n < rest.queue.len()
                        &&& rest.queue[n] == next
                        &&& lot_is_kept(lots, next, now)
                        &&& forall|i: int|
                            0 <= i < n ==> !lot_is_kept(lots, #[trigger] rest.queue[i], now)
                        &&& next_details(rest, lots, now).0.queue == #[trigger] rest.queue.skip(
                            n + 1,
                        )
                    };
                    assert(desk.queue.skip(n + 1 + 1) =~= rest.queue.skip(n + 1));
                    assert(desk.queue[n + 1] == next);
                    assert forall|i: int| 0 <= i < n + 1 implies !lot_is_kept(
                        lots,
                        #[trigger] desk.queue[i],
                        now,
                    ) by {
                        if i > 0 {
                            assert(rest.queue[i - 1] == desk.queue[i]);
                        }
                    }
                },
                None => {
                    assert forall|i: int| 0 <= i < desk.queue.len() implies !lot_is_kept(
                        lots,
                        #[trigger] desk.queue[i],
                        now,
                    ) by {
                        if i > 0 {
                            assert(rest.queue[i - 1] == desk.queue[i]);
                        }
                    }
                },
            }
        }
    }
}

/// Selecting an auction leads to it and its first lot, at the top of the details, and says its
/// title; selecting a lot leads to it, and says its name. Nothing else that is shown changes, and
/// a position without an entry changes nothing.
pub proof fn law_selecting_leads_to_the_entry<P, B>(
    before: App<P, B>,
    index: usize,
    now: (int, int),
    auction: App<P, B>,
    lot: App<P, B>,
)
    requires
        event_selected(before, index, now, auction),
        lot_selected(before, index, now, lot),
    ensures
        index < before.shown().len() ==> {
            &&& auction.event_index == index && auction.lot_index == 0
            &&& auction.details_scroll == 0
            &&& auction.focus == FocusPane::Events
            &&& auction.status@ == "Selected auction: "@ + before.shown()[index as int].title
        },
        index >= before.shown().len() ==> auction == before,
        before.event_index < before.shown().len() && index
            < before.shown()[before.event_index as int].lots.len() ==> {
            &&& lot.lot_index == index && lot.event_index == before.event_index
            &&& lot.focus == FocusPane::Lots
            &&& lot.status@ == "Selected lot: "@
                + before.shown()[before.event_index as int].lots[index as int].name
        },
        before.event_index < before.shown().len() && index
            >= before.shown()[before.event_index as int].lots.len() ==> lot == before,
        auction.shown() == before.shown() && lot.shown() == before.shown(),
        auction.sizes() == before.sizes() && lot.sizes() == before.sizes(),
{
}

/// Asking for a lot of the selected auction sends for its details and its photo before all
/// others, where these are neither there nor on their way and the lot is worth keeping them.
pub proof fn law_prefetched_lot_is_next<P, B>(app: App<P, B>, now: (int, int), index: nat)
    requires
        app.event_index < app.shown().len(),
        index < app.shown()[app.event_index as int].lots.len(),
    ensures
        ({
            let lot = app.shown()[app.event_index as int].lots[index as int];
            let after = prefetched(app, now, index);
            &&& !is_settled(app.details@, lot.url) && !app.details@.active.contains(lot.url)
                && lot_is_kept(app.lots(), lot.url, now) ==> after.details.queue[0] == lot.url
                && after.details.queue.len() > 0
            &&& (lot.thumbnail_url matches Some(url) ==> !is_settled(app.photos@, url)
                && !app.photos@.active.contains(url) ==> after.photos.queue.len() > 0
                && after.photos.queue[0] == url)
            &&& lot.thumbnail_url is None ==> after.photos == app.photos@
            &&& !lot_is_kept(app.lots(), lot.url, now) ==> after.details == app.details@
        }),
{
}

/// What is worth keeping for a lot is so because a lot with its address is not past; and a photo
/// because such a lot shows it, or details that have come hold it.
pub proof fn law_live_lots_are_worth_keeping(
    lots: Seq<LotText>,
    states: Map<Seq<char>, FetchState<LotDetails>>,
    i: int,
    now: (int, int),
)
    requires
        0 <= i < lots.len(),
        lots[i].close_at matches Some(close) ==> close.0 > now.0 || (close.0 == now.0 && close.1
            > now.1),
    ensures
        lot_is_kept(lots, lots[i].url, now),
        lots[i].thumbnail_url matches Some(url) ==> photo_is_kept(lots, states, url, now),
        states.contains_key(lots[i].url) ==> (states[lots[i].url] matches FetchState::Loaded(
            details,
        ) ==> forall|k: int|
            0 <= k < details.photos@.len() ==> photo_is_kept(
                lots,
                states,
                (#[trigger] details.photos@[k])@,
                now,
            )),
{
    if states.contains_key(lots[i].url) {
        match states[lots[i].url] {
            FetchState::Loaded(details) => {
                assert forall|k: int| 0 <= k < details.photos@.len() implies photo_is_kept(
                    lots,
                    states,
                    (#[trigger] details.photos@[k])@,
                    now,
                ) by {
                    let all = texts(details.photos@);
                    assert(all[k] == details.photos@[k]@);
                    assert(all.contains(details.photos@[k]@));
                    assert(details_hold_photo(states, lots[i].url, details.photos@[k]@));
                }
            },
            _ => {},
        }
    }
}

/// Where every lot with an address is past, what was fetched for it is not worth keeping.
pub proof fn law_past_lots_are_not_worth_keeping(
    lots: Seq<LotText>,
    url: Seq<char>,
    now: (int, int),
)
    requires
        forall|i: int|
            0 <= i < lots.len() && (#[trigger] lots[i]).url == url ==> (
            lots[i].close_at matches Some(close) && (close.0 < now.0 || (close.0 == now.0
                && close.1 <= now.1))),
    ensures
        !lot_is_kept(lots, url, now),
{
}

/// Whether letting go changed anything is told by the numbers of what is kept, all of them.
pub proof fn law_sizes_are_all_counted<P, B>(a: Work<P, B>, b: Work<P, B>)
    requires
        sizes(a) == sizes(b),
    ensures
        a.details.states.dom().len() == b.details.states.dom().len(),
        a.details.queue.len() == b.details.queue.len(),
        a.details.active.len() == b.details.active.len(),
        a.photos.states.dom().len() == b.photos.states.dom().len(),
        a.photos.queue.len() == b.photos.queue.len(),
        a.photos.active.len() == b.photos.active.len(),
        a.gallery.states.dom().len() == b.gallery.states.dom().len(),
        a.gallery.lru.len() == b.gallery.lru.len(),
        a.gallery.queue.len() == b.gallery.queue.len(),
        a.gallery.active.len() == b.gallery.active.len(),
        a.gallery.buffers.dom().len() == b.gallery.buffers.dom().len(),
        a.gallery.buffer_lru.len() == b.gallery.buffer_lru.len(),
{
    let x = sizes(a);
    let y = sizes(b);
    assert(forall|i: int| 0 <= i < 12 ==> #[trigger] x[i] == y[i]);
    assert(x[0] == y[0] && x[1] == y[1] && x[2] == y[2] && x[3] == y[3] && x[4] == y[4] && x[5]
        == y[5] && x[6] == y[6] && x[7] == y[7] && x[8] == y[8] && x[9] == y[9] && x[10] == y[10]
        && x[11] == y[11]);
}

/// A photo that has come waits to be made as terminal graphics in the size that photos are shown
/// in, where there are such graphics and it is not being made.
pub proof fn law_photo_that_came_is_made<P, B>(
    app: App<P, B>,
    now: (int, int),
    photo_url: Seq<char>,
    photo: PhotoPreview,
    width: u16,
    height: u16,
)
    requires
        photo_is_kept(app.lots(), app.details@.states, photo_url, now),
        app.has_graphics,
        app.last_photo_area_size == Some((width, height)),
        width > 0 && height > 0,
        !app.gallery@.active.contains((photo_url, width, height)),
    ensures
        with_photo_answer(app, now, photo_url, Ok(photo)).gallery.queue.contains(
            (photo_url, width, height),
        ),
{
    let key = (photo_url, width, height);
    lemma_enqueued(app.gallery@.queue, key, false);
}

/// After what is past has gone, all that was made or drawn belongs to photos worth keeping.
pub proof fn law_pruning_keeps_live_photos_only<P, B>(
    app: App<P, B>,
    now: (int, int),
    left: Work<P, B>,
    key: (Seq<char>, u16, u16),
    drawing: (Seq<char>, u16, u16, bool),
)
    requires
        is_pruned(app, now, left),
    ensures
        left.gallery.states.contains_key(key) ==> app.gallery@.states.contains_key(key)
            && photo_is_kept(app.lots(), left.details.states, key.0, now),
        left.gallery.buffers.contains_key(drawing) ==> app.gallery@.buffers.contains_key(drawing)
            && photo_is_kept(app.lots(), left.details.states, drawing.0, now),
{
    let (lots, photos) = choose|lots: Seq<Seq<char>>, photos: Seq<Seq<char>>|
        #![trigger pruned(app.details@, lots), pruned(app.photos@, photos)]
        {
            &&& are_live_lots(lots, app.lots(), now)
            &&& are_live_photos(photos, app.lots(), pruned(app.details@, lots).states, now)
            &&& left == pruned_work(
                app.work(),
                lots,
                photos,
                app.photo_limit(),
                app.buffer_limit(),
            )
        };
    let live = kept_live(app.gallery@, photos);
    let room = trimmed_states(live, app.photo_limit());
    lemma_trimming_adds_nothing(live, app.photo_limit(), key, drawing);
    lemma_trimming_adds_nothing(room, app.buffer_limit(), key, drawing);
    assert(photos.contains(key.0) == photo_is_kept(app.lots(), left.details.states, key.0, now));
    assert(photos.contains(drawing.0) == photo_is_kept(
        app.lots(),
        left.details.states,
        drawing.0,
        now,
    ));
}

} // verus!
