//! The work behind browsing: which details and photos to fetch and in what order, what to do
//! with what has come, and what to keep of it.
use vstd::prelude::*;

use crate::browser::{all_lots, event_at, lot_count, lots_of, App};
use crate::catalog::{
    close_second, lot_cache_expires_at, lot_cache_is_active, lot_is_active, AuctionText,
};
use crate::desk::{is_settled, requested, DeskView, FetchState};
use crate::keys::lemma_enqueued;
use crate::gallery::{ordered, photo_is_loaded, GalleryView, PhotoKeyText};
use crate::listing::{LotDetails, LotText};
use crate::moments::{in_calendar, utc_now, Moment};
use crate::preview::PhotoPreview;
use crate::text::{same_text, texts};

verus! {

/// How many answers on details may be owed.
pub const DETAIL_PREFETCH_IN_FLIGHT_LIMIT: usize = 3;

/// How many answers on photos may be owed.
pub const PHOTO_PREFETCH_IN_FLIGHT_LIMIT: usize = 8;

/// How many terminal photos may be owed.
pub const TERMINAL_PHOTO_IN_FLIGHT_LIMIT: usize = 2;

/// How many answers on details are taken in at a time.
pub const DETAIL_RESULTS_PER_FRAME: usize = 24;

/// How many answers on photos are taken in at a time.
pub const PHOTO_RESULTS_PER_FRAME: usize = 12;

/// How many terminal photos are kept at least.
pub const TERMINAL_PHOTO_STATE_CACHE_LIMIT: usize = 640;

/// How many drawings are kept at least.
pub const PHOTO_RENDER_BUFFER_CACHE_LIMIT: usize = 640;

/// The nanoseconds after which the lots of other auctions are asked for again.
pub const GLOBAL_BACKGROUND_HYDRATION_INTERVAL: u64 = 30_000_000_000;

/// What is fetched and made.
pub ghost struct Work<P, B> {
    pub details: DeskView<LotDetails>,
    pub photos: DeskView<PhotoPreview>,
    pub gallery: GalleryView<P, B>,
}

/// What an app has to show is the same as that of another: they differ in the work behind it
/// at most.
pub open spec fn same_face<P, B>(a: App<P, B>, b: App<P, B>) -> bool {
    b == (App { details: b.details, photos: b.photos, gallery: b.gallery, ..a })
}

/// Some lot with an address is worth keeping what was fetched for it.
pub open spec fn lot_is_kept(lots: Seq<LotText>, url: Seq<char>, now: (int, int)) -> bool {
    exists|i: int|
        0 <= i < lots.len() && (#[trigger] lots[i]).url == url && lot_is_active(lots[i], now)
}

/// The first lot with an address.
pub open spec fn first_with_url(lots: Seq<LotText>, url: Seq<char>) -> Option<LotText>
    decreases lots.len(),
{
    if lots.len() == 0 {
        None
    } else if lots[0].url == url {
        Some(lots[0])
    } else {
        first_with_url(lots.drop_first(), url)
    }
}

/// The first lot with a photo.
pub open spec fn first_with_photo(lots: Seq<LotText>, url: Seq<char>) -> Option<LotText>
    decreases lots.len(),
{
    if lots.len() == 0 {
        None
    } else if lots[0].thumbnail_url == Some(url) {
        Some(lots[0])
    } else {
        first_with_photo(lots.drop_first(), url)
    }
}

/// When the first lot with an address closes.
pub open spec fn lot_expiry(lots: Seq<LotText>, url: Seq<char>) -> Option<i64> {
    match first_with_url(lots, url) {
        Some(lot) => close_second(lot.close_at),
        None => None,
    }
}

/// When the first lot with a photo closes.
pub open spec fn thumbnail_expiry(lots: Seq<LotText>, url: Seq<char>) -> Option<i64> {
    match first_with_photo(lots, url) {
        Some(lot) => close_second(lot.close_at),
        None => None,
    }
}

/// The details of a lot have come and hold a photo.
pub open spec fn details_hold_photo(
    states: Map<Seq<char>, FetchState<LotDetails>>,
    lot_url: Seq<char>,
    photo_url: Seq<char>,
) -> bool {
    states.contains_key(lot_url) && (states[lot_url] matches FetchState::Loaded(details) && texts(
        details.photos@,
    ).contains(photo_url))
}

/// A second until which a photo may be kept: that of the lot that shows it, or else that of
/// some lot whose details hold it, where there is one.
pub open spec fn is_photo_expiry(
    lots: Seq<LotText>,
    states: Map<Seq<char>, FetchState<LotDetails>>,
    photo_url: Seq<char>,
    expires_at: Option<i64>,
) -> bool {
    match thumbnail_expiry(lots, photo_url) {
        Some(second) => expires_at == Some(second),
        None => match expires_at {
            Some(second) => exists|lot_url: Seq<char>| #[trigger]
                details_hold_photo(states, lot_url, photo_url) && lot_expiry(lots, lot_url)
                    == Some(second),
            None => forall|lot_url: Seq<char>| #[trigger]
                details_hold_photo(states, lot_url, photo_url) ==> lot_expiry(lots, lot_url)
                    is None,
        },
    }
}

/// A photo is worth keeping: a lot that is shows it, or details that have come hold it.
pub open spec fn photo_is_kept(
    lots: Seq<LotText>,
    states: Map<Seq<char>, FetchState<LotDetails>>,
    photo_url: Seq<char>,
    now: (int, int),
) -> bool {
    (exists|i: int|
        0 <= i < lots.len() && (#[trigger] lots[i]).thumbnail_url == Some(photo_url)
            && lot_is_active(lots[i], now)) || (exists|lot_url: Seq<char>| #[trigger]
        details_hold_photo(states, lot_url, photo_url))
}

/// The desk after the details of a lot were asked for, where they are worth keeping.
pub open spec fn asked_details(
    desk: DeskView<LotDetails>,
    lots: Seq<LotText>,
    now: (int, int),
    url: Seq<char>,
    priority: bool,
) -> DeskView<LotDetails> {
    if lot_is_kept(lots, url, now) {
        requested(desk, url, priority)
    } else {
        desk
    }
}

/// The desk after the details of some lots were asked for, so that the first comes first.
pub open spec fn asked_in_front(
    desk: DeskView<LotDetails>,
    lots: Seq<LotText>,
    now: (int, int),
    urls: Seq<Seq<char>>,
) -> DeskView<LotDetails>
    decreases urls.len(),
{
    if urls.len() == 0 {
        desk
    } else {
        asked_in_front(
            asked_details(desk, lots, now, urls.last(), true),
            lots,
            now,
            urls.drop_last(),
        )
    }
}

/// The desk after the details of some lots were asked for behind all others.
pub open spec fn asked_behind(
    desk: DeskView<LotDetails>,
    lots: Seq<LotText>,
    now: (int, int),
    urls: Seq<Seq<char>>,
) -> DeskView<LotDetails>
    decreases urls.len(),
{
    if urls.len() == 0 {
        desk
    } else {
        asked_details(
            asked_behind(desk, lots, now, urls.drop_last()),
            lots,
            now,
            urls.last(),
            false,
        )
    }
}

/// The desk after some photos were asked for, so that the first comes first.
pub open spec fn photos_in_front(desk: DeskView<PhotoPreview>, urls: Seq<Seq<char>>) -> DeskView<
    PhotoPreview,
>
    decreases urls.len(),
{
    if urls.len() == 0 {
        desk
    } else {
        photos_in_front(requested(desk, urls.last(), true), urls.drop_last())
    }
}

/// The gallery after a photo was asked for as terminal graphics: only where there are such
/// graphics, there is room for it, and the photo has come.
pub open spec fn asked_terminal<P, B>(
    gallery: GalleryView<P, B>,
    photos: Map<Seq<char>, FetchState<PhotoPreview>>,
    has_graphics: bool,
    key: PhotoKeyText,
    priority: bool,
) -> GalleryView<P, B> {
    if key.1 == 0 || key.2 == 0 || !has_graphics || !photo_is_loaded(photos, key.0) {
        gallery
    } else {
        ordered(gallery, key, priority)
    }
}

/// The gallery after some photos were asked for as terminal graphics, so that the first comes
/// first.
pub open spec fn terminal_in_front<P, B>(
    gallery: GalleryView<P, B>,
    photos: Map<Seq<char>, FetchState<PhotoPreview>>,
    has_graphics: bool,
    area: Option<(u16, u16)>,
    urls: Seq<Seq<char>>,
) -> GalleryView<P, B>
    decreases urls.len(),
{
    if area is None || urls.len() == 0 {
        gallery
    } else {
        terminal_in_front(
            asked_terminal(
                gallery,
                photos,
                has_graphics,
                (urls.last(), (area->0).0, (area->0).1),
                true,
            ),
            photos,
            has_graphics,
            area,
            urls.drop_last(),
        )
    }
}

/// Positions from a selected one outwards, up to a distance: after it before before it.
pub open spec fn outwards(selected: int, count: int, distance: int) -> Seq<int>
    decreases distance,
{
    if distance <= 0 {
        seq![selected]
    } else {
        let nearer = outwards(selected, count, distance - 1);
        let after = if selected + distance < count {
            nearer.push(selected + distance)
        } else {
            nearer
        };
        if selected >= distance {
            after.push(selected - distance)
        } else {
            after
        }
    }
}

/// All positions of a list from a selected one outwards.
pub open spec fn by_priority(selected: nat, count: nat) -> Seq<int> {
    if count == 0 {
        seq![]
    } else {
        outwards(
            if selected < count {
                selected as int
            } else {
                count - 1
            },
            count as int,
            count - 1,
        )
    }
}

/// The addresses of lots at some positions.
pub open spec fn urls_at(lots: Seq<LotText>, positions: Seq<int>) -> Seq<Seq<char>> {
    positions.map_values(|i: int| lots[i].url)
}

/// The photos of lots at some positions, where they have one.
pub open spec fn photos_at(lots: Seq<LotText>, positions: Seq<int>) -> Seq<Seq<char>>
    decreases positions.len(),
{
    if positions.len() == 0 {
        seq![]
    } else {
        let before = photos_at(lots, positions.drop_last());
        match lots[positions.last()].thumbnail_url {
            Some(url) => before.push(url),
            None => before,
        }
    }
}

/// The lots of an auction.
pub open spec fn lots_at(events: Seq<AuctionText>, index: nat) -> Seq<LotText> {
    match event_at(events, index) {
        Some(auction) => auction.lots,
        None => seq![],
    }
}

/// The addresses of the lots of all auctions but one.
pub open spec fn other_urls(events: Seq<AuctionText>, index: nat) -> Seq<Seq<char>>
    decreases events.len(),
{
    if events.len() == 0 {
        seq![]
    } else {
        let before = other_urls(events.drop_last(), index);
        if events.len() - 1 == index {
            before
        } else {
            before + events.last().lots.map_values(|lot: LotText| lot.url)
        }
    }
}

/// How many terminal photos or drawings are kept, by the number of lots of an auction.
pub open spec fn keep_limit(least: nat, lots: nat) -> nat {
    let twice = if lots * 2 > usize::MAX {
        usize::MAX as nat
    } else {
        lots * 2
    };
    if twice > least {
        twice
    } else {
        least
    }
}

impl<P, B> App<P, B> {
    /// What is fetched and made.
    pub open spec fn work(&self) -> Work<P, B> {
        Work { details: self.details@, photos: self.photos@, gallery: self.gallery@ }
    }

    /// All lots.
    pub open spec fn lots(&self) -> Seq<LotText> {
        all_lots(self.shown())
    }

    /// The addresses of the selected auction's lots, from the selected one outwards.
    pub open spec fn priority_urls(&self) -> Seq<Seq<char>> {
        let lots = lots_at(self.shown(), self.event_index as nat);
        urls_at(lots, by_priority(self.lot_index as nat, lots.len()))
    }

    /// The photos of the selected auction's lots, from the selected one outwards.
    pub open spec fn priority_photos(&self) -> Seq<Seq<char>> {
        let lots = lots_at(self.shown(), self.event_index as nat);
        photos_at(lots, by_priority(self.lot_index as nat, lots.len()))
    }

    /// How many terminal photos are kept.
    pub open spec fn photo_limit(&self) -> nat {
        keep_limit(
            TERMINAL_PHOTO_STATE_CACHE_LIMIT as nat,
            lot_count(self.shown(), self.event_index as nat),
        )
    }

    /// How many drawings are kept.
    pub open spec fn buffer_limit(&self) -> nat {
        keep_limit(
            PHOTO_RENDER_BUFFER_CACHE_LIMIT as nat,
            lot_count(self.shown(), self.event_index as nat),
        )
    }

    /// The number of lots of the selected auction.
    fn current_lot_count(&self) -> (r: usize)
        ensures
            r == lot_count(self.shown(), self.event_index as nat),
    {
        match self.current_event() {
            Some(event) => event.lots.len(),
            None => 0,
        }
    }

    /// How many terminal photos are kept.
    pub fn terminal_photo_state_limit(&self) -> (r: usize)
        ensures
            r == self.photo_limit(),
    {
        let count = self.current_lot_count();
        let twice: usize = count.saturating_add(count);
        if twice > TERMINAL_PHOTO_STATE_CACHE_LIMIT {
            twice
        } else {
            TERMINAL_PHOTO_STATE_CACHE_LIMIT
        }
    }

    /// How many drawings are kept.
    pub fn photo_render_buffer_limit(&self) -> (r: usize)
        ensures
            r == self.buffer_limit(),
    {
        let count = self.current_lot_count();
        let twice: usize = count.saturating_add(count);
        if twice > PHOTO_RENDER_BUFFER_CACHE_LIMIT {
            twice
        } else {
            PHOTO_RENDER_BUFFER_CACHE_LIMIT
        }
    }

    /// Whether some lot with an address is worth keeping what was fetched for it.
    pub fn is_cacheable_lot_url(&self, lot_url: &str, now: &Moment) -> (r: bool)
        ensures
            r == lot_is_kept(self.lots(), lot_url@, now@),
    {
        let lots = lots_of(&self.events);
        let mut i: usize = 0;
        while i < lots.len()
            invariant
                i <= lots@.len() == self.lots().len(),
                forall|k: int| 0 <= k < lots@.len() ==> (#[trigger] lots@[k])@ == self.lots()[k],
                forall|k: int|
                    0 <= k < i ==> !((#[trigger] self.lots()[k]).url == lot_url@ && lot_is_active(
                        self.lots()[k],
                        now@,
                    )),
            decreases lots@.len() - i,
        {
            assert(lots@[i as int]@ == self.lots()[i as int]);
            if same_text(lots[i].url.as_str(), lot_url) && lot_cache_is_active(lots[i], now) {
                return true;
            }
            i += 1;
        }
        false
    }

    /// When the first lot with an address closes.
    pub fn lot_cache_expires_at(&self, lot_url: &str) -> (r: Option<i64>)
        ensures
            r == lot_expiry(self.lots(), lot_url@),
    {
        let lots = lots_of(&self.events);
        let ghost all = self.lots();
        let mut i: usize = 0;
        assert(all.skip(0) =~= all);
        while i < lots.len()
            invariant
                i <= lots@.len() == all.len(),
                all == self.lots(),
                forall|k: int| 0 <= k < lots@.len() ==> (#[trigger] lots@[k])@ == all[k],
                first_with_url(all, lot_url@) == first_with_url(all.skip(i as int), lot_url@),
            decreases lots@.len() - i,
        {
            assert(lots@[i as int]@ == all[i as int]);
            assert(all.skip(i as int)[0] == all[i as int]);
            if same_text(lots[i].url.as_str(), lot_url) {
                return lot_cache_expires_at(lots[i]);
            }
            assert(all.skip(i as int).drop_first() =~= all.skip(i + 1));
            i += 1;
        }
        None
    }

    /// When the first lot with a photo closes.
    fn thumbnail_expires_at(&self, photo_url: &str) -> (r: Option<i64>)
        ensures
            r == thumbnail_expiry(self.lots(), photo_url@),
    {
        let lots = lots_of(&self.events);
        let ghost all = self.lots();
        let mut i: usize = 0;
        assert(all.skip(0) =~= all);
        while i < lots.len()
            invariant
                i <= lots@.len() == all.len(),
                all == self.lots(),
                forall|k: int| 0 <= k < lots@.len() ==> (#[trigger] lots@[k])@ == all[k],
                first_with_photo(all, photo_url@) == first_with_photo(
                    all.skip(i as int),
                    photo_url@,
                ),
            decreases lots@.len() - i,
        {
            assert(lots@[i as int]@ == all[i as int]);
            assert(all.skip(i as int)[0] == all[i as int]);
            let shows = match &lots[i].thumbnail_url {
                Some(url) => same_text(url.as_str(), photo_url),
                None => false,
            };
            if shows {
                return lot_cache_expires_at(lots[i]);
            }
            assert(all.skip(i as int).drop_first() =~= all.skip(i + 1));
            i += 1;
        }
        None
    }

    /// A second until which a photo may be kept.
    pub fn photo_cache_expires_at(&self, photo_url: &str) -> (r: Option<i64>)
        ensures
            is_photo_expiry(self.lots(), self.details@.states, photo_url@, r),
    {
        if let Some(second) = self.thumbnail_expires_at(photo_url) {
            return Some(second);
        }
        let ghost states = self.details@.states;
        let ghost order = self.details.states.order();
        let count = self.details.states.len();
        let mut i: usize = 0;
        while i < count
            invariant
                i <= count == order.len(),
                order == self.details.states.order(),
                states == self.details@.states,
                thumbnail_expiry(self.lots(), photo_url@) is None,
                forall|k: int|
                    0 <= k < i ==> (details_hold_photo(states, #[trigger] order[k], photo_url@)
                        ==> lot_expiry(self.lots(), order[k]) is None),
            decreases count - i,
        {
            let (lot_url, state) = self.details.states.entry(i);
            if let FetchState::Loaded(details) = state {
                if has_text(&details.photos, photo_url) {
                    if let Some(second) = self.lot_cache_expires_at(lot_url.as_str()) {
                        assert(details_hold_photo(states, lot_url@, photo_url@));
                        return Some(second);
                    }
                }
            }
            i += 1;
        }
        assert forall|lot_url: Seq<char>| #[trigger]
            details_hold_photo(states, lot_url, photo_url@) implies lot_expiry(
            self.lots(),
            lot_url,
        ) is None by {
            assert(order.contains(lot_url));
            let k = choose|k: int| 0 <= k < order.len() && order[k] == lot_url;
            assert(details_hold_photo(states, order[k], photo_url@));
        }
        None
    }

    /// Whether a photo is worth keeping at a point in time.
    pub fn is_cacheable_photo_url_at(&self, photo_url: &str, now: &Moment) -> (r: bool)
        ensures
            r == photo_is_kept(self.lots(), self.details@.states, photo_url@, now@),
    {
        let lots = lots_of(&self.events);
        let ghost all = self.lots();
        let mut i: usize = 0;
        while i < lots.len()
            invariant
                i <= lots@.len() == all.len(),
                all == self.lots(),
                forall|k: int| 0 <= k < lots@.len() ==> (#[trigger] lots@[k])@ == all[k],
                forall|k: int|
                    0 <= k < i ==> !((#[trigger] all[k]).thumbnail_url == Some(photo_url@)
                        && lot_is_active(all[k], now@)),
            decreases lots@.len() - i,
        {
            assert(lots@[i as int]@ == all[i as int]);
            let shows = match &lots[i].thumbnail_url {
                Some(url) => same_text(url.as_str(), photo_url),
                None => false,
            };
            if lot_cache_is_active(lots[i], now) && shows {
                return true;
            }
            i += 1;
        }
        let ghost states = self.details@.states;
        let ghost order = self.details.states.order();
        let count = self.details.states.len();
        let mut i: usize = 0;
        while i < count
            invariant
                i <= count == order.len(),
                order == self.details.states.order(),
                states == self.details@.states,
                forall|k: int|
                    0 <= k < i ==> !details_hold_photo(states, #[trigger] order[k], photo_url@),
            decreases count - i,
        {
            let (lot_url, state) = self.details.states.entry(i);
            if let FetchState::Loaded(details) = state {
                if has_text(&details.photos, photo_url) {
                    assert(details_hold_photo(states, lot_url@, photo_url@));
                    return true;
                }
            }
            i += 1;
        }
        assert forall|lot_url: Seq<char>| !#[trigger] details_hold_photo(
            states,
            lot_url,
            photo_url@,
        ) by {
            if details_hold_photo(states, lot_url, photo_url@) {
                assert(order.contains(lot_url));
                let k = choose|k: int| 0 <= k < order.len() && order[k] == lot_url;
                assert(!details_hold_photo(states, order[k], photo_url@));
            }
        }
        false
    }

    /// Whether a photo is worth keeping now.
    pub fn is_cacheable_photo_url(&self, photo_url: &str) -> (r: bool)
        ensures
            exists|now: (int, int)|
                in_calendar(now.0, now.1) && r == #[trigger] photo_is_kept(
                    self.lots(),
                    self.details@.states,
                    photo_url@,
                    now,
                ),
    {
        let now = utc_now();
        let r = self.is_cacheable_photo_url_at(photo_url, &now);
        assert(r == photo_is_kept(self.lots(), self.details@.states, photo_url@, now@));
        r
    }
}

/// Whether a text is among others.
fn has_text(list: &Vec<String>, text: &str) -> (r: bool)
    ensures
        r == texts(list@).contains(text@),
{
    let mut i: usize = 0;
    while i < list.len()
        invariant
            i <= list@.len(),
            forall|k: int| 0 <= k < i ==> (#[trigger] texts(list@)[k]) != text@,
        decreases list@.len() - i,
    {
        assert(texts(list@)[i as int] == list@[i as int]@);
        if same_text(list[i].as_str(), text) {
            return true;
        }
        i += 1;
    }
    assert(!texts(list@).contains(text@));
    false
}

/// How far two positions lie apart.
pub open spec fn distance(a: int, b: int) -> int {
    if a < b {
        b - a
    } else {
        a - b
    }
}

/// What is asked for around a selected entry starts with it and goes outwards: no entry comes
/// before one that lies nearer, and of two that lie as near, the one after it comes first.
pub proof fn law_nearer_entries_come_first(selected: nat, count: nat)
    requires
        selected < count,
    ensures
        by_priority(selected, count).len() > 0,
        by_priority(selected, count)[0] == selected,
        forall|i: int, k: int|
            0 <= i < k < by_priority(selected, count).len() ==> {
                let a = #[trigger] by_priority(selected, count)[i];
                let b = #[trigger] by_priority(selected, count)[k];
                &&& distance(a, selected as int) <= distance(b, selected as int)
                &&& distance(a, selected as int) == distance(b, selected as int) ==> a > b
            },
{
    lemma_outwards_by_distance(selected as int, count as int, count - 1);
}

/// Positions from a selected one outwards come by their distance.
proof fn lemma_outwards_by_distance(selected: int, count: int, far: int)
    requires
        0 <= selected < count,
        0 <= far,
    ensures
        outwards(selected, count, far).len() > 0,
        outwards(selected, count, far)[0] == selected,
        forall|i: int|
            0 <= i < outwards(selected, count, far).len() ==> distance(
                #[trigger] outwards(selected, count, far)[i],
                selected,
            ) <= far,
        forall|i: int, k: int|
            0 <= i < k < outwards(selected, count, far).len() ==> {
                let a = #[trigger] outwards(selected, count, far)[i];
                let b = #[trigger] outwards(selected, count, far)[k];
                &&& distance(a, selected) <= distance(b, selected)
                &&& distance(a, selected) == distance(b, selected) ==> a > b
            },
    decreases far,
{
    if far > 0 {
        let nearer = outwards(selected, count, far - 1);
        let all = outwards(selected, count, far);
        lemma_outwards_by_distance(selected, count, far - 1);
        assert forall|i: int| 0 <= i < all.len() implies distance(#[trigger] all[i], selected)
            <= far by {
            if i < nearer.len() {
                assert(all[i] == nearer[i]);
            }
        }
        assert forall|i: int, k: int| 0 <= i < k < all.len() implies ({
            let a = #[trigger] all[i];
            let b = #[trigger] all[k];
            &&& distance(a, selected) <= distance(b, selected)
            &&& distance(a, selected) == distance(b, selected) ==> a > b
        }) by {
            if i < nearer.len() {
                assert(all[i] == nearer[i]);
                if k < nearer.len() {
                    assert(all[k] == nearer[k]);
                }
            }
        }
    }
}

/// What is fetched for a lot is kept until the lot closes: the first with its address counts.
pub proof fn law_details_are_kept_until_the_lot_closes(
    lots: Seq<LotText>,
    i: int,
    url: Seq<char>,
)
    requires
        0 <= i < lots.len(),
        lots[i].url == url,
        forall|k: int| 0 <= k < i ==> (#[trigger] lots[k]).url != url,
        lots[i].close_at matches Some(close) ==> i64::MIN <= close.0 <= i64::MAX,
    ensures
        lots[i].close_at matches Some(close) ==> (lot_expiry(lots, url) matches Some(second)
            && second == close.0),
        lots[i].close_at is None ==> lot_expiry(lots, url) is None,
    decreases lots.len(),
{
    if i > 0 {
        let rest = lots.drop_first();
        assert(lots[0].url != url);
        assert(rest[i - 1] == lots[i]);
        assert forall|k: int| 0 <= k < i - 1 implies (#[trigger] rest[k]).url != url by {
            assert(rest[k] == lots[k + 1]);
        }
        law_details_are_kept_until_the_lot_closes(rest, i - 1, url);
    }
}

/// The photo of a lot is kept until that lot closes: the first that shows it counts.
pub proof fn law_photos_are_kept_until_the_lot_closes(
    lots: Seq<LotText>,
    i: int,
    url: Seq<char>,
)
    requires
        0 <= i < lots.len(),
        lots[i].thumbnail_url == Some(url),
        forall|k: int| 0 <= k < i ==> (#[trigger] lots[k]).thumbnail_url != Some(url),
        lots[i].close_at matches Some(close) ==> i64::MIN <= close.0 <= i64::MAX,
    ensures
        lots[i].close_at matches Some(close) ==> (thumbnail_expiry(lots, url) matches Some(second)
            && second == close.0),
        lots[i].close_at is None ==> thumbnail_expiry(lots, url) is None,
    decreases lots.len(),
{
    if i > 0 {
        let rest = lots.drop_first();
        assert(lots[0].thumbnail_url != Some(url));
        assert(rest[i - 1] == lots[i]);
        assert forall|k: int| 0 <= k < i - 1 implies (#[trigger] rest[k]).thumbnail_url != Some(
            url,
        ) by {
            assert(rest[k] == lots[k + 1]);
        }
        law_photos_are_kept_until_the_lot_closes(rest, i - 1, url);
    }
}

/// The photos of lots at some positions are those that these lots have, and no others.
pub proof fn law_photos_are_those_of_the_lots(
    lots: Seq<LotText>,
    positions: Seq<int>,
    url: Seq<char>,
)
    ensures
        photos_at(lots, positions).contains(url) <==> exists|i: int|
            0 <= i < positions.len() && lots[#[trigger] positions[i]].thumbnail_url == Some(url),
        positions.len() > 0 && (lots[positions[0]].thumbnail_url matches Some(first)) ==> photos_at(
            lots,
            positions,
        ).len() > 0 && Some(photos_at(lots, positions)[0]) == lots[positions[0]].thumbnail_url,
    decreases positions.len(),
{
    if positions.len() > 0 {
        let rest = positions.drop_last();
        let before = photos_at(lots, rest);
        let all = photos_at(lots, positions);
        law_photos_are_those_of_the_lots(lots, rest, url);
        if rest.len() > 0 {
            assert(rest[0] == positions[0]);
        }
        if before.contains(url) {
            let j = choose|j: int| 0 <= j < before.len() && before[j] == url;
            assert(all[j] == url);
            let i = choose|i: int|
                0 <= i < rest.len() && lots[#[trigger] rest[i]].thumbnail_url == Some(url);
            assert(positions[i] == rest[i]);
        } else if all.contains(url) {
            assert(lots[positions[positions.len() - 1]].thumbnail_url == Some(url));
        }
        if exists|i: int|
            0 <= i < positions.len() && lots[#[trigger] positions[i]].thumbnail_url == Some(url) {
            let i = choose|i: int|
                0 <= i < positions.len() && lots[#[trigger] positions[i]].thumbnail_url == Some(url);
            if i < rest.len() {
                assert(rest[i] == positions[i]);
            } else {
                assert(all[all.len() - 1] == url);
            }
        }
    }
}

/// The addresses of the other auctions' lots are those of every lot of every other auction, and
/// of no lot of this one unless another has it too.
pub proof fn law_other_lots_are_those_of_other_auctions(
    events: Seq<AuctionText>,
    index: nat,
    url: Seq<char>,
)
    ensures
        other_urls(events, index).contains(url) <==> exists|e: int, k: int|
            0 <= e < events.len() && e != index && 0 <= k < events[e].lots.len() && (
            #[trigger] events[e].lots[k]).url == url,
    decreases events.len(),
{
    if events.len() > 0 {
        let rest = events.drop_last();
        let before = other_urls(rest, index);
        let all = other_urls(events, index);
        let last = events.len() - 1;
        law_other_lots_are_those_of_other_auctions(rest, index, url);
        if before.contains(url) {
            let j = choose|j: int| 0 <= j < before.len() && before[j] == url;
            assert(all[j] == url);
            let (e, k) = choose|e: int, k: int|
                0 <= e < rest.len() && e != index && 0 <= k < rest[e].lots.len() && (
                #[trigger] rest[e].lots[k]).url == url;
            assert(events[e].lots[k].url == url);
        } else if all.contains(url) {
            let j = choose|j: int| 0 <= j < all.len() && all[j] == url;
            assert(j >= before.len()) by {
                if j < before.len() {
                    assert(before[j] == url);
                }
            }
            assert(events[last].lots[j - before.len()].url == url);
        }
        if exists|e: int, k: int|
            0 <= e < events.len() && e != index && 0 <= k < events[e].lots.len() && (
            #[trigger] events[e].lots[k]).url == url {
            let (e, k) = choose|e: int, k: int|
                0 <= e < events.len() && e != index && 0 <= k < events[e].lots.len() && (
                #[trigger] events[e].lots[k]).url == url;
            if e < last {
                assert(rest[e].lots[k].url == url);
            } else {
                assert(all[before.len() + k] == url);
            }
        }
    }
}

/// As many terminal photos and drawings are kept as twice the lots of the auction, and never
/// fewer than six hundred and forty.
pub proof fn law_enough_is_kept<P, B>(app: App<P, B>)
    requires
        lot_count(app.shown(), app.event_index as nat) * 2 <= usize::MAX,
    ensures
        app.photo_limit() >= 640 && app.buffer_limit() >= 640,
        app.photo_limit() >= lot_count(app.shown(), app.event_index as nat) * 2,
        app.buffer_limit() >= lot_count(app.shown(), app.event_index as nat) * 2,
        app.photo_limit() == 640 || app.photo_limit() == lot_count(
            app.shown(),
            app.event_index as nat,
        ) * 2,
        app.buffer_limit() == 640 || app.buffer_limit() == lot_count(
            app.shown(),
            app.event_index as nat,
        ) * 2,
{
}

/// An app that differs in the work behind it at most shows the same, with the same selection,
/// focus, sizes and words.
pub proof fn law_same_face_shows_the_same<P, B>(a: App<P, B>, b: App<P, B>)
    requires
        same_face(a, b),
    ensures
        b.cli == a.cli && b.events == a.events && b.focus == a.focus,
        b.event_index == a.event_index && b.lot_index == a.lot_index,
        b.event_offset == a.event_offset && b.lot_offset == a.lot_offset,
        b.details_scroll == a.details_scroll,
        b.drag_target == a.drag_target && b.resize_hover_target == a.resize_hover_target,
        b.event_pane_width == a.event_pane_width && b.lots_pane_percent == a.lots_pane_percent,
        b.stacked_events_percent == a.stacked_events_percent && b.stacked_lots_percent
            == a.stacked_lots_percent,
        b.observed_lot_url == a.observed_lot_url && b.has_graphics == a.has_graphics,
        b.last_photo_area_size == a.last_photo_area_size && b.last_pane_resize_at
            == a.last_pane_resize_at,
        b.pending_image_resize_redraw == a.pending_image_resize_redraw,
        b.current_auction_hydration_dirty == a.current_auction_hydration_dirty
            && b.last_global_hydration_at == a.last_global_hydration_at,
        b.status == a.status && b.loaded_at == a.loaded_at,
{
}

/// A photo may be kept until the lot that shows it closes; and where no lot that says when it
/// closes shows it, until some lot whose details hold it does.
pub proof fn law_photo_expiry_is_that_of_a_lot(
    lots: Seq<LotText>,
    states: Map<Seq<char>, FetchState<LotDetails>>,
    photo_url: Seq<char>,
    expires_at: Option<i64>,
)
    requires
        is_photo_expiry(lots, states, photo_url, expires_at),
    ensures
        thumbnail_expiry(lots, photo_url) is Some ==> expires_at == thumbnail_expiry(
            lots,
            photo_url,
        ),
        expires_at is Some && thumbnail_expiry(lots, photo_url) is None ==> exists|
            lot_url: Seq<char>,
        | #[trigger]
            details_hold_photo(states, lot_url, photo_url) && lot_expiry(lots, lot_url)
                == expires_at,
        forall|lot_url: Seq<char>| #[trigger]
            details_hold_photo(states, lot_url, photo_url) && lot_expiry(lots, lot_url) is Some
                ==> expires_at is Some,
{
}

/// Without terminal graphics, without room, or before the photo has come, none waits to be made.
pub proof fn law_photos_are_made_for_graphics_only<P, B>(
    gallery: GalleryView<P, B>,
    photos: Map<Seq<char>, FetchState<PhotoPreview>>,
    has_graphics: bool,
    key: PhotoKeyText,
    priority: bool,
)
    ensures
        !has_graphics || key.1 == 0 || key.2 == 0 || !(photos.contains_key(key.0) && photos[key.0]
            is Loaded) ==> asked_terminal(gallery, photos, has_graphics, key, priority) == gallery,
        has_graphics && key.1 > 0 && key.2 > 0 && photos.contains_key(key.0) && photos[key.0]
            is Loaded ==> asked_terminal(gallery, photos, has_graphics, key, priority) == ordered(
            gallery,
            key,
            priority,
        ),
{
}

/// Whatever else is asked for, an address that waits and is loading goes on doing so.
proof fn lemma_waiting_goes_on(
    desk: DeskView<LotDetails>,
    lots: Seq<LotText>,
    now: (int, int),
    other: Seq<char>,
    priority: bool,
    url: Seq<char>,
)
    ensures
        desk.queue.contains(url) ==> asked_details(desk, lots, now, other, priority).queue.contains(
            url,
        ),
        is_settled(asked_details(desk, lots, now, other, priority), url) == is_settled(desk, url),
        asked_details(desk, lots, now, other, priority).active == desk.active,
{
    lemma_enqueued(desk.queue, other, priority);
}

/// Of some lots whose details are asked for, in front or behind, every one waits from then on
/// that is worth keeping them and whose answer is neither there nor on its way.
pub proof fn law_every_lot_asked_for_waits(
    desk: DeskView<LotDetails>,
    lots: Seq<LotText>,
    now: (int, int),
    urls: Seq<Seq<char>>,
    url: Seq<char>,
)
    requires
        urls.contains(url) || desk.queue.contains(url),
        lot_is_kept(lots, url, now),
        !is_settled(desk, url),
        !desk.active.contains(url),
    ensures
        asked_in_front(desk, lots, now, urls).queue.contains(url),
        asked_behind(desk, lots, now, urls).queue.contains(url),
{
    lemma_front_waits(desk, lots, now, urls, url);
    lemma_behind_waits(desk, lots, now, urls, url);
}

/// A lot that is asked for waits.
proof fn lemma_asked_lot_waits(
    desk: DeskView<LotDetails>,
    lots: Seq<LotText>,
    now: (int, int),
    url: Seq<char>,
    priority: bool,
)
    requires
        lot_is_kept(lots, url, now),
        !is_settled(desk, url),
        !desk.active.contains(url),
    ensures
        asked_details(desk, lots, now, url, priority).queue.contains(url),
{
    lemma_enqueued(desk.queue, url, priority);
}

/// Every lot asked for in front waits.
proof fn lemma_front_waits(
    desk: DeskView<LotDetails>,
    lots: Seq<LotText>,
    now: (int, int),
    urls: Seq<Seq<char>>,
    url: Seq<char>,
)
    requires
        urls.contains(url) || desk.queue.contains(url),
        lot_is_kept(lots, url, now),
        !is_settled(desk, url),
        !desk.active.contains(url),
    ensures
        asked_in_front(desk, lots, now, urls).queue.contains(url),
    decreases urls.len(),
{
    if urls.len() > 0 {
        let last = urls.last();
        let rest = urls.drop_last();
        let next = asked_details(desk, lots, now, last, true);
        lemma_waiting_goes_on(desk, lots, now, last, true, url);
        if last == url {
            lemma_asked_lot_waits(desk, lots, now, url, true);
        } else if urls.contains(url) {
            let i = choose|i: int| 0 <= i < urls.len() && urls[i] == url;
            assert(rest[i] == url);
            assert(rest.contains(url));
        }
        assert(rest.contains(url) || next.queue.contains(url));
        lemma_front_waits(next, lots, now, rest, url);
        assert(asked_in_front(desk, lots, now, urls) == asked_in_front(next, lots, now, rest));
    }
}

/// Every lot asked for behind waits.
proof fn lemma_behind_waits(
    desk: DeskView<LotDetails>,
    lots: Seq<LotText>,
    now: (int, int),
    urls: Seq<Seq<char>>,
    url: Seq<char>,
)
    requires
        lot_is_kept(lots, url, now),
        !is_settled(desk, url),
        !desk.active.contains(url),
    ensures
        urls.contains(url) || desk.queue.contains(url) ==> asked_behind(
            desk,
            lots,
            now,
            urls,
        ).queue.contains(url),
        !is_settled(asked_behind(desk, lots, now, urls), url),
        asked_behind(desk, lots, now, urls).active == desk.active,
    decreases urls.len(),
{
    if urls.len() > 0 {
        let last = urls.last();
        let before = asked_behind(desk, lots, now, urls.drop_last());
        lemma_behind_waits(desk, lots, now, urls.drop_last(), url);
        lemma_waiting_goes_on(before, lots, now, last, false, url);
        if last == url {
            lemma_asked_lot_waits(before, lots, now, url, false);
        } else if urls.contains(url) {
            let i = choose|i: int| 0 <= i < urls.len() && urls[i] == url;
            assert(urls.drop_last()[i] == url);
        }
    }
}

} // verus!
