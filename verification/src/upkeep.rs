//! What holds of the work behind browsing at all times: nothing is asked for twice at once,
//! and no more is owed than the limits allow.
use vstd::prelude::*;

use crate::answers::{
    next_details, prefetched, pruned_work, with_detail_answer, with_photo_answer,
};
use crate::browser::{lot_at, App};
use crate::desk::{
    answered, dequeued, forgotten, law_desk_stays_tidy, next_due, requested, sent, settled, tidy,
    DeskView, FetchState,
};
use crate::gallery::{
    accepted, dispatched, gallery_is_tidy, graphics_key, kept_live, law_gallery_stays_tidy,
    lemma_trimming_states_leaves_queue, next_photo, refused, shut, touched, trimmed_buffers,
    trimmed_states, undrawn, without_photo, GalleryView, PhotoKeyText, TerminalPhotoState,
};
use crate::keys::without;
use crate::listing::{LotDetails, LotText};
use crate::preview::PhotoPreview;
use crate::queues::hydrated;
use crate::work::{
    asked_behind, asked_details, asked_in_front, asked_terminal, other_urls, photos_in_front,
    terminal_in_front, Work, DETAIL_PREFETCH_IN_FLIGHT_LIMIT, PHOTO_PREFETCH_IN_FLIGHT_LIMIT,
    TERMINAL_PHOTO_IN_FLIGHT_LIMIT,
};

verus! {

/// A desk is tidy and owes no more than a limit.
pub open spec fn desk_is_sound<T>(desk: DeskView<T>, limit: nat) -> bool {
    tidy(desk) && desk.in_flight <= limit
}

/// A gallery is tidy and owes no more than its limit.
pub open spec fn gallery_is_sound<P, B>(gallery: GalleryView<P, B>) -> bool {
    gallery_is_tidy(gallery) && gallery.in_flight <= TERMINAL_PHOTO_IN_FLIGHT_LIMIT
}

/// Nothing is asked for twice at once, and no more is owed than the limits allow.
pub open spec fn work_is_sound<P, B>(work: Work<P, B>) -> bool {
    &&& desk_is_sound(work.details, DETAIL_PREFETCH_IN_FLIGHT_LIMIT as nat)
    &&& desk_is_sound(work.photos, PHOTO_PREFETCH_IN_FLIGHT_LIMIT as nat)
    &&& gallery_is_sound(work.gallery)
}

/// Work that has not begun is sound.
pub proof fn law_work_starts_sound<P, B>(work: Work<P, B>)
    requires
        work.details.queue.len() == 0,
        work.details.active.len() == 0,
        work.details.in_flight == 0,
        work.photos.queue.len() == 0,
        work.photos.active.len() == 0,
        work.photos.in_flight == 0,
        work.gallery.queue.len() == 0,
        work.gallery.active.len() == 0,
        work.gallery.in_flight == 0,
    ensures
        work_is_sound(work),
{
}

/// Asking at a desk keeps it sound.
proof fn lemma_request<T>(desk: DeskView<T>, url: Seq<char>, priority: bool, limit: nat)
    requires
        desk_is_sound(desk, limit),
    ensures
        desk_is_sound(requested(desk, url, priority), limit),
{
    law_desk_stays_tidy(desk, url, priority, FetchState::Loading, seq![]);
}

/// Asking for the details of some lots keeps a desk sound.
proof fn lemma_asked_in_front(
    desk: DeskView<LotDetails>,
    lots: Seq<LotText>,
    now: (int, int),
    urls: Seq<Seq<char>>,
    limit: nat,
)
    requires
        desk_is_sound(desk, limit),
    ensures
        desk_is_sound(asked_in_front(desk, lots, now, urls), limit),
    decreases urls.len(),
{
    if urls.len() > 0 {
        lemma_request(desk, urls.last(), true, limit);
        lemma_asked_in_front(
            asked_details(desk, lots, now, urls.last(), true),
            lots,
            now,
            urls.drop_last(),
            limit,
        );
    }
}

/// Asking for the details of some lots behind all others keeps a desk sound.
proof fn lemma_asked_behind(
    desk: DeskView<LotDetails>,
    lots: Seq<LotText>,
    now: (int, int),
    urls: Seq<Seq<char>>,
    limit: nat,
)
    requires
        desk_is_sound(desk, limit),
    ensures
        desk_is_sound(asked_behind(desk, lots, now, urls), limit),
    decreases urls.len(),
{
    if urls.len() > 0 {
        lemma_asked_behind(desk, lots, now, urls.drop_last(), limit);
        lemma_request(asked_behind(desk, lots, now, urls.drop_last()), urls.last(), false, limit);
    }
}

/// Asking for some photos keeps a desk sound.
proof fn lemma_photos_in_front(desk: DeskView<PhotoPreview>, urls: Seq<Seq<char>>, limit: nat)
    requires
        desk_is_sound(desk, limit),
    ensures
        desk_is_sound(photos_in_front(desk, urls), limit),
    decreases urls.len(),
{
    if urls.len() > 0 {
        lemma_request(desk, urls.last(), true, limit);
        lemma_photos_in_front(requested(desk, urls.last(), true), urls.drop_last(), limit);
    }
}

/// Asking for a photo as terminal graphics keeps a gallery sound.
proof fn lemma_asked_terminal<P, B>(
    gallery: GalleryView<P, B>,
    photos: Map<Seq<char>, FetchState<PhotoPreview>>,
    has_graphics: bool,
    key: PhotoKeyText,
    priority: bool,
)
    requires
        gallery_is_sound(gallery),
    ensures
        gallery_is_sound(asked_terminal(gallery, photos, has_graphics, key, priority)),
{
    law_gallery_stays_tidy(
        gallery,
        key,
        priority,
        TerminalPhotoState::Failed,
        seq![],
        photos,
        0,
    );
}

/// Asking for some photos as terminal graphics keeps a gallery sound.
proof fn lemma_terminal_in_front<P, B>(
    gallery: GalleryView<P, B>,
    photos: Map<Seq<char>, FetchState<PhotoPreview>>,
    has_graphics: bool,
    area: Option<(u16, u16)>,
    urls: Seq<Seq<char>>,
)
    requires
        gallery_is_sound(gallery),
    ensures
        gallery_is_sound(terminal_in_front(gallery, photos, has_graphics, area, urls)),
    decreases urls.len(),
{
    if area is Some && urls.len() > 0 {
        let key = (urls.last(), (area->0).0, (area->0).1);
        lemma_asked_terminal(gallery, photos, has_graphics, key, true);
        lemma_terminal_in_front(
            asked_terminal(gallery, photos, has_graphics, key, true),
            photos,
            has_graphics,
            area,
            urls.drop_last(),
        );
    }
}

/// Asking for what is selected, and for what is around it, keeps the work sound.
pub proof fn law_asking_keeps_work_sound<P, B>(
    app: App<P, B>,
    now: (int, int),
    ticks: u64,
    index: nat,
)
    requires
        work_is_sound(app.work()),
    ensures
        work_is_sound(hydrated(app, now, ticks)),
        work_is_sound(prefetched(app, now, index)),
{
    let details_limit = DETAIL_PREFETCH_IN_FLIGHT_LIMIT as nat;
    let photos_limit = PHOTO_PREFETCH_IN_FLIGHT_LIMIT as nat;
    let lots = app.lots();
    let own_details = match app.selected_url() {
        Some(url) => asked_details(app.details@, lots, now, url, true),
        None => app.details@,
    };
    if let Some(url) = app.selected_url() {
        lemma_request(app.details@, url, true, details_limit);
    }
    let own_photos = match app.primary_photo() {
        Some(url) => requested(app.photos@, url, true),
        None => app.photos@,
    };
    if let Some(url) = app.primary_photo() {
        lemma_request(app.photos@, url, true, photos_limit);
    }
    lemma_asked_in_front(own_details, lots, now, app.priority_urls(), details_limit);
    lemma_photos_in_front(own_photos, app.priority_photos(), photos_limit);
    let details = if app.current_auction_hydration_dirty {
        asked_in_front(own_details, lots, now, app.priority_urls())
    } else {
        own_details
    };
    lemma_asked_behind(
        details,
        lots,
        now,
        other_urls(app.shown(), app.event_index as nat),
        details_limit,
    );
    let photos = if app.current_auction_hydration_dirty {
        photos_in_front(own_photos, app.priority_photos())
    } else {
        own_photos
    };
    lemma_terminal_in_front(
        app.gallery@,
        photos.states,
        app.has_graphics,
        app.last_photo_area_size,
        app.priority_photos(),
    );
    if let Some(lot) = lot_at(app.shown(), app.event_index as nat, index) {
        lemma_request(app.details@, lot.url, true, details_limit);
        if let Some(url) = lot.thumbnail_url {
            lemma_request(app.photos@, url, true, photos_limit);
        }
    }
}

/// Taking in answers keeps the work sound.
pub proof fn law_answers_keep_work_sound<P, B>(
    app: App<P, B>,
    now: (int, int),
    url: Seq<char>,
    details: Result<LotDetails, String>,
    photo: Result<PhotoPreview, String>,
    key: PhotoKeyText,
    state: TerminalPhotoState<P>,
)
    requires
        work_is_sound(app.work()),
    ensures
        work_is_sound(with_detail_answer(app, now, url, details)),
        work_is_sound(with_photo_answer(app, now, url, photo)),
        gallery_is_sound(accepted(app.gallery@, key, state, app.photo_limit())),
{
    law_desk_stays_tidy(app.details@, url, true, FetchState::Loading, seq![]);
    law_desk_stays_tidy(app.photos@, url, true, FetchState::Loading, seq![]);
    match details {
        Ok(found) => {
            if found.photos@.len() > 0 {
                lemma_request(
                    app.photos@,
                    found.photos@[0]@,
                    app.selected_url() == Some(url),
                    PHOTO_PREFETCH_IN_FLIGHT_LIMIT as nat,
                );
            }
        },
        Err(_) => {},
    }
    let gallery = without_photo(app.gallery@, url);
    assert(gallery_is_sound(gallery));
    let photos = settled(
        answered(app.photos@, url),
        url,
        match photo {
            Ok(preview) => FetchState::Loaded(preview),
            Err(error) => FetchState::Failed(error),
        },
    );
    if let Some((width, height)) = app.last_photo_area_size {
        lemma_asked_terminal(
            gallery,
            photos.states,
            app.has_graphics,
            (url, width, height),
            false,
        );
    }
    law_gallery_stays_tidy(
        app.gallery@,
        key,
        true,
        state,
        seq![],
        app.photos@.states,
        app.photo_limit(),
    );
    lemma_accepted_owes_no_more(app.gallery@, key, state, app.photo_limit());
}

/// Taking in a photo that was made owes no more than before.
proof fn lemma_accepted_owes_no_more<P, B>(
    gallery: GalleryView<P, B>,
    key: PhotoKeyText,
    state: TerminalPhotoState<P>,
    limit: nat,
)
    ensures
        accepted(gallery, key, state, limit).in_flight <= gallery.in_flight,
{
    let settled = undrawn(
        GalleryView {
            active: without(gallery.active, key),
            in_flight: if gallery.in_flight > 0 {
                (gallery.in_flight - 1) as nat
            } else {
                0
            },
            ..gallery
        },
        graphics_key(key),
    );
    lemma_trimming_states_leaves_queue(
        touched(
            GalleryView { states: settled.states.insert(key, state), ..settled },
            key,
        ),
        limit,
    );
}

/// Making room for drawings leaves what is owed.
proof fn lemma_trimming_buffers_owes_the_same<P, B>(gallery: GalleryView<P, B>, limit: nat)
    ensures
        trimmed_buffers(gallery, limit).in_flight == gallery.in_flight,
        trimmed_buffers(gallery, limit).queue == gallery.queue,
        trimmed_buffers(gallery, limit).active == gallery.active,
    decreases gallery.buffer_lru.len(),
{
    if gallery.buffers.dom().len() <= limit || gallery.buffer_lru.len() == 0 {
    } else {
        lemma_trimming_buffers_owes_the_same(
            GalleryView {
                buffers: gallery.buffers.remove(gallery.buffer_lru[0]),
                buffer_lru: gallery.buffer_lru.drop_first(),
                ..gallery
            },
            limit,
        );
    }
}

/// Letting go of what is past keeps the work sound.
pub proof fn law_pruning_keeps_work_sound<P, B>(
    work: Work<P, B>,
    lots: Seq<Seq<char>>,
    photos: Seq<Seq<char>>,
    photo_limit: nat,
    buffer_limit: nat,
)
    requires
        work_is_sound(work),
    ensures
        work_is_sound(pruned_work(work, lots, photos, photo_limit, buffer_limit)),
{
    law_desk_stays_tidy(work.details, seq![], true, FetchState::Loading, lots);
    law_desk_stays_tidy(work.photos, seq![], true, FetchState::Loading, photos);
    law_gallery_stays_tidy(
        work.gallery,
        (seq![], 0, 0),
        true,
        TerminalPhotoState::Failed,
        photos,
        Map::empty(),
        0,
    );
    let kept = kept_live(work.gallery, photos);
    lemma_trimming_states_leaves_queue(kept, photo_limit);
    lemma_trimming_buffers_owes_the_same(trimmed_states(kept, photo_limit), buffer_limit);
}

/// Sending for what is next keeps the work sound, and so does failing to.
pub proof fn law_sending_keeps_work_sound<P, B>(
    work: Work<P, B>,
    lots: Seq<LotText>,
    now: (int, int),
)
    requires
        work_is_sound(work),
    ensures
        ({
            let next = next_details(work.details, lots, now);
            let limit = DETAIL_PREFETCH_IN_FLIGHT_LIMIT as nat;
            &&& desk_is_sound(next.0, limit)
            &&& next.1 matches Some(url) ==> desk_is_sound(sent(next.0, url), limit)
        }),
        next_due(work.photos, PHOTO_PREFETCH_IN_FLIGHT_LIMIT as nat) matches Some(url) ==> {
            let limit = PHOTO_PREFETCH_IN_FLIGHT_LIMIT as nat;
            &&& desk_is_sound(dequeued(work.photos), limit)
            &&& desk_is_sound(sent(dequeued(work.photos), url), limit)
        },
        ({
            let limit = TERMINAL_PHOTO_IN_FLIGHT_LIMIT as nat;
            let next = next_photo(work.gallery, work.photos.states, limit);
            &&& gallery_is_sound(next.0)
            &&& next.1 matches Some(key) ==> gallery_is_sound(dispatched(next.0, key))
                && gallery_is_sound(refused(next.0, key))
        }),
        gallery_is_sound(shut(work.gallery)),
{
    lemma_next_details(work.details, lots, now);
    law_desk_stays_tidy(work.photos, seq![], true, FetchState::Loading, seq![]);
    let limit = TERMINAL_PHOTO_IN_FLIGHT_LIMIT as nat;
    law_gallery_stays_tidy(
        work.gallery,
        (seq![], 0, 0),
        true,
        TerminalPhotoState::Failed,
        seq![],
        work.photos.states,
        limit,
    );
    lemma_next_photo_owes(work.gallery, work.photos.states, limit);
}

/// Taking the next photo to make leaves what is owed, and there is room for one more.
proof fn lemma_next_photo_owes<P, B>(
    gallery: GalleryView<P, B>,
    photos: Map<Seq<char>, FetchState<PhotoPreview>>,
    limit: nat,
)
    ensures
        next_photo(gallery, photos, limit).0.in_flight == gallery.in_flight,
        next_photo(gallery, photos, limit).1 is Some ==> gallery.in_flight < limit,
    decreases gallery.queue.len(),
{
    if gallery.in_flight >= limit || gallery.queue.len() == 0 {
    } else {
        let key = gallery.queue[0];
        let rest = GalleryView { queue: gallery.queue.drop_first(), ..gallery };
        if gallery.states.contains_key(key) {
            lemma_next_photo_owes(touched(rest, key), photos, limit);
        } else {
            lemma_next_photo_owes(rest, photos, limit);
        }
    }
}

/// Taking the next details to send for keeps a desk sound, and so does sending for them.
proof fn lemma_next_details(desk: DeskView<LotDetails>, lots: Seq<LotText>, now: (int, int))
    requires
        desk_is_sound(desk, DETAIL_PREFETCH_IN_FLIGHT_LIMIT as nat),
    ensures
        ({
            let next = next_details(desk, lots, now);
            let limit = DETAIL_PREFETCH_IN_FLIGHT_LIMIT as nat;
            &&& desk_is_sound(next.0, limit)
            &&& next.1 matches Some(url) ==> desk_is_sound(sent(next.0, url), limit)
        }),
    decreases desk.queue.len(),
{
    law_desk_stays_tidy(desk, seq![], true, FetchState::Loading, seq![]);
    match next_due(desk, DETAIL_PREFETCH_IN_FLIGHT_LIMIT as nat) {
        None => {},
        Some(url) => {
            law_desk_stays_tidy(dequeued(desk), url, true, FetchState::Loading, seq![]);
            lemma_next_details(forgotten(dequeued(desk), url), lots, now);
        },
    }
}

} // verus!
