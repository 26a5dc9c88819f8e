//! Photos made ready for the terminal: those made by terminal graphics, those that wait to be
//! made, and what was drawn of them.
use vstd::prelude::*;

use crate::desk::{with_key, FetchDesk, FetchState, PhotoState};
use crate::keys::{
    enqueued, lemma_enqueued, lemma_with_live_urls, lemma_without, lemma_without_url,
    with_live_urls, without, without_url, Key, Keys, PhotoRenderBufferKey, TerminalPhotoKey,
};
use crate::preview::PhotoPreview;
use crate::table::{entries_off, live_entries, Table};

verus! {

/// A photo as terminal graphics, where making it has not failed.
pub enum TerminalPhotoState<P> {
    Loaded(P),
    Failed,
}

/// The photos made ready, the keys used last at the back, the keys that wait, those sent off,
/// how many are owed, what was drawn, and the keys drawn last at the back.
pub struct Gallery<P, B> {
    pub states: Table<TerminalPhotoKey, TerminalPhotoState<P>>,
    pub lru: Keys<TerminalPhotoKey>,
    pub queue: Keys<TerminalPhotoKey>,
    pub active: Keys<TerminalPhotoKey>,
    pub in_flight: usize,
    pub buffers: Table<PhotoRenderBufferKey, B>,
    pub buffer_lru: Keys<PhotoRenderBufferKey>,
}

/// What a terminal photo key says.
pub type PhotoKeyText = (Seq<char>, u16, u16);

/// What a render buffer key says.
pub type BufferKeyText = (Seq<char>, u16, u16, bool);

/// What a gallery holds.
pub ghost struct GalleryView<P, B> {
    pub states: Map<PhotoKeyText, TerminalPhotoState<P>>,
    pub lru: Seq<PhotoKeyText>,
    pub queue: Seq<PhotoKeyText>,
    pub active: Seq<PhotoKeyText>,
    pub in_flight: nat,
    pub buffers: Map<BufferKeyText, B>,
    pub buffer_lru: Seq<BufferKeyText>,
}

impl<P, B> View for Gallery<P, B> {
    type V = GalleryView<P, B>;

    open spec fn view(&self) -> GalleryView<P, B> {
        GalleryView {
            states: self.states@,
            lru: self.lru@,
            queue: self.queue@,
            active: self.active@,
            in_flight: self.in_flight as nat,
            buffers: self.buffers@,
            buffer_lru: self.buffer_lru@,
        }
    }
}

/// The key of what terminal graphics drew of a photo.
pub open spec fn graphics_key(key: PhotoKeyText) -> BufferKeyText {
    (key.0, key.1, key.2, true)
}

/// A photo has come.
pub open spec fn photo_is_loaded(photos: Map<Seq<char>, PhotoState>, url: Seq<char>) -> bool {
    photos.contains_key(url) && photos[url] is Loaded
}

/// The gallery after a photo was used.
pub open spec fn touched<P, B>(gallery: GalleryView<P, B>, key: PhotoKeyText) -> GalleryView<P, B> {
    GalleryView { lru: without(gallery.lru, key).push(key), ..gallery }
}

/// The gallery after a photo was looked up.
pub open spec fn looked_up<P, B>(gallery: GalleryView<P, B>, key: PhotoKeyText) -> GalleryView<
    P,
    B,
> {
    if gallery.states.contains_key(key) {
        touched(gallery, key)
    } else {
        gallery
    }
}

/// The gallery without what was drawn for a key.
pub open spec fn undrawn<P, B>(gallery: GalleryView<P, B>, key: BufferKeyText) -> GalleryView<
    P,
    B,
> {
    GalleryView {
        buffers: gallery.buffers.remove(key),
        buffer_lru: without(gallery.buffer_lru, key),
        ..gallery
    }
}

/// The gallery after the photos used longest ago have made room, with what terminal graphics
/// drew of them.
pub open spec fn trimmed_states<P, B>(gallery: GalleryView<P, B>, limit: nat) -> GalleryView<P, B>
    decreases gallery.lru.len(),
{
    if gallery.states.dom().len() <= limit || gallery.lru.len() == 0 {
        gallery
    } else {
        let key = gallery.lru[0];
        let rest = GalleryView { lru: gallery.lru.drop_first(), ..gallery };
        if gallery.states.contains_key(key) {
            trimmed_states(
                undrawn(
                    GalleryView { states: gallery.states.remove(key), ..rest },
                    graphics_key(key),
                ),
                limit,
            )
        } else {
            trimmed_states(rest, limit)
        }
    }
}

/// The gallery after what was drawn longest ago has made room.
pub open spec fn trimmed_buffers<P, B>(gallery: GalleryView<P, B>, limit: nat) -> GalleryView<P, B>
    decreases gallery.buffer_lru.len(),
{
    if gallery.buffers.dom().len() <= limit || gallery.buffer_lru.len() == 0 {
        gallery
    } else {
        trimmed_buffers(
            GalleryView {
                buffers: gallery.buffers.remove(gallery.buffer_lru[0]),
                buffer_lru: gallery.buffer_lru.drop_first(),
                ..gallery
            },
            limit,
        )
    }
}

/// The gallery after something was drawn.
pub open spec fn drawn<P, B>(
    gallery: GalleryView<P, B>,
    key: BufferKeyText,
    buffer: B,
    limit: nat,
) -> GalleryView<P, B> {
    trimmed_buffers(
        GalleryView {
            buffers: gallery.buffers.insert(key, buffer),
            buffer_lru: without(gallery.buffer_lru, key).push(key),
            ..gallery
        },
        limit,
    )
}

/// The gallery without what was made and drawn of a photo.
pub open spec fn without_photo<P, B>(gallery: GalleryView<P, B>, url: Seq<char>) -> GalleryView<
    P,
    B,
> {
    GalleryView {
        states: entries_off::<TerminalPhotoKey, TerminalPhotoState<P>>(gallery.states, url),
        lru: without_url::<TerminalPhotoKey>(gallery.lru, url),
        buffers: entries_off::<PhotoRenderBufferKey, B>(gallery.buffers, url),
        buffer_lru: without_url::<PhotoRenderBufferKey>(gallery.buffer_lru, url),
        ..gallery
    }
}

/// The gallery after a photo was made ready, or failed to be.
pub open spec fn accepted<P, B>(
    gallery: GalleryView<P, B>,
    key: PhotoKeyText,
    state: TerminalPhotoState<P>,
    limit: nat,
) -> GalleryView<P, B> {
    let settled = undrawn(
        GalleryView {
            active: without(gallery.active, key),
            in_flight: if gallery.in_flight > 0 {
                (gallery.in_flight - 1) as nat
            } else {
                0
            },
            ..gallery
        },
        graphics_key(key),
    );
    trimmed_states(
        touched(
            GalleryView { states: settled.states.insert(key, state), ..settled },
            key,
        ),
        limit,
    )
}

/// The gallery after a photo was asked for: one that is ready counts as used, one that was
/// sent off stays, and any other waits, at the front where it has priority.
pub open spec fn ordered<P, B>(
    gallery: GalleryView<P, B>,
    key: PhotoKeyText,
    priority: bool,
) -> GalleryView<P, B> {
    if gallery.states.contains_key(key) {
        touched(gallery, key)
    } else if gallery.active.contains(key) {
        gallery
    } else {
        GalleryView { queue: enqueued(gallery.queue, key, priority), ..gallery }
    }
}

/// The gallery where there are no terminal graphics.
pub open spec fn shut<P, B>(gallery: GalleryView<P, B>) -> GalleryView<P, B> {
    GalleryView {
        states: Map::empty(),
        lru: Seq::empty(),
        queue: Seq::empty(),
        active: Seq::empty(),
        in_flight: 0,
        ..gallery
    }
}

/// The next photo to make and the gallery after it was taken from those that wait. Those
/// that are ready count as used; those that were sent off or whose photo has not come are
/// passed over.
pub open spec fn next_photo<P, B>(
    gallery: GalleryView<P, B>,
    photos: Map<Seq<char>, PhotoState>,
    limit: nat,
) -> (GalleryView<P, B>, Option<PhotoKeyText>)
    decreases gallery.queue.len(),
{
    if gallery.in_flight >= limit || gallery.queue.len() == 0 {
        (gallery, None)
    } else {
        let key = gallery.queue[0];
        let rest = GalleryView { queue: gallery.queue.drop_first(), ..gallery };
        if gallery.states.contains_key(key) {
            next_photo(touched(rest, key), photos, limit)
        } else if gallery.active.contains(key) || !photo_is_loaded(photos, key.0) {
            next_photo(rest, photos, limit)
        } else {
            (rest, Some(key))
        }
    }
}

/// The gallery after a photo was sent off.
pub open spec fn dispatched<P, B>(gallery: GalleryView<P, B>, key: PhotoKeyText) -> GalleryView<
    P,
    B,
> {
    GalleryView {
        active: with_key(gallery.active, key),
        in_flight: gallery.in_flight + 1,
        ..gallery
    }
}

/// The gallery after a photo could not be sent off.
pub open spec fn refused<P, B>(gallery: GalleryView<P, B>, key: PhotoKeyText) -> GalleryView<P, B> {
    GalleryView {
        states: gallery.states.insert(key, TerminalPhotoState::Failed),
        ..gallery
    }
}

/// The gallery with what belongs to live addresses.
pub open spec fn kept_live<P, B>(gallery: GalleryView<P, B>, live: Seq<Seq<char>>) -> GalleryView<
    P,
    B,
> {
    GalleryView {
        states: live_entries::<TerminalPhotoKey, TerminalPhotoState<P>>(gallery.states, live),
        lru: with_live_urls::<TerminalPhotoKey>(gallery.lru, live),
        queue: with_live_urls::<TerminalPhotoKey>(gallery.queue, live),
        active: with_live_urls::<TerminalPhotoKey>(gallery.active, live),
        buffers: live_entries::<PhotoRenderBufferKey, B>(gallery.buffers, live),
        buffer_lru: with_live_urls::<PhotoRenderBufferKey>(gallery.buffer_lru, live),
        ..gallery
    }
}

impl<P, B> Gallery<P, B> {
    /// The gallery in which nothing was made.
    pub fn new() -> (r: Self)
        ensures
            r@ == (GalleryView::<P, B> {
                states: Map::empty(),
                lru: Seq::empty(),
                queue: Seq::empty(),
                active: Seq::empty(),
                in_flight: 0,
                buffers: Map::empty(),
                buffer_lru: Seq::empty(),
            }),
    {
        Gallery {
            states: Table::new(),
            lru: Keys::new(),
            queue: Keys::new(),
            active: Keys::new(),
            in_flight: 0,
            buffers: Table::new(),
            buffer_lru: Keys::new(),
        }
    }

    /// Notes that a photo was used.
    pub fn touch_terminal_photo_key(&mut self, key: &TerminalPhotoKey)
        ensures
            final(self)@ == touched(old(self)@, key@),
    {
        self.lru.touch(key);
    }

    /// Looks a photo up for drawing it.
    pub fn terminal_photo_state_for_render(&mut self, key: &TerminalPhotoKey) -> (r: Option<
        &TerminalPhotoState<P>,
    >)
        ensures
            final(self)@ == looked_up(old(self)@, key@),
            match r {
                Some(state) => old(self)@.states.contains_key(key@) && old(self)@.states[key@]
                    == *state,
                None => !old(self)@.states.contains_key(key@),
            },
    {
        if self.states.contains_key(key) {
            self.touch_terminal_photo_key(key);
        }
        self.states.get(key)
    }

    /// Lets the photos used longest ago make room.
    pub fn trim_terminal_photo_states(&mut self, limit: usize)
        ensures
            final(self)@ == trimmed_states(old(self)@, limit as nat),
    {
        let ghost goal = trimmed_states(self@, limit as nat);
        while self.states.len() > limit
            invariant_except_break
                trimmed_states(self@, limit as nat) == goal,
            ensures
                self@ == goal,
            decreases self.lru@.len(),
        {
            let ghost before = self@;
            match self.lru.pop_front() {
                None => {
                    break;
                },
                Some(key) => {
                    if self.states.remove(&key) {
                        let render_key = (key.0, key.1, key.2, true);
                        self.remove_photo_render_buffer(&render_key);
                    } else {
                        assert(before.states.remove(key@) =~= before.states);
                    }
                },
            }
        }
    }

    /// Notes that a photo was made, and makes room.
    pub fn remember_terminal_photo_state(&mut self, key: TerminalPhotoKey, limit: usize)
        ensures
            final(self)@ == trimmed_states(touched(old(self)@, key@), limit as nat),
    {
        self.touch_terminal_photo_key(&key);
        self.trim_terminal_photo_states(limit);
    }

    /// Notes that something was drawn again.
    pub fn touch_photo_render_buffer(&mut self, key: &PhotoRenderBufferKey)
        ensures
            final(self)@ == (GalleryView {
                buffer_lru: without(old(self)@.buffer_lru, key@).push(key@),
                ..old(self)@
            }),
    {
        self.buffer_lru.touch(key);
    }

    /// Keeps something that was drawn.
    pub fn insert_photo_render_buffer(
        &mut self,
        key: PhotoRenderBufferKey,
        buffer: B,
        limit: usize,
    )
        ensures
            final(self)@ == drawn(old(self)@, key@, buffer, limit as nat),
    {
        let _ = self.buffers.insert(key.copy(), buffer);
        self.touch_photo_render_buffer(&key);
        self.trim_photo_render_buffers(limit);
    }

    /// Forgets what was drawn for a key.
    pub fn remove_photo_render_buffer(&mut self, key: &PhotoRenderBufferKey)
        ensures
            final(self)@ == undrawn(old(self)@, key@),
    {
        let _ = self.buffers.remove(key);
        self.buffer_lru.remove(key);
    }

    /// Forgets what was drawn of a photo.
    pub fn remove_photo_render_buffers_for_photo(&mut self, photo_url: &String)
        ensures
            final(self)@ == (GalleryView {
                buffers: entries_off::<PhotoRenderBufferKey, B>(old(self)@.buffers, photo_url@),
                buffer_lru: without_url::<PhotoRenderBufferKey>(
                    old(self)@.buffer_lru,
                    photo_url@,
                ),
                ..old(self)@
            }),
    {
        self.buffers.drop_url(photo_url);
        self.buffer_lru.drop_url(photo_url);
    }

    /// Lets what was drawn longest ago make room.
    pub fn trim_photo_render_buffers(&mut self, limit: usize)
        ensures
            final(self)@ == trimmed_buffers(old(self)@, limit as nat),
    {
        let ghost goal = trimmed_buffers(self@, limit as nat);
        while self.buffers.len() > limit
            invariant_except_break
                trimmed_buffers(self@, limit as nat) == goal,
            ensures
                self@ == goal,
            decreases self.buffer_lru@.len(),
        {
            match self.buffer_lru.pop_front() {
                None => {
                    break;
                },
                Some(key) => {
                    let _ = self.buffers.remove(&key);
                },
            }
        }
    }

    /// What was drawn for a key.
    pub fn cached_photo_render_buffer(&self, key: &PhotoRenderBufferKey) -> (r: Option<&B>)
        ensures
            match r {
                Some(buffer) => self@.buffers.contains_key(key@) && self@.buffers[key@]
                    == *buffer,
                None => !self@.buffers.contains_key(key@),
            },
    {
        self.buffers.get(key)
    }

    /// Forgets what was made and drawn of a photo.
    pub fn forget_photo(&mut self, photo_url: &String)
        ensures
            final(self)@ == without_photo(old(self)@, photo_url@),
    {
        self.states.drop_url(photo_url);
        self.lru.drop_url(photo_url);
        self.remove_photo_render_buffers_for_photo(photo_url);
    }

    /// Takes in a photo that was made ready, or failed to be.
    pub fn accept(&mut self, key: TerminalPhotoKey, state: TerminalPhotoState<P>, limit: usize)
        ensures
            final(self)@ == accepted(old(self)@, key@, state, limit as nat),
    {
        self.in_flight = self.in_flight.saturating_sub(1);
        self.active.remove(&key);
        let render_key = (key.0.clone(), key.1, key.2, true);
        self.remove_photo_render_buffer(&render_key);
        let _ = self.states.insert(key.copy(), state);
        self.remember_terminal_photo_state(key, limit);
    }

    /// Asks for a photo.
    pub fn order(&mut self, key: TerminalPhotoKey, priority: bool)
        ensures
            final(self)@ == ordered(old(self)@, key@, priority),
    {
        if self.states.contains_key(&key) {
            self.touch_terminal_photo_key(&key);
            return;
        }
        if self.active.contains(&key) {
            return;
        }
        self.queue.enqueue(key, priority);
    }

    /// Drops all that terminal graphics are for.
    pub fn shut(&mut self)
        ensures
            final(self)@ == shut(old(self)@),
    {
        self.queue = Keys::new();
        self.lru = Keys::new();
        self.states = Table::new();
        self.active = Keys::new();
        self.in_flight = 0;
    }

    /// Takes the next photo to make from those that wait.
    pub fn take_next(&mut self, photos: &FetchDesk<PhotoPreview>, limit: usize) -> (r: Option<
        TerminalPhotoKey,
    >)
        ensures
            (final(self)@, (match r {
                Some(key) => Some(key@),
                None => None,
            })) == next_photo(old(self)@, photos@.states, limit as nat),
    {
        let ghost goal = next_photo(self@, photos@.states, limit as nat);
        while self.in_flight < limit
            invariant_except_break
                next_photo(self@, photos@.states, limit as nat) == goal,
            invariant
                goal == next_photo(old(self)@, photos@.states, limit as nat),
            ensures
                goal == (self@, None::<PhotoKeyText>),
            decreases self.queue@.len(),
        {
            match self.queue.pop_front() {
                None => {
                    break;
                },
                Some(key) => {
                    if self.states.contains_key(&key) {
                        self.touch_terminal_photo_key(&key);
                    } else if self.active.contains(&key) {
                    } else if let Some(FetchState::Loaded(_)) = photos.states.get(&key.0) {
                        return Some(key);
                    }
                },
            }
        }
        None
    }

    /// Notes that a photo was sent off.
    pub fn note_sent(&mut self, key: TerminalPhotoKey)
        requires
            old(self)@.in_flight < usize::MAX,
        ensures
            final(self)@ == dispatched(old(self)@, key@),
    {
        if !self.active.contains(&key) {
            self.active.push_back(key);
        }
        self.in_flight = self.in_flight + 1;
    }

    /// Notes that a photo could not be sent off.
    pub fn note_refused(&mut self, key: TerminalPhotoKey)
        ensures
            final(self)@ == refused(old(self)@, key@),
    {
        let _ = self.states.insert(key, TerminalPhotoState::Failed);
    }

    /// Keeps what belongs to live addresses.
    pub fn keep_live(&mut self, live: &Keys<String>)
        ensures
            final(self)@ == kept_live(old(self)@, live@),
    {
        self.states.keep_urls(live);
        self.lru.keep_urls(live);
        self.queue.keep_urls(live);
        self.active.keep_urls(live);
        self.buffers.keep_urls(live);
        self.buffer_lru.keep_urls(live);
    }
}

/// All that was drawn is among the keys drawn last, none of which occurs twice.
pub open spec fn buffers_are_listed<P, B>(gallery: GalleryView<P, B>) -> bool {
    &&& gallery.buffers.dom().finite()
    &&& gallery.buffer_lru.no_duplicates()
    &&& forall|key: BufferKeyText| #[trigger]
        gallery.buffers.contains_key(key) ==> gallery.buffer_lru.contains(key)
}

/// What is kept of drawings stays within the limit, and what was drawn last is kept: all of it
/// is listed, so that it can make room.
pub proof fn law_drawings_stay_within_limit<P, B>(
    gallery: GalleryView<P, B>,
    key: BufferKeyText,
    buffer: B,
    limit: nat,
)
    requires
        buffers_are_listed(gallery),
        limit > 0,
    ensures
        buffers_are_listed(drawn(gallery, key, buffer, limit)),
        drawn(gallery, key, buffer, limit).buffers.dom().len() <= limit,
        drawn(gallery, key, buffer, limit).buffers.contains_key(key),
        drawn(gallery, key, buffer, limit).buffers[key] == buffer,
{
    let more = GalleryView {
        buffers: gallery.buffers.insert(key, buffer),
        buffer_lru: without(gallery.buffer_lru, key).push(key),
        ..gallery
    };
    lemma_without(gallery.buffer_lru, key);
    assert forall|k: BufferKeyText| #[trigger] more.buffers.contains_key(k) implies
        more.buffer_lru.contains(k) by {
        vstd::seq_lib::lemma_seq_contains_after_push(without(gallery.buffer_lru, key), key, k);
        if k != key {
            assert(gallery.buffers.contains_key(k));
        }
    }
    lemma_trimmed_buffers(more, limit);
}

/// All that was drawn stays listed, whatever is dropped.
pub proof fn law_drawings_stay_listed<P, B>(
    gallery: GalleryView<P, B>,
    key: BufferKeyText,
    url: Seq<char>,
    live: Seq<Seq<char>>,
    limit: nat,
)
    requires
        buffers_are_listed(gallery),
    ensures
        buffers_are_listed(undrawn(gallery, key)),
        buffers_are_listed(without_photo(gallery, url)),
        buffers_are_listed(kept_live(gallery, live)),
        buffers_are_listed(shut(gallery)),
        buffers_are_listed(trimmed_states(gallery, limit)),
{
    lemma_undrawn_is_listed(gallery, key);
    lemma_without_url::<PhotoRenderBufferKey>(gallery.buffer_lru, url);
    lemma_with_live_urls::<PhotoRenderBufferKey>(gallery.buffer_lru, live);
    let off = without_photo(gallery, url);
    assert(off.buffers.dom().subset_of(gallery.buffers.dom()));
    vstd::set_lib::lemma_len_subset(off.buffers.dom(), gallery.buffers.dom());
    let kept = kept_live(gallery, live);
    assert(kept.buffers.dom().subset_of(gallery.buffers.dom()));
    vstd::set_lib::lemma_len_subset(kept.buffers.dom(), gallery.buffers.dom());
    lemma_trimming_states_keeps_listed(gallery, limit);
}

/// Forgetting a drawing leaves the others listed.
proof fn lemma_undrawn_is_listed<P, B>(gallery: GalleryView<P, B>, key: BufferKeyText)
    requires
        buffers_are_listed(gallery),
    ensures
        buffers_are_listed(undrawn(gallery, key)),
{
    lemma_without(gallery.buffer_lru, key);
    assert forall|k: BufferKeyText| #[trigger] undrawn(
        gallery,
        key,
    ).buffers.contains_key(k) implies undrawn(gallery, key).buffer_lru.contains(k) by {
        assert(gallery.buffers.contains_key(k));
    }
}

/// Making room for terminal photos leaves the drawings listed.
proof fn lemma_trimming_states_keeps_listed<P, B>(gallery: GalleryView<P, B>, limit: nat)
    requires
        buffers_are_listed(gallery),
    ensures
        buffers_are_listed(trimmed_states(gallery, limit)),
    decreases gallery.lru.len(),
{
    if gallery.states.dom().len() <= limit || gallery.lru.len() == 0 {
    } else {
        let key = gallery.lru[0];
        let rest = GalleryView { lru: gallery.lru.drop_first(), ..gallery };
        if gallery.states.contains_key(key) {
            let fewer = GalleryView { states: gallery.states.remove(key), ..rest };
            lemma_undrawn_is_listed(fewer, graphics_key(key));
            lemma_trimming_states_keeps_listed(undrawn(fewer, graphics_key(key)), limit);
        } else {
            lemma_trimming_states_keeps_listed(rest, limit);
        }
    }
}

/// Nothing waits to be made twice, and nothing that was sent off waits.
pub open spec fn gallery_is_tidy<P, B>(gallery: GalleryView<P, B>) -> bool {
    &&& gallery.queue.no_duplicates()
    &&& gallery.active.no_duplicates()
    &&& forall|key: PhotoKeyText|
        !(gallery.queue.contains(key) && #[trigger] gallery.active.contains(key))
}

/// A gallery stays tidy: whatever is asked for, taken in, refused or let go of, and whatever
/// is taken from the queue and then sent off.
pub proof fn law_gallery_stays_tidy<P, B>(
    gallery: GalleryView<P, B>,
    key: PhotoKeyText,
    priority: bool,
    state: TerminalPhotoState<P>,
    live: Seq<Seq<char>>,
    photos: Map<Seq<char>, PhotoState>,
    limit: nat,
)
    requires
        gallery_is_tidy(gallery),
    ensures
        gallery_is_tidy(ordered(gallery, key, priority)),
        gallery_is_tidy(accepted(gallery, key, state, limit)),
        gallery_is_tidy(refused(gallery, key)),
        gallery_is_tidy(kept_live(gallery, live)),
        gallery_is_tidy(shut(gallery)),
        gallery_is_tidy(next_photo(gallery, photos, limit).0),
        next_photo(gallery, photos, limit).1 matches Some(next) ==> gallery_is_tidy(
            dispatched(next_photo(gallery, photos, limit).0, next),
        ),
{
    lemma_enqueued(gallery.queue, key, priority);
    lemma_without(gallery.active, key);
    lemma_with_live_urls::<TerminalPhotoKey>(gallery.queue, live);
    lemma_with_live_urls::<TerminalPhotoKey>(gallery.active, live);
    let made = accepted(gallery, key, state, limit);
    assert(made.queue == gallery.queue && made.active == without(gallery.active, key)) by {
        let settled = undrawn(
            GalleryView {
                active: without(gallery.active, key),
                in_flight: if gallery.in_flight > 0 {
                    (gallery.in_flight - 1) as nat
                } else {
                    0
                },
                ..gallery
            },
            graphics_key(key),
        );
        lemma_trimming_states_leaves_queue(
            touched(GalleryView { states: settled.states.insert(key, state), ..settled }, key),
            limit,
        );
    }
    lemma_next_photo_is_tidy(gallery, photos, limit);
}

/// Making room for terminal photos leaves what waits, what was sent off and what is owed.
pub proof fn lemma_trimming_states_leaves_queue<P, B>(gallery: GalleryView<P, B>, limit: nat)
    ensures
        trimmed_states(gallery, limit).in_flight == gallery.in_flight,
        trimmed_states(gallery, limit).queue == gallery.queue,
        trimmed_states(gallery, limit).active == gallery.active,
    decreases gallery.lru.len(),
{
    if gallery.states.dom().len() <= limit || gallery.lru.len() == 0 {
    } else {
        let key = gallery.lru[0];
        let rest = GalleryView { lru: gallery.lru.drop_first(), ..gallery };
        if gallery.states.contains_key(key) {
            lemma_trimming_states_leaves_queue(
                undrawn(
                    GalleryView { states: gallery.states.remove(key), ..rest },
                    graphics_key(key),
                ),
                limit,
            );
        } else {
            lemma_trimming_states_leaves_queue(rest, limit);
        }
    }
}

/// Taking the next photo to make leaves a tidy gallery, and so does sending it off.
proof fn lemma_next_photo_is_tidy<P, B>(
    gallery: GalleryView<P, B>,
    photos: Map<Seq<char>, PhotoState>,
    limit: nat,
)
    requires
        gallery_is_tidy(gallery),
    ensures
        gallery_is_tidy(next_photo(gallery, photos, limit).0),
        next_photo(gallery, photos, limit).1 matches Some(next) ==> gallery_is_tidy(
            dispatched(next_photo(gallery, photos, limit).0, next),
        ),
    decreases gallery.queue.len(),
{
    if gallery.in_flight >= limit || gallery.queue.len() == 0 {
    } else {
        let key = gallery.queue[0];
        let rest = GalleryView { queue: gallery.queue.drop_first(), ..gallery };
        assert(gallery.queue.contains(key));
        assert forall|k: PhotoKeyText| #[trigger] rest.queue.contains(k) implies
            gallery.queue.contains(k) && k != key by {
            let i = choose|i: int| 0 <= i < rest.queue.len() && rest.queue[i] == k;
            assert(gallery.queue[i + 1] == k);
        }
        assert(rest.queue.no_duplicates());
        assert(gallery_is_tidy(rest));
        if gallery.states.contains_key(key) {
            lemma_next_photo_is_tidy(touched(rest, key), photos, limit);
        } else if gallery.active.contains(key) || !photo_is_loaded(photos, key.0) {
            lemma_next_photo_is_tidy(rest, photos, limit);
        } else {
            assert(gallery.active.push(key).no_duplicates());
            assert forall|k: PhotoKeyText|
                !(rest.queue.contains(k) && #[trigger] dispatched(rest, key).active.contains(k)) by {
                vstd::seq_lib::lemma_seq_contains_after_push(gallery.active, key, k);
            }
        }
    }
}

/// Making room leaves no more drawings than the limit, and the one listed last among them.
proof fn lemma_trimmed_buffers<P, B>(gallery: GalleryView<P, B>, limit: nat)
    requires
        buffers_are_listed(gallery),
        limit > 0,
    ensures
        buffers_are_listed(trimmed_buffers(gallery, limit)),
        trimmed_buffers(gallery, limit).buffers.dom().len() <= limit,
        gallery.buffer_lru.len() > 0 && gallery.buffers.contains_key(gallery.buffer_lru.last())
            ==> trimmed_buffers(gallery, limit).buffers.contains_key(gallery.buffer_lru.last())
            && trimmed_buffers(gallery, limit).buffers[gallery.buffer_lru.last()]
            == gallery.buffers[gallery.buffer_lru.last()],
    decreases gallery.buffer_lru.len(),
{
    if gallery.buffers.dom().len() <= limit {
    } else if gallery.buffer_lru.len() == 0 {
        assert(gallery.buffers.dom() =~= Set::empty());
    } else {
        let first = gallery.buffer_lru[0];
        let rest = GalleryView {
            buffers: gallery.buffers.remove(first),
            buffer_lru: gallery.buffer_lru.drop_first(),
            ..gallery
        };
        assert forall|k: BufferKeyText| #[trigger] rest.buffers.contains_key(k) implies
            rest.buffer_lru.contains(k) by {
            assert(gallery.buffers.contains_key(k));
            let i = choose|i: int| 0 <= i < gallery.buffer_lru.len() && gallery.buffer_lru[i] == k;
            assert(rest.buffer_lru[i - 1] == k);
        }
        lemma_trimmed_buffers(rest, limit);
        if gallery.buffer_lru.len() == 1 {
            assert(rest.buffers.dom() =~= Set::empty());
            assert(gallery.buffers.dom().len() <= 1);
        } else if gallery.buffers.contains_key(gallery.buffer_lru.last()) {
            assert(first != gallery.buffer_lru.last());
        }
    }
}

/// Making room for terminal photos drops none that is not listed, and stops within the limit
/// or when no key is listed any more.
pub proof fn law_photos_make_room<P, B>(gallery: GalleryView<P, B>, limit: nat)
    requires
        gallery.states.dom().finite(),
    ensures
        trimmed_states(gallery, limit).states.dom().len() <= limit || trimmed_states(
            gallery,
            limit,
        ).lru.len() == 0,
        forall|k: PhotoKeyText|
            gallery.states.contains_key(k) && !gallery.lru.contains(k) ==> #[trigger] trimmed_states(
                gallery,
                limit,
            ).states.contains_key(k),
        forall|k: PhotoKeyText| #[trigger]
            trimmed_states(gallery, limit).states.contains_key(k) ==> gallery.states.contains_key(k)
                && trimmed_states(gallery, limit).states[k] == gallery.states[k],
    decreases gallery.lru.len(),
{
    if gallery.states.dom().len() <= limit || gallery.lru.len() == 0 {
    } else {
        let key = gallery.lru[0];
        let rest = GalleryView { lru: gallery.lru.drop_first(), ..gallery };
        let next = if gallery.states.contains_key(key) {
            undrawn(
                GalleryView { states: gallery.states.remove(key), ..rest },
                graphics_key(key),
            )
        } else {
            rest
        };
        law_photos_make_room(next, limit);
        assert(gallery.lru.contains(key));
        assert forall|k: PhotoKeyText|
            gallery.states.contains_key(k) && !gallery.lru.contains(k) implies #[trigger]
            trimmed_states(gallery, limit).states.contains_key(k) by {
            assert(!next.lru.contains(k)) by {
                if next.lru.contains(k) {
                    let i = choose|i: int| 0 <= i < next.lru.len() && next.lru[i] == k;
                    assert(gallery.lru[i + 1] == k);
                }
            }
            assert(next.states.contains_key(k));
        }
    }
}

/// Sending off only the next photo keeps what is owed within the limit, and hands out only
/// photos that have come, are not ready and were not sent off.
pub proof fn law_next_photo_is_due<P, B>(
    gallery: GalleryView<P, B>,
    photos: Map<Seq<char>, PhotoState>,
    limit: nat,
)
    ensures
        next_photo(gallery, photos, limit).1 matches Some(key) ==> {
            &&& photo_is_loaded(photos, key.0)
            &&& gallery.queue.contains(key)
            &&& !gallery.states.contains_key(key)
            &&& !gallery.active.contains(key)
            &&& dispatched(next_photo(gallery, photos, limit).0, key).in_flight <= limit
        },
    decreases gallery.queue.len(),
{
    if gallery.in_flight >= limit || gallery.queue.len() == 0 {
    } else {
        let key = gallery.queue[0];
        let rest = GalleryView { queue: gallery.queue.drop_first(), ..gallery };
        assert(gallery.queue.contains(key));
        let next = if gallery.states.contains_key(key) {
            touched(rest, key)
        } else {
            rest
        };
        law_next_photo_is_due(next, photos, limit);
        assert forall|k: PhotoKeyText| next.queue.contains(k) implies gallery.queue.contains(k) by {
            let i = choose|i: int| 0 <= i < next.queue.len() && next.queue[i] == k;
            assert(gallery.queue[i + 1] == k);
        }
    }
}

/// Asking for a photo as terminal graphics lets it wait, in front of all others with priority,
/// unless it is ready or being made. A ready one counts as used last.
pub proof fn law_asking_lets_a_photo_wait<P, B>(
    gallery: GalleryView<P, B>,
    key: PhotoKeyText,
    priority: bool,
)
    ensures
        ({
            let after = ordered(gallery, key, priority);
            &&& after.states == gallery.states && after.active == gallery.active
            &&& after.in_flight == gallery.in_flight && after.buffers == gallery.buffers
            &&& gallery.states.contains_key(key) ==> after.lru.last() == key && after.queue
                == gallery.queue
            &&& !gallery.states.contains_key(key) && gallery.active.contains(key) ==> after
                == gallery
            &&& !gallery.states.contains_key(key) && !gallery.active.contains(key) ==> {
                &&& after.queue.contains(key)
                &&& priority ==> after.queue[0] == key
                &&& !priority && !gallery.queue.contains(key) ==> after.queue.last() == key
                &&& after.lru == gallery.lru
            }
        }),
{
    lemma_enqueued(gallery.queue, key, priority);
}

/// A photo that was made, or failed to be, is kept as it came and counts as used last; it is no
/// longer owed, and what was drawn of it by terminal graphics before goes. Where there is room,
/// nothing else does.
pub proof fn law_made_photo_is_kept<P, B>(
    gallery: GalleryView<P, B>,
    key: PhotoKeyText,
    state: TerminalPhotoState<P>,
    limit: nat,
    other: PhotoKeyText,
)
    requires
        gallery.states.insert(key, state).dom().len() <= limit,
        other != key,
    ensures
        ({
            let after = accepted(gallery, key, state, limit);
            &&& after.states.contains_key(key) && after.states[key] == state
            &&& after.lru.last() == key
            &&& !after.active.contains(key)
            &&& gallery.in_flight > 0 ==> after.in_flight == gallery.in_flight - 1
            &&& !after.buffers.contains_key((key.0, key.1, key.2, true))
            &&& after.states.contains_key(other) == gallery.states.contains_key(other)
            &&& gallery.states.contains_key(other) ==> after.states[other] == gallery.states[other]
            &&& after.queue == gallery.queue
        }),
{
    lemma_without(gallery.active, key);
}

/// Forgetting a photo leaves nothing that was made or drawn of it, and all of the others; letting
/// go leaves exactly what belongs to live addresses.
pub proof fn law_photos_are_forgotten_by_address<P, B>(
    gallery: GalleryView<P, B>,
    url: Seq<char>,
    live: Seq<Seq<char>>,
    key: PhotoKeyText,
    drawing: BufferKeyText,
)
    ensures
        without_photo(gallery, url).states.contains_key(key) <==> gallery.states.contains_key(key)
            && key.0 != url,
        without_photo(gallery, url).states.contains_key(key) ==> without_photo(
            gallery,
            url,
        ).states[key] == gallery.states[key],
        without_photo(gallery, url).buffers.contains_key(drawing) <==> gallery.buffers.contains_key(
            drawing,
        ) && drawing.0 != url,
        without_photo(gallery, url).queue == gallery.queue,
        kept_live(gallery, live).states.contains_key(key) <==> gallery.states.contains_key(key)
            && live.contains(key.0),
        kept_live(gallery, live).states.contains_key(key) ==> kept_live(gallery, live).states[key]
            == gallery.states[key],
        kept_live(gallery, live).buffers.contains_key(drawing) <==> gallery.buffers.contains_key(
            drawing,
        ) && live.contains(drawing.0),
        kept_live(gallery, live).queue.contains(key) <==> gallery.queue.contains(key)
            && live.contains(key.0),
        kept_live(gallery, live).in_flight == gallery.in_flight,
{
    lemma_with_live_urls::<TerminalPhotoKey>(gallery.queue, live);
}

/// A photo that is sent off is owed; one that could not be sent off has failed; and without
/// terminal graphics nothing waits, is owed or is ready, while what was drawn stays.
pub proof fn law_photos_are_sent_off<P, B>(gallery: GalleryView<P, B>, key: PhotoKeyText)
    ensures
        dispatched(gallery, key).active.contains(key),
        dispatched(gallery, key).in_flight == gallery.in_flight + 1,
        dispatched(gallery, key).states == gallery.states,
        refused(gallery, key).states.contains_key(key) && refused(gallery, key).states[key]
            is Failed,
        refused(gallery, key).in_flight == gallery.in_flight,
        shut(gallery).queue.len() == 0 && shut(gallery).active.len() == 0 && shut(
            gallery,
        ).in_flight == 0,
        forall|k: PhotoKeyText| !#[trigger] shut(gallery).states.contains_key(k),
        shut(gallery).buffers == gallery.buffers,
{
    if !gallery.active.contains(key) {
        vstd::seq_lib::lemma_seq_contains_after_push(gallery.active, key, key);
    }
}

/// Of the terminal photos, and of what was drawn, those used longest ago make room: what is left
/// of the list of use is its end, and nothing goes where all have room.
pub proof fn law_longest_unused_make_room<P, B>(gallery: GalleryView<P, B>, limit: nat)
    ensures
        trimmed_states(gallery, limit).lru.is_suffix_of(gallery.lru),
        trimmed_buffers(gallery, limit).buffer_lru.is_suffix_of(gallery.buffer_lru),
        gallery.states.dom().len() <= limit ==> trimmed_states(gallery, limit) == gallery,
        gallery.buffers.dom().len() <= limit ==> trimmed_buffers(gallery, limit) == gallery,
{
    lemma_trimmed_states_keep_the_end(gallery, limit);
    lemma_trimmed_buffers_keep_the_end(gallery, limit);
}

/// What is left of the list of use of terminal photos is its end.
proof fn lemma_trimmed_states_keep_the_end<P, B>(gallery: GalleryView<P, B>, limit: nat)
    ensures
        trimmed_states(gallery, limit).lru.is_suffix_of(gallery.lru),
    decreases gallery.lru.len(),
{
    let lru = gallery.lru;
    if gallery.states.dom().len() <= limit || lru.len() == 0 {
        assert(lru =~= lru.skip(0));
    } else {
        let key = lru[0];
        let rest = GalleryView { lru: lru.drop_first(), ..gallery };
        let next = if gallery.states.contains_key(key) {
            undrawn(
                GalleryView { states: gallery.states.remove(key), ..rest },
                graphics_key(key),
            )
        } else {
            rest
        };
        lemma_trimmed_states_keep_the_end(next, limit);
        let left = trimmed_states(gallery, limit).lru;
        assert(left =~= lru.skip(lru.len() - left.len()));
    }
}

/// What is left of the list of use of drawings is its end.
proof fn lemma_trimmed_buffers_keep_the_end<P, B>(gallery: GalleryView<P, B>, limit: nat)
    ensures
        trimmed_buffers(gallery, limit).buffer_lru.is_suffix_of(gallery.buffer_lru),
    decreases gallery.buffer_lru.len(),
{
    let lru = gallery.buffer_lru;
    if gallery.buffers.dom().len() <= limit || lru.len() == 0 {
        assert(lru =~= lru.skip(0));
    } else {
        let next = GalleryView {
            buffers: gallery.buffers.remove(lru[0]),
            buffer_lru: lru.drop_first(),
            ..gallery
        };
        lemma_trimmed_buffers_keep_the_end(next, limit);
        let left = trimmed_buffers(gallery, limit).buffer_lru;
        assert(left =~= lru.skip(lru.len() - left.len()));
    }
}

/// The photo that is made next is the first of those that wait which has come, is not ready and
/// is not being made; all that wait before it are passed over.
pub proof fn law_next_photo_is_the_first_due<P, B>(
    gallery: GalleryView<P, B>,
    photos: Map<Seq<char>, PhotoState>,
    limit: nat,
)
    requires
        gallery.in_flight < limit,
    ensures
        match next_photo(gallery, photos, limit).1 {
            Some(key) => exists|n: int| {
                &&& 0 <= n < gallery.queue.len()
                &&& #[trigger] gallery.queue[n] == key
                &&& forall|i: int|
                    0 <= i < n ==> passed_over(gallery, photos, #[trigger] gallery.queue[i])
                &&& next_photo(gallery, photos, limit).0.queue == gallery.queue.skip(n + 1)
            },
            None => forall|i: int|
                0 <= i < gallery.queue.len() ==> passed_over(
                    gallery,
                    photos,
                    #[trigger] gallery.queue[i],
                ),
        },
    decreases gallery.queue.len(),
{
    if gallery.queue.len() > 0 {
        let key = gallery.queue[0];
        let rest = GalleryView { queue: gallery.queue.drop_first(), ..gallery };
        if !passed_over(gallery, photos, key) {
            assert(gallery.queue.drop_first() =~= gallery.queue.skip(1));
        } else {
            let next = if gallery.states.contains_key(key) {
                touched(rest, key)
            } else {
                rest
            };
            law_next_photo_is_the_first_due(next, photos, limit);
            assert(next_photo(gallery, photos, limit) == next_photo(next, photos, limit));
            match next_photo(next, photos, limit).1 {
                Some(found) => {
                    let n = choose|n: int| {
                        &&& 0 <= n < next.queue.len()
                        &&& #[trigger] next.queue[n] == found
                        &&& forall|i: int|
                            0 <= i < n ==> passed_over(next, photos, #[trigger] next.queue[i])
                        &&& next_photo(next, photos, limit).0.queue == next.queue.skip(n + 1)
                    };
                    assert(gallery.queue[n + 1] == found);
                    assert(gallery.queue.skip(n + 1 + 1) =~= next.queue.skip(n + 1));
                    assert forall|i: int| 0 <= i < n + 1 implies passed_over(
                        gallery,
                        photos,
                        #[trigger] gallery.queue[i],
                    ) by {
                        if i > 0 {
                            assert(passed_over(next, photos, next.queue[i - 1]));
                        }
                    }
                },
                None => {
                    assert forall|i: int| 0 <= i < gallery.queue.len() implies passed_over(
                        gallery,
                        photos,
                        #[trigger] gallery.queue[i],
                    ) by {
                        if i > 0 {
                            assert(passed_over(next, photos, next.queue[i - 1]));
                        }
                    }
                },
            }
        }
    }
}

/// A photo that waits is not made: it is ready or being made, or has not come.
pub open spec fn passed_over<P, B>(
    gallery: GalleryView<P, B>,
    photos: Map<Seq<char>, PhotoState>,
    key: PhotoKeyText,
) -> bool {
    gallery.states.contains_key(key) || gallery.active.contains(key) || !(photos.contains_key(key.0)
        && photos[key.0] is Loaded)
}

/// Making room adds nothing.
pub proof fn lemma_trimming_adds_nothing<P, B>(
    gallery: GalleryView<P, B>,
    limit: nat,
    key: PhotoKeyText,
    drawing: BufferKeyText,
)
    ensures
        trimmed_states(gallery, limit).states.contains_key(key) ==> gallery.states.contains_key(key),
        trimmed_states(gallery, limit).buffers.contains_key(drawing)
            ==> gallery.buffers.contains_key(drawing),
        trimmed_buffers(gallery, limit).states == gallery.states,
        trimmed_buffers(gallery, limit).buffers.contains_key(drawing)
            ==> gallery.buffers.contains_key(drawing),
{
    lemma_trimmed_states_within(gallery, limit, key, drawing);
    lemma_trimmed_buffers_within(gallery, limit, drawing);
}

/// Making room for terminal photos adds nothing.
proof fn lemma_trimmed_states_within<P, B>(
    gallery: GalleryView<P, B>,
    limit: nat,
    key: PhotoKeyText,
    drawing: BufferKeyText,
)
    ensures
        trimmed_states(gallery, limit).states.contains_key(key) ==> gallery.states.contains_key(key),
        trimmed_states(gallery, limit).buffers.contains_key(drawing)
            ==> gallery.buffers.contains_key(drawing),
    decreases gallery.lru.len(),
{
    if gallery.states.dom().len() > limit && gallery.lru.len() > 0 {
        let first = gallery.lru[0];
        let rest = GalleryView { lru: gallery.lru.drop_first(), ..gallery };
        let next = if gallery.states.contains_key(first) {
            undrawn(
                GalleryView { states: gallery.states.remove(first), ..rest },
                graphics_key(first),
            )
        } else {
            rest
        };
        lemma_trimmed_states_within(next, limit, key, drawing);
    }
}

/// Making room for drawings adds nothing.
proof fn lemma_trimmed_buffers_within<P, B>(
    gallery: GalleryView<P, B>,
    limit: nat,
    drawing: BufferKeyText,
)
    ensures
        trimmed_buffers(gallery, limit).states == gallery.states,
        trimmed_buffers(gallery, limit).buffers.contains_key(drawing)
            ==> gallery.buffers.contains_key(drawing),
    decreases gallery.buffer_lru.len(),
{
    if gallery.buffers.dom().len() > limit && gallery.buffer_lru.len() > 0 {
        let next = GalleryView {
            buffers: gallery.buffers.remove(gallery.buffer_lru[0]),
            buffer_lru: gallery.buffer_lru.drop_first(),
            ..gallery
        };
        lemma_trimmed_buffers_within(next, limit, drawing);
    }
}

} // verus!
