//! Drawing the photo of the selected lot.
use vstd::prelude::*;

use crate::browser::App;
use crate::desk::FetchState;
use crate::gallery::{drawn, looked_up, GalleryView, TerminalPhotoState};
use crate::keys::{without, PhotoRenderBufferKey};
use crate::layout::Rect;
use crate::preview::PhotoPreview;
use crate::text::concat;
use crate::work::{asked_terminal, terminal_in_front};

verus! {

/// What to do with the area of the photo.
pub enum PhotoPlan {
    /// To leave it alone.
    Nothing,
    /// To clear it.
    Clear,
    /// To show what was drawn.
    Show(PhotoRenderBufferKey),
    /// To draw the photo and to show it.
    Draw(PhotoRenderBufferKey),
}

/// What to do with an area, by the key of what to draw.
pub ghost enum PlanText {
    Nothing,
    Clear,
    Show((Seq<char>, u16, u16, bool)),
    Draw((Seq<char>, u16, u16, bool)),
}

impl View for PhotoPlan {
    type V = PlanText;

    open spec fn view(&self) -> PlanText {
        match *self {
            PhotoPlan::Nothing => PlanText::Nothing,
            PhotoPlan::Clear => PlanText::Clear,
            PhotoPlan::Show(key) => PlanText::Show(key@),
            PhotoPlan::Draw(key) => PlanText::Draw(key@),
        }
    }
}

/// What to draw.
pub enum PhotoRender {
    /// Nothing at all.
    Nothing,
    /// A blank area.
    Blank,
    /// The photo as terminal graphics.
    Graphics,
    /// The photo as half blocks.
    Blocks,
    /// Words in place of the photo.
    Words(String),
}

/// The gallery after the photo to show was asked for in an area: with those around it where
/// the area has another size than before.
pub open spec fn gallery_for<P, B>(app: App<P, B>, url: Seq<char>, area: Rect) -> GalleryView<P, B> {
    let size = (area.width, area.height);
    let around = if app.last_photo_area_size == Some(size) {
        app.gallery@
    } else {
        terminal_in_front(
            app.gallery@,
            app.photos@.states,
            app.has_graphics,
            Some(size),
            app.priority_photos(),
        )
    };
    asked_terminal(
        around,
        app.photos@.states,
        app.has_graphics,
        (url, area.width, area.height),
        true,
    )
}

/// What to do with the area of the photo, and the gallery after that was settled.
pub open spec fn plan_for<P, B>(app: App<P, B>, url: Seq<char>, area: Rect, ticks: u64) -> (
    PlanText,
    GalleryView<P, B>,
) {
    let gallery = gallery_for(app, url, area);
    let key = (url, area.width, area.height, app.has_graphics);
    if app.images_wait(ticks) {
        (PlanText::Clear, gallery)
    } else if gallery.buffers.contains_key(key) {
        (
            PlanText::Show(key),
            GalleryView { buffer_lru: without(gallery.buffer_lru, key).push(key), ..gallery },
        )
    } else {
        (PlanText::Draw(key), gallery)
    }
}

/// What to draw for a photo, and the gallery after it was looked up: terminal graphics where
/// they are wanted and made, half blocks where they are not wanted or could not be made, and
/// words where the photo did not come.
pub open spec fn is_render<P, B>(
    app: App<P, B>,
    key: (Seq<char>, u16, u16, bool),
    render: PhotoRender,
) -> bool {
    let photo = (key.0, key.1, key.2);
    let states = app.gallery@.states;
    if key.1 == 0 || key.2 == 0 {
        render is Nothing
    } else if key.3 && !states.contains_key(photo) {
        render is Blank
    } else if key.3 && states[photo] is Loaded {
        render is Graphics
    } else if app.photos@.states.contains_key(key.0) {
        match app.photos@.states[key.0] {
            FetchState::Loaded(_) => render is Blocks,
            FetchState::Loading => render is Blank,
            FetchState::Failed(error) => render matches PhotoRender::Words(words) && words@
                == "Could not load photo: "@ + error@,
        }
    } else {
        render is Blank
    }
}

impl<P, B> App<P, B> {
    /// Settles what to do with the area of the photo.
    pub fn plan_primary_photo(&mut self, area: Rect, ticks: u64) -> (r: PhotoPlan)
        ensures
            match (area.width > 0 && area.height > 0, old(self).primary_photo()) {
                (true, Some(url)) => {
                    &&& (r@, final(self).gallery@) == plan_for(*old(self), url, area, ticks)
                    &&& *final(self) == (App {
                        gallery: final(self).gallery,
                        last_photo_area_size: Some((area.width, area.height)),
                        ..*old(self)
                    })
                },
                _ => r is Nothing && *final(self) == *old(self),
            },
    {
        if area.height == 0 || area.width == 0 {
            return PhotoPlan::Nothing;
        }
        let photo_url = match self.primary_photo_url() {
            Some(url) => url,
            None => {
                return PhotoPlan::Nothing;
            },
        };
        let same = match self.last_photo_area_size {
            Some((width, height)) => width == area.width && height == area.height,
            None => false,
        };
        self.last_photo_area_size = Some((area.width, area.height));
        if !same {
            let urls = self.current_auction_photo_urls_by_priority();
            self.queue_terminal_photo_batch_front(urls);
        }
        self.queue_terminal_photo_render(photo_url.clone(), area.width, area.height, true);
        if self.image_render_deferred(ticks) {
            return PhotoPlan::Clear;
        }
        let graphics = self.should_render_terminal_images(ticks);
        let key = (photo_url, area.width, area.height, graphics);
        if self.gallery.buffers.contains_key(&key) {
            self.gallery.touch_photo_render_buffer(&key);
            PhotoPlan::Show(key)
        } else {
            PhotoPlan::Draw(key)
        }
    }

    /// Settles what to draw for a photo.
    pub fn render_primary_photo(&mut self, key: &PhotoRenderBufferKey) -> (r: PhotoRender)
        ensures
            is_render(*old(self), key@, r),
            final(self).gallery@ == if key.3 && key.1 > 0 && key.2 > 0 {
                looked_up(old(self).gallery@, (key.0@, key.1, key.2))
            } else {
                old(self).gallery@
            },
            *final(self) == (App { gallery: final(self).gallery, ..*old(self) }),
    {
        if key.1 == 0 || key.2 == 0 {
            return PhotoRender::Nothing;
        }
        if key.3 {
            let photo = (key.0.clone(), key.1, key.2);
            match self.gallery.terminal_photo_state_for_render(&photo) {
                Some(TerminalPhotoState::Loaded(_)) => {
                    return PhotoRender::Graphics;
                },
                Some(TerminalPhotoState::Failed) => {},
                None => {
                    return PhotoRender::Blank;
                },
            }
        }
        match self.photos.states.get(&key.0) {
            Some(FetchState::Loaded(_)) => PhotoRender::Blocks,
            Some(FetchState::Failed(error)) => PhotoRender::Words(
                concat("Could not load photo: ", error.as_str()),
            ),
            _ => PhotoRender::Blank,
        }
    }

    /// Keeps what was drawn.
    pub fn keep_drawing(&mut self, key: PhotoRenderBufferKey, buffer: B)
        ensures
            final(self).gallery@ == drawn(
                old(self).gallery@,
                key@,
                buffer,
                old(self).buffer_limit(),
            ),
            *final(self) == (App { gallery: final(self).gallery, ..*old(self) }),
    {
        let limit = self.photo_render_buffer_limit();
        self.gallery.insert_photo_render_buffer(key, buffer, limit);
    }
}

/// Nothing is drawn while images wait: the area is cleared. Otherwise what was drawn for the photo
/// in this size is shown again, and drawn where it was not; as terminal graphics if and only if
/// the terminal has them.
pub proof fn law_photo_is_drawn_once<P, B>(app: App<P, B>, url: Seq<char>, area: Rect, ticks: u64)
    ensures
        ({
            let (plan, gallery) = plan_for(app, url, area, ticks);
            let key = (url, area.width, area.height, app.has_graphics);
            &&& app.images_wait(ticks) <==> plan is Clear
            &&& !app.images_wait(ticks) && gallery.buffers.contains_key(key) ==> plan
                == PlanText::Show(key)
            &&& !app.images_wait(ticks) && !gallery.buffers.contains_key(key) ==> plan
                == PlanText::Draw(key)
            &&& plan is Show ==> gallery.buffer_lru.last() == key
        }),
{
}

/// A photo that has come is drawn as half blocks where terminal graphics are not wanted or could
/// not be made of it, and as such graphics once they are made; one that failed to come gives the
/// words for why; and until then the area stays blank.
pub proof fn law_photo_is_drawn_as_it_came<P, B>(
    app: App<P, B>,
    key: (Seq<char>, u16, u16, bool),
    render: PhotoRender,
)
    requires
        is_render(app, key, render),
        key.1 > 0 && key.2 > 0,
    ensures
        !key.3 && app.photos@.states.contains_key(key.0) ==> {
            &&& app.photos@.states[key.0] is Loaded ==> render is Blocks
            &&& app.photos@.states[key.0] is Loading ==> render is Blank
            &&& (app.photos@.states[key.0] matches FetchState::Failed(error) ==> (
            render matches PhotoRender::Words(words) && error@.is_suffix_of(words@)))
        },
        !app.photos@.states.contains_key(key.0) && !key.3 ==> render is Blank,
        render is Graphics <==> key.3 && app.gallery@.states.contains_key((key.0, key.1, key.2))
            && app.gallery@.states[(key.0, key.1, key.2)] is Loaded,
        key.3 && app.gallery@.states.contains_key((key.0, key.1, key.2)) && app.gallery@.states[(
            key.0,
            key.1,
            key.2,
        )] is Failed && app.photos@.states.contains_key(key.0) && app.photos@.states[key.0]
            is Loaded ==> render is Blocks,
        key.3 && !app.gallery@.states.contains_key((key.0, key.1, key.2)) ==> render is Blank,
{
    if app.photos@.states.contains_key(key.0) {
        match app.photos@.states[key.0] {
            FetchState::Failed(error) => {
                let words = "Could not load photo: "@ + error@;
                assert(error@ =~= words.skip(words.len() - error@.len()));
            },
            _ => {},
        }
    }
}

/// Asking for photos as terminal graphics makes none ready and takes none from those being made.
proof fn lemma_asking_keeps_ready<P, B>(
    gallery: GalleryView<P, B>,
    photos: Map<Seq<char>, FetchState<PhotoPreview>>,
    has_graphics: bool,
    area: Option<(u16, u16)>,
    urls: Seq<Seq<char>>,
)
    ensures
        terminal_in_front(gallery, photos, has_graphics, area, urls).states == gallery.states,
        terminal_in_front(gallery, photos, has_graphics, area, urls).active == gallery.active,
        terminal_in_front(gallery, photos, has_graphics, area, urls).buffers == gallery.buffers,
    decreases urls.len(),
{
    if area is Some && urls.len() > 0 {
        let next = asked_terminal(
            gallery,
            photos,
            has_graphics,
            (urls.last(), (area->0).0, (area->0).1),
            true,
        );
        lemma_asking_keeps_ready(next, photos, has_graphics, area, urls.drop_last());
    }
}

/// The photo that is to be shown is made as terminal graphics before all others, where there are
/// such graphics, the photo has come, and it is neither ready nor being made.
pub proof fn law_shown_photo_is_made_first<P, B>(app: App<P, B>, url: Seq<char>, area: Rect)
    requires
        area.width > 0 && area.height > 0,
        app.has_graphics,
        app.photos@.states.contains_key(url) && app.photos@.states[url] is Loaded,
        !app.gallery@.states.contains_key((url, area.width, area.height)),
        !app.gallery@.active.contains((url, area.width, area.height)),
    ensures
        gallery_for(app, url, area).queue.len() > 0,
        gallery_for(app, url, area).queue[0] == (url, area.width, area.height),
{
    lemma_asking_keeps_ready(
        app.gallery@,
        app.photos@.states,
        app.has_graphics,
        Some((area.width, area.height)),
        app.priority_photos(),
    );
}

} // verus!
