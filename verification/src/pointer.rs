//! What the mouse does: choosing, dragging borders and scrolling.
use vstd::prelude::*;

use crate::answers::{event_selected, lot_selected, prefetched};
use crate::browser::{event_at, lot_count, App, DragTarget, FocusPane};
use crate::layout::{
    between, clamp_between, compute_layout, contains_point, covers, held, inner_area, inside,
    is_layout, is_on_screen, law_columns_stand_side_by_side, law_panes_are_apart,
    law_panes_have_their_sizes, less, most_stacked_lots, Frame, PaneSizes, Rect, UiLayout,
};
use crate::moments::Moment;
use crate::numbers::{decimal, decimal_text};
use crate::screen::{list_rows, lot_row, lot_rows};
use crate::text::concat;
use crate::work::{asked_details, same_face};

verus! {

/// The cells between a photo and the text beside it.
pub const DETAILS_IMAGE_GAP: u16 = 1;

/// The least width of a photo.
pub const DETAILS_IMAGE_MIN_WIDTH: u16 = 12;

/// The least width of the text beside a photo.
pub const DETAILS_TEXT_MIN_WIDTH: u16 = 24;

/// The width that a photo should have.
pub const DETAILS_IMAGE_TARGET_WIDTH: u16 = 42;

/// The most width of a photo.
pub const DETAILS_IMAGE_MAX_WIDTH: u16 = 56;

/// What the mouse did.
#[derive(Debug, Clone, Copy, PartialEq, Eq, Structural)]
pub enum MouseKind {
    LeftDown,
    LeftDrag,
    LeftUp,
    Moved,
    ScrollDown,
    ScrollUp,
    Other,
}

/// What the mouse did, and where.
#[derive(Debug, Clone, Copy, PartialEq, Eq, Structural)]
pub struct Mouse {
    pub kind: MouseKind,
    pub column: u16,
    pub row: u16,
}

/// What is left to do outside.
#[derive(Debug, Clone, Copy, PartialEq, Eq, Structural)]
pub enum MouseAction {
    Nothing,
    /// To open the selected lot.
    OpenLot,
}

/// A position lies on a line or next to it.
pub open spec fn is_near(value: int, line: int) -> bool {
    -1 <= value - line <= 1
}

/// Whether a position lies on a line or next to it.
pub fn near_line(value: u16, line: u16) -> (r: bool)
    ensures
        r == is_near(value as int, line as int),
{
    if value >= line {
        value - line <= 1
    } else {
        line - value <= 1
    }
}

/// How far along a span a position lies, in percent, as sixteen bits hold it.
pub open spec fn percent_along(position: int, start: int, span: int) -> int {
    if span == 0 {
        0
    } else {
        (less(position, start) * 100 / span) % 65536
    }
}

/// How far along a span a position lies, in percent.
pub fn percent_from_position(position: u16, start: u16, span: u16) -> (r: u16)
    ensures
        r == percent_along(position as int, start as int, span as int),
{
    if span == 0 {
        return 0;
    }
    let along: u32 = position.saturating_sub(start) as u32 * 100 / span as u32;
    (along % 65536) as u16
}

/// The border that a cell lies on or next to.
pub open spec fn border_at(layout: UiLayout, column: int, row: int) -> Option<DragTarget> {
    if layout.wide {
        if layout.body.y <= row < held(layout.body.y + layout.body.height) && is_near(
            column,
            held(layout.events.x + layout.events.width),
        ) {
            Some(DragTarget::EventsWidth)
        } else if layout.right.x <= column < held(layout.right.x + layout.right.width) && is_near(
            row,
            layout.details.y as int,
        ) {
            Some(DragTarget::LotsDetailsSplit)
        } else {
            None
        }
    } else if layout.body.x <= column < held(layout.body.x + layout.body.width) {
        if is_near(row, held(layout.events.y + layout.events.height)) {
            Some(DragTarget::EventsWidth)
        } else if is_near(row, layout.details.y as int) {
            Some(DragTarget::LotsDetailsSplit)
        } else {
            None
        }
    } else {
        None
    }
}

/// The border that a cell lies on or next to.
pub fn drag_target_at(layout: &UiLayout, column: u16, row: u16) -> (r: Option<DragTarget>)
    ensures
        r == border_at(*layout, column as int, row as int),
{
    if layout.wide {
        let events_boundary: u16 = layout.events.x.saturating_add(layout.events.width);
        if row >= layout.body.y && row < layout.body.y.saturating_add(layout.body.height)
            && near_line(column, events_boundary) {
            return Some(DragTarget::EventsWidth);
        }
        if column >= layout.right.x && column < layout.right.x.saturating_add(layout.right.width)
            && near_line(row, layout.details.y) {
            return Some(DragTarget::LotsDetailsSplit);
        }
    } else {
        if column >= layout.body.x && column < layout.body.x.saturating_add(layout.body.width)
            && near_line(row, layout.events.y.saturating_add(layout.events.height)) {
            return Some(DragTarget::EventsWidth);
        }
        if column >= layout.body.x && column < layout.body.x.saturating_add(layout.body.width)
            && near_line(row, layout.details.y) {
            return Some(DragTarget::LotsDetailsSplit);
        }
    }
    None
}

/// The words for a border.
pub open spec fn border_words(target: DragTarget) -> Seq<char> {
    match target {
        DragTarget::EventsWidth => "Drag highlighted boundary to resize auction pane."@,
        DragTarget::LotsDetailsSplit => "Drag highlighted boundary to resize lots/details panes."@,
    }
}

/// The words for a border.
pub fn resize_status(target: DragTarget) -> (r: String)
    ensures
        r@ == border_words(target),
{
    match target {
        DragTarget::EventsWidth => {
            "Drag highlighted boundary to resize auction pane.".to_owned()
        },
        DragTarget::LotsDetailsSplit => {
            "Drag highlighted boundary to resize lots/details panes.".to_owned()
        },
    }
}

/// The larger of two numbers.
pub open spec fn most(a: int, b: int) -> int {
    if a > b {
        a
    } else {
        b
    }
}

/// The sizes of the panes after a border was dragged to a cell.
pub open spec fn dragged_sizes(
    sizes: PaneSizes,
    layout: UiLayout,
    target: DragTarget,
    column: int,
    row: int,
) -> PaneSizes {
    match (layout.wide, target) {
        (true, DragTarget::EventsWidth) => PaneSizes {
            event_pane_width: between(
                less(column, layout.body.x as int),
                24,
                most(less(layout.body.width as int, 50), 24),
            ) as u16,
            ..sizes
        },
        (true, DragTarget::LotsDetailsSplit) => PaneSizes {
            lots_pane_percent: between(
                percent_along(row, layout.right.y as int, layout.right.height as int),
                20,
                80,
            ) as u16,
            ..sizes
        },
        (false, DragTarget::EventsWidth) => {
            let percent = between(
                percent_along(row, layout.body.y as int, layout.body.height as int),
                10,
                55,
            );
            PaneSizes {
                stacked_events_percent: percent as u16,
                stacked_lots_percent: if sizes.stacked_lots_percent <= most_stacked_lots(percent) {
                    sizes.stacked_lots_percent
                } else {
                    most_stacked_lots(percent) as u16
                },
                ..sizes
            }
        },
        (false, DragTarget::LotsDetailsSplit) => PaneSizes {
            stacked_lots_percent: between(
                less(
                    percent_along(row, layout.body.y as int, layout.body.height as int),
                    sizes.stacked_events_percent as int,
                ),
                10,
                most_stacked_lots(sizes.stacked_events_percent as int),
            ) as u16,
            ..sizes
        },
    }
}

/// The words for the sizes of the panes after a border was dragged.
pub open spec fn dragged_words(sizes: PaneSizes, wide: bool, target: DragTarget) -> Seq<char> {
    match (wide, target) {
        (true, DragTarget::EventsWidth) => "Auction pane width: "@ + decimal(
            sizes.event_pane_width as nat,
        ),
        (true, DragTarget::LotsDetailsSplit) => "Lots/details split: "@ + decimal(
            sizes.lots_pane_percent as nat,
        ) + "%"@,
        (false, DragTarget::EventsWidth) => "Auction pane height: "@ + decimal(
            sizes.stacked_events_percent as nat,
        ) + "%"@,
        (false, DragTarget::LotsDetailsSplit) => "Lots pane height: "@ + decimal(
            sizes.stacked_lots_percent as nat,
        ) + "%"@,
    }
}

/// Dragging a border to a cell changes the size that it sets.
pub open spec fn drag_changes(
    sizes: PaneSizes,
    layout: UiLayout,
    target: DragTarget,
    column: int,
    row: int,
) -> bool {
    let after = dragged_sizes(sizes, layout, target, column, row);
    match (layout.wide, target) {
        (true, DragTarget::EventsWidth) => after.event_pane_width != sizes.event_pane_width,
        (true, DragTarget::LotsDetailsSplit) => after.lots_pane_percent != sizes.lots_pane_percent,
        (false, DragTarget::EventsWidth) => after.stacked_events_percent
            != sizes.stacked_events_percent,
        (false, DragTarget::LotsDetailsSplit) => after.stacked_lots_percent
            != sizes.stacked_lots_percent,
    }
}

/// A number between two words.
fn number_words(before: &str, n: u16, after: &str) -> (r: String)
    ensures
        r@ == before@ + decimal(n as nat) + after@,
{
    let digits = decimal_text(n as u64);
    let mut words = concat(before, digits.as_str());
    words.append(after);
    words
}

/// The sizes of an app's panes were set.
pub open spec fn with_sizes<P, B>(app: App<P, B>, sizes: PaneSizes) -> App<P, B> {
    App {
        event_pane_width: sizes.event_pane_width,
        lots_pane_percent: sizes.lots_pane_percent,
        stacked_events_percent: sizes.stacked_events_percent,
        stacked_lots_percent: sizes.stacked_lots_percent,
        ..app
    }
}

/// The border that is dragged was dragged to a cell.
pub open spec fn is_dragged<P, B>(
    before: App<P, B>,
    layout: UiLayout,
    column: int,
    row: int,
    after: App<P, B>,
) -> bool {
    match before.drag_target {
        None => after == before,
        Some(target) => {
            let sizes = dragged_sizes(before.sizes(), layout, target, column, row);
            &&& after.status@ == dragged_words(sizes, layout.wide, target)
            &&& after == (App { status: after.status, ..with_sizes(before, sizes) })
        },
    }
}

/// The border that is dragged was dragged to a cell, and images wait where that changed a
/// size.
pub open spec fn is_resized<P, B>(
    before: App<P, B>,
    layout: UiLayout,
    column: int,
    row: int,
    ticks: u64,
    after: App<P, B>,
) -> bool {
    if before.drag_target matches Some(target) && drag_changes(
        before.sizes(),
        layout,
        target,
        column,
        row,
    ) {
        exists|dragged: App<P, B>| #[trigger]
            is_dragged(before, layout, column, row, dragged) && after == (App {
                last_pane_resize_at: Some(ticks),
                pending_image_resize_redraw: true,
                ..dragged
            })
    } else {
        is_dragged(before, layout, column, row, after)
    }
}

/// The width of the photo in the details: none without images, a photo or enough room.
pub open spec fn image_width(images: bool, has_photo: bool, inner: Rect) -> int {
    if !images || !has_photo || inner.height < 3 || inner.width < DETAILS_IMAGE_MIN_WIDTH
        + DETAILS_IMAGE_GAP + DETAILS_TEXT_MIN_WIDTH {
        0
    } else {
        let room = inner.width - DETAILS_IMAGE_GAP - DETAILS_TEXT_MIN_WIDTH;
        if room < DETAILS_IMAGE_TARGET_WIDTH {
            room
        } else {
            DETAILS_IMAGE_TARGET_WIDTH as int
        }
    }
}

/// Where the photo and the text lie in the details.
pub open spec fn details_areas(images: bool, has_photo: bool, inner: Rect) -> (Option<Rect>, Rect) {
    let width = image_width(images, has_photo, inner);
    if width == 0 {
        (None, inner)
    } else {
        (
            Some(Rect { width: width as u16, ..inner }),
            Rect {
                x: held(inner.x + width + DETAILS_IMAGE_GAP) as u16,
                width: (inner.width - width - DETAILS_IMAGE_GAP) as u16,
                ..inner
            },
        )
    }
}

/// The auction at a cell of their list: each takes two rows.
pub open spec fn event_hit<P, B>(app: App<P, B>, area: Rect, column: int, row: int) -> Option<int> {
    let inner = inside(Frame::Full, area);
    let index = app.event_offset + less(row, inner.y as int) / 2;
    if covers(inner, column, row) && index < app.shown().len() {
        Some(index)
    } else {
        None
    }
}

/// The lot at a cell of their list: each takes one row.
pub open spec fn lot_hit<P, B>(app: App<P, B>, area: Rect, column: int, row: int) -> Option<int> {
    let inner = inside(Frame::Open, area);
    let index = app.lot_offset + less(row, inner.y as int);
    if covers(inner, column, row) && index < lot_count(app.shown(), app.event_index as nat) {
        Some(index)
    } else {
        None
    }
}

/// A cell of the details shows the photo.
pub open spec fn photo_hit<P, B>(
    app: App<P, B>,
    images: bool,
    area: Rect,
    column: int,
    row: int,
) -> bool {
    details_areas(images, app.primary_photo() is Some, inside(Frame::Full, area)).0 matches Some(
        photo,
    ) && covers(photo, column, row)
}

/// The focus was given to the details, where a lot is selected.
pub open spec fn with_details_focus<P, B>(app: App<P, B>) -> App<P, B> {
    if app.selected() is Some {
        App { focus: FocusPane::Details, ..app }
    } else {
        app
    }
}

/// A click that drags no border: on the details it gives them the focus, and opens the lot
/// where it hits the photo; on an auction it selects it; on a lot it selects and opens it.
pub open spec fn is_clicked<P, B>(
    before: App<P, B>,
    layout: UiLayout,
    images: bool,
    column: int,
    row: int,
    now: (int, int),
    after: App<P, B>,
    action: MouseAction,
) -> bool {
    if covers(layout.details, column, row) {
        &&& after == with_details_focus(before)
        &&& action == if photo_hit(before, images, layout.details, column, row) {
            MouseAction::OpenLot
        } else {
            MouseAction::Nothing
        }
    } else if let Some(index) = event_hit(before, layout.events, column, row) {
        event_selected(before, index as usize, now, after) && action == MouseAction::Nothing
    } else if let Some(index) = lot_hit(before, layout.lots_body, column, row) {
        lot_selected(before, index as usize, now, after) && action == MouseAction::OpenLot
    } else {
        after == before && action == MouseAction::Nothing
    }
}

/// The mouse was moved without a button: the border below it is marked, the details below it
/// get the focus, and a lot below it is asked for.
pub open spec fn is_hovered<P, B>(
    before: App<P, B>,
    layout: UiLayout,
    column: int,
    row: int,
    now: (int, int),
    after: App<P, B>,
) -> bool {
    let target = border_at(layout, column, row);
    let marked = App {
        resize_hover_target: target,
        status: after.status,
        ..before
    };
    let focused = if covers(layout.details, column, row) {
        with_details_focus(marked)
    } else {
        marked
    };
    &&& if target is Some && target != before.resize_hover_target {
        after.status@ == border_words(target->0)
    } else {
        after.status == before.status
    }
    &&& match lot_hit(before, layout.lots_body, column, row) {
        Some(index) => after.work() == prefetched(focused, now, index as nat) && same_face(
            focused,
            after,
        ),
        None => after == focused,
    }
}

/// The details were scrolled by the mouse, where it is over them.
pub open spec fn is_scrolled<P, B>(
    before: App<P, B>,
    layout: UiLayout,
    column: int,
    row: int,
    amount: int,
    after: App<P, B>,
) -> bool {
    if covers(layout.details, column, row) {
        after == (App {
            details_scroll: between(
                before.details_scroll + amount,
                0,
                usize::MAX as int,
            ) as usize,
            ..with_details_focus(before)
        })
    } else {
        after == before
    }
}

/// What the mouse did has had its effect.
pub open spec fn is_handled<P, B>(
    before: App<P, B>,
    layout: UiLayout,
    mouse: Mouse,
    images: bool,
    now: (int, int),
    ticks: u64,
    after: App<P, B>,
    action: MouseAction,
) -> bool {
    let column = mouse.column as int;
    let row = mouse.row as int;
    let target = border_at(layout, column, row);
    match mouse.kind {
        MouseKind::LeftDown => {
            let grabbed = App { drag_target: target, resize_hover_target: target, ..before };
            if target is Some {
                is_resized(grabbed, layout, column, row, ticks, after) && action
                    == MouseAction::Nothing
            } else {
                is_clicked(grabbed, layout, images, column, row, now, after, action)
            }
        },
        MouseKind::LeftDrag => is_resized(before, layout, column, row, ticks, after) && action
            == MouseAction::Nothing,
        MouseKind::LeftUp => {
            let released = App { drag_target: None, resize_hover_target: target, ..before };
            &&& action == MouseAction::Nothing
            &&& after == if before.drag_target is Some {
                App {
                    last_pane_resize_at: Some(ticks),
                    pending_image_resize_redraw: true,
                    ..released
                }
            } else {
                released
            }
        },
        MouseKind::Moved => is_hovered(before, layout, column, row, now, after) && action
            == MouseAction::Nothing,
        MouseKind::ScrollDown => is_scrolled(before, layout, column, row, 3, after) && action
            == MouseAction::Nothing,
        MouseKind::ScrollUp => is_scrolled(before, layout, column, row, -3, after) && action
            == MouseAction::Nothing,
        MouseKind::Other => after == before && action == MouseAction::Nothing,
    }
}

impl<P, B> App<P, B> {
    /// The sizes that the panes should have.
    pub open spec fn sizes(&self) -> PaneSizes {
        PaneSizes {
            event_pane_width: self.event_pane_width,
            lots_pane_percent: self.lots_pane_percent,
            stacked_events_percent: self.stacked_events_percent,
            stacked_lots_percent: self.stacked_lots_percent,
        }
    }

    /// The sizes that the panes should have.
    pub fn pane_sizes(&self) -> (r: PaneSizes)
        ensures
            r == self.sizes(),
    {
        PaneSizes {
            event_pane_width: self.event_pane_width,
            lots_pane_percent: self.lots_pane_percent,
            stacked_events_percent: self.stacked_events_percent,
            stacked_lots_percent: self.stacked_lots_percent,
        }
    }

    /// Drags the border that is dragged to a cell. Says whether that changes a size.
    pub fn resize_drag_target(&mut self, layout: &UiLayout, column: u16, row: u16) -> (r: bool)
        ensures
            is_dragged(*old(self), *layout, column as int, row as int, *final(self)),
            r == (old(self).drag_target matches Some(target) && drag_changes(
                old(self).sizes(),
                *layout,
                target,
                column as int,
                row as int,
            )),
    {
        let target = match self.drag_target {
            Some(target) => target,
            None => {
                return false;
            },
        };
        match (layout.wide, target) {
            (true, DragTarget::EventsWidth) => {
                let room: u16 = layout.body.width.saturating_sub(50);
                let max_width: u16 = if room > 24 {
                    room
                } else {
                    24
                };
                let new_width = clamp_between(column.saturating_sub(layout.body.x), 24, max_width);
                let changed = self.event_pane_width != new_width;
                self.event_pane_width = new_width;
                self.status = number_words("Auction pane width: ", new_width, "");
                proof {
                    reveal_strlit("");
                    assert(self.status@ =~= "Auction pane width: "@ + decimal(new_width as nat));
                }
                changed
            },
            (true, DragTarget::LotsDetailsSplit) => {
                let percent = percent_from_position(row, layout.right.y, layout.right.height);
                let new_percent = clamp_between(percent, 20, 80);
                let changed = self.lots_pane_percent != new_percent;
                self.lots_pane_percent = new_percent;
                self.status = number_words("Lots/details split: ", new_percent, "%");
                changed
            },
            (false, DragTarget::EventsWidth) => {
                let percent = percent_from_position(row, layout.body.y, layout.body.height);
                let new_percent = clamp_between(percent, 10, 55);
                let changed = self.stacked_events_percent != new_percent;
                self.stacked_events_percent = new_percent;
                let room: u16 = 80u16.saturating_sub(new_percent);
                let max_lots: u16 = if room > 10 {
                    room
                } else {
                    10
                };
                if self.stacked_lots_percent > max_lots {
                    self.stacked_lots_percent = max_lots;
                }
                self.status = number_words("Auction pane height: ", new_percent, "%");
                changed
            },
            (false, DragTarget::LotsDetailsSplit) => {
                let total = percent_from_position(row, layout.body.y, layout.body.height);
                let lots: u16 = total.saturating_sub(self.stacked_events_percent);
                let room: u16 = 80u16.saturating_sub(self.stacked_events_percent);
                let max_lots: u16 = if room > 10 {
                    room
                } else {
                    10
                };
                let new_percent = clamp_between(lots, 10, max_lots);
                let changed = self.stacked_lots_percent != new_percent;
                self.stacked_lots_percent = new_percent;
                self.status = number_words("Lots pane height: ", new_percent, "%");
                changed
            },
        }
    }

    /// Drags the border that is dragged to a cell, and lets images wait where that changes a
    /// size.
    fn drag_to(&mut self, layout: &UiLayout, column: u16, row: u16, ticks: u64)
        ensures
            is_resized(*old(self), *layout, column as int, row as int, ticks, *final(self)),
    {
        let changed = self.resize_drag_target(layout, column, row);
        let ghost dragged = *self;
        if changed {
            self.mark_pane_resize_changed(ticks);
            assert(is_dragged(*old(self), *layout, column as int, row as int, dragged));
        }
    }

    /// The width of the photo in the details.
    pub fn details_image_width(&self, images: bool, inner: Rect) -> (r: u16)
        ensures
            r == image_width(images, self.primary_photo() is Some, inner),
    {
        if !images {
            return 0;
        }
        if inner.height < 3 || inner.width < DETAILS_IMAGE_MIN_WIDTH + DETAILS_IMAGE_GAP
            + DETAILS_TEXT_MIN_WIDTH {
            return 0;
        }
        if self.primary_photo_url().is_none() {
            return 0;
        }
        let room: u16 = inner.width - DETAILS_IMAGE_GAP - DETAILS_TEXT_MIN_WIDTH;
        let max_width: u16 = if room < DETAILS_IMAGE_MAX_WIDTH {
            room
        } else {
            DETAILS_IMAGE_MAX_WIDTH
        };
        clamp_between(DETAILS_IMAGE_TARGET_WIDTH, DETAILS_IMAGE_MIN_WIDTH, max_width)
    }

    /// Where the photo and the text lie in the details.
    pub fn details_body_areas(&self, images: bool, inner: Rect) -> (r: (Option<Rect>, Rect))
        ensures
            r == details_areas(images, self.primary_photo() is Some, inner),
    {
        let image_width = self.details_image_width(images, inner);
        if image_width == 0 {
            return (None, inner);
        }
        let text_x: u16 = inner.x.saturating_add(image_width).saturating_add(DETAILS_IMAGE_GAP);
        let text_width: u16 = inner.width - image_width - DETAILS_IMAGE_GAP;
        (
            Some(Rect { x: inner.x, y: inner.y, width: image_width, height: inner.height }),
            Rect { x: text_x, y: inner.y, width: text_width, height: inner.height },
        )
    }

    /// The auction at a cell of their list.
    pub fn hit_test_event_index(&self, area: Rect, column: u16, row: u16) -> (r: Option<usize>)
        ensures
            match event_hit(*self, area, column as int, row as int) {
                Some(index) => r == Some(index as usize) && index <= usize::MAX,
                None => r is None,
            },
    {
        let inner = inner_area(Frame::Full, area);
        if !contains_point(inner, column, row) {
            return None;
        }
        let relative_row: usize = row.saturating_sub(inner.y) as usize;
        if self.event_offset < self.events.len() && relative_row / 2 < self.events.len()
            - self.event_offset {
            Some(self.event_offset + relative_row / 2)
        } else {
            None
        }
    }

    /// Whether a cell of the details shows the photo.
    pub fn hit_test_primary_photo(&self, images: bool, details_area: Rect, column: u16, row: u16)
        -> (r: bool)
        ensures
            r == photo_hit(*self, images, details_area, column as int, row as int),
    {
        let inner = inner_area(Frame::Full, details_area);
        match self.details_body_areas(images, inner).0 {
            Some(area) => contains_point(area, column, row),
            None => false,
        }
    }

    /// The lot at a cell of their list.
    pub fn hit_test_lot_index(&self, area: Rect, column: u16, row: u16) -> (r: Option<usize>)
        ensures
            match lot_hit(*self, area, column as int, row as int) {
                Some(index) => r == Some(index as usize) && index <= usize::MAX,
                None => r is None,
            },
    {
        let inner = inner_area(Frame::Open, area);
        if !contains_point(inner, column, row) {
            return None;
        }
        let relative_row: usize = row.saturating_sub(inner.y) as usize;
        let lot_count = match self.current_event() {
            Some(event) => event.lots.len(),
            None => 0,
        };
        if self.lot_offset < lot_count && relative_row < lot_count - self.lot_offset {
            Some(self.lot_offset + relative_row)
        } else {
            None
        }
    }

    /// Scrolls the details by some lines, up where there are less than none.
    pub fn scroll_details_by(&mut self, amount: i16)
        ensures
            *final(self) == (App {
                details_scroll: between(
                    old(self).details_scroll + amount,
                    0,
                    usize::MAX as int,
                ) as usize,
                ..*old(self)
            }),
    {
        if amount > 0 {
            self.scroll_details_down(amount as usize);
        } else if amount < 0 {
            let lines: i32 = -(amount as i32);
            self.scroll_details_up(lines as usize);
        }
    }

    /// Scrolls the details by the mouse, where it is over them.
    pub fn handle_mouse_scroll(&mut self, layout: &UiLayout, column: u16, row: u16, amount: i16)
        ensures
            is_scrolled(
                *old(self),
                *layout,
                column as int,
                row as int,
                amount as int,
                *final(self),
            ),
    {
        if contains_point(layout.details, column, row) {
            self.focus_details();
            self.scroll_details_by(amount);
        }
    }

    /// Takes a click on the details. Says what is left to do.
    pub fn handle_details_click(
        &mut self,
        images: bool,
        details_area: Rect,
        column: u16,
        row: u16,
    ) -> (r: MouseAction)
        ensures
            *final(self) == with_details_focus(*old(self)),
            r == if photo_hit(*old(self), images, details_area, column as int, row as int) {
                MouseAction::OpenLot
            } else {
                MouseAction::Nothing
            },
    {
        self.focus_details();
        if self.hit_test_primary_photo(images, details_area, column, row) {
            MouseAction::OpenLot
        } else {
            MouseAction::Nothing
        }
    }

    /// Takes in what the mouse did, with the parts of the screen where they lie. Says what is
    /// left to do.
    pub fn handle_mouse_in(
        &mut self,
        layout: &UiLayout,
        mouse: Mouse,
        images: bool,
        now: &Moment,
        ticks: u64,
    ) -> (r: MouseAction)
        ensures
            is_handled(*old(self), *layout, mouse, images, now@, ticks, *final(self), r),
            old(self).selection_is_valid() ==> final(self).selection_is_valid(),
    {
        match mouse.kind {
            MouseKind::LeftDown => {
                self.drag_target = drag_target_at(layout, mouse.column, mouse.row);
                self.resize_hover_target = self.drag_target;
                if self.drag_target.is_some() {
                    self.drag_to(layout, mouse.column, mouse.row, ticks);
                    return MouseAction::Nothing;
                }
            },
            MouseKind::LeftDrag => {
                self.drag_to(layout, mouse.column, mouse.row, ticks);
                return MouseAction::Nothing;
            },
            MouseKind::LeftUp => {
                let was_dragging = self.drag_target.is_some();
                self.drag_target = None;
                self.resize_hover_target = drag_target_at(layout, mouse.column, mouse.row);
                if was_dragging {
                    self.mark_pane_resize_changed(ticks);
                }
                return MouseAction::Nothing;
            },
            MouseKind::Moved => {
                let hover_target = drag_target_at(layout, mouse.column, mouse.row);
                if self.resize_hover_target != hover_target {
                    self.resize_hover_target = hover_target;
                    if let Some(target) = hover_target {
                        self.status = resize_status(target);
                    }
                }
                if contains_point(layout.details, mouse.column, mouse.row) {
                    self.focus_details();
                }
                if let Some(index) = self.hit_test_lot_index(
                    layout.lots_body,
                    mouse.column,
                    mouse.row,
                ) {
                    self.prefetch_lot_index(index, now);
                }
                return MouseAction::Nothing;
            },
            MouseKind::ScrollDown => {
                self.handle_mouse_scroll(layout, mouse.column, mouse.row, 3);
                return MouseAction::Nothing;
            },
            MouseKind::ScrollUp => {
                self.handle_mouse_scroll(layout, mouse.column, mouse.row, -3);
                return MouseAction::Nothing;
            },
            MouseKind::Other => {
                return MouseAction::Nothing;
            },
        }
        if contains_point(layout.details, mouse.column, mouse.row) {
            return self.handle_details_click(images, layout.details, mouse.column, mouse.row);
        }
        if let Some(index) = self.hit_test_event_index(layout.events, mouse.column, mouse.row) {
            self.select_event(index, now);
            return MouseAction::Nothing;
        }
        if let Some(index) = self.hit_test_lot_index(layout.lots_body, mouse.column, mouse.row) {
            self.select_lot(index, now);
            return MouseAction::OpenLot;
        }
        MouseAction::Nothing
    }

    /// Takes in what the mouse did on a screen. Says what is left to do.
    pub fn handle_mouse(
        &mut self,
        area: Rect,
        mouse: Mouse,
        images: bool,
        now: &Moment,
        ticks: u64,
    ) -> (r: MouseAction)
        requires
            is_on_screen(area),
        ensures
            exists|layout: UiLayout| #[trigger]
                is_layout(area, old(self).sizes(), layout) && is_handled(
                    *old(self),
                    layout,
                    mouse,
                    images,
                    now@,
                    ticks,
                    *final(self),
                    r,
                ),
            old(self).selection_is_valid() ==> final(self).selection_is_valid(),
    {
        let sizes = self.pane_sizes();
        let layout = compute_layout(area, &sizes);
        self.handle_mouse_in(&layout, mouse, images, now, ticks)
    }
}

/// What is inside the lines around a part of the screen lies in it.
proof fn lemma_inside_is_covered(frame: Frame, area: Rect, column: int, row: int)
    requires
        covers(inside(frame, area), column, row),
    ensures
        covers(area, column, row),
{
}

/// A left click on a row of the lots, as they are drawn, selects the lot of that row and opens
/// it, unless the click takes hold of a border.
pub proof fn law_click_opens_the_lot_of_its_row<P, B>(
    area: Rect,
    layout: UiLayout,
    before: App<P, B>,
    mouse: Mouse,
    images: bool,
    now: (int, int),
    ticks: u64,
    after: App<P, B>,
    action: MouseAction,
)
    requires
        is_on_screen(area),
        is_layout(area, before.sizes(), layout),
        is_handled(before, layout, mouse, images, now, ticks, after, action),
        mouse.kind == MouseKind::LeftDown,
        covers(inside(Frame::Open, layout.lots_body), mouse.column as int, mouse.row as int),
        border_at(layout, mouse.column as int, mouse.row as int) is None,
    ensures
        event_at(before.shown(), before.event_index as nat) matches Some(auction) ==> {
            let inner = inside(Frame::Open, layout.lots_body);
            let rows = lot_rows(
                auction.lots,
                before.lot_offset as int,
                list_rows(layout.lots_body),
            );
            let line = mouse.row - inner.y;
            before.lot_offset <= auction.lots.len() && line < rows.len() ==> {
                &&& action == MouseAction::OpenLot
                &&& after.lot_index == before.lot_offset + line
                &&& after.event_index == before.event_index
                &&& after.shown() == before.shown()
                &&& after.selected() == Some(auction.lots[after.lot_index as int])
                &&& rows[line] == lot_row(auction.lots[after.lot_index as int])
            }
        },
{
    let column = mouse.column as int;
    let row = mouse.row as int;
    law_panes_are_apart(area, before.sizes(), layout);
    lemma_inside_is_covered(Frame::Open, layout.lots_body, column, row);
    assert(covers(layout.lots_body, column, row));
    assert(!covers(layout.details, column, row));
    if covers(inside(Frame::Full, layout.events), column, row) {
        lemma_inside_is_covered(Frame::Full, layout.events, column, row);
        assert(covers(layout.events, column, row));
    }
    if before.event_index < before.shown().len() {
        let lots = before.events@[before.event_index as int].lots;
        assert(lots.len() == before.shown()[before.event_index as int].lots.len());
    }
}

/// A left click on a row of the auctions, as they are drawn from the first visible one on with
/// two rows for each, selects the auction of that row and its first lot, and opens nothing,
/// unless the click takes hold of a border.
pub proof fn law_click_selects_the_auction_of_its_row<P, B>(
    area: Rect,
    layout: UiLayout,
    before: App<P, B>,
    mouse: Mouse,
    images: bool,
    now: (int, int),
    ticks: u64,
    after: App<P, B>,
    action: MouseAction,
)
    requires
        is_on_screen(area),
        is_layout(area, before.sizes(), layout),
        is_handled(before, layout, mouse, images, now, ticks, after, action),
        mouse.kind == MouseKind::LeftDown,
        covers(inside(Frame::Full, layout.events), mouse.column as int, mouse.row as int),
        border_at(layout, mouse.column as int, mouse.row as int) is None,
    ensures
        ({
            let line = mouse.row - inside(Frame::Full, layout.events).y;
            before.event_offset + line / 2 < before.shown().len() ==> {
                &&& after.event_index == before.event_offset + line / 2
                &&& after.lot_index == 0
                &&& after.focus == FocusPane::Events
                &&& after.shown() == before.shown()
                &&& after.event_offset == before.event_offset
                &&& action == MouseAction::Nothing
            }
        }),
{
    let column = mouse.column as int;
    let row = mouse.row as int;
    law_panes_are_apart(area, before.sizes(), layout);
    lemma_inside_is_covered(Frame::Full, layout.events, column, row);
    assert(covers(layout.events, column, row));
    assert(!covers(layout.details, column, row));
    assert(before.events.len() == before.shown().len());
}

/// A left click on the details gives them the focus where a lot is selected, and opens the lot
/// if and only if it hits the photo, which fills the left of the inside of the details; it
/// selects nothing.
pub proof fn law_click_on_the_photo_opens_the_lot<P, B>(
    before: App<P, B>,
    layout: UiLayout,
    mouse: Mouse,
    images: bool,
    now: (int, int),
    ticks: u64,
    after: App<P, B>,
    action: MouseAction,
)
    requires
        is_handled(before, layout, mouse, images, now, ticks, after, action),
        mouse.kind == MouseKind::LeftDown,
        covers(layout.details, mouse.column as int, mouse.row as int),
        border_at(layout, mouse.column as int, mouse.row as int) is None,
    ensures
        before.selected() is Some ==> after.focus == FocusPane::Details,
        after.event_index == before.event_index && after.lot_index == before.lot_index,
        ({
            let inner = inside(Frame::Full, layout.details);
            let room = inner.width - 25;
            action == MouseAction::OpenLot <==> {
                &&& images
                &&& before.primary_photo() is Some
                &&& inner.height >= 3
                &&& room >= 12
                &&& covers(inner, mouse.column as int, mouse.row as int)
                &&& mouse.column - inner.x < room
                &&& mouse.column - inner.x < 42
            }
        }),
{
}

/// The photo and the text beside it do not overlap, lie within the inside of the details, and
/// leave one column between them; without a photo the text has all of it.
pub proof fn law_photo_stands_beside_the_text(images: bool, has_photo: bool, inner: Rect)
    requires
        is_on_screen(inner),
    ensures
        ({
            let (photo, text) = details_areas(images, has_photo, inner);
            &&& text.y == inner.y && text.height == inner.height
            &&& text.x + text.width == inner.x + inner.width
            &&& (photo matches Some(photo) ==> {
                &&& images && has_photo
                &&& photo.x == inner.x && photo.y == inner.y && photo.height == inner.height
                &&& 12 <= photo.width <= 42
                &&& photo.x + photo.width + 1 == text.x
                &&& text.width >= 24
            })
            &&& (photo is None ==> text == inner)
            &&& (images && has_photo && inner.height >= 3 && inner.width >= 37 ==> photo is Some)
        }),
{
}

/// On a wide screen, the border of the auctions goes where it is dragged to, within the least
/// widths of the two columns; nothing else is resized.
pub proof fn law_dragged_column_ends_at_the_mouse<P, B>(
    area: Rect,
    layout: UiLayout,
    before: App<P, B>,
    column: u16,
    row: u16,
    after: App<P, B>,
    next: UiLayout,
)
    requires
        is_on_screen(area),
        is_layout(area, before.sizes(), layout),
        layout.wide,
        before.drag_target == Some(DragTarget::EventsWidth),
        is_dragged(before, layout, column as int, row as int, after),
        is_layout(area, after.sizes(), next),
    ensures
        area.x + 24 <= column <= area.x + area.width - 50 ==> next.events.x + next.events.width
            == column && next.right.x == column,
        column < area.x + 24 ==> next.events.width == 24,
        column > area.x + area.width - 50 ==> next.right.width == 50,
        after.lots_pane_percent == before.lots_pane_percent,
        after.stacked_events_percent == before.stacked_events_percent,
        after.stacked_lots_percent == before.stacked_lots_percent,
        after.shown() == before.shown() && after.event_index == before.event_index
            && after.lot_index == before.lot_index,
{
    law_panes_have_their_sizes(area, before.sizes(), layout);
    law_panes_have_their_sizes(area, after.sizes(), next);
    law_columns_stand_side_by_side(area, before.sizes(), layout);
    law_columns_stand_side_by_side(area, after.sizes(), next);
}

/// The border between lots and details, and on a narrow screen that below the auctions, goes to
/// the percent at which the mouse stands, within its bounds.
pub proof fn law_dragged_row_follows_the_mouse<P, B>(
    layout: UiLayout,
    before: App<P, B>,
    target: DragTarget,
    column: u16,
    row: u16,
    after: App<P, B>,
)
    requires
        before.drag_target == Some(target),
        is_dragged(before, layout, column as int, row as int, after),
        is_on_screen(layout.body),
        is_on_screen(layout.right),
        layout.body.y <= row < layout.body.y + layout.body.height,
        layout.right.y <= row < layout.right.y + layout.right.height,
    ensures
        layout.wide && target == DragTarget::LotsDetailsSplit ==> {
            let along = 100 * (row - layout.right.y);
            let whole = layout.right.height as int;
            &&& 20 <= after.lots_pane_percent <= 80
            &&& 20 < after.lots_pane_percent ==> after.lots_pane_percent * whole <= along
            &&& after.lots_pane_percent < 80 ==> along < (after.lots_pane_percent + 1) * whole
            &&& after.event_pane_width == before.event_pane_width
        },
        !layout.wide && target == DragTarget::EventsWidth ==> {
            let along = 100 * (row - layout.body.y);
            let whole = layout.body.height as int;
            &&& 10 <= after.stacked_events_percent <= 55
            &&& 10 < after.stacked_events_percent ==> after.stacked_events_percent * whole <= along
            &&& after.stacked_events_percent < 55 ==> along < (after.stacked_events_percent + 1)
                * whole
            &&& after.stacked_lots_percent <= before.stacked_lots_percent
        },
        !layout.wide && target == DragTarget::LotsDetailsSplit && before.stacked_events_percent
            <= 70 ==> {
            let along = 100 * (row - layout.body.y);
            let whole = layout.body.height as int;
            let total = after.stacked_lots_percent + before.stacked_events_percent;
            &&& 10 <= after.stacked_lots_percent
            &&& total <= 80
            &&& 10 < after.stacked_lots_percent ==> total * whole <= along
            &&& total < 80 ==> along < (total + 1) * whole
            &&& after.stacked_events_percent == before.stacked_events_percent
        },
{
    let d = row - layout.body.y;
    let h = layout.body.height as int;
    let e = row - layout.right.y;
    let k = layout.right.height as int;
    lemma_percent_along(d, h);
    lemma_percent_along(e, k);
    let p = 100 * e / k;
    let a = after.lots_pane_percent as int;
    assert((a <= p ==> a * k <= p * k) && (p <= a ==> (p + 1) * k <= (a + 1) * k)) by (
    nonlinear_arith)
        requires
            k > 0,
    ;
    let q = 100 * d / h;
    let b = after.stacked_events_percent as int;
    let c = after.stacked_lots_percent + before.stacked_events_percent;
    assert((b <= q ==> b * h <= q * h) && (q <= b ==> (q + 1) * h <= (b + 1) * h)) by (
    nonlinear_arith)
        requires
            h > 0,
    ;
    assert((c <= q ==> c * h <= q * h) && (q <= c ==> (q + 1) * h <= (c + 1) * h)) by (
    nonlinear_arith)
        requires
            h > 0,
    ;
}

/// A part of a whole in percent, rounded down.
proof fn lemma_percent_along(d: int, h: int)
    requires
        0 <= d < h,
    ensures
        0 <= 100 * d / h < 100,
        d * 100 / h == 100 * d / h,
        (100 * d / h) * h <= 100 * d < (100 * d / h + 1) * h,
{
    assert(0 <= 100 * d / h < 100 && (100 * d / h) * h <= 100 * d < (100 * d / h + 1) * h)
        by (nonlinear_arith)
        requires
            0 <= d < h,
    ;
}

/// The wheel over the details scrolls them by three lines, down or up to the first, and gives
/// them the focus where a lot is selected; elsewhere it does nothing. It never selects anything.
pub proof fn law_wheel_scrolls_the_details<P, B>(
    before: App<P, B>,
    layout: UiLayout,
    mouse: Mouse,
    images: bool,
    now: (int, int),
    ticks: u64,
    after: App<P, B>,
    action: MouseAction,
)
    requires
        is_handled(before, layout, mouse, images, now, ticks, after, action),
        mouse.kind == MouseKind::ScrollDown || mouse.kind == MouseKind::ScrollUp,
    ensures
        action == MouseAction::Nothing,
        !covers(layout.details, mouse.column as int, mouse.row as int) ==> after == before,
        after.event_index == before.event_index && after.lot_index == before.lot_index,
        covers(layout.details, mouse.column as int, mouse.row as int) ==> {
            &&& mouse.kind == MouseKind::ScrollDown && before.details_scroll + 3 <= usize::MAX
                ==> after.details_scroll == before.details_scroll + 3
            &&& mouse.kind == MouseKind::ScrollUp && before.details_scroll >= 3
                ==> after.details_scroll == before.details_scroll - 3
            &&& mouse.kind == MouseKind::ScrollUp && before.details_scroll < 3
                ==> after.details_scroll == 0
            &&& before.selected() is Some ==> after.focus == FocusPane::Details
        },
{
}

/// Moving the mouse selects nothing and opens nothing. Over a row of the lots, as they are
/// drawn, it asks for that lot before all others; over the details it gives them the focus.
pub proof fn law_hovering_asks_for_the_lot_of_its_row<P, B>(
    before: App<P, B>,
    layout: UiLayout,
    mouse: Mouse,
    images: bool,
    now: (int, int),
    ticks: u64,
    after: App<P, B>,
    action: MouseAction,
)
    requires
        is_handled(before, layout, mouse, images, now, ticks, after, action),
        mouse.kind == MouseKind::Moved,
    ensures
        action == MouseAction::Nothing,
        after.event_index == before.event_index && after.lot_index == before.lot_index
            && after.details_scroll == before.details_scroll && after.drag_target
            == before.drag_target,
        covers(layout.details, mouse.column as int, mouse.row as int) && before.selected() is Some
            ==> after.focus == FocusPane::Details,
        !covers(layout.details, mouse.column as int, mouse.row as int) ==> after.focus
            == before.focus,
        ({
            let inner = inside(Frame::Open, layout.lots_body);
            let index = before.lot_offset + mouse.row - inner.y;
            covers(inner, mouse.column as int, mouse.row as int) && (event_at(
                before.shown(),
                before.event_index as nat,
            ) matches Some(auction) && index < auction.lots.len()) ==> after.details@
                == asked_details(
                before.details@,
                before.lots(),
                now,
                (event_at(before.shown(), before.event_index as nat)->0).lots[index].url,
                true,
            )
        }),
{
}

/// A border is taken hold of on its line or next to it, and lets go when the button does; a
/// click further away takes hold of none.
pub proof fn law_borders_are_held_while_dragged<P, B>(
    before: App<P, B>,
    layout: UiLayout,
    mouse: Mouse,
    images: bool,
    now: (int, int),
    ticks: u64,
    after: App<P, B>,
    action: MouseAction,
)
    requires
        is_on_screen(layout.body),
        is_on_screen(layout.right),
        is_on_screen(layout.events),
        is_handled(before, layout, mouse, images, now, ticks, after, action),
    ensures
        mouse.kind == MouseKind::LeftUp ==> after.drag_target is None && after.sizes()
            == before.sizes() && after.event_index == before.event_index && after.lot_index
            == before.lot_index,
        mouse.kind == MouseKind::LeftDown && layout.wide && covers(
            layout.body,
            layout.body.x as int,
            mouse.row as int,
        ) && -1 <= mouse.column - (layout.events.x + layout.events.width) <= 1
            ==> after.drag_target == Some(DragTarget::EventsWidth) && action
            == MouseAction::Nothing && after.event_index == before.event_index && after.lot_index
            == before.lot_index,
        mouse.kind == MouseKind::LeftDown && layout.wide && layout.right.x <= mouse.column
            < layout.right.x + layout.right.width && mouse.column - (layout.events.x
            + layout.events.width) > 1 && -1 <= mouse.row - layout.details.y <= 1
            ==> after.drag_target == Some(DragTarget::LotsDetailsSplit) && action
            == MouseAction::Nothing,
        mouse.kind == MouseKind::LeftDown && !layout.wide && layout.body.x <= mouse.column
            < layout.body.x + layout.body.width && -1 <= mouse.row - (layout.events.y
            + layout.events.height) <= 1 ==> after.drag_target == Some(DragTarget::EventsWidth),
        mouse.kind == MouseKind::LeftDown && !layout.wide && layout.body.x <= mouse.column
            < layout.body.x + layout.body.width && !(-1 <= mouse.row - (layout.events.y
            + layout.events.height) <= 1) && -1 <= mouse.row - layout.details.y <= 1
            ==> after.drag_target == Some(DragTarget::LotsDetailsSplit),
{
    if mouse.kind == MouseKind::LeftDown {
        let target = border_at(layout, mouse.column as int, mouse.row as int);
        if target is Some {
            let grabbed = App { drag_target: target, resize_hover_target: target, ..before };
            assert(is_resized(
                grabbed,
                layout,
                mouse.column as int,
                mouse.row as int,
                ticks,
                after,
            ));
        }
    }
}

/// While a border is dragged, the words say the size that it has now.
pub proof fn law_dragging_says_the_size<P, B>(
    layout: UiLayout,
    before: App<P, B>,
    column: int,
    row: int,
    after: App<P, B>,
)
    requires
        before.drag_target is Some,
        is_dragged(before, layout, column, row, after),
    ensures
        layout.wide && before.drag_target == Some(DragTarget::EventsWidth) ==> after.status@
            == "Auction pane width: "@ + decimal(after.event_pane_width as nat),
        layout.wide && before.drag_target == Some(DragTarget::LotsDetailsSplit) ==> after.status@
            == "Lots/details split: "@ + decimal(after.lots_pane_percent as nat) + "%"@,
        !layout.wide && before.drag_target == Some(DragTarget::EventsWidth) ==> after.status@
            == "Auction pane height: "@ + decimal(after.stacked_events_percent as nat) + "%"@,
        !layout.wide && before.drag_target == Some(DragTarget::LotsDetailsSplit) ==> after.status@
            == "Lots pane height: "@ + decimal(after.stacked_lots_percent as nat) + "%"@,
{
}

/// Dragging lets images wait if and only if it changes a size.
pub proof fn law_resizing_lets_images_wait<P, B>(
    layout: UiLayout,
    before: App<P, B>,
    column: int,
    row: int,
    ticks: u64,
    after: App<P, B>,
)
    requires
        is_resized(before, layout, column, row, ticks, after),
        before.last_pane_resize_at != Some(ticks),
    ensures
        before.drag_target is None ==> after == before,
        layout.wide ==> (after.last_pane_resize_at == Some(ticks) <==> after.event_pane_width
            != before.event_pane_width || after.lots_pane_percent != before.lots_pane_percent),
        after.last_pane_resize_at == Some(ticks) ==> after.pending_image_resize_redraw,
        after.last_pane_resize_at != Some(ticks) ==> after.last_pane_resize_at
            == before.last_pane_resize_at && after.pending_image_resize_redraw
            == before.pending_image_resize_redraw,
{
    if before.drag_target matches Some(target) && drag_changes(
        before.sizes(),
        layout,
        target,
        column,
        row,
    ) {
        let dragged = choose|dragged: App<P, B>| #[trigger]
            is_dragged(before, layout, column, row, dragged) && after == (App {
                last_pane_resize_at: Some(ticks),
                pending_image_resize_redraw: true,
                ..dragged
            });
        assert(is_dragged(before, layout, column, row, dragged));
    }
}

/// The border under the mouse is marked, and where it was not marked before, the words say what
/// dragging it does; without one nothing is marked and the words stay.
pub proof fn law_border_under_the_mouse_is_marked<P, B>(
    before: App<P, B>,
    layout: UiLayout,
    mouse: Mouse,
    images: bool,
    now: (int, int),
    ticks: u64,
    after: App<P, B>,
    action: MouseAction,
)
    requires
        is_handled(before, layout, mouse, images, now, ticks, after, action),
        mouse.kind == MouseKind::Moved,
    ensures
        ({
            let target = border_at(layout, mouse.column as int, mouse.row as int);
            &&& after.resize_hover_target == target
            &&& target is None || target == before.resize_hover_target ==> after.status
                == before.status
            &&& target == Some(DragTarget::EventsWidth) && before.resize_hover_target != target
                ==> after.status@ == "Drag highlighted boundary to resize auction pane."@
            &&& target == Some(DragTarget::LotsDetailsSplit) && before.resize_hover_target != target
                ==> after.status@ == "Drag highlighted boundary to resize lots/details panes."@
        }),
{
}

} // verus!
