//! The state of browsing: what is shown, what is selected, and what has the focus.
use vstd::prelude::*;

use crate::catalog::{auction_texts, AuctionEvent, AuctionText, Cli};
use crate::desk::{DetailState, FetchDesk, FetchState};
use crate::gallery::{Gallery, GalleryView};
use crate::listing::{lot_texts, Lot, LotDetails, LotText};
use crate::moments::Moment;
use crate::numbers::{decimal, decimal_text};
use crate::preview::PhotoPreview;
use crate::text::{concat, optional_text, same_text};

verus! {

/// A part of the screen that can have the focus.
#[derive(Debug, Clone, Copy, PartialEq, Eq, Structural)]
pub enum FocusPane {
    Events,
    Lots,
    Details,
}

impl FocusPane {
    /// The name of a part of the screen.
    pub open spec fn name(self) -> Seq<char> {
        match self {
            FocusPane::Events => "events"@,
            FocusPane::Lots => "lots"@,
            FocusPane::Details => "details"@,
        }
    }

    /// The name of this part of the screen.
    pub fn text(&self) -> (r: &'static str)
        ensures
            r@ == self.name(),
    {
        match self {
            FocusPane::Events => "events",
            FocusPane::Lots => "lots",
            FocusPane::Details => "details",
        }
    }
}

/// A border that can be dragged.
#[derive(Debug, Clone, Copy, PartialEq, Eq, Structural)]
pub enum DragTarget {
    EventsWidth,
    LotsDetailsSplit,
}

/// The state of browsing. Points in time of the running clock are nanoseconds since it was
/// started.
pub struct App<P, B> {
    pub cli: Cli,
    pub events: Vec<AuctionEvent>,
    pub focus: FocusPane,
    pub event_index: usize,
    pub lot_index: usize,
    pub event_offset: usize,
    pub lot_offset: usize,
    pub details_scroll: usize,
    pub drag_target: Option<DragTarget>,
    pub resize_hover_target: Option<DragTarget>,
    pub event_pane_width: u16,
    pub lots_pane_percent: u16,
    pub stacked_events_percent: u16,
    pub stacked_lots_percent: u16,
    pub observed_lot_url: Option<String>,
    pub details: FetchDesk<LotDetails>,
    pub photos: FetchDesk<PhotoPreview>,
    pub gallery: Gallery<P, B>,
    /// Whether the terminal can show graphics.
    pub has_graphics: bool,
    pub last_photo_area_size: Option<(u16, u16)>,
    pub last_pane_resize_at: Option<u64>,
    pub pending_image_resize_redraw: bool,
    pub current_auction_hydration_dirty: bool,
    pub last_global_hydration_at: Option<u64>,
    pub status: String,
    pub loaded_at: Moment,
}

/// The nanoseconds for which images wait after a pane was resized.
pub const PANE_RESIZE_DEBOUNCE: u64 = 180_000_000;

/// The auction at a position.
pub open spec fn event_at(events: Seq<AuctionText>, index: nat) -> Option<AuctionText> {
    if index < events.len() {
        Some(events[index as int])
    } else {
        None
    }
}

/// The lot at a position of the auction at another.
pub open spec fn lot_at(events: Seq<AuctionText>, event: nat, lot: nat) -> Option<LotText> {
    match event_at(events, event) {
        Some(auction) => if lot < auction.lots.len() {
            Some(auction.lots[lot as int])
        } else {
            None
        },
        None => None,
    }
}

/// The number of lots of the auction at a position.
pub open spec fn lot_count(events: Seq<AuctionText>, event: nat) -> nat {
    match event_at(events, event) {
        Some(auction) => auction.lots.len(),
        None => 0,
    }
}

/// All lots of some auctions, one auction after the other.
pub open spec fn all_lots(events: Seq<AuctionText>) -> Seq<LotText>
    decreases events.len(),
{
    if events.len() == 0 {
        seq![]
    } else {
        all_lots(events.drop_last()) + events.last().lots
    }
}

/// A selection is one of the entries, or the first position where there are none.
pub open spec fn is_selection(events: Seq<AuctionText>, event: nat, lot: nat) -> bool {
    &&& event < events.len() || (event == 0 && events.len() == 0)
    &&& lot < lot_count(events, event) || (lot == 0 && lot_count(events, event) == 0)
}

/// A position, or the last one where it is beyond it.
pub open spec fn clamped(index: nat, count: nat) -> nat {
    if count == 0 {
        0
    } else if index >= count {
        (count - 1) as nat
    } else {
        index
    }
}

/// The words on how much is shown.
pub open spec fn summary(prefix: Seq<char>, events: Seq<AuctionText>) -> Seq<char> {
    prefix + " "@ + decimal(events.len()) + " auctions, "@ + decimal(all_lots(events).len())
        + " lots."@
}

/// Nanoseconds between two points of the running clock.
pub open spec fn elapsed(since: u64, now: u64) -> int {
    if now > since {
        now - since
    } else {
        0
    }
}

/// All lots of some auctions, one auction after the other.
pub fn lots_of<'a>(events: &'a Vec<AuctionEvent>) -> (r: Vec<&'a Lot>)
    ensures
        r@.len() == all_lots(auction_texts(events@)).len(),
        forall|i: int|
            0 <= i < r@.len() ==> (#[trigger] r@[i])@ == all_lots(auction_texts(events@))[i],
{
    let ghost all = auction_texts(events@);
    let mut lots: Vec<&'a Lot> = Vec::new();
    let mut i: usize = 0;
    assert(all.take(0) =~= seq![]);
    while i < events.len()
        invariant
            i <= events@.len(),
            all == auction_texts(events@),
            lots@.len() == all_lots(all.take(i as int)).len(),
            forall|k: int|
                0 <= k < lots@.len() ==> (#[trigger] lots@[k])@ == all_lots(all.take(i as int))[k],
        decreases events@.len() - i,
    {
        let ghost before = all_lots(all.take(i as int));
        let ghost own = all[i as int].lots;
        proof {
            let next = all.take(i + 1);
            assert(next.drop_last() =~= all.take(i as int));
            assert(all_lots(next) == before + own);
            assert(own == lot_texts(events@[i as int].lots@));
        }
        let mut j: usize = 0;
        while j < events[i as usize].lots.len()
            invariant
                i < events@.len(),
                j <= events@[i as int].lots@.len(),
                own == lot_texts(events@[i as int].lots@),
                lots@.len() == before.len() + j,
                forall|k: int|
                    0 <= k < lots@.len() ==> (#[trigger] lots@[k])@ == (before + own)[k],
            decreases events@[i as int].lots@.len() - j,
        {
            assert((before + own)[before.len() + j] == own[j as int]);
            lots.push(&events[i].lots[j]);
            j += 1;
        }
        i += 1;
    }
    assert(all.take(i as int) =~= all);
    lots
}

impl<P, B> App<P, B> {
    /// What the auctions say.
    pub open spec fn shown(&self) -> Seq<AuctionText> {
        auction_texts(self.events@)
    }

    /// The lot that is selected.
    pub open spec fn selected(&self) -> Option<LotText> {
        lot_at(self.shown(), self.event_index as nat, self.lot_index as nat)
    }

    /// The address of the lot that is selected.
    pub open spec fn selected_url(&self) -> Option<Seq<char>> {
        match self.selected() {
            Some(lot) => Some(lot.url),
            None => None,
        }
    }

    /// The selection is one of the entries.
    pub open spec fn selection_is_valid(&self) -> bool {
        is_selection(self.shown(), self.event_index as nat, self.lot_index as nat)
    }

    /// The state of browsing at its start: nothing fetched, the first auction selected.
    pub fn new(cli: Cli, events: Vec<AuctionEvent>, loaded_at: Moment) -> (r: Self)
        ensures
            r.cli == cli,
            r.events == events,
            r.loaded_at == loaded_at,
            r.focus == FocusPane::Events,
            r.event_index == 0,
            r.lot_index == 0,
            r.event_offset == 0,
            r.lot_offset == 0,
            r.details_scroll == 0,
            r.drag_target is None,
            r.resize_hover_target is None,
            r.event_pane_width == 38,
            r.lots_pane_percent == 25,
            r.stacked_events_percent == 12,
            r.stacked_lots_percent == 13,
            r.observed_lot_url is None,
            r.details@.states == Map::<Seq<char>, FetchState<LotDetails>>::empty(),
            r.details@.queue.len() == 0,
            r.details@.active.len() == 0,
            r.details@.in_flight == 0,
            r.photos@.states == Map::<Seq<char>, FetchState<PhotoPreview>>::empty(),
            r.photos@.queue.len() == 0,
            r.photos@.active.len() == 0,
            r.photos@.in_flight == 0,
            r.gallery@ == (GalleryView::<P, B> {
                states: Map::empty(),
                lru: Seq::empty(),
                queue: Seq::empty(),
                active: Seq::empty(),
                in_flight: 0,
                buffers: Map::empty(),
                buffer_lru: Seq::empty(),
            }),
            !r.has_graphics,
            r.last_photo_area_size is None,
            r.last_pane_resize_at is None,
            !r.pending_image_resize_redraw,
            r.current_auction_hydration_dirty,
            r.last_global_hydration_at is None,
            r.status@ == summary("Loaded live auction data."@, auction_texts(events@)),
            r.selection_is_valid(),
    {
        let mut app = App {
            cli,
            events,
            focus: FocusPane::Events,
            event_index: 0,
            lot_index: 0,
            event_offset: 0,
            lot_offset: 0,
            details_scroll: 0,
            drag_target: None,
            resize_hover_target: None,
            event_pane_width: 38,
            lots_pane_percent: 25,
            stacked_events_percent: 12,
            stacked_lots_percent: 13,
            observed_lot_url: None,
            details: FetchDesk::new(),
            photos: FetchDesk::new(),
            gallery: Gallery::new(),
            has_graphics: false,
            last_photo_area_size: None,
            last_pane_resize_at: None,
            pending_image_resize_redraw: false,
            current_auction_hydration_dirty: true,
            last_global_hydration_at: None,
            status: String::new(),
            loaded_at,
        };
        app.sync_status("Loaded live auction data.");
        app.clamp_selection();
        app
    }

    /// The auction that is selected.
    pub fn current_event(&self) -> (r: Option<&AuctionEvent>)
        ensures
            match r {
                Some(event) => self.event_index < self.events@.len() && *event
                    == self.events@[self.event_index as int] && event_at(
                    self.shown(),
                    self.event_index as nat,
                ) == Some(event@),
                None => self.event_index >= self.events@.len() && event_at(
                    self.shown(),
                    self.event_index as nat,
                ) is None,
            },
    {
        if self.event_index < self.events.len() {
            Some(&self.events[self.event_index])
        } else {
            None
        }
    }

    /// The lot that is selected.
    pub fn current_lot(&self) -> (r: Option<&Lot>)
        ensures
            match r {
                Some(lot) => self.selected() == Some(lot@),
                None => self.selected() is None,
            },
    {
        match self.current_event() {
            Some(event) => if self.lot_index < event.lots.len() {
                Some(&event.lots[self.lot_index])
            } else {
                None
            },
            None => None,
        }
    }

    /// The address of the lot that is selected.
    pub fn current_lot_url(&self) -> (r: Option<String>)
        ensures
            optional_text(r) == self.selected_url(),
    {
        match self.current_lot() {
            Some(lot) => Some(lot.url.clone()),
            None => None,
        }
    }

    /// How far the details of the selected lot have come.
    pub open spec fn selected_state(&self) -> Option<DetailState> {
        match self.selected() {
            Some(lot) => if self.details@.states.contains_key(lot.url) {
                Some(self.details@.states[lot.url])
            } else {
                None
            },
            None => None,
        }
    }

    /// How far the details of the selected lot have come.
    pub fn current_detail_state(&self) -> (r: Option<&DetailState>)
        ensures
            match r {
                Some(state) => self.selected_state() == Some(*state),
                None => self.selected_state() is None,
            },
    {
        match self.current_lot() {
            Some(lot) => self.details.states.get(&lot.url),
            None => None,
        }
    }

    /// The details of the selected lot, where they have come.
    pub open spec fn selected_details(&self) -> Option<LotDetails> {
        match self.selected_state() {
            Some(FetchState::Loaded(details)) => Some(details),
            _ => None,
        }
    }

    /// The details of the selected lot, where they have come.
    pub fn current_loaded_details(&self) -> (r: Option<&LotDetails>)
        ensures
            match r {
                Some(details) => self.selected_details() == Some(*details),
                None => self.selected_details() is None,
            },
    {
        match self.current_detail_state() {
            Some(FetchState::Loaded(details)) => Some(details),
            _ => None,
        }
    }

    /// The address of the photo to show for the selected lot: its own, or the first of its
    /// details.
    pub open spec fn primary_photo(&self) -> Option<Seq<char>> {
        let own = match self.selected() {
            Some(lot) => lot.thumbnail_url,
            None => None,
        };
        match own {
            Some(url) => Some(url),
            None => match self.selected_details() {
                Some(details) => if details.photos@.len() > 0 {
                    Some(details.photos@[0]@)
                } else {
                    None
                },
                None => None,
            },
        }
    }

    /// The address of the photo to show for the selected lot.
    pub fn primary_photo_url(&self) -> (r: Option<String>)
        ensures
            optional_text(r) == self.primary_photo(),
    {
        match self.current_lot() {
            Some(lot) => match &lot.thumbnail_url {
                Some(url) => return Some(url.clone()),
                None => {},
            },
            None => {},
        }
        match self.current_loaded_details() {
            Some(details) => if details.photos.len() > 0 {
                Some(details.photos[0].clone())
            } else {
                None
            },
            None => None,
        }
    }

    /// The number of lots of all auctions.
    pub fn total_lots(&self) -> (r: usize)
        ensures
            r == all_lots(self.shown()).len(),
    {
        let lots = lots_of(&self.events);
        lots.len()
    }

    /// Says how much is shown.
    pub fn sync_status(&mut self, prefix: &str)
        ensures
            final(self).status@ == summary(prefix@, old(self).shown()),
            *final(self) == (App { status: final(self).status, ..*old(self) }),
    {
        let mut status = concat(prefix, " ");
        let auctions = decimal_text(self.events.len() as u64);
        let lots = decimal_text(self.total_lots() as u64);
        status.append(auctions.as_str());
        status.append(" auctions, ");
        status.append(lots.as_str());
        status.append(" lots.");
        self.status = status;
    }

    /// Brings the selection back among the entries.
    pub fn clamp_selection(&mut self)
        ensures
            final(self).event_index == clamped(
                old(self).event_index as nat,
                old(self).shown().len(),
            ),
            final(self).lot_index == clamped(
                old(self).lot_index as nat,
                lot_count(old(self).shown(), final(self).event_index as nat),
            ),
            old(self).shown().len() == 0 ==> final(self).event_offset == 0 && final(
                self).lot_offset == 0,
            old(self).shown().len() > 0 ==> final(self).event_offset == old(self).event_offset
                && final(self).lot_offset == old(self).lot_offset,
            *final(self) == (App {
                event_index: final(self).event_index,
                lot_index: final(self).lot_index,
                event_offset: final(self).event_offset,
                lot_offset: final(self).lot_offset,
                ..*old(self)
            }),
            final(self).selection_is_valid(),
    {
        if self.events.len() == 0 {
            self.event_index = 0;
            self.lot_index = 0;
            self.event_offset = 0;
            self.lot_offset = 0;
            return;
        }
        if self.event_index >= self.events.len() {
            self.event_index = self.events.len() - 1;
        }
        let lot_count = match self.current_event() {
            Some(event) => event.lots.len(),
            None => 0,
        };
        if lot_count == 0 {
            self.lot_index = 0;
        } else if self.lot_index >= lot_count {
            self.lot_index = lot_count - 1;
        }
    }

    /// Scrolls the details down.
    pub fn scroll_details_down(&mut self, amount: usize)
        ensures
            final(self).details_scroll == if old(self).details_scroll + amount > usize::MAX {
                usize::MAX as int
            } else {
                old(self).details_scroll + amount
            },
            *final(self) == (App { details_scroll: final(self).details_scroll, ..*old(self) }),
    {
        self.details_scroll = self.details_scroll.saturating_add(amount);
    }

    /// Scrolls the details up.
    pub fn scroll_details_up(&mut self, amount: usize)
        ensures
            final(self).details_scroll == if old(self).details_scroll < amount {
                0
            } else {
                old(self).details_scroll - amount
            },
            *final(self) == (App { details_scroll: final(self).details_scroll, ..*old(self) }),
    {
        self.details_scroll = self.details_scroll.saturating_sub(amount);
    }

    /// Scrolls the details to a line.
    pub fn set_details_scroll(&mut self, value: usize)
        ensures
            *final(self) == (App { details_scroll: value, ..*old(self) }),
    {
        self.details_scroll = value;
    }

    /// Moves down: to the next auction and its first lot, to the next lot, or down a line of
    /// the details.
    pub fn move_down(&mut self)
        ensures
            match old(self).focus {
                FocusPane::Events => if old(self).event_index + 1 < old(self).shown().len() {
                    *final(self) == (App {
                        event_index: (old(self).event_index + 1) as usize,
                        lot_index: 0,
                        ..*old(self)
                    })
                } else {
                    *final(self) == *old(self)
                },
                FocusPane::Lots => if old(self).lot_index + 1 < lot_count(
                    old(self).shown(),
                    old(self).event_index as nat,
                ) {
                    *final(self) == (App {
                        lot_index: (old(self).lot_index + 1) as usize,
                        ..*old(self)
                    })
                } else {
                    *final(self) == *old(self)
                },
                FocusPane::Details => {
                    &&& final(self).details_scroll == if old(self).details_scroll < usize::MAX {
                        old(self).details_scroll + 1
                    } else {
                        usize::MAX as int
                    }
                    &&& *final(self) == (App {
                        details_scroll: final(self).details_scroll,
                        ..*old(self)
                    })
                },
            },
            old(self).selection_is_valid() ==> final(self).selection_is_valid(),
    {
        match self.focus {
            FocusPane::Events => {
                if self.event_index < self.events.len() && self.events.len() - self.event_index > 1 {
                    self.event_index = self.event_index + 1;
                    self.lot_index = 0;
                }
            },
            FocusPane::Lots => {
                let count = match self.current_event() {
                    Some(event) => event.lots.len(),
                    None => 0,
                };
                if self.lot_index < count && count - self.lot_index > 1 {
                    self.lot_index = self.lot_index + 1;
                }
            },
            FocusPane::Details => {
                self.scroll_details_down(1);
            },
        }
    }

    /// Moves up: to the auction before and its first lot, to the lot before, or up a line of
    /// the details; and from their first line back to the lots.
    pub fn move_up(&mut self)
        ensures
            match old(self).focus {
                FocusPane::Events => if old(self).event_index > 0 {
                    *final(self) == (App {
                        event_index: (old(self).event_index - 1) as usize,
                        lot_index: 0,
                        ..*old(self)
                    })
                } else {
                    *final(self) == *old(self)
                },
                FocusPane::Lots => if old(self).lot_index > 0 {
                    *final(self) == (App {
                        lot_index: (old(self).lot_index - 1) as usize,
                        ..*old(self)
                    })
                } else {
                    *final(self) == *old(self)
                },
                FocusPane::Details => if old(self).details_scroll == 0 {
                    &&& final(self).status@ == "Returned to lots."@
                    &&& *final(self) == (App {
                        focus: FocusPane::Lots,
                        status: final(self).status,
                        ..*old(self)
                    })
                } else {
                    *final(self) == (App {
                        details_scroll: (old(self).details_scroll - 1) as usize,
                        ..*old(self)
                    })
                },
            },
            old(self).selection_is_valid() ==> final(self).selection_is_valid(),
    {
        match self.focus {
            FocusPane::Events => {
                if self.event_index > 0 {
                    self.event_index = self.event_index - 1;
                    self.lot_index = 0;
                }
            },
            FocusPane::Lots => {
                if self.lot_index > 0 {
                    self.lot_index = self.lot_index - 1;
                }
            },
            FocusPane::Details => {
                if self.details_scroll == 0 {
                    self.focus = FocusPane::Lots;
                    self.status = "Returned to lots.".to_owned();
                } else {
                    self.scroll_details_up(1);
                }
            },
        }
    }

    /// Gives the focus to the next part of the screen, and from the last to the first.
    pub fn toggle_focus(&mut self)
        ensures
            *final(self) == (App {
                focus: match old(self).focus {
                    FocusPane::Events => FocusPane::Lots,
                    FocusPane::Lots => FocusPane::Details,
                    FocusPane::Details => FocusPane::Events,
                },
                ..*old(self)
            }),
    {
        self.focus = match self.focus {
            FocusPane::Events => FocusPane::Lots,
            FocusPane::Lots => FocusPane::Details,
            FocusPane::Details => FocusPane::Events,
        };
    }

    /// Gives the focus to the part of the screen before.
    pub fn move_focus_left(&mut self)
        ensures
            *final(self) == (App { focus: focus_before(old(self).focus), ..*old(self) }),
    {
        self.focus = match self.focus {
            FocusPane::Events => FocusPane::Events,
            FocusPane::Lots => FocusPane::Events,
            FocusPane::Details => FocusPane::Lots,
        };
    }

    /// Gives the focus to the part of the screen after.
    pub fn move_focus_right(&mut self)
        ensures
            *final(self) == (App { focus: focus_after(old(self).focus), ..*old(self) }),
    {
        self.focus = match self.focus {
            FocusPane::Events => FocusPane::Lots,
            FocusPane::Lots => FocusPane::Details,
            FocusPane::Details => FocusPane::Details,
        };
    }

    /// Gives the focus back to the part of the screen before.
    pub fn back_focus(&mut self)
        ensures
            *final(self) == (App { focus: focus_before(old(self).focus), ..*old(self) }),
    {
        self.focus = match self.focus {
            FocusPane::Details => FocusPane::Lots,
            FocusPane::Lots => FocusPane::Events,
            FocusPane::Events => FocusPane::Events,
        };
    }

    /// Gives the focus to a part of the screen.
    pub fn set_focus(&mut self, focus: FocusPane)
        ensures
            *final(self) == (App { focus, ..*old(self) }),
    {
        self.focus = focus;
    }

    /// Gives the focus to the lots, where an auction is selected.
    pub fn focus_lots(&mut self)
        ensures
            *final(self) == if event_at(old(self).shown(), old(self).event_index as nat) is Some {
                App { focus: FocusPane::Lots, ..*old(self) }
            } else {
                *old(self)
            },
    {
        if self.current_event().is_some() {
            self.set_focus(FocusPane::Lots);
        }
    }

    /// Gives the focus to the details, where a lot is selected.
    pub fn focus_details(&mut self)
        ensures
            *final(self) == if old(self).selected() is Some {
                App { focus: FocusPane::Details, ..*old(self) }
            } else {
                *old(self)
            },
    {
        if self.current_lot().is_some() {
            self.set_focus(FocusPane::Details);
        }
    }

    /// Notes that a pane was resized.
    pub fn mark_pane_resize_changed(&mut self, now: u64)
        ensures
            *final(self) == (App {
                last_pane_resize_at: Some(now),
                pending_image_resize_redraw: true,
                ..*old(self)
            }),
    {
        self.last_pane_resize_at = Some(now);
        self.pending_image_resize_redraw = true;
    }

    /// Images wait: a border is being dragged, or a pane was resized a moment ago.
    pub open spec fn images_wait(&self, now: u64) -> bool {
        self.drag_target is Some || (self.last_pane_resize_at matches Some(since) && elapsed(
            since,
            now,
        ) < PANE_RESIZE_DEBOUNCE)
    }

    /// Whether images wait.
    pub fn image_render_deferred(&self, now: u64) -> (r: bool)
        ensures
            r == self.images_wait(now),
    {
        if self.drag_target.is_some() {
            return true;
        }
        match self.last_pane_resize_at {
            Some(since) => now.saturating_sub(since) < PANE_RESIZE_DEBOUNCE,
            None => false,
        }
    }

    /// Whether to draw terminal graphics.
    pub fn should_render_terminal_images(&self, now: u64) -> (r: bool)
        ensures
            r == (self.has_graphics && !self.images_wait(now)),
    {
        self.has_graphics && !self.image_render_deferred(now)
    }

    /// Whether images that waited are to be drawn now.
    pub fn image_redraw_ready(&mut self, now: u64) -> (r: bool)
        ensures
            r == (!old(self).images_wait(now) && old(self).pending_image_resize_redraw),
            *final(self) == if old(self).images_wait(now) {
                *old(self)
            } else {
                App { pending_image_resize_redraw: false, ..*old(self) }
            },
    {
        if self.image_render_deferred(now) {
            return false;
        }
        let ready = self.pending_image_resize_redraw;
        self.pending_image_resize_redraw = false;
        ready
    }

    /// Takes note of the selected lot: another one than before starts at the top of its
    /// details.
    pub fn sync_selected_lot(&mut self) -> (r: bool)
        ensures
            r == (optional_text(old(self).observed_lot_url) != old(self).selected_url()),
            if r {
                &&& optional_text(final(self).observed_lot_url) == old(self).selected_url()
                &&& *final(self) == (App {
                    observed_lot_url: final(self).observed_lot_url,
                    details_scroll: 0,
                    current_auction_hydration_dirty: true,
                    ..*old(self)
                })
            } else {
                *final(self) == *old(self)
            },
    {
        let selected_url = self.current_lot_url();
        let same = match (&self.observed_lot_url, &selected_url) {
            (Some(a), Some(b)) => same_text(a.as_str(), b.as_str()),
            (None, None) => true,
            _ => false,
        };
        if !same {
            self.observed_lot_url = selected_url;
            self.details_scroll = 0;
            self.current_auction_hydration_dirty = true;
            return true;
        }
        false
    }
}

/// The part of the screen before another.
pub open spec fn focus_before(focus: FocusPane) -> FocusPane {
    match focus {
        FocusPane::Details => FocusPane::Lots,
        _ => FocusPane::Events,
    }
}

/// The part of the screen after another.
pub open spec fn focus_after(focus: FocusPane) -> FocusPane {
    match focus {
        FocusPane::Events => FocusPane::Lots,
        _ => FocusPane::Details,
    }
}

/// Going to the part of the screen after and back again leads where it started, but for the
/// last part, which has none after it.
pub proof fn law_focus_moves_undo_each_other(focus: FocusPane)
    requires
        focus != FocusPane::Details,
    ensures
        focus_before(focus_after(focus)) == focus,
        focus_after(focus_before(focus_after(focus))) == focus_after(focus),
{
}

/// The lots of some auctions are those of each of them: so many together, every one of them, and
/// no other, those of one auction before those of the next.
pub proof fn law_all_lots_are_those_of_the_auctions(events: Seq<AuctionText>, more: Seq<AuctionText>)
    ensures
        all_lots(events + more) == all_lots(events) + all_lots(more),
        forall|event: AuctionText| #[trigger] all_lots(seq![event]) == event.lots,
        forall|i: int, k: int|
            0 <= i < events.len() && 0 <= k < events[i].lots.len() ==> all_lots(events).contains(
                #[trigger] events[i].lots[k],
            ),
    decreases more.len(), events.len(),
{
    assert forall|event: AuctionText| #[trigger] all_lots(seq![event]) == event.lots by {
        assert(seq![event].drop_last() =~= seq![]);
        assert(all_lots(seq![event].drop_last()) == Seq::<LotText>::empty());
        assert(all_lots(seq![event]) =~= event.lots);
    }
    if more.len() > 0 {
        law_all_lots_are_those_of_the_auctions(events, more.drop_last());
        assert((events + more).drop_last() =~= events + more.drop_last());
        assert(all_lots(events + more) =~= all_lots(events) + all_lots(more));
    } else {
        assert(events + more =~= events);
        assert(all_lots(events) + all_lots(more) =~= all_lots(events));
        if events.len() > 0 {
            let rest = events.drop_last();
            law_all_lots_are_those_of_the_auctions(rest, more);
            assert forall|i: int, k: int|
                0 <= i < events.len() && 0 <= k < events[i].lots.len() implies all_lots(
                events,
            ).contains(#[trigger] events[i].lots[k]) by {
                let lot = events[i].lots[k];
                if i < rest.len() {
                    assert(rest[i] == events[i]);
                    assert(all_lots(rest).contains(rest[i].lots[k]));
                    let j = choose|j: int|
                        0 <= j < all_lots(rest).len() && all_lots(rest)[j] == lot;
                    assert(all_lots(events)[j] == lot);
                } else {
                    assert(all_lots(events)[all_lots(rest).len() + k] == lot);
                }
            }
        }
    }
}

/// A position that is brought back among the entries is one of them, stays where it is if it is
/// one already, and is the last otherwise.
pub proof fn law_clamped_position_is_an_entry(index: nat, count: nat)
    ensures
        count > 0 ==> clamped(index, count) < count,
        index < count ==> clamped(index, count) == index,
        index >= count && count > 0 ==> clamped(index, count) + 1 == count,
        count == 0 ==> clamped(index, count) == 0,
{
}

/// The photo that is shown for the selected lot is its own where the listing names one;
/// otherwise it is the first of its details, once they have come; and there is none without a
/// selected lot.
pub proof fn law_photo_is_of_the_selected_lot<P, B>(app: App<P, B>)
    ensures
        app.event_index >= app.events@.len() ==> app.primary_photo() is None,
        app.selected() is None ==> app.primary_photo() is None,
        app.event_index < app.events@.len() && app.lot_index
            < app.events@[app.event_index as int].lots@.len() ==> {
            let lot = app.events@[app.event_index as int].lots@[app.lot_index as int];
            &&& app.selected() == Some(lot@)
            &&& app.selected_url() == Some(lot.url@)
            &&& (lot.thumbnail_url matches Some(url) ==> app.primary_photo() == Some(url@))
            &&& (lot.thumbnail_url is None && app.details@.states.contains_key(lot.url@) ==> (
            app.details@.states[lot.url@] matches FetchState::Loaded(details) ==> (
            details.photos@.len() > 0 ==> app.primary_photo() == Some(details.photos@[0]@))))
            &&& (lot.thumbnail_url is None && !app.details@.states.contains_key(lot.url@)
                ==> app.primary_photo() is None)
        },
{
}

/// Images wait for as long as a border is dragged and for a hundred and eighty milliseconds after
/// a pane was resized, and no longer.
pub proof fn law_images_wait_for_resizing<P, B>(app: App<P, B>, now: u64)
    ensures
        app.drag_target is Some ==> app.images_wait(now),
        app.drag_target is None ==> (app.images_wait(now) <==> (app.last_pane_resize_at matches Some(
            since,
        ) && now < since + 180_000_000)),
{
}

/// The words on how much is shown say the number of auctions and of all their lots, behind the
/// words before.
pub proof fn law_summary_says_how_much_is_shown(prefix: Seq<char>, events: Seq<AuctionText>)
    ensures
        prefix.is_prefix_of(summary(prefix, events)),
        summary(prefix, events) == prefix + " "@ + decimal(events.len()) + " auctions, "@ + decimal(
            all_lots(events).len(),
        ) + " lots."@,
{
    let s = summary(prefix, events);
    assert(prefix =~= s.take(prefix.len() as int));
}

} // verus!
