//! What the keys do.
use vstd::prelude::*;

use crate::browser::{event_at, focus_after, focus_before, lot_count, App, FocusPane};

verus! {

/// A key that was pressed.
#[derive(Debug, Clone, Copy, PartialEq, Eq, Structural)]
pub enum KeyPress {
    Char(char),
    Esc,
    Tab,
    Backspace,
    Left,
    Right,
    Up,
    Down,
    Home,
    End,
    Enter,
    Other,
}

/// What is left to do outside.
#[derive(Debug, Clone, Copy, PartialEq, Eq, Structural)]
pub enum KeyAction {
    Nothing,
    Quit,
    /// To open the selected lot.
    OpenLot,
    /// To load the auctions anew.
    Refresh,
}

/// What is left to do outside after a key was pressed.
pub open spec fn action_of(focus: FocusPane, key: KeyPress) -> KeyAction {
    match key {
        KeyPress::Char('q') => KeyAction::Quit,
        KeyPress::Esc => if focus == FocusPane::Events {
            KeyAction::Quit
        } else {
            KeyAction::Nothing
        },
        KeyPress::Char('o') => KeyAction::OpenLot,
        KeyPress::Char('r') => KeyAction::Refresh,
        _ => KeyAction::Nothing,
    }
}

/// A step down was taken: to the next auction and its first lot, to the next lot, or down a
/// line of the details.
pub open spec fn stepped_down<P, B>(app: App<P, B>) -> App<P, B> {
    match app.focus {
        FocusPane::Events => if app.event_index + 1 < app.shown().len() {
            App { event_index: (app.event_index + 1) as usize, lot_index: 0, ..app }
        } else {
            app
        },
        FocusPane::Lots => if app.lot_index + 1 < lot_count(app.shown(), app.event_index as nat) {
            App { lot_index: (app.lot_index + 1) as usize, ..app }
        } else {
            app
        },
        FocusPane::Details => App {
            details_scroll: if app.details_scroll < usize::MAX {
                (app.details_scroll + 1) as usize
            } else {
                usize::MAX
            },
            ..app
        },
    }
}

/// A step up was taken: to the auction before and its first lot, to the lot before, or up a
/// line of the details, and from their first line back to the lots.
pub open spec fn is_stepped_up<P, B>(before: App<P, B>, after: App<P, B>) -> bool {
    match before.focus {
        FocusPane::Events => after == if before.event_index > 0 {
            App { event_index: (before.event_index - 1) as usize, lot_index: 0, ..before }
        } else {
            before
        },
        FocusPane::Lots => after == if before.lot_index > 0 {
            App { lot_index: (before.lot_index - 1) as usize, ..before }
        } else {
            before
        },
        FocusPane::Details => if before.details_scroll == 0 {
            after.status@ == "Returned to lots."@ && after == (App {
                focus: FocusPane::Lots,
                status: after.status,
                ..before
            })
        } else {
            after == (App { details_scroll: (before.details_scroll - 1) as usize, ..before })
        },
    }
}

/// The first entry was gone to: the first auction and its first lot, the first lot, or the
/// first line of the details.
pub open spec fn at_first<P, B>(app: App<P, B>) -> App<P, B> {
    match app.focus {
        FocusPane::Events => App { event_index: 0, lot_index: 0, ..app },
        FocusPane::Lots => App { lot_index: 0, ..app },
        FocusPane::Details => App { details_scroll: 0, ..app },
    }
}

/// The last entry was gone to: the last auction and its first lot, the last lot, or the end of
/// the details.
pub open spec fn at_last<P, B>(app: App<P, B>) -> App<P, B> {
    match app.focus {
        FocusPane::Events => if app.shown().len() > 0 {
            App { event_index: (app.shown().len() - 1) as usize, lot_index: 0, ..app }
        } else {
            app
        },
        FocusPane::Lots => if lot_count(app.shown(), app.event_index as nat) > 0 {
            App {
                lot_index: (lot_count(app.shown(), app.event_index as nat) - 1) as usize,
                ..app
            }
        } else {
            app
        },
        FocusPane::Details => App { details_scroll: 65535, ..app },
    }
}

/// The entry with the focus was entered: from the auctions to the lots, from there to the
/// details, and there is a word on how to go on.
pub open spec fn is_entered<P, B>(before: App<P, B>, after: App<P, B>) -> bool {
    match before.focus {
        FocusPane::Events => after == if event_at(before.shown(), before.event_index as nat)
            is Some {
            App { focus: FocusPane::Lots, ..before }
        } else {
            before
        },
        FocusPane::Lots => after == if before.selected() is Some {
            App { focus: FocusPane::Details, ..before }
        } else {
            before
        },
        FocusPane::Details => after.status@
            == "Press o to open the bidding page in your browser."@ && after == (App {
            status: after.status,
            ..before
        }),
    }
}

/// A key that was pressed has had its effect.
pub open spec fn is_pressed<P, B>(before: App<P, B>, key: KeyPress, after: App<P, B>) -> bool {
    match key {
        KeyPress::Esc => after == if before.focus == FocusPane::Events {
            before
        } else {
            App { focus: focus_before(before.focus), ..before }
        },
        KeyPress::Tab => after == (App {
            focus: match before.focus {
                FocusPane::Events => FocusPane::Lots,
                FocusPane::Lots => FocusPane::Details,
                FocusPane::Details => FocusPane::Events,
            },
            ..before
        }),
        KeyPress::Backspace => after == (App { focus: focus_before(before.focus), ..before }),
        KeyPress::Left => after == (App { focus: focus_before(before.focus), ..before }),
        KeyPress::Right => after == (App { focus: focus_after(before.focus), ..before }),
        KeyPress::Enter => is_entered(before, after),
        KeyPress::Char('j') => after == stepped_down(before),
        KeyPress::Down => after == stepped_down(before),
        KeyPress::Char('k') => is_stepped_up(before, after),
        KeyPress::Up => is_stepped_up(before, after),
        KeyPress::Home => after == at_first(before),
        KeyPress::End => after == at_last(before),
        _ => after == before,
    }
}

impl<P, B> App<P, B> {
    /// Takes in a key that was pressed. Says what is left to do.
    pub fn handle_key(&mut self, key: KeyPress) -> (r: KeyAction)
        ensures
            is_pressed(*old(self), key, *final(self)),
            r == action_of(old(self).focus, key),
            old(self).selection_is_valid() ==> final(self).selection_is_valid(),
    {
        match key {
            KeyPress::Char('q') => {
                return KeyAction::Quit;
            },
            KeyPress::Esc => {
                if self.focus == FocusPane::Events {
                    return KeyAction::Quit;
                }
                self.back_focus();
            },
            KeyPress::Tab => self.toggle_focus(),
            KeyPress::Backspace => self.back_focus(),
            KeyPress::Left => self.move_focus_left(),
            KeyPress::Right => self.move_focus_right(),
            KeyPress::Enter => match self.focus {
                FocusPane::Events => self.focus_lots(),
                FocusPane::Lots => self.focus_details(),
                FocusPane::Details => {
                    self.status = "Press o to open the bidding page in your browser.".to_owned();
                },
            },
            KeyPress::Char('o') => {
                return KeyAction::OpenLot;
            },
            KeyPress::Char('j') | KeyPress::Down => self.move_down(),
            KeyPress::Char('k') | KeyPress::Up => self.move_up(),
            KeyPress::Char('r') => {
                return KeyAction::Refresh;
            },
            KeyPress::Home => match self.focus {
                FocusPane::Events => {
                    self.event_index = 0;
                    self.lot_index = 0;
                },
                FocusPane::Lots => {
                    self.lot_index = 0;
                },
                FocusPane::Details => {
                    self.set_details_scroll(0);
                },
            },
            KeyPress::End => match self.focus {
                FocusPane::Events => {
                    if self.events.len() > 0 {
                        self.event_index = self.events.len() - 1;
                        self.lot_index = 0;
                    }
                },
                FocusPane::Lots => {
                    let count = match self.current_event() {
                        Some(event) => event.lots.len(),
                        None => 0,
                    };
                    if count > 0 {
                        self.lot_index = count - 1;
                    }
                },
                FocusPane::Details => {
                    self.set_details_scroll(65535);
                },
            },
            _ => {},
        }
        KeyAction::Nothing
    }
}

/// The keys for down, and those for up, step through the entries one by one: down leads to the
/// next auction or lot and stops at the last, up to the one before and stops at the first, and
/// up undoes down. In the details they scroll by one line, and up from the first line goes back
/// to the lots.
pub proof fn law_keys_step_through_entries<P, B>(
    before: App<P, B>,
    down: KeyPress,
    after: App<P, B>,
    up: KeyPress,
    back: App<P, B>,
)
    requires
        down == KeyPress::Down || down == KeyPress::Char('j'),
        up == KeyPress::Up || up == KeyPress::Char('k'),
        is_pressed(before, down, after),
        is_pressed(after, up, back),
        before.selection_is_valid(),
    ensures
        before.focus == FocusPane::Events && before.event_index + 1 < before.shown().len() ==> {
            &&& after.event_index == before.event_index + 1 && after.lot_index == 0
            &&& back.event_index == before.event_index && back.lot_index == 0
        },
        before.focus == FocusPane::Events && before.event_index + 1 >= before.shown().len()
            ==> after == before,
        before.focus == FocusPane::Lots && before.lot_index + 1 < lot_count(
            before.shown(),
            before.event_index as nat,
        ) ==> after.lot_index == before.lot_index + 1 && back == before,
        before.focus == FocusPane::Lots && before.lot_index + 1 >= lot_count(
            before.shown(),
            before.event_index as nat,
        ) ==> after == before,
        before.focus == FocusPane::Details && before.details_scroll < usize::MAX
            ==> after.details_scroll == before.details_scroll + 1 && back == before,
        before.focus == FocusPane::Lots || before.focus == FocusPane::Details
            ==> after.event_index == before.event_index,
        before.focus == FocusPane::Details ==> after.lot_index == before.lot_index,
        after.focus == before.focus && after.shown() == before.shown(),
{
    assert(before.events.len() == before.shown().len());
    if before.event_index < before.shown().len() {
        let lots = before.events@[before.event_index as int].lots;
        assert(lots.len() == before.shown()[before.event_index as int].lots.len());
    }
}

/// Up from the first entry stays there, and up from the first line of the details goes back to
/// the lots.
pub proof fn law_up_stops_at_the_first<P, B>(before: App<P, B>, up: KeyPress, after: App<P, B>)
    requires
        up == KeyPress::Up || up == KeyPress::Char('k'),
        is_pressed(before, up, after),
    ensures
        before.focus == FocusPane::Events && before.event_index == 0 ==> after == before,
        before.focus == FocusPane::Lots && before.lot_index == 0 ==> after == before,
        before.focus == FocusPane::Lots && before.lot_index > 0 ==> after.lot_index
            == before.lot_index - 1 && after.event_index == before.event_index,
        before.focus == FocusPane::Events && before.event_index > 0 ==> after.event_index
            == before.event_index - 1 && after.lot_index == 0,
        before.focus == FocusPane::Details && before.details_scroll == 0 ==> after.focus
            == FocusPane::Lots && after.lot_index == before.lot_index && after.event_index
            == before.event_index,
        before.focus == FocusPane::Details && before.details_scroll > 0 ==> after.details_scroll
            == before.details_scroll - 1 && after.focus == FocusPane::Details,
{
}

/// The key for the first entry leads to it, and the key for the last to that: no entry comes
/// before the one or after the other.
pub proof fn law_home_and_end_lead_to_the_ends<P, B>(
    before: App<P, B>,
    home: App<P, B>,
    end: App<P, B>,
)
    requires
        is_pressed(before, KeyPress::Home, home),
        is_pressed(before, KeyPress::End, end),
        before.selection_is_valid(),
    ensures
        before.focus == FocusPane::Events ==> {
            &&& home.event_index == 0 && home.lot_index == 0
            &&& end.lot_index == 0 || before.shown().len() == 0
            &&& before.shown().len() > 0 ==> end.event_index + 1 == before.shown().len()
        },
        before.focus == FocusPane::Lots ==> {
            &&& home.lot_index == 0 && home.event_index == before.event_index
            &&& end.event_index == before.event_index
            &&& lot_count(before.shown(), before.event_index as nat) > 0 ==> end.lot_index + 1
                == lot_count(before.shown(), before.event_index as nat)
        },
        before.focus == FocusPane::Details ==> {
            &&& home.details_scroll == 0 && end.details_scroll == u16::MAX
            &&& home.lot_index == before.lot_index && end.lot_index == before.lot_index
            &&& home.event_index == before.event_index && end.event_index == before.event_index
        },
        home.focus == before.focus && end.focus == before.focus,
        home.shown() == before.shown() && end.shown() == before.shown(),
{
    assert(before.events.len() == before.shown().len());
    if before.event_index < before.shown().len() {
        let lots = before.events@[before.event_index as int].lots;
        assert(lots.len() == before.shown()[before.event_index as int].lots.len());
    }
}

/// The focus goes from the auctions to the lots to the details: to the right one on, to the left
/// and back one before, by the key for entering one on where there is something to enter, and by
/// the tabulator round. No key for the focus changes what is selected.
pub proof fn law_keys_move_the_focus<P, B>(before: App<P, B>, key: KeyPress, after: App<P, B>)
    requires
        is_pressed(before, key, after),
    ensures
        key == KeyPress::Right ==> {
            &&& before.focus == FocusPane::Events ==> after.focus == FocusPane::Lots
            &&& before.focus != FocusPane::Events ==> after.focus == FocusPane::Details
        },
        key == KeyPress::Left || key == KeyPress::Backspace || key == KeyPress::Esc ==> {
            &&& before.focus == FocusPane::Details ==> after.focus == FocusPane::Lots
            &&& before.focus != FocusPane::Details ==> after.focus == FocusPane::Events
        },
        key == KeyPress::Tab ==> {
            &&& before.focus == FocusPane::Events ==> after.focus == FocusPane::Lots
            &&& before.focus == FocusPane::Lots ==> after.focus == FocusPane::Details
            &&& before.focus == FocusPane::Details ==> after.focus == FocusPane::Events
        },
        key == KeyPress::Enter ==> {
            &&& before.focus == FocusPane::Events && before.event_index < before.shown().len()
                ==> after.focus == FocusPane::Lots
            &&& before.focus == FocusPane::Lots && before.selected() is Some ==> after.focus
                == FocusPane::Details
            &&& before.focus == FocusPane::Details ==> after.focus == FocusPane::Details
        },
        key == KeyPress::Right || key == KeyPress::Left || key == KeyPress::Backspace || key
            == KeyPress::Esc || key == KeyPress::Tab || key == KeyPress::Enter ==> {
            &&& after.event_index == before.event_index
            &&& after.lot_index == before.lot_index
            &&& after.details_scroll == before.details_scroll
        },
        after.shown() == before.shown(),
{
}

/// One key quits from everywhere, another one from the auctions only; one opens the lot and one
/// loads anew; and none of these changes anything itself. Every other key leaves nothing to do.
pub proof fn law_keys_ask_for_what_they_stand_for<P, B>(
    before: App<P, B>,
    key: KeyPress,
    after: App<P, B>,
)
    requires
        is_pressed(before, key, after),
    ensures
        action_of(before.focus, key) == KeyAction::Quit <==> key == KeyPress::Char('q') || (key
            == KeyPress::Esc && before.focus == FocusPane::Events),
        action_of(before.focus, key) == KeyAction::OpenLot <==> key == KeyPress::Char('o'),
        action_of(before.focus, key) == KeyAction::Refresh <==> key == KeyPress::Char('r'),
        action_of(before.focus, key) != KeyAction::Nothing ==> after == before,
{
}

} // verus!
