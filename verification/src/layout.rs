//! The parts of the screen and where they lie.
use vstd::prelude::*;

use ratatui::layout;
use ratatui::layout::{Constraint, Direction, Layout};
use ratatui::widgets::{Block, Borders};

verus! {

/// A rectangle of terminal cells.
#[derive(Debug, Clone, Copy, PartialEq, Eq, Structural)]
pub struct Rect {
    pub x: u16,
    pub y: u16,
    pub width: u16,
    pub height: u16,
}

/// The way in which an area is split.
#[derive(Debug, Clone, Copy, PartialEq, Eq, Structural)]
pub enum Axis {
    Horizontal,
    Vertical,
}

/// What a part of an area should get: so many cells, at least so many, or so many percent.
#[derive(Debug, Clone, Copy, PartialEq, Eq, Structural)]
pub enum Share {
    Length(u16),
    Min(u16),
    Percentage(u16),
}

/// The lines around a part of the screen: on all sides, or on all but the top.
#[derive(Debug, Clone, Copy, PartialEq, Eq, Structural)]
pub enum Frame {
    Full,
    Open,
}

/// Where the parts of the screen lie.
#[derive(Debug, Clone, Copy, PartialEq, Eq, Structural)]
pub struct UiLayout {
    pub header: Rect,
    pub body: Rect,
    pub footer: Rect,
    pub wide: bool,
    pub right: Rect,
    pub events: Rect,
    pub lots_header: Rect,
    pub lots_body: Rect,
    pub details: Rect,
}

/// A rectangle ends within what positions can say.
pub open spec fn is_on_screen(area: Rect) -> bool {
    area.x + area.width <= u16::MAX && area.y + area.height <= u16::MAX
}

/// Where a rectangle starts along an axis.
pub open spec fn start_of(area: Rect, axis: Axis) -> int {
    match axis {
        Axis::Horizontal => area.x as int,
        Axis::Vertical => area.y as int,
    }
}

/// How long a rectangle is along an axis.
pub open spec fn length_of(area: Rect, axis: Axis) -> int {
    match axis {
        Axis::Horizontal => area.width as int,
        Axis::Vertical => area.height as int,
    }
}

/// Where a rectangle ends along an axis.
pub open spec fn end_of(area: Rect, axis: Axis) -> int {
    start_of(area, axis) + length_of(area, axis)
}

/// The axis across another.
pub open spec fn across(axis: Axis) -> Axis {
    match axis {
        Axis::Horizontal => Axis::Vertical,
        Axis::Vertical => Axis::Horizontal,
    }
}

/// The cells that shares in cells ask for at least, or nothing where there are shares in
/// percent.
pub open spec fn cells_asked(shares: Seq<Share>) -> Option<int>
    decreases shares.len(),
{
    if shares.len() == 0 {
        Some(0)
    } else {
        match (cells_asked(shares.drop_last()), shares.last()) {
            (Some(n), Share::Length(cells)) => Some(n + cells),
            (Some(n), Share::Min(cells)) => Some(n + cells),
            _ => None,
        }
    }
}

/// The percent that shares in percent ask for, or nothing where there are shares in cells.
pub open spec fn percent_asked(shares: Seq<Share>) -> Option<int>
    decreases shares.len(),
{
    if shares.len() == 0 {
        Some(0)
    } else {
        match (percent_asked(shares.drop_last()), shares.last()) {
            (Some(n), Share::Percentage(percent)) => Some(n + percent),
            _ => None,
        }
    }
}

/// One of the shares takes what the others leave: it asks for a least number of cells, and the
/// others for so many each. The least number is one that 16 bits with a sign can hold.
pub open spec fn rest_goes_to(shares: Seq<Share>, at: int) -> bool {
    &&& 0 <= at < shares.len()
    &&& shares[at] matches Share::Min(cells) && cells <= i16::MAX
    &&& forall|i: int| 0 <= i < shares.len() && i != at ==> #[trigger] shares[i] is Length
}

/// Shares that make up a whole: at most three, of which one takes what the others leave, or
/// which are a hundred percent together.
pub open spec fn is_plan(shares: Seq<Share>) -> bool {
    &&& shares.len() <= 3
    &&& (exists|at: int| rest_goes_to(shares, at)) || percent_asked(shares) == Some(100int)
}

/// A share in cells got a length, of a whole that has room for all shares or has not. With
/// room, each gets what it asks for; without, the one that takes the rest comes first.
pub open spec fn meets(length: int, share: Share, whole: int, room: bool) -> bool {
    match share {
        Share::Length(cells) => if room {
            length == cells
        } else {
            length <= cells
        },
        Share::Min(cells) => if room {
            length >= cells
        } else {
            length == least(cells as int, whole)
        },
        Share::Percentage(_) => true,
    }
}

/// So many percent of a whole, to the nearest cell; a half counts as one.
pub open spec fn percent_of(percent: int, whole: int) -> int {
    (percent * whole + 50) / 100
}

/// An area was split into parts: one for each share, as wide as the area across the axis, and
/// along it one after the other from the start of the area to its end. Shares in cells get
/// what they ask for, as far as there is room; shares in percent end at the cell that is
/// nearest to theirs and those before them.
pub open spec fn is_split(area: Rect, axis: Axis, shares: Seq<Share>, parts: Seq<Rect>) -> bool {
    let whole = length_of(area, axis);
    &&& parts.len() == shares.len()
    &&& forall|i: int|
        0 <= i < parts.len() ==> {
            &&& start_of(#[trigger] parts[i], across(axis)) == start_of(area, across(axis))
            &&& length_of(parts[i], across(axis)) == length_of(area, across(axis))
            &&& start_of(area, axis) <= start_of(parts[i], axis)
            &&& end_of(parts[i], axis) <= end_of(area, axis)
        }
    &&& parts.len() > 0 ==> start_of(parts[0], axis) == start_of(area, axis)
    &&& forall|i: int, j: int|
        0 <= i && j == i + 1 && j < parts.len() ==> end_of(#[trigger] parts[i], axis) == start_of(
            #[trigger] parts[j],
            axis,
        )
    &&& parts.len() > 0 ==> end_of(parts[parts.len() - 1], axis) == end_of(area, axis)
    &&& cells_asked(shares) matches Some(cells) ==> forall|i: int|
        0 <= i < parts.len() ==> meets(
            length_of(#[trigger] parts[i], axis),
            shares[i],
            whole,
            cells <= whole,
        )
    &&& percent_asked(shares) == Some(100int) ==> forall|i: int|
        0 <= i < parts.len() ==> {
            let percent = percent_asked(shares.take(i + 1))->0;
            end_of(#[trigger] parts[i], axis) == start_of(area, axis) + percent_of(percent, whole)
        }
}

/// `ratatui::layout::Layout::split` splits an area along an axis into one part for each
/// constraint. The parts have the extent of the area across the axis. Along it the first starts
/// where the area does, each of the others where the one before ends, and the last ends where
/// the area does: a part with a least number of cells grows before space is left at the end,
/// and a hundred percent leave none. Where there is room, every other part in cells is as long
/// as asked for; where there is none, the part with a least number keeps it as far as it can,
/// and the others get no more than they ask for. How these share what is left then is not
/// stated: the solver weighs them alike. A part in percent ends at the cell nearest to the sum
/// of the percents up to it. A least number over the largest of 16 bits with a sign would be
/// taken for a negative one.
#[verifier::external_body]
fn split_area(area: Rect, axis: Axis, shares: &Vec<Share>) -> (r: Vec<Rect>)
    requires
        is_on_screen(area),
        is_plan(shares@),
    ensures
        is_split(area, axis, shares@, r@),
{
    let direction = match axis {
        Axis::Horizontal => Direction::Horizontal,
        Axis::Vertical => Direction::Vertical,
    };
    let rules = shares.iter().map(|share| match *share {
        Share::Length(n) => Constraint::Length(n),
        Share::Min(n) => Constraint::Min(n),
        Share::Percentage(n) => Constraint::Percentage(n),
    });
    let whole = layout::Rect::new(area.x, area.y, area.width, area.height);
    let parts = Layout::default().direction(direction).constraints(rules).split(whole);
    parts.iter().map(|p| Rect { x: p.x, y: p.y, width: p.width, height: p.height }).collect()
}

/// The smaller of two numbers.
pub open spec fn least(a: int, b: int) -> int {
    if a < b {
        a
    } else {
        b
    }
}

/// A number less another, but not less than zero.
pub open spec fn less(a: int, b: int) -> int {
    if a < b {
        0
    } else {
        a - b
    }
}

/// The largest position.
pub open spec fn held(n: int) -> int {
    least(n, u16::MAX as int)
}

/// A number brought between two others.
pub open spec fn between(n: int, low: int, high: int) -> int {
    if n < low {
        low
    } else if n > high {
        high
    } else {
        n
    }
}

/// What is inside the lines around a part of the screen.
pub open spec fn inside(frame: Frame, area: Rect) -> Rect {
    Rect {
        x: least(held(area.x + 1), held(area.x + area.width)) as u16,
        y: match frame {
            Frame::Full => least(held(area.y + 1), held(area.y + area.height)) as u16,
            Frame::Open => area.y,
        },
        width: less(area.width as int, 2) as u16,
        height: match frame {
            Frame::Full => less(area.height as int, 2) as u16,
            Frame::Open => less(area.height as int, 1) as u16,
        },
    }
}

/// `ratatui::widgets::Block::inner` leaves out of an area the cells that the lines of a block
/// take: one on the left and one on the right, one at the bottom, and one at the top where it
/// has a line there. The inside starts no further than the area ends, and is empty where the
/// lines take all of it.
#[verifier::external_body]
pub(crate) fn inner_area(frame: Frame, area: Rect) -> (r: Rect)
    ensures
        r == inside(frame, area),
{
    let borders = match frame {
        Frame::Full => Borders::ALL,
        Frame::Open => Borders::BOTTOM | Borders::LEFT | Borders::RIGHT,
    };
    let whole = layout::Rect { x: area.x, y: area.y, width: area.width, height: area.height };
    let inner = Block::default().borders(borders).inner(whole);
    Rect { x: inner.x, y: inner.y, width: inner.width, height: inner.height }
}

/// The sizes that the panes should have.
#[derive(Debug, Clone, Copy, PartialEq, Eq, Structural)]
pub struct PaneSizes {
    pub event_pane_width: u16,
    pub lots_pane_percent: u16,
    pub stacked_events_percent: u16,
    pub stacked_lots_percent: u16,
}

/// The width from which on the panes stand side by side.
pub const WIDE_FROM: u16 = 120;

/// How the screen is split: header, body and footer.
pub open spec fn outer_shares() -> Seq<Share> {
    seq![Share::Length(4), Share::Min(12), Share::Length(2)]
}

/// How a wide body is split: the auctions and the rest.
pub open spec fn column_shares(sizes: PaneSizes, width: u16) -> Seq<Share> {
    seq![
        Share::Length(between(sizes.event_pane_width as int, 24, width - 50) as u16),
        Share::Min(50),
    ]
}

/// How the right column of a wide body is split: the lots and the details.
pub open spec fn right_shares(sizes: PaneSizes) -> Seq<Share> {
    let percent = between(sizes.lots_pane_percent as int, 20, 80);
    seq![Share::Percentage(percent as u16), Share::Percentage((100 - percent) as u16)]
}

/// The percent that the auctions get of a narrow body.
pub open spec fn stacked_events(sizes: PaneSizes) -> int {
    between(sizes.stacked_events_percent as int, 10, 55)
}

/// The most percent that the lots can get of a narrow body, beside the auctions.
pub open spec fn most_stacked_lots(events: int) -> int {
    if less(80, events) > 10 {
        less(80, events)
    } else {
        10
    }
}

/// The percent that the lots get of a narrow body.
pub open spec fn stacked_lots(sizes: PaneSizes) -> int {
    between(
        sizes.stacked_lots_percent as int,
        10,
        most_stacked_lots(stacked_events(sizes)),
    )
}

/// How a narrow body is split: the auctions, the lots and the details.
pub open spec fn stacked_shares(sizes: PaneSizes) -> Seq<Share> {
    seq![
        Share::Percentage(stacked_events(sizes) as u16),
        Share::Percentage(stacked_lots(sizes) as u16),
        Share::Percentage((100 - stacked_events(sizes) - stacked_lots(sizes)) as u16),
    ]
}

/// How the lots are split: their heading and their list.
pub open spec fn lots_shares() -> Seq<Share> {
    seq![Share::Length(1), Share::Min(1)]
}

/// The parts of a wide screen.
pub open spec fn is_wide_layout(
    layout: UiLayout,
    sizes: PaneSizes,
    columns: Seq<Rect>,
    rows: Seq<Rect>,
    lots: Seq<Rect>,
) -> bool {
    &&& is_split(
        layout.body,
        Axis::Horizontal,
        column_shares(sizes, layout.body.width),
        columns,
    )
    &&& is_split(columns[1], Axis::Vertical, right_shares(sizes), rows)
    &&& is_split(rows[0], Axis::Vertical, lots_shares(), lots)
    &&& layout.right == columns[1]
    &&& layout.events == columns[0]
    &&& layout.lots_header == lots[0]
    &&& layout.lots_body == lots[1]
    &&& layout.details == rows[1]
}

/// The parts of a narrow screen.
pub open spec fn is_stacked_layout(
    layout: UiLayout,
    sizes: PaneSizes,
    rows: Seq<Rect>,
    lots: Seq<Rect>,
) -> bool {
    &&& is_split(layout.body, Axis::Vertical, stacked_shares(sizes), rows)
    &&& is_split(rows[1], Axis::Vertical, lots_shares(), lots)
    &&& layout.right == layout.body
    &&& layout.events == rows[0]
    &&& layout.lots_header == lots[0]
    &&& layout.lots_body == lots[1]
    &&& layout.details == rows[2]
}

/// Where the parts of a screen lie: a header and a footer around the body, and in a wide body
/// the auctions beside the lots above the details, in a narrow one all three above each other.
pub open spec fn is_layout(area: Rect, sizes: PaneSizes, layout: UiLayout) -> bool {
    &&& is_split(
        area,
        Axis::Vertical,
        outer_shares(),
        seq![layout.header, layout.body, layout.footer],
    )
    &&& layout.wide == (layout.body.width >= WIDE_FROM)
    &&& layout.wide ==> exists|columns: Seq<Rect>, rows: Seq<Rect>, lots: Seq<Rect>| #[trigger]
        is_wide_layout(layout, sizes, columns, rows, lots)
    &&& !layout.wide ==> exists|rows: Seq<Rect>, lots: Seq<Rect>| #[trigger]
        is_stacked_layout(layout, sizes, rows, lots)
}

/// The percents that two or three shares ask for, one by one.
proof fn lemma_percents(shares: Seq<Share>)
    requires
        2 <= shares.len() <= 3,
        forall|i: int| 0 <= i < shares.len() ==> #[trigger] shares[i] is Percentage,
    ensures
        percent_asked(shares.take(1)) == Some(shares[0]->Percentage_0 as int),
        percent_asked(shares.take(2)) == Some(
            shares[0]->Percentage_0 + shares[1]->Percentage_0,
        ),
        shares.len() == 2 ==> percent_asked(shares) == percent_asked(shares.take(2)),
        shares.len() == 3 ==> percent_asked(shares) == Some(
            shares[0]->Percentage_0 + shares[1]->Percentage_0 + shares[2]->Percentage_0,
        ),
{
    let one = shares.take(1);
    let two = shares.take(2);
    assert(one.drop_last() =~= seq![]);
    assert(percent_asked(one.drop_last()) == Some(0int));
    assert(two.drop_last() =~= one);
    if shares.len() == 2 {
        assert(two =~= shares);
    } else {
        assert(shares.drop_last() =~= two);
    }
}

/// A number brought between two others.
pub fn clamp_between(n: u16, low: u16, high: u16) -> (r: u16)
    requires
        low <= high,
    ensures
        r == between(n as int, low as int, high as int),
{
    if n < low {
        low
    } else if n > high {
        high
    } else {
        n
    }
}

/// Splits the screen into header, body and footer.
pub fn split_outer(area: Rect) -> (r: (Rect, Rect, Rect))
    requires
        is_on_screen(area),
    ensures
        is_split(area, Axis::Vertical, outer_shares(), seq![r.0, r.1, r.2]),
        is_on_screen(r.0),
        is_on_screen(r.1),
        is_on_screen(r.2),
{
    let shares: Vec<Share> = vec![Share::Length(4), Share::Min(12), Share::Length(2)];
    assert(shares@ =~= outer_shares());
    assert(rest_goes_to(shares@, 1));
    let outer = split_area(area, Axis::Vertical, &shares);
    assert(outer@ =~= seq![outer@[0], outer@[1], outer@[2]]);
    (outer[0], outer[1], outer[2])
}

/// Where the parts of a screen lie.
pub fn compute_layout(area: Rect, sizes: &PaneSizes) -> (r: UiLayout)
    requires
        is_on_screen(area),
    ensures
        is_layout(area, *sizes, r),
        r.wide == (area.width >= WIDE_FROM),
        r.wide ==> r.events.width == between(sizes.event_pane_width as int, 24, area.width - 50),
        r.wide ==> r.events.width + r.right.width == area.width,
{
    let (header, body, footer) = split_outer(area);
    let lots_rule: Vec<Share> = vec![Share::Length(1), Share::Min(1)];
    assert(lots_rule@ =~= lots_shares());
    assert(rest_goes_to(lots_rule@, 1));
    if body.width >= WIDE_FROM {
        let event_width = clamp_between(sizes.event_pane_width, 24, body.width - 50);
        let column_rule: Vec<Share> = vec![Share::Length(event_width), Share::Min(50)];
        assert(column_rule@ =~= column_shares(*sizes, body.width));
        assert(rest_goes_to(column_rule@, 1));
        let columns = split_area(body, Axis::Horizontal, &column_rule);
        assert(is_on_screen(columns@[1]));
        let lots_percent = clamp_between(sizes.lots_pane_percent, 20, 80);
        let details_percent: u16 = 100 - lots_percent;
        let right_rule: Vec<Share> = vec![
            Share::Percentage(lots_percent),
            Share::Percentage(details_percent),
        ];
        assert(right_rule@ =~= right_shares(*sizes));
        proof {
            lemma_percents(right_rule@);
        }
        let rows = split_area(columns[1], Axis::Vertical, &right_rule);
        assert(is_on_screen(rows@[0]));
        let lots = split_area(rows[0], Axis::Vertical, &lots_rule);
        let layout = UiLayout {
            header,
            body,
            footer,
            wide: true,
            right: columns[1],
            events: columns[0],
            lots_header: lots[0],
            lots_body: lots[1],
            details: rows[1],
        };
        assert(is_wide_layout(layout, *sizes, columns@, rows@, lots@));
        proof {
            law_panes_have_their_sizes(area, *sizes, layout);
        }
        layout
    } else {
        let events_percent = clamp_between(sizes.stacked_events_percent, 10, 55);
        let room: u16 = 80 - events_percent;
        let most: u16 = if room > 10 {
            room
        } else {
            10
        };
        let lots_percent = clamp_between(sizes.stacked_lots_percent, 10, most);
        let details_percent: u16 = 100 - events_percent - lots_percent;
        let row_rule: Vec<Share> = vec![
            Share::Percentage(events_percent),
            Share::Percentage(lots_percent),
            Share::Percentage(details_percent),
        ];
        assert(row_rule@ =~= stacked_shares(*sizes));
        proof {
            lemma_percents(row_rule@);
        }
        let rows = split_area(body, Axis::Vertical, &row_rule);
        assert(is_on_screen(rows@[1]));
        let lots = split_area(rows[1], Axis::Vertical, &lots_rule);
        let layout = UiLayout {
            header,
            body,
            footer,
            wide: false,
            right: body,
            events: rows[0],
            lots_header: lots[0],
            lots_body: lots[1],
            details: rows[2],
        };
        assert(is_stacked_layout(layout, *sizes, rows@, lots@));
        layout
    }
}

/// A cell lies in an area.
pub open spec fn covers(area: Rect, column: int, row: int) -> bool {
    &&& area.x <= column < held(area.x + area.width)
    &&& area.y <= row < held(area.y + area.height)
}

/// Whether a cell lies in an area.
pub fn contains_point(area: Rect, column: u16, row: u16) -> (r: bool)
    ensures
        r == covers(area, column as int, row as int),
{
    let right: u16 = area.x.saturating_add(area.width);
    let bottom: u16 = area.y.saturating_add(area.height);
    column >= area.x && column < right && row >= area.y && row < bottom
}

/// Two areas have no cell in common.
pub open spec fn are_apart(a: Rect, b: Rect) -> bool {
    forall|column: int, row: int| !(#[trigger] covers(a, column, row) && covers(b, column, row))
}

/// No two of the panes have a cell in common, and all of them lie on the screen.
pub proof fn law_panes_are_apart(area: Rect, sizes: PaneSizes, layout: UiLayout)
    requires
        is_on_screen(area),
        is_layout(area, sizes, layout),
    ensures
        are_apart(layout.header, layout.body),
        are_apart(layout.body, layout.footer),
        are_apart(layout.header, layout.footer),
        are_apart(layout.events, layout.lots_header),
        are_apart(layout.events, layout.lots_body),
        are_apart(layout.events, layout.details),
        are_apart(layout.lots_header, layout.lots_body),
        are_apart(layout.lots_header, layout.details),
        are_apart(layout.lots_body, layout.details),
        forall|column: int, row: int| #[trigger]
            covers(layout.events, column, row) || covers(layout.lots_header, column, row) || covers(
                layout.lots_body,
                column,
                row,
            ) || covers(layout.details, column, row) ==> covers(layout.body, column, row),
        forall|column: int, row: int| #[trigger]
            covers(layout.body, column, row) ==> covers(area, column, row),
{
    let outer = seq![layout.header, layout.body, layout.footer];
    assert(outer[0] == layout.header && outer[1] == layout.body && outer[2] == layout.footer);
    if layout.wide {
        let (columns, rows, lots) = choose|columns: Seq<Rect>, rows: Seq<Rect>, lots: Seq<Rect>|
            #[trigger]
            is_wide_layout(layout, sizes, columns, rows, lots);
        assert(start_of(columns[0], Axis::Horizontal) <= start_of(columns[1], Axis::Horizontal));
        assert(end_of(rows[0], Axis::Vertical) <= start_of(rows[1], Axis::Vertical));
        assert(end_of(lots[0], Axis::Vertical) <= start_of(lots[1], Axis::Vertical));
        assert(end_of(lots[1], Axis::Vertical) <= end_of(rows[0], Axis::Vertical));
    } else {
        let (rows, lots) = choose|rows: Seq<Rect>, lots: Seq<Rect>| #[trigger]
            is_stacked_layout(layout, sizes, rows, lots);
        assert(end_of(rows[0], Axis::Vertical) <= start_of(rows[1], Axis::Vertical));
        assert(end_of(rows[1], Axis::Vertical) <= start_of(rows[2], Axis::Vertical));
        assert(end_of(lots[0], Axis::Vertical) <= start_of(lots[1], Axis::Vertical));
        assert(end_of(lots[1], Axis::Vertical) <= end_of(rows[1], Axis::Vertical));
    }
}

/// Every cell of the screen lies in one of the panes.
pub proof fn law_panes_fill_the_screen(area: Rect, sizes: PaneSizes, layout: UiLayout)
    requires
        is_on_screen(area),
        is_layout(area, sizes, layout),
    ensures
        forall|column: int, row: int| #[trigger]
            covers(area, column, row) ==> covers(layout.header, column, row) || covers(
                layout.footer,
                column,
                row,
            ) || covers(layout.events, column, row) || covers(layout.lots_header, column, row)
                || covers(layout.lots_body, column, row) || covers(layout.details, column, row),
{
    let outer = seq![layout.header, layout.body, layout.footer];
    assert(outer[0] == layout.header && outer[1] == layout.body && outer[2] == layout.footer);
    if layout.wide {
        let (columns, rows, lots) = choose|columns: Seq<Rect>, rows: Seq<Rect>, lots: Seq<Rect>|
            #[trigger]
            is_wide_layout(layout, sizes, columns, rows, lots);
        assert(end_of(columns[0], Axis::Horizontal) == start_of(columns[1], Axis::Horizontal));
        assert(end_of(rows[0], Axis::Vertical) == start_of(rows[1], Axis::Vertical));
        assert(end_of(lots[0], Axis::Vertical) == start_of(lots[1], Axis::Vertical));
    } else {
        let (rows, lots) = choose|rows: Seq<Rect>, lots: Seq<Rect>| #[trigger]
            is_stacked_layout(layout, sizes, rows, lots);
        assert(end_of(rows[0], Axis::Vertical) == start_of(rows[1], Axis::Vertical));
        assert(end_of(rows[1], Axis::Vertical) == start_of(rows[2], Axis::Vertical));
        assert(end_of(lots[0], Axis::Vertical) == start_of(lots[1], Axis::Vertical));
    }
}

/// The panes have the sizes that are set for them, within their bounds. On a wide screen the
/// auctions have their width and the rest of it goes to the right column, of which the lots
/// have their percent and the details the rest; on a narrow one, the auctions and the lots have
/// their percents of the body, and the details the rest.
pub proof fn law_panes_have_their_sizes(area: Rect, sizes: PaneSizes, layout: UiLayout)
    requires
        is_on_screen(area),
        is_layout(area, sizes, layout),
    ensures
        layout.wide == (area.width >= WIDE_FROM),
        layout.header.height + layout.body.height + layout.footer.height == area.height,
        layout.wide ==> {
            let lots = layout.lots_header.height + layout.lots_body.height;
            &&& layout.events.width == between(sizes.event_pane_width as int, 24, area.width - 50)
            &&& layout.events.width + layout.right.width == area.width
            &&& layout.events.height == layout.body.height
            &&& lots == percent_of(
                between(sizes.lots_pane_percent as int, 20, 80),
                layout.body.height as int,
            )
            &&& lots + layout.details.height == layout.body.height
        },
        !layout.wide ==> {
            let events = layout.events.height as int;
            let lots = layout.lots_header.height + layout.lots_body.height;
            let percent = stacked_events(sizes);
            &&& events == percent_of(percent, layout.body.height as int)
            &&& events + lots == percent_of(
                percent + stacked_lots(sizes),
                layout.body.height as int,
            )
            &&& events + lots + layout.details.height == layout.body.height
        },
{
    let outer = seq![layout.header, layout.body, layout.footer];
    assert(outer[0] == layout.header && outer[1] == layout.body && outer[2] == layout.footer);
    if layout.wide {
        let (columns, rows, lots) = choose|columns: Seq<Rect>, rows: Seq<Rect>, lots: Seq<Rect>|
            #[trigger]
            is_wide_layout(layout, sizes, columns, rows, lots);
        let shares = column_shares(sizes, layout.body.width);
        reveal_with_fuel(cells_asked, 3);
        assert(shares.drop_last().drop_last() =~= seq![]);
        assert(cells_asked(shares) matches Some(cells) && cells <= layout.body.width);
        assert(meets(
            length_of(columns[0], Axis::Horizontal),
            shares[0],
            layout.body.width as int,
            true,
        ));
        lemma_percents(right_shares(sizes));
        assert(end_of(rows[0], Axis::Vertical) == start_of(rows[1], Axis::Vertical));
        assert(end_of(lots[0], Axis::Vertical) == start_of(lots[1], Axis::Vertical));
    } else {
        let (rows, lots) = choose|rows: Seq<Rect>, lots: Seq<Rect>| #[trigger]
            is_stacked_layout(layout, sizes, rows, lots);
        lemma_percents(stacked_shares(sizes));
        assert(end_of(rows[0], Axis::Vertical) == start_of(rows[1], Axis::Vertical));
        assert(end_of(rows[1], Axis::Vertical) == start_of(rows[2], Axis::Vertical));
        assert(end_of(lots[0], Axis::Vertical) == start_of(lots[1], Axis::Vertical));
    }
}

/// However low the screen, the body keeps its twelve rows as far as it can, and the list of
/// lots its one row before the heading.
pub proof fn law_body_and_lots_keep_their_rows(area: Rect, sizes: PaneSizes, layout: UiLayout)
    requires
        is_on_screen(area),
        is_layout(area, sizes, layout),
    ensures
        layout.body.height >= least(12, area.height as int),
        area.height < 18 ==> layout.body.height == least(12, area.height as int),
        layout.header.height <= 4,
        layout.footer.height <= 2,
        layout.lots_header.height + layout.lots_body.height >= 1 ==> layout.lots_body.height >= 1,
        layout.lots_header.height <= 1,
{
    let outer = seq![layout.header, layout.body, layout.footer];
    let shares = outer_shares();
    let room = area.height >= 18;
    reveal_with_fuel(cells_asked, 4);
    assert(shares.drop_last().drop_last().drop_last() =~= seq![]);
    assert(outer[0] == layout.header && outer[1] == layout.body && outer[2] == layout.footer);
    assert(meets(length_of(outer[0], Axis::Vertical), shares[0], area.height as int, room));
    assert(meets(length_of(outer[1], Axis::Vertical), shares[1], area.height as int, room));
    assert(meets(length_of(outer[2], Axis::Vertical), shares[2], area.height as int, room));
    let lots = if layout.wide {
        let (columns, rows, lots) = choose|columns: Seq<Rect>, rows: Seq<Rect>, lots: Seq<Rect>|
            #[trigger]
            is_wide_layout(layout, sizes, columns, rows, lots);
        lots
    } else {
        let (rows, lots) = choose|rows: Seq<Rect>, lots: Seq<Rect>| #[trigger]
            is_stacked_layout(layout, sizes, rows, lots);
        lots
    };
    let shares = lots_shares();
    assert(shares.drop_last().drop_last() =~= seq![]);
    assert(cells_asked(shares) == Some(2int));
    assert(length_of(lots[0], Axis::Vertical) <= 1);
    assert(end_of(lots[0], Axis::Vertical) == start_of(lots[1], Axis::Vertical));
}

/// How the lots are split is settled by where they lie.
proof fn lemma_lots_are_settled(area: Rect, a: Seq<Rect>, b: Seq<Rect>)
    requires
        is_split(area, Axis::Vertical, lots_shares(), a),
        is_split(area, Axis::Vertical, lots_shares(), b),
    ensures
        a[0] == b[0],
        a[1] == b[1],
{
    let shares = lots_shares();
    let room = area.height >= 2;
    reveal_with_fuel(cells_asked, 3);
    assert(shares.drop_last().drop_last() =~= seq![]);
    assert(cells_asked(shares) == Some(2int));
    assert(meets(length_of(a[0], Axis::Vertical), shares[0], area.height as int, room));
    assert(meets(length_of(a[1], Axis::Vertical), shares[1], area.height as int, room));
    assert(meets(length_of(b[0], Axis::Vertical), shares[0], area.height as int, room));
    assert(meets(length_of(b[1], Axis::Vertical), shares[1], area.height as int, room));
    assert(end_of(a[0], Axis::Vertical) == start_of(a[1], Axis::Vertical));
    assert(end_of(b[0], Axis::Vertical) == start_of(b[1], Axis::Vertical));
}

/// A screen has one layout for given sizes, so a click is tested against the panes as they are
/// drawn. Left out are the heights at which header and footer share too few rows.
pub proof fn law_layout_is_settled(area: Rect, sizes: PaneSizes, a: UiLayout, b: UiLayout)
    requires
        is_on_screen(area),
        area.height <= 12 || area.height >= 18,
        is_layout(area, sizes, a),
        is_layout(area, sizes, b),
    ensures
        a == b,
{
    let outer_a = seq![a.header, a.body, a.footer];
    let outer_b = seq![b.header, b.body, b.footer];
    assert(outer_a[0] == a.header && outer_a[1] == a.body && outer_a[2] == a.footer);
    assert(outer_b[0] == b.header && outer_b[1] == b.body && outer_b[2] == b.footer);
    law_body_and_lots_keep_their_rows(area, sizes, a);
    law_body_and_lots_keep_their_rows(area, sizes, b);
    if area.height >= 18 {
        law_header_and_footer_have_their_rows(area, sizes, a);
        law_header_and_footer_have_their_rows(area, sizes, b);
    }
    assert(a.body == b.body);
    law_panes_have_their_sizes(area, sizes, a);
    law_panes_have_their_sizes(area, sizes, b);
    if a.wide {
        let (columns_a, rows_a, lots_a) = choose|
            columns: Seq<Rect>,
            rows: Seq<Rect>,
            lots: Seq<Rect>,
        | #[trigger]
            is_wide_layout(a, sizes, columns, rows, lots);
        let (columns_b, rows_b, lots_b) = choose|
            columns: Seq<Rect>,
            rows: Seq<Rect>,
            lots: Seq<Rect>,
        | #[trigger]
            is_wide_layout(b, sizes, columns, rows, lots);
        assert(end_of(columns_a[0], Axis::Horizontal) == start_of(columns_a[1], Axis::Horizontal));
        assert(end_of(columns_b[0], Axis::Horizontal) == start_of(columns_b[1], Axis::Horizontal));
        assert(columns_a[0] == columns_b[0]);
        assert(columns_a[1] == columns_b[1]);
        lemma_percents(right_shares(sizes));
        assert(end_of(rows_a[0], Axis::Vertical) == start_of(rows_a[1], Axis::Vertical));
        assert(end_of(rows_b[0], Axis::Vertical) == start_of(rows_b[1], Axis::Vertical));
        assert(rows_a[0] == rows_b[0]);
        assert(rows_a[1] == rows_b[1]);
        lemma_lots_are_settled(rows_a[0], lots_a, lots_b);
    } else {
        let (rows_a, lots_a) = choose|rows: Seq<Rect>, lots: Seq<Rect>| #[trigger]
            is_stacked_layout(a, sizes, rows, lots);
        let (rows_b, lots_b) = choose|rows: Seq<Rect>, lots: Seq<Rect>| #[trigger]
            is_stacked_layout(b, sizes, rows, lots);
        lemma_percents(stacked_shares(sizes));
        assert(end_of(rows_a[0], Axis::Vertical) == start_of(rows_a[1], Axis::Vertical));
        assert(end_of(rows_b[0], Axis::Vertical) == start_of(rows_b[1], Axis::Vertical));
        assert(end_of(rows_a[1], Axis::Vertical) == start_of(rows_a[2], Axis::Vertical));
        assert(end_of(rows_b[1], Axis::Vertical) == start_of(rows_b[2], Axis::Vertical));
        assert(rows_a[0] == rows_b[0]);
        assert(rows_a[1] == rows_b[1]);
        assert(rows_a[2] == rows_b[2]);
        lemma_lots_are_settled(rows_a[1], lots_a, lots_b);
    }
}

/// On a screen with room for them, the header has four rows and the footer two.
pub proof fn law_header_and_footer_have_their_rows(area: Rect, sizes: PaneSizes, layout: UiLayout)
    requires
        is_on_screen(area),
        area.height >= 18,
        is_layout(area, sizes, layout),
    ensures
        layout.header.height == 4,
        layout.footer.height == 2,
        layout.body.height >= 12,
        layout.body.width == area.width,
{
    let outer = seq![layout.header, layout.body, layout.footer];
    let shares = outer_shares();
    reveal_with_fuel(cells_asked, 4);
    assert(shares.drop_last().drop_last().drop_last() =~= seq![]);
    assert(cells_asked(shares) == Some(18int));
    assert(outer[0] == layout.header && outer[1] == layout.body && outer[2] == layout.footer);
    assert(meets(length_of(outer[0], Axis::Vertical), shares[0], area.height as int, true));
    assert(meets(length_of(outer[1], Axis::Vertical), shares[1], area.height as int, true));
    assert(meets(length_of(outer[2], Axis::Vertical), shares[2], area.height as int, true));
}

/// On a wide screen the auctions stand at the left edge and the right column behind them.
pub proof fn law_columns_stand_side_by_side(area: Rect, sizes: PaneSizes, layout: UiLayout)
    requires
        is_on_screen(area),
        is_layout(area, sizes, layout),
        layout.wide,
    ensures
        layout.body.x == area.x,
        layout.body.width == area.width,
        layout.events.x == area.x,
        layout.right.x == layout.events.x + layout.events.width,
        layout.right.y == layout.body.y,
        layout.right.height == layout.body.height,
        layout.lots_header.x == layout.right.x,
        layout.lots_body.x == layout.right.x,
        layout.details.x == layout.right.x,
        layout.lots_header.width == layout.right.width,
        layout.lots_body.width == layout.right.width,
        layout.details.width == layout.right.width,
        layout.lots_header.y == layout.body.y,
        layout.lots_body.y == layout.lots_header.y + layout.lots_header.height,
        layout.details.y == layout.lots_body.y + layout.lots_body.height,
{
    let outer = seq![layout.header, layout.body, layout.footer];
    assert(outer[1] == layout.body);
    let (columns, rows, lots) = choose|columns: Seq<Rect>, rows: Seq<Rect>, lots: Seq<Rect>|
        #[trigger]
        is_wide_layout(layout, sizes, columns, rows, lots);
    assert(end_of(columns[0], Axis::Horizontal) == start_of(columns[1], Axis::Horizontal));
    assert(end_of(rows[0], Axis::Vertical) == start_of(rows[1], Axis::Vertical));
    assert(end_of(lots[0], Axis::Vertical) == start_of(lots[1], Axis::Vertical));
}

/// On a narrow screen the auctions stand at the top of the body, the lots below them and the
/// details below those, each as wide as the screen.
pub proof fn law_rows_stand_above_each_other(area: Rect, sizes: PaneSizes, layout: UiLayout)
    requires
        is_on_screen(area),
        is_layout(area, sizes, layout),
        !layout.wide,
    ensures
        layout.right == layout.body,
        layout.events.y == layout.body.y,
        layout.lots_header.y == layout.events.y + layout.events.height,
        layout.lots_body.y == layout.lots_header.y + layout.lots_header.height,
        layout.details.y == layout.lots_body.y + layout.lots_body.height,
        layout.events.x == area.x && layout.events.width == area.width,
        layout.lots_header.x == area.x && layout.lots_header.width == area.width,
        layout.lots_body.x == area.x && layout.lots_body.width == area.width,
        layout.details.x == area.x && layout.details.width == area.width,
{
    let outer = seq![layout.header, layout.body, layout.footer];
    assert(outer[1] == layout.body);
    let (rows, lots) = choose|rows: Seq<Rect>, lots: Seq<Rect>| #[trigger]
        is_stacked_layout(layout, sizes, rows, lots);
    assert(end_of(rows[0], Axis::Vertical) == start_of(rows[1], Axis::Vertical));
    assert(end_of(rows[1], Axis::Vertical) == start_of(rows[2], Axis::Vertical));
    assert(end_of(lots[0], Axis::Vertical) == start_of(lots[1], Axis::Vertical));
}

/// A cell lies in an area if it is at or behind its left and upper edge and before its right and
/// lower one.
pub proof fn law_cells_lie_within_the_edges(area: Rect, column: int, row: int)
    requires
        is_on_screen(area),
    ensures
        covers(area, column, row) <==> area.x <= column < area.x + area.width && area.y <= row
            < area.y + area.height,
{
}

/// The lines around a part of the screen take one cell at each side that has one, and leave the
/// rest.
pub proof fn law_lines_take_one_cell_each(area: Rect)
    requires
        is_on_screen(area),
        area.width >= 2,
        area.height >= 2,
    ensures
        inside(Frame::Full, area) == (Rect {
            x: (area.x + 1) as u16,
            y: (area.y + 1) as u16,
            width: (area.width - 2) as u16,
            height: (area.height - 2) as u16,
        }),
        inside(Frame::Open, area) == (Rect {
            x: (area.x + 1) as u16,
            y: area.y,
            width: (area.width - 2) as u16,
            height: (area.height - 1) as u16,
        }),
{
}

/// A number that is brought between two others lies between them, and stays as it is if it did
/// already; otherwise it is the nearer of the two.
pub proof fn law_numbers_are_brought_between(n: int, low: int, high: int)
    requires
        low <= high,
    ensures
        low <= between(n, low, high) <= high,
        low <= n <= high ==> between(n, low, high) == n,
        n < low ==> between(n, low, high) == low,
        n > high ==> between(n, low, high) == high,
{
}

/// On a narrow screen the auctions get from ten to fifty-five percent, the lots from ten on, and
/// the details always at least twenty; within these bounds all as they are set.
pub proof fn law_stacked_panes_leave_room(sizes: PaneSizes)
    ensures
        10 <= stacked_events(sizes) <= 55,
        10 <= stacked_lots(sizes),
        stacked_events(sizes) + stacked_lots(sizes) <= 80,
        10 <= sizes.stacked_events_percent <= 55 ==> stacked_events(sizes)
            == sizes.stacked_events_percent,
        sizes.stacked_events_percent < 10 ==> stacked_events(sizes) == 10,
        sizes.stacked_events_percent > 55 ==> stacked_events(sizes) == 55,
        10 <= sizes.stacked_lots_percent <= 80 - stacked_events(sizes) ==> stacked_lots(sizes)
            == sizes.stacked_lots_percent,
        sizes.stacked_lots_percent > 80 - stacked_events(sizes) ==> stacked_lots(sizes) == 80
            - stacked_events(sizes),
{
}

/// So many percent of a whole are the cells nearest to it: all of it for a hundred, none for
/// none, and never off by more than half a cell.
pub proof fn law_percents_are_the_nearest_cells(percent: int, whole: int)
    requires
        0 <= percent <= 100,
        0 <= whole,
    ensures
        -50 <= 100 * percent_of(percent, whole) - percent * whole <= 50,
        percent_of(100, whole) == whole,
        percent_of(0, whole) == 0,
        0 <= percent_of(percent, whole) <= whole,
{
    let n = percent * whole;
    assert(0 <= n <= 100 * whole) by (nonlinear_arith)
        requires
            0 <= percent <= 100,
            0 <= whole,
            n == percent * whole,
    ;
    assert(0int * whole == 0) by (nonlinear_arith);
}

} // verus!
