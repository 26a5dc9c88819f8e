//! What stands on the screen: its lines, their tones, and what is visible of them.
use vstd::prelude::*;
use vstd::utf8::encode_utf8;

use crate::browser::{all_lots, event_at, lot_count, App, DragTarget, FocusPane};
use crate::catalog::{
    auction_texts, lot_status_at, primary_close, status_of, AuctionEvent, AuctionText, SortKey,
};
use crate::desk::FetchState;
use crate::layout::{inner_area, inside, Frame, Rect};
use crate::listing::{link_texts, lot_texts, Lot, LotDetails, LotText};
use crate::moments::{close_time_text, format_close_time, format_loaded_at, regina_text, Moment};
use crate::numbers::{decimal, decimal_text};
use crate::text::{
    chars_of, concat, contains, law_lines_end_at_line_feeds, law_padding_only_adds_spaces,
    occurs_at, pad, padded, split_lines, text_lines, texts,
};

verus! {

/// How a piece of text looks.
#[derive(Debug, Clone, Copy, PartialEq, Eq, Structural)]
pub enum Tone {
    Plain,
    /// Bold.
    Label,
    /// Bold and green.
    Title,
    /// Bold and cyan.
    Heading,
    /// Dark gray.
    Muted,
}

/// A piece of text that looks one way.
#[derive(Debug)]
pub struct Span {
    pub text: String,
    pub tone: Tone,
}

/// A line of pieces of text.
#[derive(Debug)]
pub struct Line {
    pub spans: Vec<Span>,
}

/// What a line says, and how.
pub type LineText = Seq<(Seq<char>, Tone)>;

impl View for Line {
    type V = LineText;

    open spec fn view(&self) -> LineText {
        self.spans@.map_values(|s: Span| (s.text@, s.tone))
    }
}

/// What some lines say, and how.
pub open spec fn line_texts(lines: Seq<Line>) -> Seq<LineText> {
    lines.map_values(|l: Line| l@)
}

/// A line of one piece of text.
pub fn line_of(text: String, tone: Tone) -> (r: Line)
    ensures
        r@ == seq![(text@, tone)],
{
    let r = Line { spans: vec![Span { text, tone }] };
    assert(r@ =~= seq![(text@, tone)]);
    r
}

/// A line without any text.
pub fn blank_line() -> (r: Line)
    ensures
        r@ == LineText::empty(),
{
    let r = Line { spans: Vec::new() };
    assert(r@ =~= LineText::empty());
    r
}

/// A plain line: each line of a text is a piece of it.
pub open spec fn plain_line(text: Seq<char>) -> LineText {
    text_lines(text).map_values(|part: Seq<char>| (part, Tone::Plain))
}

/// A plain line.
pub fn plain_line_of(text: &str) -> (r: Line)
    ensures
        r@ == plain_line(text@),
{
    let parts = split_lines(text);
    let ghost all = plain_line(text@);
    let mut r = Line { spans: Vec::new() };
    let mut i: usize = 0;
    assert(r@ =~= all.take(0));
    while i < parts.len()
        invariant
            i <= parts@.len(),
            texts(parts@) == text_lines(text@),
            all == plain_line(text@),
            r@ == all.take(i as int),
        decreases parts@.len() - i,
    {
        let span = Span { text: parts[i].as_str().to_owned(), tone: Tone::Plain };
        let ghost before = r@;
        proof {
            assert(texts(parts@)[i as int] == parts@[i as int]@);
            assert((span.text@, span.tone) == all[i as int]);
            assert(all.take(i + 1) =~= before.push(all[i as int]));
        }
        r.spans.push(span);
        assert(r@ =~= before.push((span.text@, span.tone)));
        i += 1;
    }
    assert(all.take(i as int) =~= all);
    r
}

/// A line with a label.
pub open spec fn labelled(label: Seq<char>, value: Seq<char>) -> LineText {
    seq![(label + ": "@, Tone::Label), (value, Tone::Plain)]
}

/// A line with a label.
pub fn detail_line(label: &str, value: &str) -> (r: Line)
    ensures
        r@ == labelled(label@, value@),
{
    let r = Line {
        spans: vec![
            Span { text: concat(label, ": "), tone: Tone::Label },
            Span { text: value.to_owned(), tone: Tone::Plain },
        ],
    };
    assert(r@ =~= labelled(label@, value@));
    r
}

/// The lines on what is selected.
pub open spec fn summary_lines(
    event: Option<AuctionText>,
    lot: Option<LotText>,
    now: (int, int),
) -> Seq<LineText> {
    match (event, lot) {
        (Some(event), Some(lot)) => seq![
            seq![(lot.name, Tone::Title)],
            labelled("Bid"@, lot.bid_display),
            seq![
                ("Status: "@, Tone::Label),
                (status_of(lot, now), Tone::Plain),
                (" | "@, Tone::Plain),
                ("Closes: "@, Tone::Label),
                (close_time_text(lot.close_at), Tone::Plain),
            ],
            labelled("Lot Location"@, lot.location),
            labelled("Auction"@, event.title),
        ],
        (Some(event), None) => seq![
            seq![(event.title, Tone::Title)],
            labelled("Auction Location"@, event.location),
            labelled("Auction URL"@, event.url),
            seq![("No lot is currently selected."@, Tone::Plain)],
        ],
        (None, _) => seq![
            seq![("No auction data to display."@, Tone::Plain)],
            seq![
                ("Try a different --city or --query, or press r to refresh."@, Tone::Plain),
            ],
        ],
    }
}

/// Plain lines.
pub open spec fn plain_lines(lines: Seq<Seq<char>>) -> Seq<LineText> {
    lines.map_values(|line: Seq<char>| plain_line(line))
}

/// The lines on documents.
pub open spec fn document_lines(documents: Seq<(Seq<char>, Seq<char>)>) -> Seq<LineText> {
    documents.map_values(|d: (Seq<char>, Seq<char>)| plain_line(d.0 + " - "@ + d.1))
}

/// The lines on the details of a lot: what it says of itself under a heading, and its
/// documents under another, with a blank line between the two.
pub open spec fn loaded_lines(details: LotDetails) -> Seq<LineText> {
    let info = if details@.info_lines.len() > 0 {
        seq![seq![("Other Details"@, Tone::Heading)]] + plain_lines(details@.info_lines)
    } else {
        seq![]
    };
    if details@.documents.len() > 0 {
        let gap = if info.len() > 0 {
            info.push(seq![])
        } else {
            info
        };
        gap + seq![seq![("Documents"@, Tone::Heading)]] + document_lines(details@.documents)
    } else {
        info
    }
}

/// The lines on how far the details of a lot have come.
pub open spec fn note_lines(state: Option<FetchState<LotDetails>>) -> Seq<LineText> {
    match state {
        Some(FetchState::Loaded(details)) => loaded_lines(details),
        Some(FetchState::Failed(error)) => seq![
            plain_line("Could not load listing details: "@ + error@),
        ],
        _ => seq![seq![("Loading lot photos and listing details..."@, Tone::Plain)]],
    }
}

/// The lines of the details: those on what is selected, and after a blank line those on its
/// details.
pub open spec fn detail_lines(summary: Seq<LineText>, notes: Seq<LineText>) -> Seq<LineText> {
    if notes.len() == 0 {
        summary
    } else {
        summary.push(seq![]) + notes
    }
}

/// The characters of a line, or the most that can be counted.
pub open spec fn line_width(line: LineText) -> nat
    decreases line.len(),
{
    if line.len() == 0 {
        0
    } else {
        let n = line_width(line.drop_last()) + line.last().0.len();
        if n > usize::MAX {
            usize::MAX as nat
        } else {
            n
        }
    }
}

/// The rows that a line takes when it is wrapped: at least one.
pub open spec fn rows_of(line: LineText, width: nat) -> nat {
    let n = if line_width(line) > 0 {
        line_width(line)
    } else {
        1
    };
    let w = if width > 0 {
        width
    } else {
        1
    };
    ((n - 1) / w as int + 1) as nat
}

/// The rows that lines take when they are wrapped, or the most that can be counted.
pub open spec fn document_height(lines: Seq<LineText>, width: nat) -> nat
    decreases lines.len(),
{
    if lines.len() == 0 {
        0
    } else {
        let n = document_height(lines.drop_last(), width) + rows_of(lines.last(), width);
        if n > usize::MAX {
            usize::MAX as nat
        } else {
            n
        }
    }
}

/// The characters of a line.
fn count_characters(line: &Line) -> (r: usize)
    ensures
        r == line_width(line@),
{
    let ghost all = line@;
    let mut count: usize = 0;
    let mut i: usize = 0;
    assert(all.take(0) =~= seq![]);
    while i < line.spans.len()
        invariant
            i <= line.spans@.len(),
            all == line@,
            count == line_width(all.take(i as int)),
        decreases line.spans@.len() - i,
    {
        proof {
            let next = all.take(i + 1);
            assert(next.drop_last() =~= all.take(i as int));
            assert(next.last() == (line.spans@[i as int].text@, line.spans@[i as int].tone));
        }
        let chars = chars_of(line.spans[i].text.as_str());
        count = count.saturating_add(chars.len());
        i += 1;
    }
    assert(all.take(i as int) =~= all);
    count
}

/// The rows that lines take when they are wrapped to a width.
pub fn wrapped_document_height(lines: &Vec<Line>, width: u16) -> (r: usize)
    ensures
        r == document_height(line_texts(lines@), width as nat),
{
    let ghost all = line_texts(lines@);
    let width: usize = if width > 0 {
        width as usize
    } else {
        1
    };
    let mut height: usize = 0;
    let mut i: usize = 0;
    assert(all.take(0) =~= seq![]);
    while i < lines.len()
        invariant
            i <= lines@.len(),
            all == line_texts(lines@),
            width > 0,
            height == document_height(all.take(i as int), width as nat),
        decreases lines@.len() - i,
    {
        proof {
            let next = all.take(i + 1);
            assert(next.drop_last() =~= all.take(i as int));
            assert(next.last() == lines@[i as int]@);
        }
        let counted = count_characters(&lines[i]);
        let characters: usize = if counted > 0 {
            counted
        } else {
            1
        };
        let quotient: usize = (characters - 1) / width;
        assert(quotient <= characters - 1) by (nonlinear_arith)
            requires
                quotient == (characters - 1) / width as int,
                characters >= 1,
                width > 0,
        ;
        let rows: usize = quotient + 1;
        height = height.saturating_add(rows);
        i += 1;
    }
    assert(all.take(i as int) =~= all);
    proof {
        lemma_height_of_no_width(all);
    }
    height
}

/// A width of nothing counts as one.
proof fn lemma_height_of_no_width(lines: Seq<LineText>)
    ensures
        document_height(lines, 0) == document_height(lines, 1),
    decreases lines.len(),
{
    if lines.len() > 0 {
        lemma_height_of_no_width(lines.drop_last());
    }
}

/// A wider line takes no more rows, and at least one.
proof fn lemma_rows_of_wider_line(line: LineText, narrow: nat, wide: nat)
    requires
        narrow <= wide,
    ensures
        1 <= rows_of(line, wide) <= rows_of(line, narrow),
{
    let n: int = if line_width(line) > 0 {
        line_width(line) - 1
    } else {
        0
    };
    let a: int = if narrow > 0 {
        narrow as int
    } else {
        1
    };
    let b: int = if wide > 0 {
        wide as int
    } else {
        1
    };
    assert(0 <= n / b <= n / a) by (nonlinear_arith)
        requires
            0 <= n,
            0 < a <= b,
    ;
}

/// Nothing takes no rows, and every line takes at least one; the lines of two documents take
/// the rows of both together, as far as rows can be counted; a greater width takes no more
/// rows; and a width of nothing counts as one.
pub proof fn law_height_of_documents(
    first: Seq<LineText>,
    second: Seq<LineText>,
    narrow: nat,
    wide: nat,
)
    requires
        narrow <= wide,
    ensures
        document_height(seq![], wide) == 0,
        first.len() <= usize::MAX ==> document_height(first, wide) >= first.len(),
        document_height(first + second, wide) == counted(
            (document_height(first, wide) + document_height(second, wide)) as int,
        ),
        document_height(first, wide) <= document_height(first, narrow),
        document_height(first, 0) == document_height(first, 1),
    decreases first.len() + second.len(),
{
    lemma_height_of_no_width(first);
    lemma_height_is_counted(first, wide);
    if first.len() > 0 {
        law_height_of_documents(first.drop_last(), seq![], narrow, wide);
        lemma_rows_of_wider_line(first.last(), narrow, wide);
    }
    if second.len() == 0 {
        assert(first + second =~= first);
    } else {
        law_height_of_documents(first, second.drop_last(), narrow, wide);
        assert((first + second).drop_last() =~= first + second.drop_last());
        assert((first + second).last() == second.last());
    }
}

/// A height is a number that can be counted.
proof fn lemma_height_is_counted(lines: Seq<LineText>, width: nat)
    ensures
        document_height(lines, width) <= usize::MAX,
{
}

/// A number, or the largest that can be counted.
pub open spec fn counted(n: int) -> int {
    if n > usize::MAX {
        usize::MAX as int
    } else {
        n
    }
}

/// The first row to show so that the selected one is among so many rows, as near to the
/// current first one as can be.
pub open spec fn offset_for(current: int, selected: int, rows: int) -> int {
    if rows == 0 || selected < current {
        selected
    } else if selected >= counted(current + rows) {
        counted(selected + 1) - rows
    } else {
        current
    }
}

/// The first row to show so that the selected one is among so many rows.
pub fn visible_offset(current_offset: usize, selected_index: usize, visible_rows: usize) -> (r:
    usize)
    ensures
        r == offset_for(current_offset as int, selected_index as int, visible_rows as int),
{
    if visible_rows == 0 {
        return selected_index;
    }
    if selected_index < current_offset {
        selected_index
    } else if selected_index >= current_offset.saturating_add(visible_rows) {
        selected_index.saturating_add(1).saturating_sub(visible_rows)
    } else {
        current_offset
    }
}

/// The selected row is among those that are shown, and they stay where it is among them
/// already. (The very last number that can be counted is no row that can be shown.)
pub proof fn law_selected_row_is_visible(current: int, selected: int, rows: int)
    requires
        0 <= current,
        0 <= selected < usize::MAX,
        0 < rows,
    ensures
        offset_for(current, selected, rows) <= selected < offset_for(current, selected, rows)
            + rows,
        offset_for(offset_for(current, selected, rows), selected, rows) == offset_for(
            current,
            selected,
            rows,
        ),
        current <= selected < current + rows ==> offset_for(current, selected, rows) == current,
{
}

/// The row of a lot.
pub open spec fn lot_row(lot: LotText) -> Seq<char> {
    padded(close_time_text(lot.close_at), 18) + " "@ + padded(lot.bid_display, 12) + " "@
        + lot.name
}

/// The row of a lot.
pub fn lot_row_text(lot: &Lot) -> (r: String)
    ensures
        r@ == lot_row(lot@),
{
    let close = format_close_time(&lot.close_at);
    let mut row = pad(close.as_str(), 18);
    row.append(" ");
    let bid = pad(lot.bid_display.as_str(), 12);
    row.append(bid.as_str());
    row.append(" ");
    row.append(lot.name.as_str());
    row
}

/// The first lot to show.
pub open spec fn first_lot_row<P, B>(app: App<P, B>, rows: nat) -> int {
    let count = lot_count(app.shown(), app.event_index as nat);
    let offset = offset_for(app.lot_offset as int, app.lot_index as int, rows as int);
    if offset > count - 1 {
        count - 1
    } else {
        offset
    }
}

/// The rows that the list of lots has: those inside the lines around it, but at least one.
pub open spec fn list_rows(area: Rect) -> nat {
    let rows = inside(Frame::Open, area).height as nat;
    if rows > 0 {
        rows
    } else {
        1
    }
}

/// The rows that the list of lots has in an area.
pub fn visible_rows_in(area: Rect) -> (r: usize)
    ensures
        r == list_rows(area),
{
    let rows = inner_area(Frame::Open, area).height;
    if rows > 0 {
        rows as usize
    } else {
        1
    }
}

/// The rows of lots from one on, so many at most.
pub open spec fn lot_rows(lots: Seq<LotText>, from: int, rows: nat) -> Seq<Seq<char>> {
    let end = if from + rows > lots.len() {
        lots.len() as int
    } else {
        from + rows
    };
    lots.subrange(from, end).map_values(|lot: LotText| lot_row(lot))
}

/// How the lines around a part of the screen look.
#[derive(Debug, Clone, Copy, PartialEq, Eq, Structural)]
pub enum BorderTone {
    Plain,
    /// Yellow.
    Focused,
    /// Bold and cyan.
    Hovered,
    /// Bold and magenta.
    Dragged,
}

/// A part of the screen lies at a border.
pub open spec fn lies_at(pane: FocusPane, target: DragTarget) -> bool {
    target == DragTarget::EventsWidth || pane != FocusPane::Events
}

/// How the lines around a part of the screen look: as the border that is dragged, or else as
/// the one below the mouse, or else as the part with the focus.
pub open spec fn border_tone_of<P, B>(app: App<P, B>, pane: FocusPane) -> BorderTone {
    if app.drag_target matches Some(target) && lies_at(pane, target) {
        BorderTone::Dragged
    } else if app.resize_hover_target matches Some(target) && lies_at(pane, target) {
        BorderTone::Hovered
    } else if app.focus == pane {
        BorderTone::Focused
    } else {
        BorderTone::Plain
    }
}

/// The two lines of an auction in their list.
pub open spec fn event_rows(event: AuctionText) -> (Seq<char>, Seq<char>) {
    (
        event.title,
        event.location + " | "@ + decimal(event.lots.len()) + " lots | closes "@ + close_time_text(
            primary_close(event),
        ),
    )
}

/// The entries of the list of auctions, each with its lines.
pub open spec fn event_items(events: Seq<AuctionText>) -> Seq<Seq<LineText>> {
    if events.len() == 0 {
        seq![seq![seq![("No matching auctions found."@, Tone::Plain)]]]
    } else {
        events.map_values(
            |event: AuctionText|
                seq![
                    seq![(event_rows(event).0, Tone::Label)],
                    seq![(event_rows(event).1, Tone::Muted)],
                ],
        )
    }
}

/// What some entries say, each with its lines.
pub open spec fn item_texts(items: Seq<Vec<Line>>) -> Seq<Seq<LineText>> {
    items.map_values(|lines: Vec<Line>| line_texts(lines@))
}

/// The heading of the list of lots.
pub open spec fn lots_heading_text() -> LineText {
    seq![
        ("Close"@, Tone::Label),
        ("              "@, Tone::Plain),
        ("Price"@, Tone::Label),
        ("        "@, Tone::Plain),
        ("Item"@, Tone::Label),
    ]
}

/// The heading of the list of lots.
pub fn lots_heading() -> (r: Line)
    ensures
        r@ == lots_heading_text(),
{
    let r = Line {
        spans: vec![
            Span { text: "Close".to_owned(), tone: Tone::Label },
            Span { text: "              ".to_owned(), tone: Tone::Plain },
            Span { text: "Price".to_owned(), tone: Tone::Label },
            Span { text: "        ".to_owned(), tone: Tone::Plain },
            Span { text: "Item".to_owned(), tone: Tone::Label },
        ],
    };
    assert(r@ =~= lots_heading_text());
    r
}

/// What is asked for, in words.
pub open spec fn query_words<P, B>(app: App<P, B>) -> Seq<char> {
    match app.cli.query {
        Some(query) => query@,
        None => "all items"@,
    }
}

/// The words for yes and no.
pub open spec fn yes_or_no(b: bool) -> Seq<char> {
    if b {
        "true"@
    } else {
        "false"@
    }
}

/// The lines of the header.
pub open spec fn header_texts<P, B>(app: App<P, B>) -> Seq<LineText> {
    seq![
        seq![
            ("McDougall Browser"@, Tone::Heading),
            ("  "@, Tone::Plain),
            (
                decimal(app.shown().len()) + " auctions | "@ + decimal(all_lots(app.shown()).len())
                    + " lots | focus: "@ + app.focus.name(),
                Tone::Plain,
            ),
        ],
        plain_line(
            "city="@ + app.cli.city@ + " | query="@ + query_words(app) + " | sort="@
                + app.cli.sort.name() + " | include_past="@ + yes_or_no(app.cli.include_past),
        ),
        plain_line(
            "loaded "@ + regina_text(
                app.loaded_at@.0,
                app.loaded_at@.1,
                "%Y-%m-%d %I:%M:%S %P CST"@,
            ),
        ),
    ]
}

/// The line of the footer that says what the keys do.
pub const HELP_LINE: &'static str = "Left/Right panes | Up/Down scroll details | Drag highlighted borders to resize | o open lot | r refresh | q quit";

impl<P, B> App<P, B> {
    /// The lines on what is selected, at a point in time.
    pub fn detail_summary_lines(&self, now: &Moment) -> (r: Vec<Line>)
        ensures
            line_texts(r@) == summary_lines(
                event_at(self.shown(), self.event_index as nat),
                self.selected(),
                now@,
            ),
    {
        match (self.current_event(), self.current_lot()) {
            (Some(event), Some(lot)) => {
                let status = Line {
                    spans: vec![
                        Span { text: "Status: ".to_owned(), tone: Tone::Label },
                        Span { text: lot_status_at(lot, now).to_owned(), tone: Tone::Plain },
                        Span { text: " | ".to_owned(), tone: Tone::Plain },
                        Span { text: "Closes: ".to_owned(), tone: Tone::Label },
                        Span { text: format_close_time(&lot.close_at), tone: Tone::Plain },
                    ],
                };
                assert(status@ =~= seq![
                    ("Status: "@, Tone::Label),
                    (status_of(lot@, now@), Tone::Plain),
                    (" | "@, Tone::Plain),
                    ("Closes: "@, Tone::Label),
                    (close_time_text(lot@.close_at), Tone::Plain),
                ]);
                let r = vec![
                    line_of(lot.name.clone(), Tone::Title),
                    detail_line("Bid", lot.bid_display.as_str()),
                    status,
                    detail_line("Lot Location", lot.location.as_str()),
                    detail_line("Auction", event.title.as_str()),
                ];
                assert(line_texts(r@) =~= summary_lines(Some(event@), Some(lot@), now@));
                r
            },
            (Some(event), None) => {
                let r = vec![
                    line_of(event.title.clone(), Tone::Title),
                    detail_line("Auction Location", event.location.as_str()),
                    detail_line("Auction URL", event.url.as_str()),
                    line_of("No lot is currently selected.".to_owned(), Tone::Plain),
                ];
                assert(line_texts(r@) =~= summary_lines(Some(event@), None, now@));
                r
            },
            (None, _) => {
                let r = vec![
                    line_of("No auction data to display.".to_owned(), Tone::Plain),
                    line_of(
                        "Try a different --city or --query, or press r to refresh.".to_owned(),
                        Tone::Plain,
                    ),
                ];
                assert(line_texts(r@) =~= summary_lines(None, None, now@));
                r
            },
        }
    }

    /// The lines on how far the details of the selected lot have come.
    pub fn detail_note_lines(&self) -> (r: Vec<Line>)
        ensures
            line_texts(r@) == note_lines(self.selected_state()),
    {
        match self.current_detail_state() {
            Some(FetchState::Loaded(details)) => lines_of_details(details),
            Some(FetchState::Failed(error)) => {
                let words = concat("Could not load listing details: ", error.as_str());
                let r = vec![plain_line_of(words.as_str())];
                assert(line_texts(r@) =~= note_lines(self.selected_state()));
                r
            },
            _ => {
                let r = vec![
                    line_of("Loading lot photos and listing details...".to_owned(), Tone::Plain),
                ];
                assert(line_texts(r@) =~= note_lines(self.selected_state()));
                r
            },
        }
    }

    /// The lines of the details, at a point in time.
    pub fn detail_text_lines(&self, now: &Moment) -> (r: Vec<Line>)
        ensures
            line_texts(r@) == detail_lines(
                summary_lines(
                    event_at(self.shown(), self.event_index as nat),
                    self.selected(),
                    now@,
                ),
                note_lines(self.selected_state()),
            ),
    {
        let mut lines = self.detail_summary_lines(now);
        let mut notes = self.detail_note_lines();
        if notes.len() > 0 {
            let ghost first = line_texts(lines@);
            let ghost second = line_texts(notes@);
            lines.push(blank_line());
            lines.append(&mut notes);
            assert(line_texts(lines@) =~= first.push(seq![]) + second);
        }
        lines
    }

    /// Brings the first line of the details to show back among those that fill the area.
    pub fn settle_details_scroll(&mut self, document_height: usize, text_height: u16)
        ensures
            final(self).details_scroll == {
                let most = if document_height > text_height {
                    document_height - text_height
                } else {
                    0
                };
                let scroll = if old(self).details_scroll > most {
                    most
                } else {
                    old(self).details_scroll as int
                };
                if scroll > 65535 {
                    65535
                } else {
                    scroll
                }
            },
            *final(self) == (App { details_scroll: final(self).details_scroll, ..*old(self) }),
    {
        let most: usize = document_height.saturating_sub(text_height as usize);
        if self.details_scroll > most {
            self.details_scroll = most;
        }
        if self.details_scroll > 65535 {
            self.details_scroll = 65535;
        }
    }

    /// The rows of the lots that are visible, and the one among them that is selected. The first
    /// of them is kept for the next time.
    pub fn visible_lots(&mut self, visible_rows: usize) -> (r: (Vec<String>, Option<usize>))
        ensures
            if lot_count(old(self).shown(), old(self).event_index as nat) > 0 {
                let first = first_lot_row(*old(self), visible_rows as nat);
                &&& *final(self) == (App { lot_offset: first as usize, ..*old(self) })
                &&& texts(r.0@) == lot_rows(
                    event_at(old(self).shown(), old(self).event_index as nat)->0.lots,
                    first,
                    visible_rows as nat,
                )
                &&& r.1 == Some(
                    if old(self).lot_index >= first {
                        (old(self).lot_index - first) as usize
                    } else {
                        0
                    },
                )
            } else {
                &&& *final(self) == *old(self)
                &&& texts(r.0@) == seq!["No lots available."@]
                &&& r.1 is None
            },
    {
        let count = match self.current_event() {
            Some(event) => event.lots.len(),
            None => 0,
        };
        if count == 0 {
            let rows: Vec<String> = vec!["No lots available.".to_owned()];
            assert(texts(rows@) =~= seq!["No lots available."@]);
            return (rows, None);
        }
        let wanted = visible_offset(self.lot_offset, self.lot_index, visible_rows);
        let offset: usize = if wanted > count - 1 {
            count - 1
        } else {
            wanted
        };
        let selected: usize = self.lot_index.saturating_sub(offset);
        let rows = match self.current_event() {
            Some(event) => rows_of_lots(&event.lots, offset, visible_rows),
            None => Vec::new(),
        };
        self.lot_offset = offset;
        (rows, Some(selected))
    }

    /// How the lines around a part of the screen look.
    pub fn border_tone(&self, pane: FocusPane) -> (r: BorderTone)
        ensures
            r == border_tone_of(*self, pane),
    {
        if let Some(target) = self.drag_target {
            if target == DragTarget::EventsWidth || pane != FocusPane::Events {
                return BorderTone::Dragged;
            }
        }
        if let Some(target) = self.resize_hover_target {
            if target == DragTarget::EventsWidth || pane != FocusPane::Events {
                return BorderTone::Hovered;
            }
        }
        if self.focus == pane {
            BorderTone::Focused
        } else {
            BorderTone::Plain
        }
    }

    /// The entries of the list of auctions, each with its lines.
    pub fn event_list(&self) -> (r: Vec<Vec<Line>>)
        ensures
            item_texts(r@) == event_items(self.shown()),
    {
        let mut items: Vec<Vec<Line>> = Vec::new();
        if self.events.len() == 0 {
            let lines = vec![line_of("No matching auctions found.".to_owned(), Tone::Plain)];
            assert(line_texts(lines@) =~= seq![
                seq![("No matching auctions found."@, Tone::Plain)],
            ]);
            items.push(lines);
            assert(item_texts(items@) =~= event_items(self.shown()));
            return items;
        }
        let mut i: usize = 0;
        while i < self.events.len()
            invariant
                self.events@.len() > 0,
                i <= self.events@.len(),
                items@.len() == i,
                forall|k: int|
                    0 <= k < i ==> line_texts((#[trigger] items@[k])@) == event_items(
                        self.shown(),
                    )[k],
            decreases self.events@.len() - i,
        {
            let (title, note) = event_row_texts(&self.events[i]);
            let lines = vec![line_of(title, Tone::Label), line_of(note, Tone::Muted)];
            assert(line_texts(lines@) =~= event_items(self.shown())[i as int]);
            items.push(lines);
            i += 1;
        }
        assert(item_texts(items@) =~= event_items(self.shown()));
        items
    }

    /// The lines of the header.
    pub fn header_lines(&self) -> (r: Vec<Line>)
        ensures
            line_texts(r@) == header_texts(*self),
    {
        let auctions = decimal_text(self.events.len() as u64);
        let lots = decimal_text(self.total_lots() as u64);
        let mut counts = concat(auctions.as_str(), " auctions | ");
        counts.append(lots.as_str());
        counts.append(" lots | focus: ");
        counts.append(self.focus.text());
        let mut asked = concat("city=", self.cli.city.as_str());
        asked.append(" | query=");
        match &self.cli.query {
            Some(query) => asked.append(query.as_str()),
            None => asked.append("all items"),
        }
        asked.append(" | sort=");
        asked.append(self.cli.sort.text());
        asked.append(" | include_past=");
        if self.cli.include_past {
            asked.append("true");
        } else {
            asked.append("false");
        }
        let loaded = format_loaded_at(&self.loaded_at);
        let first = Line {
            spans: vec![
                Span { text: "McDougall Browser".to_owned(), tone: Tone::Heading },
                Span { text: "  ".to_owned(), tone: Tone::Plain },
                Span { text: counts, tone: Tone::Plain },
            ],
        };
        assert(first@ =~= header_texts(*self)[0]);
        let r = vec![first, plain_line_of(asked.as_str()), plain_line_of(loaded.as_str())];
        assert(line_texts(r@) =~= header_texts(*self));
        r
    }

    /// The lines of the footer.
    pub fn footer_lines(&self) -> (r: Vec<String>)
        ensures
            texts(r@) == seq![self.status@, HELP_LINE@],
    {
        let r: Vec<String> = vec![self.status.clone(), HELP_LINE.to_owned()];
        assert(texts(r@) =~= seq![self.status@, HELP_LINE@]);
        r
    }
}

/// The rows of lots from one on, so many at most.
fn rows_of_lots(lots: &Vec<Lot>, from: usize, rows: usize) -> (r: Vec<String>)
    requires
        from <= lots@.len(),
    ensures
        texts(r@) == lot_rows(lot_texts(lots@), from as int, rows as nat),
{
    let end: usize = if rows > lots.len() - from {
        lots.len()
    } else {
        from + rows
    };
    let mut r: Vec<String> = Vec::new();
    let mut i: usize = from;
    while i < end
        invariant
            from <= i <= end <= lots@.len(),
            r@.len() == i - from,
            forall|k: int| 0 <= k < r@.len() ==> (#[trigger] r@[k])@ == lot_row(lots@[from + k]@),
        decreases end - i,
    {
        r.push(lot_row_text(&lots[i]));
        i += 1;
    }
    assert(texts(r@) =~= lot_rows(lot_texts(lots@), from as int, rows as nat));
    r
}

/// The lines on the details of a lot.
fn lines_of_details(details: &LotDetails) -> (r: Vec<Line>)
    ensures
        line_texts(r@) == loaded_lines(*details),
{
    let mut lines: Vec<Line> = Vec::new();
    assert(line_texts(lines@) =~= seq![]);
    if details.info_lines.len() > 0 {
        lines.push(line_of("Other Details".to_owned(), Tone::Heading));
        let ghost head = line_texts(lines@);
        let ghost all = plain_lines(texts(details.info_lines@));
        assert(head =~= seq![seq![("Other Details"@, Tone::Heading)]]);
        assert(head + all.take(0) =~= head);
        let mut i: usize = 0;
        while i < details.info_lines.len()
            invariant
                i <= details.info_lines@.len(),
                all == plain_lines(texts(details.info_lines@)),
                line_texts(lines@) == head + all.take(i as int),
            decreases details.info_lines@.len() - i,
        {
            let line = plain_line_of(details.info_lines[i].as_str());
            proof {
                assert(line@ == all[i as int]);
                assert(line_texts(lines@.push(line)) =~= line_texts(lines@).push(line@));
                assert(head + all.take(i + 1) =~= (head + all.take(i as int)).push(all[i as int]));
            }
            lines.push(line);
            i += 1;
        }
        assert(all.take(i as int) =~= all);
    }
    if details.documents.len() > 0 {
        let ghost info = line_texts(lines@);
        if lines.len() > 0 {
            lines.push(blank_line());
            assert(line_texts(lines@) =~= info.push(seq![]));
        }
        let ghost gap = line_texts(lines@);
        lines.push(line_of("Documents".to_owned(), Tone::Heading));
        let ghost head = line_texts(lines@);
        assert(head =~= gap + seq![seq![("Documents"@, Tone::Heading)]]);
        let ghost all = document_lines(link_texts(details.documents@));
        assert(head + all.take(0) =~= head);
        let mut i: usize = 0;
        while i < details.documents.len()
            invariant
                i <= details.documents@.len(),
                all == document_lines(link_texts(details.documents@)),
                line_texts(lines@) == head + all.take(i as int),
            decreases details.documents@.len() - i,
        {
            let mut text = concat(details.documents[i].label.as_str(), " - ");
            text.append(details.documents[i].url.as_str());
            let line = plain_line_of(text.as_str());
            proof {
                assert(line@ == all[i as int]);
                assert(line_texts(lines@.push(line)) =~= line_texts(lines@).push(line@));
                assert(head + all.take(i + 1) =~= (head + all.take(i as int)).push(all[i as int]));
            }
            lines.push(line);
            i += 1;
        }
        assert(all.take(i as int) =~= all);
    }
    lines
}

/// The two lines of an auction in their list.
pub fn event_row_texts(event: &AuctionEvent) -> (r: (String, String))
    ensures
        (r.0@, r.1@) == event_rows(event@),
{
    let close = event.primary_close_at();
    let close = format_close_time(&close);
    let lots = decimal_text(event.lots.len() as u64);
    let mut second = concat(event.location.as_str(), " | ");
    second.append(lots.as_str());
    second.append(" lots | closes ");
    second.append(close.as_str());
    (event.title.clone(), second)
}

/// A character so many times.
pub open spec fn repeated(c: char, n: nat) -> Seq<char> {
    Seq::new(n, |i: int| c)
}

/// The lines of the report on an auction: its title, underlined as long as its bytes, what is
/// known of it, and a table of its lots.
pub open spec fn report_of(event: AuctionText) -> Seq<Seq<char>> {
    seq![
        event.title,
        repeated('=', encode_utf8(event.title).len() as usize as nat),
        "Auction: "@ + event.url,
        "Location: "@ + event.location,
        "Lots: "@ + decimal(event.lots.len()),
        ""@,
        padded("Close"@, 19) + padded("Price"@, 14) + "Item"@,
    ] + event.lots.map_values(
        |lot: LotText|
            padded(close_time_text(lot.close_at), 19) + padded(lot.bid_display, 14) + lot.name,
    )
}

/// The lines of the report on auctions, with a blank line between two of them.
pub open spec fn report(events: Seq<AuctionText>) -> Seq<Seq<char>>
    decreases events.len(),
{
    if events.len() == 0 {
        seq![]
    } else if events.len() == 1 {
        report_of(events[0])
    } else {
        report(events.drop_last()).push(""@) + report_of(events.last())
    }
}

/// The row of a lot in a report.
fn report_row(lot: &Lot) -> (r: String)
    ensures
        r@ == padded(close_time_text(lot@.close_at), 19) + padded(lot@.bid_display, 14)
            + lot@.name,
{
    let close = format_close_time(&lot.close_at);
    let mut row = pad(close.as_str(), 19);
    let bid = pad(lot.bid_display.as_str(), 14);
    row.append(bid.as_str());
    row.append(lot.name.as_str());
    row
}

/// A line under a title.
fn underline(length: usize) -> (r: String)
    ensures
        r@ == repeated('=', length as nat),
{
    let mut line = String::new();
    let mut i: usize = 0;
    while i < length
        invariant
            i <= length,
            line@.len() == i,
            forall|k: int| 0 <= k < i ==> line@[k] == '=',
        decreases length - i,
    {
        line.push('=');
        i += 1;
    }
    assert(line@ =~= repeated('=', length as nat));
    line
}

/// The lines of the report on an auction.
fn report_event(event: &AuctionEvent) -> (r: Vec<String>)
    ensures
        texts(r@) == report_of(event@),
{
    let lots = decimal_text(event.lots.len() as u64);
    let mut heading = pad("Close", 19);
    let price = pad("Price", 14);
    heading.append(price.as_str());
    heading.append("Item");
    let mut lines: Vec<String> = vec![
        event.title.clone(),
        underline(event.title.as_str().len()),
        concat("Auction: ", event.url.as_str()),
        concat("Location: ", event.location.as_str()),
        concat("Lots: ", lots.as_str()),
        "".to_owned(),
        heading,
    ];
    let ghost head = texts(lines@);
    let ghost all = event@.lots.map_values(
        |lot: LotText|
            padded(close_time_text(lot.close_at), 19) + padded(lot.bid_display, 14) + lot.name,
    );
    assert(head + all =~= report_of(event@));
    assert(head + all.take(0) =~= head);
    let mut i: usize = 0;
    while i < event.lots.len()
        invariant
            i <= event.lots@.len(),
            all == event@.lots.map_values(
                |lot: LotText|
                    padded(close_time_text(lot.close_at), 19) + padded(lot.bid_display, 14)
                        + lot.name,
            ),
            texts(lines@) == head + all.take(i as int),
        decreases event.lots@.len() - i,
    {
        let row = report_row(&event.lots[i]);
        proof {
            assert(event@.lots[i as int] == event.lots@[i as int]@);
            assert(row@ == all[i as int]);
            assert(texts(lines@.push(row)) =~= texts(lines@).push(row@));
            assert(head + all.take(i + 1) =~= (head + all.take(i as int)).push(all[i as int]));
        }
        lines.push(row);
        i += 1;
    }
    assert(all.take(i as int) =~= all);
    lines
}

/// The lines of the report on auctions.
pub fn plain_report(events: &Vec<AuctionEvent>) -> (r: Vec<String>)
    ensures
        texts(r@) == if events@.len() == 0 {
            seq!["No matching auction lots found."@]
        } else {
            report(auction_texts(events@))
        },
{
    if events.len() == 0 {
        let lines: Vec<String> = vec!["No matching auction lots found.".to_owned()];
        assert(texts(lines@) =~= seq!["No matching auction lots found."@]);
        return lines;
    }
    let ghost all = auction_texts(events@);
    let mut lines: Vec<String> = Vec::new();
    let mut i: usize = 0;
    assert(texts(lines@) =~= report(all.take(0)));
    while i < events.len()
        invariant
            i <= events@.len(),
            all == auction_texts(events@),
            texts(lines@) == report(all.take(i as int)),
        decreases events@.len() - i,
    {
        let ghost before = texts(lines@);
        proof {
            let next = all.take(i + 1);
            assert(next.drop_last() =~= all.take(i as int));
            assert(next.last() == events@[i as int]@);
        }
        if i > 0 {
            lines.push("".to_owned());
            assert(texts(lines@) =~= before.push(""@));
        }
        let ghost gap = texts(lines@);
        let mut more = report_event(&events[i]);
        let ghost own = texts(more@);
        lines.append(&mut more);
        assert(texts(lines@) =~= gap + own);
        i += 1;
    }
    assert(all.take(i as int) =~= all);
    lines
}

/// A row of the lots starts with the closing time, has the bid behind it and ends with the name.
/// Where these are no longer than their columns, the bid stands in the twentieth column and the
/// name in the thirty-third, below the words for them in the heading.
pub proof fn law_row_shows_close_bid_and_name(lot: LotText)
    ensures
        close_time_text(lot.close_at).is_prefix_of(lot_row(lot)),
        contains(lot_row(lot), lot.bid_display),
        lot.name.is_suffix_of(lot_row(lot)),
        close_time_text(lot.close_at).len() <= 18 && lot.bid_display.len() <= 12 ==> {
            &&& lot_row(lot).subrange(19, 19 + lot.bid_display.len() as int) == lot.bid_display
            &&& lot_row(lot).skip(32) == lot.name
        },
        lots_heading_text()[0].0.len() + lots_heading_text()[1].0.len() == 19,
        lots_heading_text()[2].0.len() + lots_heading_text()[3].0.len() == 32 - 19,
        lots_heading_text()[0].0 == "Close"@ && lots_heading_text()[2].0 == "Price"@
            && lots_heading_text()[4].0 == "Item"@,
{
    reveal_strlit(" ");
    reveal_strlit("Close");
    reveal_strlit("Price");
    reveal_strlit("              ");
    reveal_strlit("        ");
    let close = close_time_text(lot.close_at);
    let row = lot_row(lot);
    let first = padded(close, 18);
    let second = padded(lot.bid_display, 12);
    law_padding_only_adds_spaces(close, 18);
    law_padding_only_adds_spaces(lot.bid_display, 12);
    assert(close =~= row.take(close.len() as int));
    assert(lot.name =~= row.skip(row.len() - lot.name.len()));
    let n = first.len() as int + 1;
    assert(row.subrange(n, n + lot.bid_display.len()) =~= second.take(lot.bid_display.len() as int));
    assert(second.take(lot.bid_display.len() as int) =~= lot.bid_display);
    assert(occurs_at(row, lot.bid_display, n));
    if close.len() <= 18 && lot.bid_display.len() <= 12 {
        assert(row.skip(32) =~= lot.name);
    }
}

/// The rows of the lots that are drawn are those of the lots from the first one on, one for each,
/// as many as there is room for.
pub proof fn law_rows_are_those_of_the_lots(lots: Seq<LotText>, from: int, rows: nat)
    requires
        0 <= from <= lots.len(),
    ensures
        lot_rows(lots, from, rows).len() == if from + rows > lots.len() {
            lots.len() - from
        } else {
            rows as int
        },
        forall|i: int|
            0 <= i < lot_rows(lots, from, rows).len() ==> #[trigger] lot_rows(lots, from, rows)[i]
                == lot_row(lots[from + i]),
{
}

/// The selected lot is among the lots that are drawn, and no drawing starts behind the last lot;
/// the list stays where it is while the selected lot is in it.
pub proof fn law_selected_lot_is_drawn<P, B>(app: App<P, B>, rows: nat)
    requires
        rows > 0,
        app.lot_index < lot_count(app.shown(), app.event_index as nat),
    ensures
        0 <= first_lot_row(app, rows) <= app.lot_index < first_lot_row(app, rows) + rows,
        app.lot_offset <= app.lot_index < app.lot_offset + rows ==> first_lot_row(app, rows)
            == app.lot_offset,
{
    let events = app.events@;
    assert(events[app.event_index as int].lots.len() == lot_count(
        app.shown(),
        app.event_index as nat,
    ));
}

/// A line takes as many rows as are needed for its characters, and not one more; one without
/// characters takes one.
pub proof fn law_line_takes_the_rows_it_needs(line: LineText, width: nat)
    requires
        width > 0,
    ensures
        rows_of(line, width) * width >= line_width(line),
        line_width(line) > 0 ==> (rows_of(line, width) - 1) * width < line_width(line),
        line_width(line) == 0 ==> rows_of(line, width) == 1,
        forall|text: Seq<char>, tone: Tone| #[trigger]
            line_width(line.push((text, tone))) == counted((line_width(line) + text.len()) as int),
{
    let n: int = if line_width(line) > 0 {
        line_width(line) as int
    } else {
        1
    };
    let w = width as int;
    let q = (n - 1) / w;
    assert((q + 1) * w >= n && q * w < n) by (nonlinear_arith)
        requires
            q == (n - 1) / w,
            w > 0,
    ;
    assert forall|text: Seq<char>, tone: Tone| #[trigger]
        line_width(line.push((text, tone))) == counted((line_width(line) + text.len()) as int) by {
        assert(line.push((text, tone)).drop_last() =~= line);
    }
    if line_width(line) == 0 {
        assert(0int / w == 0) by (nonlinear_arith)
            requires
                w > 0,
        ;
    }
}

/// Some lines say a text in one piece.
pub open spec fn say(lines: Seq<LineText>, text: Seq<char>) -> bool {
    exists|i: int, k: int|
        0 <= i < lines.len() && 0 <= k < lines[i].len() && contains(
            (#[trigger] lines[i][k]).0,
            text,
        )
}

/// A text stands in one that is put together around it.
proof fn lemma_stands_within(a: Seq<char>, text: Seq<char>, b: Seq<char>)
    ensures
        contains(a + text + b, text),
        contains(a + text, text),
        contains(text + b, text),
        contains(text, text),
{
    let n = a.len() as int;
    assert((a + text + b).subrange(n, n + text.len()) =~= text);
    assert(occurs_at(a + text + b, text, n));
    assert((a + text).subrange(n, n + text.len()) =~= text);
    assert(occurs_at(a + text, text, n));
    assert((text + b).subrange(0, text.len() as int) =~= text);
    assert(occurs_at(text + b, text, 0));
    assert(text.subrange(0, text.len() as int) =~= text);
    assert(occurs_at(text, text, 0));
}

/// A plain line of a text without line breaks is the text in one piece.
pub proof fn law_plain_line_is_its_text(text: Seq<char>)
    requires
        text.len() > 0,
        !text.contains('\n'),
    ensures
        plain_line(text) == seq![(text, Tone::Plain)],
{
    law_lines_end_at_line_feeds(text, seq![]);
    assert(plain_line(text) =~= seq![(text, Tone::Plain)]);
}

/// The details of a lot start with its name, and say its bid, whether it is open, when it closes,
/// where it is and what its auction is called.
pub proof fn law_details_say_what_is_selected(event: AuctionText, lot: LotText, now: (int, int))
    ensures
        ({
            let lines = summary_lines(Some(event), Some(lot), now);
            &&& lines.len() > 0 && lines[0] == seq![(lot.name, Tone::Title)]
            &&& say(lines, lot.bid_display)
            &&& say(lines, status_of(lot, now))
            &&& say(lines, close_time_text(lot.close_at))
            &&& say(lines, lot.location)
            &&& say(lines, event.title)
        }),
        ({
            let lines = summary_lines(Some(event), None, now);
            &&& lines.len() > 0 && lines[0] == seq![(event.title, Tone::Title)]
            &&& say(lines, event.location)
            &&& say(lines, event.url)
            &&& say(lines, "No lot is currently selected."@)
        }),
{
    let lines = summary_lines(Some(event), Some(lot), now);
    let none = Seq::<char>::empty();
    lemma_stands_within(none, lot.bid_display, none);
    lemma_stands_within(none, status_of(lot, now), none);
    lemma_stands_within(none, close_time_text(lot.close_at), none);
    lemma_stands_within(none, lot.location, none);
    lemma_stands_within(none, event.title, none);
    lemma_stands_within(none, event.location, none);
    lemma_stands_within(none, event.url, none);
    lemma_stands_within(none, "No lot is currently selected."@, none);
    assert(lines[1][1].0 == lot.bid_display);
    assert(lines[2][1].0 == status_of(lot, now));
    assert(lines[2][4].0 == close_time_text(lot.close_at));
    assert(lines[3][1].0 == lot.location);
    assert(lines[4][1].0 == event.title);
    let other = summary_lines(Some(event), None, now);
    assert(other[1][1].0 == event.location);
    assert(other[2][1].0 == event.url);
    assert(other[3][0].0 == "No lot is currently selected."@);
}

/// A piece of one of some lines is said by them.
proof fn lemma_said(lines: Seq<LineText>, i: int, k: int, text: Seq<char>)
    requires
        0 <= i < lines.len(),
        0 <= k < lines[i].len(),
        contains(lines[i][k].0, text),
    ensures
        say(lines, text),
{
}

/// There are at least as many lines on the details as they have lines and documents.
proof fn lemma_notes_are_as_many(details: LotDetails)
    ensures
        ({
            let n = note_lines(Some(FetchState::Loaded(details))).len();
            &&& details@.info_lines.len() > 0 ==> n >= details@.info_lines.len() + 1
            &&& details@.documents.len() > 0 ==> n >= details@.documents.len() + 1
        }),
{
}

/// Where the details of a lot have come, their lines say each line of them.
#[verifier::spinoff_prover]
#[verifier::rlimit(40)]
pub proof fn law_notes_say_the_lines(details: LotDetails, i: int)
    requires
        0 <= i < details@.info_lines.len(),
        details@.info_lines[i].len() > 0,
        !details@.info_lines[i].contains('\n'),
    ensures
        say(note_lines(Some(FetchState::Loaded(details))), details@.info_lines[i]),
{
    let lines = note_lines(Some(FetchState::Loaded(details)));
    let line = details@.info_lines[i];
    let none = Seq::<char>::empty();
    law_plain_line_is_its_text(line);
    lemma_stands_within(none, line, none);
    law_notes_keep_their_order(details, i);
    lemma_notes_are_as_many(details);
    lemma_said(lines, 1 + i, 0, line);
}

/// A line that is a text of two parts says both.
proof fn lemma_both_parts_are_said(
    lines: Seq<LineText>,
    at: int,
    first: Seq<char>,
    gap: Seq<char>,
    second: Seq<char>,
)
    requires
        0 <= at < lines.len(),
        lines[at] == plain_line(first + gap + second),
        gap.len() > 0,
        !first.contains('\n') && !gap.contains('\n') && !second.contains('\n'),
    ensures
        say(lines, first),
        say(lines, second),
{
    let none = Seq::<char>::empty();
    let text = first + gap + second;
    lemma_no_break(first, gap);
    lemma_no_break(first + gap, second);
    law_plain_line_is_its_text(text);
    assert(text =~= first + (gap + second));
    lemma_stands_within(none, first, gap + second);
    lemma_stands_within(first + gap, second, none);
    lemma_said(lines, at, 0, first);
    lemma_said(lines, at, 0, second);
}

/// Where the details of a lot have come, their lines say each document with its label and its
/// address.
#[verifier::spinoff_prover]
#[verifier::rlimit(40)]
pub proof fn law_notes_say_the_documents(details: LotDetails, i: int)
    requires
        0 <= i < details@.documents.len(),
        !details@.documents[i].0.contains('\n'),
        !details@.documents[i].1.contains('\n'),
    ensures
        say(note_lines(Some(FetchState::Loaded(details))), details@.documents[i].0),
        say(note_lines(Some(FetchState::Loaded(details))), details@.documents[i].1),
{
    let lines = note_lines(Some(FetchState::Loaded(details)));
    assert(!" - "@.contains('\n') && " - "@.len() > 0) by {
        reveal_strlit(" - ");
    }
    law_notes_keep_their_order(details, i);
    lemma_notes_are_as_many(details);
    lemma_both_parts_are_said(
        lines,
        lines.len() - details@.documents.len() + i,
        details@.documents[i].0,
        " - "@,
        details@.documents[i].1,
    );
}

/// Where the details of a lot failed to come, the line says why; and details without lines and
/// documents take none.
pub proof fn law_notes_say_the_error(details: LotDetails, error: String)
    ensures
        !error@.contains('\n') ==> say(
            note_lines(Some(FetchState::<LotDetails>::Failed(error))),
            error@,
        ),
        details@.info_lines.len() == 0 && details@.documents.len() == 0 ==> note_lines(
            Some(FetchState::Loaded(details)),
        ).len() == 0,
{
    if !error@.contains('\n') {
        let words = "Could not load listing details: "@;
        let none = Seq::<char>::empty();
        assert(!words.contains('\n') && words.len() > 0) by {
            reveal_strlit("Could not load listing details: ");
        }
        lemma_no_break(words, error@);
        law_plain_line_is_its_text(words + error@);
        lemma_stands_within(words, error@, none);
        let failed = note_lines(Some(FetchState::<LotDetails>::Failed(error)));
        assert(failed[0] == plain_line(words + error@));
        lemma_said(failed, 0, 0, error@);
    }
}

/// The lines of the details are those on what is selected, and then those on its details.
pub proof fn law_details_follow_the_summary(summary: Seq<LineText>, notes: Seq<LineText>)
    ensures
        summary.is_prefix_of(detail_lines(summary, notes)),
        notes.is_suffix_of(detail_lines(summary, notes)),
        notes.len() > 0 ==> detail_lines(summary, notes).len() == summary.len() + 1 + notes.len(),
{
    let all = detail_lines(summary, notes);
    assert(summary =~= all.take(summary.len() as int));
    assert(notes =~= all.skip(all.len() - notes.len()));
}

/// An auction's entry says its title, and below it where it is, how many lots it has and when it
/// closes.
pub proof fn law_auction_entry_says_what_it_is(events: Seq<AuctionText>, i: int)
    requires
        0 <= i < events.len(),
    ensures
        event_items(events).len() == events.len(),
        event_items(events)[i].len() == 2,
        event_items(events)[i][0] == seq![(events[i].title, Tone::Label)],
        say(seq![event_items(events)[i][1]], events[i].location),
        say(seq![event_items(events)[i][1]], decimal(events[i].lots.len()) + " lots"@),
        say(seq![event_items(events)[i][1]], close_time_text(primary_close(events[i]))),
{
    reveal_strlit(" lots");
    reveal_strlit(" lots | closes ");
    let event = events[i];
    let line = event_items(events)[i][1];
    let text = event_rows(event).1;
    let lines = seq![line];
    let none = Seq::<char>::empty();
    let count = decimal(event.lots.len()) + " lots"@;
    let close = close_time_text(primary_close(event));
    let mid = " lots | closes "@;
    let tail = mid.skip(5) + close;
    assert(mid =~= " lots"@ + mid.skip(5));
    assert(text =~= event.location + (" | "@ + count + tail));
    lemma_stands_within(none, event.location, " | "@ + count + tail);
    assert(text =~= (event.location + " | "@) + count + tail);
    lemma_stands_within(event.location + " | "@, count, tail);
    assert(text =~= (event.location + " | "@ + decimal(event.lots.len()) + mid) + close);
    lemma_stands_within(event.location + " | "@ + decimal(event.lots.len()) + mid, close, none);
    assert(lines[0][0].0 == text);
}

/// Of four texts put together with words before them, each stands behind its words.
proof fn lemma_worded(
    a: Seq<char>,
    w: Seq<char>,
    b: Seq<char>,
    x: Seq<char>,
    c: Seq<char>,
    y: Seq<char>,
    d: Seq<char>,
    z: Seq<char>,
)
    ensures
        ({
            let whole = a + w + b + x + c + y + d + z;
            &&& contains(whole, a + w)
            &&& contains(whole, b + x)
            &&& contains(whole, c + y)
            &&& contains(whole, d + z)
        }),
{
    let whole = a + w + b + x + c + y + d + z;
    let none = Seq::<char>::empty();
    assert(whole =~= none + (a + w) + (b + x + c + y + d + z));
    lemma_stands_within(none, a + w, b + x + c + y + d + z);
    assert(whole =~= (a + w) + (b + x) + (c + y + d + z));
    lemma_stands_within(a + w, b + x, c + y + d + z);
    assert(whole =~= (a + w + b + x) + (c + y) + (d + z));
    lemma_stands_within(a + w + b + x, c + y, d + z);
    assert(whole =~= (a + w + b + x + c + y) + (d + z));
    lemma_stands_within(a + w + b + x + c + y, d + z, none);
}

/// Of four texts put together with words before them none has a line break if they have none.
proof fn lemma_worded_without_break(
    a: Seq<char>,
    w: Seq<char>,
    b: Seq<char>,
    x: Seq<char>,
    c: Seq<char>,
    y: Seq<char>,
    d: Seq<char>,
    z: Seq<char>,
)
    requires
        !a.contains('\n') && !w.contains('\n') && !b.contains('\n') && !x.contains('\n'),
        !c.contains('\n') && !y.contains('\n') && !d.contains('\n') && !z.contains('\n'),
    ensures
        !(a + w + b + x + c + y + d + z).contains('\n'),
{
    lemma_no_break(a, w);
    lemma_no_break(a + w, b);
    lemma_no_break(a + w + b, x);
    lemma_no_break(a + w + b + x, c);
    lemma_no_break(a + w + b + x + c, y);
    lemma_no_break(a + w + b + x + c + y, d);
    lemma_no_break(a + w + b + x + c + y + d, z);
}

/// The words of the header's second line have no line breaks.
proof fn lemma_header_words_without_break(sort: SortKey, b: bool)
    ensures
        !"city="@.contains('\n') && "city="@.len() > 0,
        !" | query="@.contains('\n'),
        !" | sort="@.contains('\n'),
        !" | include_past="@.contains('\n'),
        !"all items"@.contains('\n'),
        !sort.name().contains('\n'),
        !yes_or_no(b).contains('\n'),
{
    reveal_strlit("city=");
    reveal_strlit(" | query=");
    reveal_strlit(" | sort=");
    reveal_strlit(" | include_past=");
    reveal_strlit("all items");
    reveal_strlit("close");
    reveal_strlit("price");
    reveal_strlit("name");
    reveal_strlit("true");
    reveal_strlit("false");
}

/// The header says how much is shown and what has the focus, and below it the city and the query
/// that are asked for, the order, and whether past lots are shown.
pub proof fn law_header_says_what_is_asked_for<P, B>(app: App<P, B>)
    requires
        !app.cli.city@.contains('\n'),
        app.cli.query matches Some(query) ==> !query@.contains('\n'),
    ensures
        ({
            let first = header_texts(app)[0][2].0;
            let second = header_texts(app)[1][0].0;
            &&& header_texts(app).len() == 3
            &&& header_texts(app)[1].len() == 1
            &&& contains(first, decimal(app.shown().len()) + " auctions | "@)
            &&& contains(first, decimal(all_lots(app.shown()).len()) + " lots | focus: "@)
            &&& contains(first, app.focus.name())
            &&& contains(second, "city="@ + app.cli.city@)
            &&& (app.cli.query matches Some(query) ==> contains(second, " | query="@ + query@))
            &&& (app.cli.query is None ==> contains(second, " | query="@ + "all items"@))
            &&& contains(second, " | sort="@ + app.cli.sort.name())
            &&& contains(second, " | include_past="@ + if app.cli.include_past {
                "true"@
            } else {
                "false"@
            })
        }),
{
    let none = Seq::<char>::empty();
    let auctions = decimal(app.shown().len());
    let lots = decimal(all_lots(app.shown()).len());
    let name = app.focus.name();
    let first = auctions + " auctions | "@ + lots + " lots | focus: "@ + name;
    assert(header_texts(app)[0][2].0 == first);
    lemma_worded(
        auctions,
        " auctions | "@,
        lots,
        " lots | focus: "@,
        name,
        none,
        none,
        none,
    );
    assert(first + none + none + none =~= first);
    assert(name + none =~= name);
    let city = app.cli.city@;
    let query = query_words(app);
    let sort = app.cli.sort.name();
    let past = yes_or_no(app.cli.include_past);
    lemma_header_words_without_break(app.cli.sort, app.cli.include_past);
    lemma_worded_without_break(
        "city="@,
        city,
        " | query="@,
        query,
        " | sort="@,
        sort,
        " | include_past="@,
        past,
    );
    lemma_worded(
        "city="@,
        city,
        " | query="@,
        query,
        " | sort="@,
        sort,
        " | include_past="@,
        past,
    );
    law_plain_line_is_its_text(
        "city="@ + city + " | query="@ + query + " | sort="@ + sort + " | include_past="@ + past,
    );
}

/// Two texts without line breaks have none together.
proof fn lemma_no_break(a: Seq<char>, b: Seq<char>)
    requires
        !a.contains('\n'),
        !b.contains('\n'),
    ensures
        !(a + b).contains('\n'),
{
    let s = a + b;
    assert forall|k: int| 0 <= k < s.len() implies s[k] != '\n' by {
        if k < a.len() {
            assert(a.contains(a[k]));
        } else {
            assert(b.contains(b[k - a.len()]));
        }
    }
}

/// The report holds the report on each auction, in their order: its title, its address, where it
/// is and how many lots it has, and a row for each of its lots with the closing time, the bid and
/// the name.
pub proof fn law_report_holds_every_auction_and_lot(events: Seq<AuctionText>, i: int)
    requires
        0 <= i < events.len(),
    ensures
        exists|at: int| #![trigger report(events)[at]]
            0 <= at && at + 7 + events[i].lots.len() <= report(events).len() && {
                &&& report(events)[at] == events[i].title
                &&& report(events)[at + 2] == "Auction: "@ + events[i].url
                &&& report(events)[at + 3] == "Location: "@ + events[i].location
                &&& report(events)[at + 4] == "Lots: "@ + decimal(events[i].lots.len())
                &&& forall|k: int| #![trigger events[i].lots[k]]
                    0 <= k < events[i].lots.len() ==> {
                        let row = report(events)[at + 7 + k];
                        let lot = events[i].lots[k];
                        &&& close_time_text(lot.close_at).is_prefix_of(row)
                        &&& contains(row, lot.bid_display)
                        &&& lot.name.is_suffix_of(row)
                    }
            },
    decreases events.len(),
{
    let all = report(events);
    if i < events.len() - 1 {
        let rest = events.drop_last();
        law_report_holds_every_auction_and_lot(rest, i);
        assert(rest[i] == events[i]);
        let before = report(rest);
        let at = choose|at: int| #![trigger before[at]]
            0 <= at && at + 7 + rest[i].lots.len() <= before.len() && {
                &&& before[at] == rest[i].title
                &&& before[at + 2] == "Auction: "@ + rest[i].url
                &&& before[at + 3] == "Location: "@ + rest[i].location
                &&& before[at + 4] == "Lots: "@ + decimal(rest[i].lots.len())
                &&& forall|k: int| #![trigger rest[i].lots[k]]
                    0 <= k < rest[i].lots.len() ==> {
                        let row = before[at + 7 + k];
                        let lot = rest[i].lots[k];
                        &&& close_time_text(lot.close_at).is_prefix_of(row)
                        &&& contains(row, lot.bid_display)
                        &&& lot.name.is_suffix_of(row)
                    }
            };
        assert(all[at] == events[i].title);
        assert forall|k: int| #![trigger events[i].lots[k]]
            0 <= k < events[i].lots.len() implies ({
            let row = all[at + 7 + k];
            let lot = events[i].lots[k];
            &&& close_time_text(lot.close_at).is_prefix_of(row)
            &&& contains(row, lot.bid_display)
            &&& lot.name.is_suffix_of(row)
        }) by {
            assert(all[at + 7 + k] == before[at + 7 + k]);
            assert(rest[i].lots[k] == events[i].lots[k]);
        }
    } else {
        let event = events[i];
        let own = report_of(event);
        let at = all.len() - own.len();
        assert(all.skip(at) =~= own);
        assert(forall|j: int| 0 <= j < own.len() ==> all[at + j] == #[trigger] own[j]);
        assert(own[0] == event.title);
        assert(all[at + 0] == own[0]);
        assert(all[at + 2] == own[2]);
        assert(all[at + 3] == own[3]);
        assert(all[at + 4] == own[4]);
        assert forall|k: int| #![trigger events[i].lots[k]]
            0 <= k < events[i].lots.len() implies ({
            let row = all[at + 7 + k];
            let lot = events[i].lots[k];
            &&& close_time_text(lot.close_at).is_prefix_of(row)
            &&& contains(row, lot.bid_display)
            &&& lot.name.is_suffix_of(row)
        }) by {
            let lot = events[i].lots[k];
            let row = own[7 + k];
            assert(all[at + (7 + k)] == row);
            let close = close_time_text(lot.close_at);
            let first = padded(close, 19);
            let second = padded(lot.bid_display, 14);
            assert(row == first + second + lot.name);
            law_padding_only_adds_spaces(close, 19);
            law_padding_only_adds_spaces(lot.bid_display, 14);
            assert(close =~= row.take(close.len() as int));
            assert(lot.name =~= row.skip(row.len() - lot.name.len()));
            let n = first.len() as int;
            assert(row.subrange(n, n + lot.bid_display.len()) =~= second.take(
                lot.bid_display.len() as int,
            ));
            assert(second.take(lot.bid_display.len() as int) =~= lot.bid_display);
            assert(occurs_at(row, lot.bid_display, n));
        }
    }
}

/// The lines around a part of the screen show that it has the focus, unless a border of it is
/// held or under the mouse; a border that is held shows before one that is under the mouse. The
/// border of the auctions is one of all three parts, the other one of lots and details only.
pub proof fn law_borders_show_focus_and_dragging<P, B>(app: App<P, B>, pane: FocusPane)
    ensures
        app.drag_target is None && app.resize_hover_target is None ==> (border_tone_of(app, pane)
            == BorderTone::Focused <==> app.focus == pane),
        app.drag_target is None && app.resize_hover_target is None && app.focus != pane
            ==> border_tone_of(app, pane) == BorderTone::Plain,
        app.drag_target == Some(DragTarget::EventsWidth) ==> border_tone_of(app, pane)
            == BorderTone::Dragged,
        app.drag_target == Some(DragTarget::LotsDetailsSplit) ==> (border_tone_of(app, pane)
            == BorderTone::Dragged <==> pane != FocusPane::Events),
        app.drag_target is None && app.resize_hover_target == Some(DragTarget::EventsWidth)
            ==> border_tone_of(app, pane) == BorderTone::Hovered,
        app.drag_target is None && app.resize_hover_target == Some(DragTarget::LotsDetailsSplit)
            ==> (border_tone_of(app, pane) == BorderTone::Hovered <==> pane != FocusPane::Events),
{
}

/// Some lines say a value right behind its label.
pub open spec fn say_as(lines: Seq<LineText>, label: Seq<char>, value: Seq<char>) -> bool {
    exists|i: int, k: int|
        0 <= i < lines.len() && 0 <= k < lines[i].len() - 1 && (#[trigger] lines[i][k]) == (
            label,
            Tone::Label,
        ) && lines[i][k + 1].0 == value
}

/// The details of a lot say its bid, whether it is open, when it closes, where it is and what its
/// auction is called, each behind the label for it.
pub proof fn law_details_label_what_they_say(event: AuctionText, lot: LotText, now: (int, int))
    ensures
        ({
            let lines = summary_lines(Some(event), Some(lot), now);
            &&& say_as(lines, "Bid"@ + ": "@, lot.bid_display)
            &&& say_as(lines, "Status: "@, status_of(lot, now))
            &&& say_as(lines, "Closes: "@, close_time_text(lot.close_at))
            &&& say_as(lines, "Lot Location"@ + ": "@, lot.location)
            &&& say_as(lines, "Auction"@ + ": "@, event.title)
        }),
        ({
            let lines = summary_lines(Some(event), None, now);
            &&& say_as(lines, "Auction Location"@ + ": "@, event.location)
            &&& say_as(lines, "Auction URL"@ + ": "@, event.url)
        }),
{
    let lines = summary_lines(Some(event), Some(lot), now);
    assert(lines[1][0] == ("Bid"@ + ": "@, Tone::Label) && lines[1][0int + 1].0 == lot.bid_display);
    assert(lines[2][0] == ("Status: "@, Tone::Label) && lines[2][0int + 1].0 == status_of(lot, now));
    assert(lines[2][3] == ("Closes: "@, Tone::Label) && lines[2][3int + 1].0 == close_time_text(
        lot.close_at,
    ));
    assert(lines[3][0] == ("Lot Location"@ + ": "@, Tone::Label) && lines[3][0int + 1].0
        == lot.location);
    assert(lines[4][0] == ("Auction"@ + ": "@, Tone::Label) && lines[4][0int + 1].0 == event.title);
    let other = summary_lines(Some(event), None, now);
    assert(other[1][0] == ("Auction Location"@ + ": "@, Tone::Label) && other[1][0int + 1].0
        == event.location);
    assert(other[2][0] == ("Auction URL"@ + ": "@, Tone::Label) && other[2][0int + 1].0 == event.url);
}

/// The lines on the details stand in their order below one heading, and the documents in theirs
/// below another, at the end.
#[verifier::spinoff_prover]
#[verifier::rlimit(40)]
pub proof fn law_notes_keep_their_order(details: LotDetails, i: int)
    ensures
        ({
            let lines = note_lines(Some(FetchState::Loaded(details)));
            let info = details@.info_lines;
            let documents = details@.documents;
            &&& info.len() > 0 ==> lines[0] == seq![("Other Details"@, Tone::Heading)]
            &&& 0 <= i < info.len() ==> lines[1 + i] == plain_line(info[i])
            &&& documents.len() > 0 ==> lines[lines.len() - documents.len() - 1] == seq![
                ("Documents"@, Tone::Heading),
            ]
            &&& 0 <= i < documents.len() ==> lines[lines.len() - documents.len() + i]
                == plain_line(documents[i].0 + " - "@ + documents[i].1)
        }),
{
    let lines = note_lines(Some(FetchState::Loaded(details)));
    let info = plain_lines(details@.info_lines);
    let documents = document_lines(details@.documents);
    if 0 <= i < info.len() {
        assert(info[i] == plain_line(details@.info_lines[i]));
    }
    if 0 <= i < documents.len() {
        assert(documents[i] == plain_line(
            details@.documents[i].0 + " - "@ + details@.documents[i].1,
        ));
    }
}

/// The list of lots moves no further than it must: to the selected lot where that is above, and
/// so that it is the last one where it is below.
pub proof fn law_list_moves_no_further_than_it_must<P, B>(app: App<P, B>, rows: nat)
    requires
        0 < rows <= usize::MAX,
        app.lot_index < lot_count(app.shown(), app.event_index as nat),
        app.lot_offset + rows <= usize::MAX,
    ensures
        app.lot_index < app.lot_offset ==> first_lot_row(app, rows) == app.lot_index,
        app.lot_index >= app.lot_offset + rows ==> first_lot_row(app, rows) == app.lot_index + 1
            - rows,
{
    let events = app.events@;
    assert(events[app.event_index as int].lots.len() == lot_count(
        app.shown(),
        app.event_index as nat,
    ));
}

/// The report on an auction has its title underlined and its lots in a table: where the closing
/// time and the bid are no longer than their columns, the bid stands in the twentieth column and
/// the name in the thirty-fourth, as their headings do.
pub proof fn law_report_is_a_table(event: AuctionText, k: int)
    requires
        0 <= k < event.lots.len(),
        encode_utf8(event.title).len() <= usize::MAX,
    ensures
        report_of(event).len() == 7 + event.lots.len(),
        report_of(event)[1].len() == encode_utf8(event.title).len(),
        forall|i: int| 0 <= i < report_of(event)[1].len() ==> #[trigger] report_of(event)[1][i] == '=',
        report_of(event)[6].subrange(0, 5) == "Close"@,
        report_of(event)[6].subrange(19, 24) == "Price"@,
        report_of(event)[6].skip(33) == "Item"@,
        close_time_text(event.lots[k].close_at).len() <= 19 && event.lots[k].bid_display.len() <= 14
            ==> {
            let row = report_of(event)[7 + k];
            &&& row.subrange(19, 19 + event.lots[k].bid_display.len() as int)
                == event.lots[k].bid_display
            &&& row.skip(33) == event.lots[k].name
        },
{
    reveal_strlit("Close");
    reveal_strlit("Price");
    reveal_strlit("Item");
    let heading = report_of(event)[6];
    law_padding_only_adds_spaces("Close"@, 19);
    law_padding_only_adds_spaces("Price"@, 14);
    assert(heading.subrange(0, 5) =~= padded("Close"@, 19).take(5));
    assert(heading.subrange(19, 24) =~= padded("Price"@, 14).take(5));
    assert(heading.skip(33) =~= "Item"@);
    let lot = event.lots[k];
    let close = close_time_text(lot.close_at);
    let row = report_of(event)[7 + k];
    assert(row == padded(close, 19) + padded(lot.bid_display, 14) + lot.name);
    law_padding_only_adds_spaces(close, 19);
    law_padding_only_adds_spaces(lot.bid_display, 14);
    if close.len() <= 19 && lot.bid_display.len() <= 14 {
        let n = lot.bid_display.len() as int;
        assert(row.subrange(19, 19 + n) =~= padded(lot.bid_display, 14).take(n));
        assert(row.skip(33) =~= lot.name);
    }
}

/// The header says when the listings were loaded, on Regina's clocks.
pub proof fn law_header_says_when_it_was_loaded<P, B>(app: App<P, B>)
    ensures
        header_texts(app)[2] == plain_line(
            "loaded "@ + regina_text(
                app.loaded_at@.0,
                app.loaded_at@.1,
                "%Y-%m-%d %I:%M:%S %P CST"@,
            ),
        ),
        header_texts(app)[0][0] == ("McDougall Browser"@, Tone::Heading),
{
}

} // verus!
