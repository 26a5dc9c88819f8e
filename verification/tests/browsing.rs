use mcdougs::browser::{App, DragTarget, FocusPane};
use mcdougs::catalog::{AuctionEvent, Cli, SortKey};
use mcdougs::desk::FetchState;
use mcdougs::drawing::{PhotoPlan, PhotoRender};
use mcdougs::gallery::TerminalPhotoState;
use mcdougs::keyboard::{KeyAction, KeyPress};
use mcdougs::fetching::{
    after_fetch, after_keep, after_load, first_step, FetchRequest, FetchStep,
};
use mcdougs::frames::{frame_step, takes_input};
use mcdougs::layout::{compute_layout, contains_point, split_outer, PaneSizes, Rect};
use mcdougs::listing::{DetailLink, Lot, LotDetails};
use mcdougs::moments::Moment;
use mcdougs::pointer::{
    drag_target_at, near_line, percent_from_position, resize_status, Mouse, MouseAction, MouseKind,
};
use mcdougs::preview::PhotoPreview;
use mcdougs::profile::{
    image_mode_fast, image_mode_value, images_enabled, FrameProfile, GraphicsFound,
};
use mcdougs::queues::positions_by_priority;
use mcdougs::screen::{event_row_texts, lots_heading, visible_rows_in, BorderTone, Tone};

type TestApp = App<u8, u32>;

fn moment(seconds: i64) -> Moment {
    Moment::new(seconds, 0).unwrap()
}

fn lot(name: &str, close: Option<i64>, photo: Option<&str>) -> Lot {
    Lot {
        name: name.to_string(),
        url: format!("u/{name}"),
        thumbnail_url: photo.map(str::to_string),
        location: "Saskatoon".to_string(),
        bid_display: "$1".to_string(),
        bid_cents: None,
        close_at: close.map(moment),
    }
}

fn event(title: &str, lots: Vec<Lot>) -> AuctionEvent {
    AuctionEvent {
        title: title.to_string(),
        url: format!("e/{title}"),
        location: "Saskatoon".to_string(),
        close_at: None,
        lots,
    }
}

fn app_with(events: Vec<AuctionEvent>) -> TestApp {
    let cli = Cli {
        city: "Saskatoon".to_string(),
        query: None,
        sort: SortKey::Close,
        include_past: false,
        plain: false,
    };
    App::new(cli, events, moment(100))
}

fn sample() -> TestApp {
    app_with(vec![
        event(
            "A",
            vec![
                lot("a", Some(200), Some("p/a")),
                lot("b", Some(200), Some("p/b")),
                lot("c", Some(200), None),
            ],
        ),
        event("B", vec![lot("d", Some(200), None), lot("e", Some(50), Some("p/e"))]),
    ])
}

fn queue(app: &TestApp) -> Vec<String> {
    (0..app.details.queue.len()).map(|i| app.details.queue.at(i).clone()).collect()
}

fn photo_queue(app: &TestApp) -> Vec<String> {
    (0..app.photos.queue.len()).map(|i| app.photos.queue.at(i).clone()).collect()
}

fn details(photos: &[&str]) -> LotDetails {
    LotDetails {
        photos: photos.iter().map(|p| p.to_string()).collect(),
        info_lines: vec!["Colour: red".to_string()],
        documents: vec![DetailLink { label: "Spec".to_string(), url: "s".to_string() }],
    }
}

fn preview() -> PhotoPreview {
    PhotoPreview { width: 1, height: 1, pixels: vec![1, 2, 3] }
}

#[test]
fn browsing_starts_at_the_first_auction() {
    let app = sample();
    assert_eq!(app.status, "Loaded live auction data. 2 auctions, 5 lots.");
    assert_eq!((app.event_index, app.lot_index), (0, 0));
    assert_eq!(app.current_lot().unwrap().name, "a");
    assert_eq!(app.focus, FocusPane::Events);
    assert_eq!(app.total_lots(), 5);
    let empty = app_with(vec![]);
    assert!(empty.current_event().is_none());
    assert_eq!(empty.status, "Loaded live auction data. 0 auctions, 0 lots.");
}

#[test]
fn positions_run_outwards() {
    assert_eq!(positions_by_priority(2, 5), vec![2, 3, 1, 4, 0]);
    assert_eq!(positions_by_priority(0, 3), vec![0, 1, 2]);
    assert_eq!(positions_by_priority(9, 3), vec![2, 1, 0]);
    assert_eq!(positions_by_priority(0, 0), Vec::<usize>::new());
}

#[test]
fn the_selected_lot_is_asked_for_first() {
    let mut app = sample();
    app.lot_index = 1;
    let now = moment(100);
    assert!(app.hydrate_current_context(&now, 0));
    assert_eq!(queue(&app), vec!["u/b", "u/c", "u/a", "u/d"]);
    assert_eq!(photo_queue(&app), vec!["p/b", "p/a"]);
    assert!(!app.current_auction_hydration_dirty);
    assert!(!app.hydrate_current_context(&now, 1));
    assert_eq!(queue(&app), vec!["u/b", "u/c", "u/a", "u/d"]);
}

#[test]
fn what_is_past_is_not_asked_for() {
    let mut app = sample();
    let now = moment(100);
    assert!(!app.queue_lot_details_at("u/e".to_string(), true, &now));
    assert!(!app.queue_lot_details_at("u/none".to_string(), true, &now));
    assert!(app.queue_lot_details_at("u/a".to_string(), false, &now));
    assert!(!app.queue_lot_details_at("u/a".to_string(), false, &now));
    assert!(app.queue_lot_details_at("u/b".to_string(), true, &now));
    assert_eq!(queue(&app), vec!["u/b", "u/a"]);
}

#[test]
fn no_more_than_the_limit_is_owed() {
    let lots = (0..6).map(|i| lot(&format!("l{i}"), Some(200), None)).collect();
    let mut app = app_with(vec![event("A", lots)]);
    let now = moment(100);
    app.hydrate_current_context(&now, 0);
    let mut sent = Vec::new();
    while let (Some((url, expires)), _) = app.next_detail_request(&now) {
        assert_eq!(expires, Some(200));
        sent.push(url.clone());
        app.detail_request_sent(url);
    }
    assert_eq!(sent, vec!["u/l0", "u/l1", "u/l2"]);
    assert_eq!(app.details.in_flight, 3);
    app.process_detail_result("u/l0".to_string(), Err("no".to_string()), &now);
    assert_eq!(app.details.in_flight, 2);
    assert!(app.next_detail_request(&now).0.is_some());
}

#[test]
fn details_that_have_come_bring_their_photo() {
    let mut app = sample();
    let now = moment(100);
    app.lot_index = 2;
    assert!(app.process_detail_result("u/c".to_string(), Ok(details(&["q/c"])), &now));
    assert!(matches!(app.details.states.get(&"u/c".to_string()), Some(FetchState::Loaded(_))));
    assert_eq!(photo_queue(&app), vec!["q/c"]);
    assert_eq!(app.primary_photo_url().as_deref(), Some("q/c"));
    assert_eq!(app.photo_cache_expires_at("q/c"), Some(200));
    assert_eq!(app.photo_cache_expires_at("p/a"), Some(200));
    assert_eq!(app.photo_cache_expires_at("nothing"), None);
    assert!(!app.process_detail_result("u/e".to_string(), Ok(details(&[])), &now));
    assert!(app.details.states.get(&"u/e".to_string()).is_none());
    assert!(app.is_cacheable_photo_url_at("q/c", &now));
    assert!(!app.is_cacheable_photo_url_at("p/e", &now));
    assert!(app.is_cacheable_photo_url("q/c"));
}

#[test]
fn requests_that_cannot_be_sent_fail() {
    let mut app = sample();
    app.detail_request_failed("u/a".to_string(), "closed");
    match app.details.states.get(&"u/a".to_string()) {
        Some(FetchState::Failed(message)) => assert_eq!(message, "failed to queue detail load: closed"),
        _ => panic!("no failure"),
    }
    app.photo_request_failed("p/a".to_string(), "closed");
    match app.photos.states.get(&"p/a".to_string()) {
        Some(FetchState::Failed(message)) => assert_eq!(message, "failed to queue photo load: closed"),
        _ => panic!("no failure"),
    }
}

#[test]
fn photos_that_have_come_are_made_as_terminal_graphics() {
    let mut app = sample();
    let now = moment(100);
    app.has_graphics = true;
    app.last_photo_area_size = Some((10, 4));
    app.queue_photo_preview("p/a".to_string(), true);
    assert_eq!(app.next_photo_request(), Some(("p/a".to_string(), Some(200))));
    app.photo_request_sent("p/a".to_string());
    assert!(app.process_photo_result("p/a".to_string(), Ok(preview()), &now));
    let key = app.next_terminal_photo().unwrap();
    assert_eq!(key, ("p/a".to_string(), 10, 4));
    app.terminal_photo_sent(key.clone());
    assert!(app.next_terminal_photo().is_none());
    assert!(app.process_terminal_photo_result(key.clone(), TerminalPhotoState::Loaded(7)));
    assert!(matches!(app.gallery.states.get(&key), Some(TerminalPhotoState::Loaded(7))));
    assert!(!app.process_photo_result("p/none".to_string(), Ok(preview()), &now));
    app.has_graphics = false;
    assert!(app.next_terminal_photo().is_none());
    assert_eq!(app.gallery.states.len(), 0);
}

#[test]
fn a_photo_is_planned_drawn_and_shown() {
    let mut app = sample();
    let now = moment(100);
    let area = Rect { x: 1, y: 1, width: 10, height: 4 };
    assert!(matches!(
        app.plan_primary_photo(Rect { x: 0, y: 0, width: 0, height: 4 }, 0),
        PhotoPlan::Nothing
    ));
    let key = match app.plan_primary_photo(area, 0) {
        PhotoPlan::Draw(key) => key,
        _ => panic!("nothing to draw"),
    };
    assert_eq!(key, ("p/a".to_string(), 10, 4, false));
    assert_eq!(app.last_photo_area_size, Some((10, 4)));
    assert!(matches!(app.render_primary_photo(&key), PhotoRender::Blank));
    app.process_photo_result("p/a".to_string(), Ok(preview()), &now);
    assert!(matches!(app.render_primary_photo(&key), PhotoRender::Blocks));
    app.keep_drawing(key.clone(), 5);
    assert!(matches!(app.plan_primary_photo(area, 0), PhotoPlan::Show(_)));
    assert_eq!(app.gallery.cached_photo_render_buffer(&key), Some(&5));
    app.process_photo_result("p/a".to_string(), Err("broken".to_string()), &now);
    assert!(app.gallery.cached_photo_render_buffer(&key).is_none());
    match app.render_primary_photo(&key) {
        PhotoRender::Words(words) => assert_eq!(words, "Could not load photo: broken"),
        _ => panic!("no words"),
    }
    app.mark_pane_resize_changed(1_000);
    assert!(matches!(app.plan_primary_photo(area, 1_000), PhotoPlan::Clear));
    assert!(!app.image_redraw_ready(1_000));
    assert!(app.image_redraw_ready(180_001_000));
    assert!(!app.image_redraw_ready(180_001_000));
}

#[test]
fn drawings_make_room_for_later_ones() {
    let mut app = app_with(vec![]);
    for i in 0..700u16 {
        app.keep_drawing(("p".to_string(), i, 1, false), u32::from(i));
    }
    assert_eq!(app.gallery.buffers.len(), 640);
    assert!(app.gallery.cached_photo_render_buffer(&("p".to_string(), 59, 1, false)).is_none());
    assert!(app.gallery.cached_photo_render_buffer(&("p".to_string(), 60, 1, false)).is_some());
    assert_eq!(app.photo_render_buffer_limit(), 640);
    assert_eq!(app.terminal_photo_state_limit(), 640);
}

#[test]
fn what_is_past_is_let_go_of() {
    let mut app = sample();
    let now = moment(100);
    app.hydrate_current_context(&now, 0);
    app.process_detail_result("u/a".to_string(), Ok(details(&["q/a"])), &now);
    app.process_photo_result("q/a".to_string(), Ok(preview()), &now);
    assert!(!app.prune_expired_caches_at(&now));
    let later = moment(300);
    assert!(app.prune_expired_caches_at(&later));
    assert_eq!(app.details.states.len(), 0);
    assert_eq!(app.photos.states.len(), 0);
    assert_eq!(queue(&app), Vec::<String>::new());
    assert!(!app.prune_expired_caches());
}

#[test]
fn refreshing_keeps_the_selection_among_the_entries() {
    let mut app = sample();
    app.event_index = 1;
    app.lot_index = 1;
    app.refreshed(vec![event("C", vec![lot("z", Some(900), None)])], moment(150));
    assert_eq!((app.event_index, app.lot_index), (0, 0));
    assert_eq!(app.status, "Refreshed live auction data. 1 auctions, 1 lots.");
    assert!(app.current_auction_hydration_dirty);
    app.refresh_failed("offline");
    assert_eq!(app.status, "Refresh failed: offline");
    assert_eq!(app.lot_to_open(), Some(("z".to_string(), "u/z".to_string())));
    app.lot_opened("z");
    assert_eq!(app.status, "Opened z in your browser.");
    app.lot_not_opened("z", "why");
    assert_eq!(app.status, "Could not open browser for z: why");
}

#[test]
fn keys_move_the_selection_and_the_focus() {
    let mut app = sample();
    assert_eq!(app.handle_key(KeyPress::Char('q')), KeyAction::Quit);
    assert_eq!(app.handle_key(KeyPress::Esc), KeyAction::Quit);
    app.handle_key(KeyPress::Down);
    assert_eq!((app.event_index, app.lot_index), (1, 0));
    app.handle_key(KeyPress::Char('j'));
    assert_eq!(app.event_index, 1);
    app.handle_key(KeyPress::Enter);
    assert_eq!(app.focus, FocusPane::Lots);
    app.handle_key(KeyPress::End);
    assert_eq!(app.lot_index, 1);
    app.handle_key(KeyPress::Home);
    assert_eq!(app.lot_index, 0);
    app.handle_key(KeyPress::Enter);
    assert_eq!(app.focus, FocusPane::Details);
    app.handle_key(KeyPress::Enter);
    assert_eq!(app.status, "Press o to open the bidding page in your browser.");
    app.handle_key(KeyPress::Char('j'));
    assert_eq!(app.details_scroll, 1);
    app.handle_key(KeyPress::Up);
    app.handle_key(KeyPress::Up);
    assert_eq!((app.focus, app.status.as_str()), (FocusPane::Lots, "Returned to lots."));
    app.handle_key(KeyPress::Tab);
    app.handle_key(KeyPress::End);
    assert_eq!(app.details_scroll, 65535);
    app.handle_key(KeyPress::Tab);
    assert_eq!(app.focus, FocusPane::Events);
    app.handle_key(KeyPress::Right);
    app.handle_key(KeyPress::Right);
    app.handle_key(KeyPress::Left);
    assert_eq!(app.focus, FocusPane::Lots);
    app.handle_key(KeyPress::Backspace);
    assert_eq!(app.focus, FocusPane::Events);
    app.handle_key(KeyPress::Char('k'));
    assert_eq!(app.event_index, 0);
    assert_eq!(app.handle_key(KeyPress::Char('o')), KeyAction::OpenLot);
    assert_eq!(app.handle_key(KeyPress::Char('r')), KeyAction::Refresh);
    assert_eq!(app.handle_key(KeyPress::Other), KeyAction::Nothing);
}

#[test]
fn another_lot_starts_at_the_top() {
    let mut app = sample();
    assert!(app.sync_selected_lot());
    assert!(!app.sync_selected_lot());
    app.details_scroll = 4;
    app.current_auction_hydration_dirty = false;
    app.lot_index = 1;
    assert!(app.sync_selected_lot());
    assert_eq!(app.details_scroll, 0);
    assert!(app.current_auction_hydration_dirty);
}

const SCREEN: Rect = Rect { x: 0, y: 0, width: 160, height: 50 };

fn sizes() -> PaneSizes {
    sample().pane_sizes()
}

#[test]
fn a_wide_screen_puts_the_auctions_beside_the_rest() {
    let layout = compute_layout(SCREEN, &sizes());
    assert!(layout.wide);
    assert_eq!(layout.header, Rect { x: 0, y: 0, width: 160, height: 4 });
    assert_eq!(layout.body, Rect { x: 0, y: 4, width: 160, height: 44 });
    assert_eq!(layout.footer, Rect { x: 0, y: 48, width: 160, height: 2 });
    assert_eq!(layout.events, Rect { x: 0, y: 4, width: 38, height: 44 });
    assert_eq!(layout.right, Rect { x: 38, y: 4, width: 122, height: 44 });
    assert_eq!(layout.lots_header, Rect { x: 38, y: 4, width: 122, height: 1 });
    assert_eq!(layout.lots_body, Rect { x: 38, y: 5, width: 122, height: 10 });
    assert_eq!(layout.details, Rect { x: 38, y: 15, width: 122, height: 33 });
}

#[test]
fn a_narrow_screen_puts_all_above_each_other() {
    let layout = compute_layout(Rect { x: 0, y: 0, width: 80, height: 106 }, &sizes());
    assert!(!layout.wide);
    assert_eq!(layout.events.height, 12);
    assert_eq!(layout.lots_header.height, 1);
    assert_eq!(layout.lots_body.height, 12);
    assert_eq!(layout.details.height, 75);
    assert_eq!(layout.right, layout.body);
}

fn end(start: u16, length: u16) -> u32 {
    u32::from(start) + u32::from(length)
}

fn percent_of(percent: u16, whole: u16) -> u16 {
    ((u32::from(percent) * u32::from(whole) + 50) / 100) as u16
}

fn check_panes(area: Rect, sizes: &PaneSizes) {
    let layout = compute_layout(area, sizes);
    let Rect { x, y, width, height } = area;
    let body = layout.body;
    assert_eq!((layout.header, body, layout.footer), split_outer(area));
    assert_eq!((layout.header.x, layout.header.y, layout.header.width), (x, y, width));
    assert_eq!((body.x, body.width, layout.footer.x, layout.footer.width), (x, width, x, width));
    assert_eq!(end(y, layout.header.height), u32::from(body.y));
    assert_eq!(end(body.y, body.height), u32::from(layout.footer.y));
    assert_eq!(end(layout.footer.y, layout.footer.height), end(y, height));
    if height >= 18 {
        assert_eq!((layout.header.height, layout.footer.height), (4, 2));
    } else {
        assert_eq!(body.height, height.min(12));
        assert!(layout.header.height <= 4 && layout.footer.height <= 2);
    }
    assert_eq!(layout.wide, width >= 120);
    let lots = if layout.wide {
        let left = sizes.event_pane_width.clamp(24, width - 50);
        assert_eq!(layout.events, Rect { x, y: body.y, width: left, height: body.height });
        let right = Rect { x: x + left, y: body.y, width: width - left, height: body.height };
        assert_eq!(layout.right, right);
        let rows = percent_of(sizes.lots_pane_percent.clamp(20, 80), body.height);
        Rect { height: rows, ..right }
    } else {
        assert_eq!(layout.right, body);
        let events = sizes.stacked_events_percent.clamp(10, 55);
        let lots = sizes.stacked_lots_percent.clamp(10, 80u16.saturating_sub(events).max(10));
        let first = percent_of(events, body.height);
        let second = percent_of(events + lots, body.height);
        assert_eq!(layout.events, Rect { height: first, ..body });
        Rect { y: body.y + first, height: second - first, ..body }
    };
    let heading = lots.height.saturating_sub(1).min(1);
    assert_eq!(layout.lots_header, Rect { height: heading, ..lots });
    let list = Rect { y: lots.y + heading, height: lots.height - heading, ..lots };
    assert_eq!(layout.lots_body, list);
    assert_eq!((layout.details.x, layout.details.width), (lots.x, lots.width));
    assert_eq!(end(lots.y, lots.height), u32::from(layout.details.y));
    assert_eq!(end(layout.details.y, layout.details.height), end(body.y, body.height));
}

#[test]
fn panes_fill_the_screen_at_every_size() {
    for height in 0..70 {
        for width in [0u16, 1, 24, 119, 120, 200] {
            for (x, y) in [(0u16, 0u16), (7, 3)] {
                for (events, lots) in [(12u16, 13u16), (10, 70), (55, 25), (100, 100)] {
                    let sizes = PaneSizes {
                        event_pane_width: lots,
                        lots_pane_percent: events,
                        stacked_events_percent: events,
                        stacked_lots_percent: lots,
                    };
                    check_panes(Rect { x, y, width, height }, &sizes);
                }
            }
        }
    }
}

#[test]
fn panes_fill_the_screen_at_every_percent() {
    for percent in 0..=100u16 {
        for height in [1u16, 17, 18, 31, 43, 56, 69, 106, 257, 40_001, 65_535] {
            for width in [80u16, 180, 65_535] {
                let sizes = PaneSizes {
                    event_pane_width: percent * 600,
                    lots_pane_percent: percent,
                    stacked_events_percent: percent * 7 % 101,
                    stacked_lots_percent: percent,
                };
                check_panes(Rect { x: 0, y: 0, width, height }, &sizes);
            }
        }
    }
}

#[test]
fn points_and_lines_are_hit() {
    let area = Rect { x: 2, y: 3, width: 4, height: 2 };
    assert!(contains_point(area, 2, 3));
    assert!(contains_point(area, 5, 4));
    assert!(!contains_point(area, 6, 4));
    assert!(!contains_point(area, 5, 5));
    assert!(near_line(5, 4) && near_line(4, 5) && near_line(5, 5) && !near_line(7, 5));
    assert_eq!(percent_from_position(15, 5, 20), 50);
    assert_eq!(percent_from_position(1, 5, 20), 0);
    assert_eq!(percent_from_position(9, 5, 0), 0);
    assert_eq!(percent_from_position(65535, 0, 1), (6_553_500u32 % 65536) as u16);
    assert_eq!(
        resize_status(DragTarget::EventsWidth),
        "Drag highlighted boundary to resize auction pane."
    );
}

fn mouse(kind: MouseKind, column: u16, row: u16) -> Mouse {
    Mouse { kind, column, row }
}

#[test]
fn borders_are_dragged() {
    let mut app = sample();
    let now = moment(100);
    let layout = compute_layout(SCREEN, &app.pane_sizes());
    assert_eq!(drag_target_at(&layout, 38, 20), Some(DragTarget::EventsWidth));
    assert_eq!(drag_target_at(&layout, 80, 15), Some(DragTarget::LotsDetailsSplit));
    assert_eq!(drag_target_at(&layout, 80, 30), None);
    app.handle_mouse(SCREEN, mouse(MouseKind::LeftDown, 38, 20), true, &now, 5);
    assert_eq!(app.drag_target, Some(DragTarget::EventsWidth));
    assert_eq!(app.status, "Auction pane width: 38");
    assert_eq!(app.last_pane_resize_at, None);
    app.handle_mouse(SCREEN, mouse(MouseKind::LeftDrag, 60, 20), true, &now, 6);
    assert_eq!((app.event_pane_width, app.last_pane_resize_at), (60, Some(6)));
    assert_eq!(app.status, "Auction pane width: 60");
    app.handle_mouse(SCREEN, mouse(MouseKind::LeftUp, 60, 20), true, &now, 7);
    assert_eq!((app.drag_target, app.last_pane_resize_at), (None, Some(7)));
    app.handle_mouse(SCREEN, mouse(MouseKind::LeftDown, 100, 15), true, &now, 8);
    app.handle_mouse(SCREEN, mouse(MouseKind::LeftDrag, 100, 26), true, &now, 9);
    assert_eq!(app.lots_pane_percent, 50);
    assert_eq!(app.status, "Lots/details split: 50%");
    let narrow = Rect { x: 0, y: 0, width: 80, height: 106 };
    app.drag_target = Some(DragTarget::EventsWidth);
    app.handle_mouse(narrow, mouse(MouseKind::LeftDrag, 3, 54), true, &now, 10);
    assert_eq!((app.stacked_events_percent, app.stacked_lots_percent), (50, 13));
    assert_eq!(app.status, "Auction pane height: 50%");
    app.drag_target = Some(DragTarget::LotsDetailsSplit);
    app.handle_mouse(narrow, mouse(MouseKind::LeftDrag, 3, 94), true, &now, 11);
    assert_eq!(app.stacked_lots_percent, 30);
    assert_eq!(app.status, "Lots pane height: 30%");
}

#[test]
fn clicks_select_and_open() {
    let mut app = sample();
    let now = moment(100);
    let click = |app: &mut TestApp, x: u16, y: u16| {
        app.handle_mouse(SCREEN, mouse(MouseKind::LeftDown, x, y), true, &now, 0)
    };
    assert_eq!(click(&mut app, 5, 7), MouseAction::Nothing);
    assert_eq!((app.event_index, app.status.as_str()), (1, "Selected auction: B"));
    assert_eq!(queue(&app), vec!["u/d"]);
    assert_eq!(click(&mut app, 5, 5), MouseAction::Nothing);
    assert_eq!(app.event_index, 0);
    assert_eq!(click(&mut app, 60, 6), MouseAction::OpenLot);
    assert_eq!((app.lot_index, app.focus), (1, FocusPane::Lots));
    assert_eq!(app.status, "Selected lot: b");
    assert_eq!(click(&mut app, 60, 9), MouseAction::Nothing);
    assert_eq!(click(&mut app, 45, 20), MouseAction::OpenLot);
    assert_eq!(app.focus, FocusPane::Details);
    assert_eq!(click(&mut app, 120, 20), MouseAction::Nothing);
    assert_eq!(
        app.handle_mouse(SCREEN, mouse(MouseKind::LeftDown, 45, 20), false, &now, 0),
        MouseAction::Nothing
    );
}

#[test]
fn moving_and_scrolling_the_mouse() {
    let mut app = sample();
    let now = moment(100);
    app.handle_mouse(SCREEN, mouse(MouseKind::Moved, 37, 20), true, &now, 0);
    assert_eq!(app.resize_hover_target, Some(DragTarget::EventsWidth));
    assert_eq!(app.status, "Drag highlighted boundary to resize auction pane.");
    assert_eq!(app.border_tone(FocusPane::Lots), BorderTone::Hovered);
    app.handle_mouse(SCREEN, mouse(MouseKind::Moved, 60, 7), true, &now, 0);
    assert_eq!(app.resize_hover_target, None);
    assert_eq!(queue(&app), vec!["u/c"]);
    assert_eq!(app.border_tone(FocusPane::Events), BorderTone::Focused);
    assert_eq!(app.border_tone(FocusPane::Lots), BorderTone::Plain);
    app.handle_mouse(SCREEN, mouse(MouseKind::ScrollDown, 60, 30), true, &now, 0);
    assert_eq!((app.details_scroll, app.focus), (3, FocusPane::Details));
    app.handle_mouse(SCREEN, mouse(MouseKind::ScrollUp, 60, 30), true, &now, 0);
    app.handle_mouse(SCREEN, mouse(MouseKind::ScrollUp, 60, 30), true, &now, 0);
    assert_eq!(app.details_scroll, 0);
    app.handle_mouse(SCREEN, mouse(MouseKind::ScrollDown, 5, 5), true, &now, 0);
    assert_eq!(app.details_scroll, 0);
    app.drag_target = Some(DragTarget::LotsDetailsSplit);
    assert_eq!(app.border_tone(FocusPane::Details), BorderTone::Dragged);
    assert_eq!(app.border_tone(FocusPane::Events), BorderTone::Plain);
}

#[test]
fn the_details_have_a_photo_where_there_is_room() {
    let app = sample();
    let inner = |width| Rect { x: 10, y: 5, width, height: 9 };
    assert_eq!(app.details_body_areas(true, inner(36)), (None, inner(36)));
    let (photo, text) = app.details_body_areas(true, inner(37));
    assert_eq!(photo.unwrap().width, 12);
    assert_eq!((text.x, text.width), (23, 24));
    let (photo, text) = app.details_body_areas(true, inner(100));
    assert_eq!(photo.unwrap().width, 42);
    assert_eq!((text.x, text.width), (53, 57));
    assert_eq!(app.details_image_width(false, inner(100)), 0);
}

#[test]
fn the_details_say_what_is_known() {
    let mut app = sample();
    let now = moment(100);
    let text = |app: &TestApp| -> Vec<String> {
        app.detail_text_lines(&now)
            .iter()
            .map(|l| l.spans.iter().map(|s| s.text.as_str()).collect())
            .collect()
    };
    let closes = "Closes: Dec 31, 06:03 pm";
    assert_eq!(
        text(&app),
        vec![
            "a".to_string(),
            "Bid: $1".to_string(),
            format!("Status: Open | {closes}"),
            "Lot Location: Saskatoon".to_string(),
            "Auction: A".to_string(),
            "".to_string(),
            "Loading lot photos and listing details...".to_string(),
        ]
    );
    app.process_detail_result("u/a".to_string(), Ok(details(&[])), &now);
    assert_eq!(
        text(&app)[5..].to_vec(),
        vec!["", "Other Details", "Colour: red", "", "Documents", "Spec - s"]
    );
    app.process_detail_result("u/a".to_string(), Err("gone".to_string()), &now);
    assert_eq!(text(&app)[6], "Could not load listing details: gone");
    let empty = app_with(vec![event("E", vec![])]);
    assert_eq!(text(&empty)[0], "E");
    assert_eq!(text(&empty)[3], "No lot is currently selected.");
    assert_eq!(text(&app_with(vec![]))[0], "No auction data to display.");
}

#[test]
fn lists_show_their_rows() {
    let mut app = sample();
    app.lot_index = 2;
    let (rows, selected) = app.visible_lots(2);
    assert_eq!(app.lot_offset, 1);
    assert_eq!(selected, Some(1));
    assert_eq!(
        rows,
        vec!["Dec 31, 06:03 pm   $1           b", "Dec 31, 06:03 pm   $1           c"]
    );
    assert_eq!(app_with(vec![]).visible_lots(5), (vec!["No lots available.".to_string()], None));
    assert_eq!(
        event_row_texts(&app.events[0]),
        ("A".to_string(), "Saskatoon | 3 lots | closes Dec 31, 06:03 pm".to_string())
    );
    let items = app.event_list();
    assert_eq!(items.len(), 2);
    assert_eq!(items[1][0].spans[0].text, "B");
    assert_eq!(items[1][1].spans[0].tone, Tone::Muted);
    assert_eq!(app_with(vec![]).event_list()[0][0].spans[0].text, "No matching auctions found.");
    assert_eq!(lots_heading().spans[2].text, "Price");
    let header: Vec<String> = app
        .header_lines()
        .iter()
        .map(|l| l.spans.iter().map(|s| s.text.as_str()).collect())
        .collect();
    assert_eq!(header[0], "McDougall Browser  2 auctions | 5 lots | focus: events");
    assert_eq!(header[1], "city=Saskatoon | query=all items | sort=close | include_past=false");
    assert_eq!(header[2], "loaded 1969-12-31 06:01:40 pm CST");
    assert_eq!(app.footer_lines()[0], app.status);
}

#[test]
fn scrolling_stays_within_the_details() {
    let mut app = sample();
    app.details_scroll = 65535;
    app.settle_details_scroll(30, 10);
    assert_eq!(app.details_scroll, 20);
    app.settle_details_scroll(5, 10);
    assert_eq!(app.details_scroll, 0);
    app.details_scroll = 100_000;
    app.settle_details_scroll(200_000, 10);
    assert_eq!(app.details_scroll, 65535);
}

#[test]
fn image_modes_are_read_from_two_settings() {
    assert_eq!(image_mode_value(Some("FAST"), Some("1")), "fast");
    assert_eq!(image_mode_value(None, Some("True")), "auto");
    assert_eq!(image_mode_value(None, Some("no")), "fast");
    assert_eq!(image_mode_value(None, None), "auto");
    assert!(!images_enabled(Some("Off"), None));
    assert!(images_enabled(None, None));
    assert!(image_mode_fast(Some("halfblocks"), None));
    assert!(!image_mode_fast(None, Some("1")));
}

#[test]
fn graphics_are_configured() {
    let mut app = sample();
    app.configure_terminal_images(GraphicsFound::Protocol("Kitty".to_string()));
    assert!(app.has_graphics);
    assert_eq!(app.status, "Loaded live auction data. Using Kitty terminal graphics when possible.");
    app.configure_terminal_images(GraphicsFound::Disabled);
    assert!(!app.has_graphics);
    assert_eq!(app.status, "Loaded live auction data. Inline photos are disabled.");
    app.configure_terminal_images(GraphicsFound::Failed("x".to_string()));
    assert!(app.status.ends_with("using portable rendering: x"));
}

#[test]
fn frames_are_measured() {
    let mut frame = FrameProfile::new();
    assert_eq!(frame.active_duration(), 0);
    assert!(!frame.is_worth_recording());
    frame.input = u64::MAX;
    frame.draw = u64::MAX;
    assert_eq!(frame.active_duration(), 2 * u128::from(u64::MAX));
    assert!(frame.is_worth_recording());
    let mut drew = FrameProfile::new();
    drew.drew = true;
    assert!(drew.is_worth_recording());
}

#[test]
fn a_batch_of_details_is_queued_in_order() {
    let mut app = sample();
    let now = moment(100);
    app.queue_detail_batch_front(vec!["u/a".to_string(), "u/b".to_string()], &now);
    assert_eq!(queue(&app), vec!["u/a", "u/b"]);
    app.queue_detail_batch_front(vec!["u/b".to_string(), "u/c".to_string()], &now);
    assert_eq!(queue(&app), vec!["u/b", "u/c", "u/a"]);
    assert_eq!(app.other_auction_lot_urls(), vec!["u/d", "u/e"]);
    assert!(app.queue_lot_details("u/none".to_string(), true) == false);
}

#[test]
fn answers_are_kept_only_when_they_are_fetched() {
    assert!(matches!(after_load(Ok::<_, u8>(Some(3))), FetchStep::Answer(Ok(3))));
    assert!(matches!(after_load(Ok::<Option<u8>, u8>(None)), FetchStep::Fetch));
    assert!(matches!(after_load(Err::<Option<u8>, u8>(1)), FetchStep::Fetch));
    assert!(matches!(after_fetch(Ok(3)), FetchStep::Keep(3)));
    assert!(matches!(after_keep(3), FetchStep::Answer(Ok(3))));
    assert!(matches!(first_step::<u8>(None), FetchStep::Load));
    match first_step::<u8>(Some("no client".to_string())) {
        FetchStep::Answer(Err(error)) => assert_eq!(error, "no client"),
        _ => panic!("no answer"),
    }
    let request = FetchRequest { url: "u".to_string(), expires_at: None };
    let answer = request.answered(Ok(3));
    assert_eq!((answer.url.as_str(), answer.result), ("u", Ok(3)));
    match after_fetch::<u8>(Err("late".to_string())) {
        FetchStep::Answer(Err(error)) => assert_eq!(error, "late"),
        _ => panic!("no answer"),
    }
}

/// Takes a request through its steps, and counts what is fetched and kept.
fn run_steps(
    fault: Option<&str>,
    loaded: Result<Option<u8>, ()>,
    fetched: Result<u8, &str>,
) -> (Result<u8, String>, usize, Vec<u8>) {
    let mut step = first_step(fault.map(str::to_string));
    let (mut fetches, mut kept) = (0, Vec::new());
    loop {
        step = match step {
            FetchStep::Load => after_load(loaded),
            FetchStep::Fetch => {
                fetches += 1;
                after_fetch(fetched.map_err(str::to_string))
            }
            FetchStep::Keep(value) => {
                kept.push(value);
                after_keep(value)
            }
            FetchStep::Answer(answer) => return (answer, fetches, kept),
        };
    }
}

#[test]
fn every_request_is_answered_once() {
    let late = Err("late".to_string());
    assert_eq!(run_steps(Some("late"), Ok(Some(1)), Ok(2)), (late.clone(), 0, vec![]));
    assert_eq!(run_steps(None, Ok(Some(1)), Ok(2)), (Ok(1), 0, vec![]));
    assert_eq!(run_steps(None, Ok(None), Ok(2)), (Ok(2), 1, vec![2]));
    assert_eq!(run_steps(None, Err(()), Ok(2)), (Ok(2), 1, vec![2]));
    assert_eq!(run_steps(None, Ok(None), Err("late")), (late, 1, vec![]));
}

#[test]
fn rounds_take_in_input_prune_and_draw() {
    assert!(takes_input(0) && takes_input(31) && !takes_input(32));
    assert_eq!(frame_step(false, false, 29_999_999_999), (false, false));
    assert_eq!(frame_step(false, true, 30_000_000_000), (true, true));
    assert_eq!(frame_step(true, false, 0), (true, false));
}

#[test]
fn the_list_of_lots_has_at_least_a_row() {
    let rows = |height| visible_rows_in(Rect { x: 0, y: 0, width: 9, height });
    assert_eq!((rows(0), rows(1), rows(2), rows(7)), (1, 1, 1, 6));
}
