use mcdougs::catalog::{
    auction_to_show, load_data, lot_cache_expires_at, lot_cache_is_active, lot_status, lot_status_at,
    select_lots, sort_lots, wants_event, AuctionEvent, Cli, SortKey,
};
use mcdougs::listing::{EventStub, Lot};
use mcdougs::moments::Moment;
use mcdougs::ranking::{compare_option_i64, compare_option_i64_desc};
use mcdougs::screen::plain_report;
use std::cmp::Ordering;

fn moment(seconds: i64) -> Moment {
    Moment::new(seconds, 0).unwrap()
}

fn lot(name: &str, cents: Option<i64>, close: Option<i64>) -> Lot {
    Lot {
        name: name.to_string(),
        url: format!("https://example.com/{name}"),
        thumbnail_url: None,
        location: "Saskatoon, SK".to_string(),
        bid_display: "$1".to_string(),
        bid_cents: cents,
        close_at: close.map(moment),
    }
}

fn stub(title: &str, location: &str) -> EventStub {
    EventStub {
        title: title.to_string(),
        url: format!("https://example.com/{title}"),
        location: location.to_string(),
        close_at: None,
    }
}

fn cli() -> Cli {
    Cli {
        city: "saskatoon".to_string(),
        query: None,
        sort: SortKey::Close,
        include_past: false,
        plain: false,
    }
}

fn names(lots: &[Lot]) -> Vec<&str> {
    lots.iter().map(|l| l.name.as_str()).collect()
}

#[test]
fn numbers_come_before_none() {
    assert_eq!(compare_option_i64(Some(1), Some(2)), Ordering::Less);
    assert_eq!(compare_option_i64(Some(2), Some(2)), Ordering::Equal);
    assert_eq!(compare_option_i64(Some(3), Some(2)), Ordering::Greater);
    assert_eq!(compare_option_i64(Some(3), None), Ordering::Less);
    assert_eq!(compare_option_i64(None, Some(3)), Ordering::Greater);
    assert_eq!(compare_option_i64(None, None), Ordering::Equal);
    assert_eq!(compare_option_i64_desc(Some(1), Some(2)), Ordering::Greater);
    assert_eq!(compare_option_i64_desc(None, Some(2)), Ordering::Less);
}

#[test]
fn lots_are_sorted_by_closing_time_and_name() {
    let lots = vec![
        lot("b", None, Some(20)),
        lot("C", None, None),
        lot("B", None, Some(10)),
        lot("a", None, Some(10)),
    ];
    assert_eq!(names(&sort_lots(lots, SortKey::Close)), vec!["a", "B", "b", "C"]);
}

#[test]
fn lots_are_sorted_by_price() {
    let lots = vec![
        lot("cheap", Some(100), Some(1)),
        lot("dear", Some(900), Some(9)),
        lot("none", None, Some(5)),
        lot("Cheap too", Some(100), Some(0)),
    ];
    assert_eq!(
        names(&sort_lots(lots, SortKey::Price)),
        vec!["none", "dear", "Cheap too", "cheap"]
    );
}

#[test]
fn lots_that_rank_the_same_keep_their_order() {
    let lots = vec![lot("x", Some(3), Some(1)), lot("X", Some(2), Some(1)), lot("x", Some(1), Some(1))];
    let sorted = sort_lots(lots, SortKey::Name);
    let cents: Vec<_> = sorted.iter().map(|l| l.bid_cents.unwrap()).collect();
    assert_eq!(cents, vec![3, 2, 1]);
}

#[test]
fn only_lots_that_are_asked_for_are_kept() {
    let now = moment(100);
    let lots = || {
        let mut other = lot("elsewhere", None, Some(200));
        other.location = "Regina".to_string();
        vec![lot("Red truck", None, Some(200)), lot("past", None, Some(100)), lot("open end", None, None), other]
    };
    assert_eq!(names(&select_lots(&cli(), &now, lots())), vec!["Red truck"]);
    let mut all = cli();
    all.include_past = true;
    assert_eq!(names(&select_lots(&all, &now, lots())), vec!["Red truck", "past", "open end"]);
    all.query = Some("TRUCK".to_string());
    assert_eq!(names(&select_lots(&all, &now, lots())), vec!["Red truck"]);
    assert!(wants_event(&cli(), &stub("t", "SASKATOON")));
    assert!(!wants_event(&cli(), &stub("t", "Regina")));
}

#[test]
fn auctions_without_lots_are_not_shown() {
    let now = moment(100);
    assert!(auction_to_show(&cli(), &now, stub("t", "Saskatoon"), vec![lot("p", None, Some(1))]).is_none());
    assert!(auction_to_show(&cli(), &now, stub("t", "Regina"), vec![lot("p", None, Some(200))]).is_none());
    let shown = auction_to_show(&cli(), &now, stub("t", "Saskatoon"), vec![lot("p", None, Some(200))]).unwrap();
    assert_eq!((shown.title.as_str(), shown.lots.len()), ("t", 1));
}

#[test]
fn auctions_are_sorted_by_their_first_closing_time() {
    let now = moment(100);
    let listed = vec![
        (stub("late", "Saskatoon"), vec![lot("x", None, Some(300)), lot("y", None, Some(250))]),
        (stub("far", "Regina"), vec![lot("z", None, Some(200))]),
        (stub("soon", "Saskatoon"), vec![lot("w", None, Some(200))]),
        (stub("Even", "Saskatoon"), vec![lot("v", None, Some(200))]),
    ];
    let events = load_data(&cli(), &now, listed);
    let titles: Vec<&str> = events.iter().map(|e| e.title.as_str()).collect();
    assert_eq!(titles, vec!["Even", "soon", "late"]);
    assert_eq!(events[2].primary_close_at().unwrap().timestamp(), 250);
}

#[test]
fn an_auction_without_closing_lots_closes_as_it_says() {
    let event = AuctionEvent {
        title: "t".to_string(),
        url: "u".to_string(),
        location: "l".to_string(),
        close_at: Some(moment(7)),
        lots: vec![lot("x", None, None)],
    };
    assert_eq!(event.primary_close_at().unwrap().timestamp(), 7);
}

#[test]
fn lots_are_worth_keeping_until_they_close() {
    let now = moment(100);
    assert!(lot_cache_is_active(&lot("x", None, None), &now));
    assert!(lot_cache_is_active(&lot("x", None, Some(101)), &now));
    assert!(!lot_cache_is_active(&lot("x", None, Some(100)), &now));
    assert_eq!(lot_cache_expires_at(&lot("x", None, Some(101))), Some(101));
    assert_eq!(lot_cache_expires_at(&lot("x", None, None)), None);
    assert_eq!(lot_status_at(&lot("x", None, Some(101)), &now), "Open");
    assert_eq!(lot_status_at(&lot("x", None, Some(100)), &now), "Closed");
    assert_eq!(lot_status(&lot("x", None, Some(100))), "Closed");
    assert_eq!(lot_status(&lot("x", None, None)), "Unknown");
}

#[test]
fn a_report_lists_auctions_and_lots() {
    assert_eq!(plain_report(&vec![]), vec!["No matching auction lots found."]);
    let event = |title: &str| AuctionEvent {
        title: title.to_string(),
        url: "u".to_string(),
        location: "l".to_string(),
        close_at: None,
        lots: vec![lot("x", None, None)],
    };
    let lines = plain_report(&vec![event("Été"), event("b")]);
    assert_eq!(
        lines,
        vec![
            "Été",
            "=====",
            "Auction: u",
            "Location: l",
            "Lots: 1",
            "",
            "Close              Price         Item",
            "Unknown            $1            x",
            "",
            "b",
            "=",
            "Auction: u",
            "Location: l",
            "Lots: 1",
            "",
            "Close              Price         Item",
            "Unknown            $1            x",
        ]
    );
}

#[test]
fn sort_keys_have_names() {
    assert_eq!(SortKey::Close.text(), "close");
    assert_eq!(SortKey::Price.text(), "price");
    assert_eq!(SortKey::Name.text(), "name");
}
