use mcdougs::cleaning::{clean_detail_line, clean_detail_lines};
use mcdougs::details::{details_from_items, parse_lot_details};
use mcdougs::fields::{extract_bid, extract_location, is_image_url, parse_bid_cents, push_unique_line};
use mcdougs::links::{events_page_url, lots_page_url};
use mcdougs::listing::{
    event_from_item, lot_from_item, next_item_from_items, parse_events, parse_events_fragment,
    parse_lots, parse_next_item, ListingError,
};
use mcdougs::markup::{find_in_page, Element, Found};
use mcdougs::moments::{
    close_from_reading, event_clock_text, format_close_time, format_loaded_at, moment_in_saskatchewan,
    parse_event_close, parse_lot_close, Moment,
};
use mcdougs::paging::{EventPages, LotPages};
use mcdougs::text::{
    contains_case_insensitive, has_ending, lower_ascii, normalize_whitespace, pad, split_words, trim,
};

#[test]
fn parses_lot_details_photos_notes_and_documents() {
    let html = r#"
            <div class="product-gallery">
                <a data-fancybox="gallery" href="/images/repository/foo/IMG_1.JPG"><img /></a>
                <a data-fancybox="gallery" href="/images/repository/foo/IMG_1.JPG"><img /></a>
                <a class="video" data-fancybox="gallery" href="https://www.youtube.com/embed/example"><img /></a>
                <a data-fancybox="gallery" href="https://mcdougallauction.com/images/repository/foo/IMG_2.png"><img /></a>
            </div>
            <div class="bid-details">
                <p><strong>Condition:</strong> Has Key - Starts and Runs</p>
            </div>
            <div id="listing-details">
                <table>
                    <tr><td><span>Engine:</span> Audi TFSI</td></tr>
                    <tr><td><span>Damages:</span><p>Minor Wear</p></td></tr>
                </table>
                <div class="documents-wrap">
                    <a href="https://www.youtube.com/embed/example">Video</a>
                </div>
            </div>
        "#;

    let details = parse_lot_details(html).expect("details should parse");

    assert_eq!(details.photos.len(), 2);
    assert!(details.photos[0].ends_with("/images/repository/foo/IMG_1.JPG"));
    assert!(details.photos[1].ends_with("/images/repository/foo/IMG_2.png"));
    assert!(details.info_lines.iter().any(|line| line.contains("Condition:")));
    assert!(details.info_lines.iter().any(|line| line.contains("Engine:")));
    assert!(details.info_lines.iter().any(|line| line.contains("Minor Wear")));
    assert_eq!(details.documents.len(), 1);
    assert_eq!(details.documents[0].label, "Video");
}

#[test]
fn parses_bid_cents() {
    assert_eq!(parse_bid_cents("$1,234.50"), Some(123450));
    assert_eq!(parse_bid_cents("$5"), Some(500));
    assert_eq!(parse_bid_cents("N/A"), None);
}

#[test]
fn parses_lot_thumbnail_from_auction_listing() {
    let html = r#"
            <div class="auction-product-item">
                <div class="item-img">
                    <a href="products-full-view.php?arg=abc">
                        <img src="/images/repository/foo/Thumbs/large_item.JPG">
                    </a>
                </div>
                <div class="item-title">
                    <h4><a href="products-full-view.php?arg=abc">Widget</a></h4>
                </div>
                <div class="item-location"><p><span>Location:</span> Saskatoon, SK</p></div>
                <div class="current-bid"><p><span>Current Bid:</span> $25.00 CAD</p></div>
                <input id="txtLotEndDateabc" value="2026-05-26T18:05:00Z">
            </div>
        "#;

    let lots = parse_lots(html).expect("lots should parse");

    assert_eq!(lots.len(), 1);
    assert_eq!(lots[0].name, "Widget");
    assert_eq!(lots[0].bid_cents, Some(2500));
    assert!(lots[0]
        .thumbnail_url
        .as_deref()
        .unwrap()
        .ends_with("/images/repository/foo/Thumbs/large_item.JPG"));
    assert_eq!(
        lots[0].url,
        "https://www.mcdougallauction.com/products-full-view.php?arg=abc"
    );
    assert_eq!(lots[0].location, "Saskatoon, SK");
    assert_eq!(lots[0].close_at.unwrap().timestamp(), 1779818700);
}

#[test]
fn cleans_generic_detail_boilerplate_without_losing_useful_text() {
    let cleaned = clean_detail_line(
            "Other Details: Model: 10811KT McDougall Auctioneers Ltd. strives to represent the item(s) as visible to the naked eye. We strongly recommend manual inspection at the item(s) location. All payments must be made in full before the item(s) can be released to the purchaser. Please note that all sales are final on this auction sale. Please be advised the purchaser is held accountable for the item(s) within their purchased lot(s). The purchased lot(s) must be completely removed from its location when picked up by the purchaser. Failure to comply to the above requirements results in a mandatory disposal fee.",
        )
        .expect("useful prefix should remain");

    assert_eq!(cleaned, "Other Details: Model: 10811KT");
}

#[test]
fn drops_generic_only_detail_lines() {
    assert_eq!(clean_detail_line("Item Quantity: 1"), None);
    assert_eq!(
            clean_detail_line(
                "Other Details: All payments must be made in full before the item(s) can be released to the purchaser. Please note that all sales are final on this auction sale. Please be advised the purchaser is held accountable for the item(s) within their purchased lot(s). The purchased lot(s) must be completely removed from its location when picked up by the purchaser. Failure to comply to the above requirements results in a mandatory disposal fee. From the time this unit arrived at McDougall Auction's sale location, McDougall Auction verified its specific running condition. Please note there may be minor wear and tear, such as dents, scratches, etc., that are not disclosed in this listing. There is no guarantee, representation, or warranty that the vehicle will start, run at idle, or regarding its current registration status at the time of pick-up from McDougall Auction's facility. It is the purchaser's sole responsibility to ascertain, confirm, research, inspect, and/or investigate the unit prior to bidding. Once the unit has been removed from McDougall Auction's sale location, the purchaser accepts the unit \"as is.\"",
            ),
            None
        );
}

#[test]
fn cleaned_lines_are_distinct_and_keep_their_order() {
    let lines = vec![
        "Colour:  red".to_string(),
        "Item Quantity: 1".to_string(),
        "Weight: 4 kg".to_string(),
        "Colour: red".to_string(),
    ];
    assert_eq!(clean_detail_lines(&lines), vec!["Colour: red", "Weight: 4 kg"]);
}

#[test]
fn reads_bids_in_all_their_forms() {
    assert_eq!(parse_bid_cents("$0.05"), Some(5));
    assert_eq!(parse_bid_cents("$12.5"), Some(1250));
    assert_eq!(parse_bid_cents("CAD $3,000"), Some(300000));
    assert_eq!(parse_bid_cents(""), None);
}

#[test]
fn reads_places_and_bids_of_a_listing() {
    assert_eq!(extract_location("Location: Saskatoon, SK"), "Saskatoon, SK");
    assert_eq!(extract_bid("Current Bid: $25.00 CAD"), "$25.00");
    assert!(is_image_url("https://example.com/a/b.JPG"));
    assert!(is_image_url("https://example.com/a/b.png?size=2"));
    assert!(!is_image_url("https://www.youtube.com/embed/example"));
}

#[test]
fn a_line_is_added_once() {
    let mut lines = vec!["a".to_string()];
    push_unique_line(&mut lines, "b".to_string());
    push_unique_line(&mut lines, "a".to_string());
    assert_eq!(lines, vec!["a", "b"]);
}

#[test]
fn white_space_is_put_in_order() {
    assert_eq!(normalize_whitespace("  a \n b\u{a0}\tc "), "a b c");
    assert_eq!(normalize_whitespace(""), "");
    assert_eq!(split_words(" x  y "), vec!["x", "y"]);
    assert_eq!(trim("\u{2003}word \n"), "word");
    assert_eq!(pad("ab", 4), "ab  ");
    assert_eq!(pad("abcde", 4), "abcde");
    assert_eq!(lower_ascii("ÀBc"), "Àbc");
    assert!(has_ending("photo.jpg", ".jpg"));
    assert!(contains_case_insensitive("SASKATOON, Sk", "saskatoon"));
    assert!(contains_case_insensitive("ÉTÉ", "été"));
    assert!(!contains_case_insensitive("Regina", "saskatoon"));
    for text in ["Saskatoon \u{130}stanbul", "\u{212a}elvin ΟΔΟΣ abc", "aΣ bΣc Σ", ""] {
        for needle in ["saskatoon", "kelvin", "οδος", "aς bσc σ", "ABC", ""] {
            let found = contains_case_insensitive(text, needle);
            assert_eq!(contains_case_insensitive(&text.to_ascii_uppercase(), needle), found);
            assert_eq!(contains_case_insensitive(&text.to_ascii_lowercase(), needle), found);
            assert!(found || !needle.is_empty());
        }
    }
}

fn event_html(rows: &str) -> String {
    format!("<html><body>{rows}</body></html>")
}

#[test]
fn a_page_without_auctions_lists_none() {
    assert!(parse_events(&event_html("<p>nothing</p>")).unwrap().is_empty());
    assert!(parse_events_fragment("<p>nothing</p>").unwrap().is_empty());
    assert!(parse_lots("<p>nothing</p>").unwrap().is_empty());
}

#[test]
fn the_number_of_the_next_item_is_read() {
    assert_eq!(parse_next_item("<p></p>").unwrap(), None);
    let html = event_html("<input id=\"txtNextItem\" value=\" 15 \">");
    assert_eq!(parse_next_item(&html).unwrap(), Some(15));
    let html = event_html("<input id=\"txtNextItem\" value=\"later\">");
    assert!(matches!(parse_next_item(&html), Err(ListingError::NextItem(_))));
}

fn element(attributes: [Option<&str>; 4], pieces: &[&str]) -> Element {
    Element {
        attributes: attributes.iter().map(|a| a.map(str::to_string)).collect(),
        pieces: pieces.iter().map(|p| p.to_string()).collect(),
    }
}

fn found(own: Element, inner: Vec<Vec<Element>>) -> Found {
    Found { element: own, inner }
}

#[test]
fn the_number_of_the_next_item_must_be_one() {
    assert!(matches!(next_item_from_items(&vec![]), Ok(None)));
    let number = found(element([None, None, None, Some("15")], &[]), vec![]);
    assert!(matches!(next_item_from_items(&vec![number]), Ok(Some(15))));
    let word = found(element([None, None, None, Some("soon")], &[]), vec![]);
    assert!(matches!(
        next_item_from_items(&vec![word]),
        Err(ListingError::NextItem(_))
    ));
}

#[test]
fn a_lot_with_a_bid_beyond_counting_is_an_error() {
    let title = element([Some("lot.php?arg=1"), None, None, None], &["Gold"]);
    let bid = element([None, None, None, None], &["Current Bid: $99999999999999999.00"]);
    let item = found(
        element([None, None, None, None], &[]),
        vec![vec![], vec![title], vec![], vec![bid], vec![]],
    );
    assert!(matches!(lot_from_item(&item), Err(ListingError::Bid(_))));
}

#[test]
fn a_link_that_leads_nowhere_is_an_error() {
    let title = element([Some("http://["), None, None, None], &["Gold"]);
    let item = found(
        element([None, None, None, None], &[]),
        vec![vec![], vec![title], vec![], vec![], vec![]],
    );
    let error = lot_from_item(&item).expect_err("no address");
    assert!(matches!(error, ListingError::Link(_)));
    assert_eq!(error.text(), "invalid IPv6 address");
}

#[test]
fn a_selector_that_is_none_finds_nothing() {
    for whole in [true, false] {
        let bad = find_in_page("<p>x</p>", whole, "p", &["b", "p[", "i]"], &[]);
        assert_eq!(bad.err(), Some("p[".to_string()));
    }
    let error = ListingError::Selector("p[".to_string());
    assert_eq!(error.text(), "invalid selector: p[");
    let parts = find_in_page("<p class='a'>x<b>y</b></p>", true, "p", &["b"], &["class"]).unwrap();
    assert_eq!(parts.len(), 1);
    assert_eq!(parts[0].element.attributes, vec![Some("a".to_string())]);
    assert_eq!(parts[0].inner[0][0].pieces.concat(), "y");
    let fragment = find_in_page("<i>z</i>", false, "i", &[], &[]).unwrap();
    assert_eq!(fragment[0].element.pieces.concat(), "z");
}

#[test]
fn details_of_nothing_are_empty() {
    let details = details_from_items(&vec![], &vec![], &vec![], &vec![]).unwrap();
    assert!(details.photos.is_empty());
    assert!(details.info_lines.is_empty());
    assert!(details.documents.is_empty());
}

#[test]
fn closing_times_are_read_and_written() {
    let close = parse_lot_close("2026-05-26T18:05:00Z").unwrap();
    assert_eq!(close.timestamp(), 1779818700);
    assert_eq!(format_close_time(&Some(close)), "May 26, 12:05 pm");
    assert_eq!(format_close_time(&None), "Unknown");
    assert!(parse_lot_close("soon").is_none());
    assert_eq!(format_loaded_at(&close), "loaded 2026-05-26 12:05:00 pm CST");
}

#[test]
fn closing_times_of_auctions_are_those_of_saskatchewan() {
    let noon = Moment::new(43200, 0).unwrap();
    let west = moment_in_saskatchewan(&noon).unwrap();
    assert_eq!(west.timestamp(), 43200 + 21600);
    assert!(matches!(close_from_reading(false, None), Ok(None)));
    assert!(close_from_reading(true, None).is_err());
    assert!(matches!(parse_event_close(""), Ok(None)));
    assert_eq!(event_clock_text(""), None);
}

#[test]
fn moments_lie_within_the_calendar() {
    assert!(Moment::new(0, 999_999_999).is_some());
    assert!(Moment::new(0, 2_000_000_000).is_none());
    assert!(Moment::new(i64::MAX, 0).is_none());
    let early = Moment::new(10, 5).unwrap();
    let late = Moment::new(10, 6).unwrap();
    assert!(late.is_after(&early));
    assert!(!early.is_after(&late));
    assert!(!early.is_after(&early));
}

#[test]
fn addresses_of_pieces_name_the_next_item() {
    assert_eq!(
        events_page_url(15).unwrap(),
        "https://www.mcdougallauction.com/searchmore.php?type=event&nextitem=15"
    );
    assert_eq!(
        lots_page_url("https://www.mcdougallauction.com/event.php?arg=a%20b&x=1", 29).unwrap(),
        "https://www.mcdougallauction.com/searchmore.php?type=eventproducts&nextitem=29&arg=a+b&x=1"
    );
    assert_eq!(
        lots_page_url("no address", 1),
        Err("relative URL without a base".to_string())
    );
}

fn lot_html(arg: &str, name: &str) -> String {
    format!(
        "<div class=\"auction-product-item\"><div class=\"item-title\"><h4><a href=\"view.php?arg={arg}\">{name}</a></h4></div></div>"
    )
}

#[test]
fn pieces_of_a_listing_are_merged_until_one_brings_nothing() {
    let mut pages = LotPages::start(&lot_html("1", "One")).unwrap();
    assert_eq!(pages.lots.len(), 1);
    assert!(pages.next_url("https://www.mcdougallauction.com/e.php").is_none());
    pages.next_item = Some(14);
    assert!(matches!(
        pages.next_url("https://www.mcdougallauction.com/e.php"),
        Some(Ok(_))
    ));
    assert!(matches!(pages.next_url("nowhere"), Some(Err(ListingError::Link(_)))));
    let piece = format!("{}{}", lot_html("1", "Again"), lot_html("2", "Two"));
    pages.take_in(&piece).unwrap();
    assert_eq!(pages.next_item, Some(28));
    let names: Vec<&str> = pages.lots.iter().map(|l| l.name.as_str()).collect();
    assert_eq!(names, vec!["One", "Two"]);
    pages.next_item = Some(usize::MAX - 14);
    pages.take_in(&lot_html("3", "Three")).unwrap();
    assert_eq!(pages.next_item, Some(usize::MAX));
    pages.take_in(&lot_html("4", "Four")).unwrap();
    assert_eq!((pages.lots.len(), pages.next_item), (4, None));
    pages.next_item = Some(usize::MAX);
    pages.take_in("  No More Items \n").unwrap();
    assert_eq!(pages.next_item, None);
    assert_eq!(pages.lots.len(), 4);
}

#[test]
fn a_blank_piece_ends_the_list_of_auctions() {
    let mut pages = EventPages::start("<p></p>").unwrap();
    assert!(pages.events.is_empty());
    pages.next_item = Some(0);
    assert!(matches!(pages.next_url(), Some(Ok(_))));
    pages.take_in(" \n ").unwrap();
    assert_eq!(pages.next_item, None);
}

#[test]
fn an_auction_needs_a_link() {
    let item = found(
        element([None, None, None, None], &[]),
        vec![vec![], vec![], vec![]],
    );
    assert!(matches!(event_from_item(&item), Ok(None)));
}

#[test]
fn a_closing_time_that_is_none_is_an_error() {
    let item = |close: &str| {
        format!(
            "<div class=\"online-auction-item\"><div class=\"item-title\"><h4><a href=\"e.php?arg=1\">Big sale</a></h4></div><div class=\"item-location\">Location: Saskatoon</div><div class=\"item-date-no-feature\"><h3>{close}</h3></div></div>"
        )
    };
    let events = parse_events(&item("Closes / May 5, 2026 / 10:30 AM")).unwrap();
    assert_eq!(events.len(), 1);
    assert_eq!(events[0].title, "Big sale");
    assert_eq!(events[0].location, "Saskatoon");
    assert_eq!(events[0].url, "https://www.mcdougallauction.com/e.php?arg=1");
    assert_eq!(events[0].close_at.unwrap().timestamp(), 1777998600);
    let error = parse_events(&item("Closes / some day / soon")).unwrap_err();
    assert!(matches!(error, ListingError::Close(_)));
    assert_eq!(error.text(), "failed to parse event close time: Closes / some day / soon");
    assert!(parse_events(&item("soon")).unwrap()[0].close_at.is_none());
}
