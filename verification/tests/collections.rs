use mcdougs::desk::{FetchDesk, FetchState};
use mcdougs::gallery::{Gallery, TerminalPhotoState};
use mcdougs::keys::{Keys, TerminalPhotoKey};
use mcdougs::numbers::{decimal_text, hex_text, parse_i64, parse_u32, parse_usize, signed_text};
use mcdougs::ranking::{rank_texts, sort_stably, Rank};
use mcdougs::table::Table;
use mcdougs::text::{chars_of, join, normalize_whitespace, split_words};

#[test]
fn numbers_are_read_back_as_they_were_written() {
    for n in [0u64, 7, 10, 4294967295] {
        assert_eq!(parse_u32(&decimal_text(n)), Some(n as u32));
    }
    assert_eq!(decimal_text(u64::MAX), "18446744073709551615");
    assert_eq!(parse_u32("4294967296"), None);
    assert_eq!(parse_u32("+5"), Some(5));
    assert_eq!(parse_u32(""), None);
    assert_eq!(parse_u32("-1"), None);
    for n in [i64::MIN, -1, 0, 1, i64::MAX] {
        assert_eq!(parse_i64(&signed_text(n)), Some(n));
    }
    assert_eq!(parse_i64("9223372036854775808"), None);
    assert_eq!(parse_i64("-"), None);
    assert_eq!(parse_usize("12"), Some(12));
    assert_eq!(hex_text(0xabc, 4), "0abc");
}

#[test]
fn splitting_undoes_joining() {
    let parts = vec!["a".to_string(), "bc".to_string(), "d".to_string()];
    assert_eq!(split_words(&join(&parts, " ")), parts);
    let once = normalize_whitespace(" a\u{2028}b ");
    assert_eq!(once, "a b");
    assert_eq!(normalize_whitespace(&once), once);
}

fn listed(keys: &Keys<String>) -> Vec<String> {
    (0..keys.len()).map(|i| keys.at(i).clone()).collect()
}

#[test]
fn keys_occur_once() {
    let mut keys: Keys<String> = Keys::new();
    for name in ["a", "b", "a", "c"] {
        keys.enqueue(name.to_string(), false);
    }
    assert_eq!(listed(&keys), vec!["a", "b", "c"]);
    keys.enqueue("c".to_string(), true);
    assert_eq!(listed(&keys), vec!["c", "a", "b"]);
    keys.touch(&"c".to_string());
    assert_eq!(listed(&keys), vec!["a", "b", "c"]);
    keys.remove(&"b".to_string());
    assert_eq!(listed(&keys), vec!["a", "c"]);
    assert_eq!(keys.pop_front(), Some("a".to_string()));
    assert!(keys.contains(&"c".to_string()));
    assert!(!keys.contains(&"a".to_string()));
    assert_eq!(keys.position(&"c".to_string()), Some(0));
    let mut live: Keys<String> = Keys::new();
    live.push_back("d".to_string());
    keys.push_front("d".to_string());
    keys.keep_urls(&live);
    assert_eq!(listed(&keys), vec!["d"]);
    keys.drop_url(&"d".to_string());
    assert_eq!(keys.pop_front(), None);
}

#[test]
fn tables_hold_one_value_for_a_key() {
    let mut table: Table<TerminalPhotoKey, u32> = Table::new();
    let key = |url: &str, width: u16| (url.to_string(), width, 1u16);
    assert!(table.insert(key("a", 1), 10));
    assert!(table.insert(key("a", 2), 20));
    assert!(!table.insert(key("a", 1), 11));
    assert!(table.insert(key("b", 1), 30));
    assert_eq!(table.len(), 3);
    assert_eq!(table.get(&key("a", 1)), Some(&11));
    assert_eq!(table.get(&key("c", 1)), None);
    assert!(table.contains_key(&key("b", 1)));
    assert!(table.remove(&key("b", 1)));
    assert!(!table.remove(&key("b", 1)));
    assert_eq!(table.entry(1).1, &20);
    table.insert(key("c", 9), 40);
    table.drop_url(&"a".to_string());
    assert_eq!(table.len(), 1);
    table.keep_urls(&Keys::new());
    assert_eq!(table.len(), 0);
}

#[test]
fn a_desk_asks_once_and_keeps_to_its_limit() {
    let mut desk: FetchDesk<u8> = FetchDesk::new();
    assert!(desk.request("a".to_string(), false));
    assert!(!desk.request("a".to_string(), false));
    assert!(desk.request("b".to_string(), false));
    assert!(desk.request("c".to_string(), true));
    assert!(!desk.request("b".to_string(), true));
    assert_eq!(listed(&desk.queue), vec!["b", "c", "a"]);
    let first = desk.take_next(1).unwrap();
    assert_eq!(first, "b");
    desk.note_sent(first);
    assert_eq!(desk.take_next(1), None);
    assert!(!desk.request("b".to_string(), true));
    assert_eq!(listed(&desk.queue), vec!["c", "a"]);
    desk.note_answer(&"b".to_string());
    desk.settle("b".to_string(), FetchState::Loaded(1));
    assert_eq!(desk.in_flight, 0);
    assert!(desk.is_settled(&"b".to_string()));
    assert!(!desk.request("b".to_string(), true));
    desk.forget(&"b".to_string());
    assert!(desk.request("b".to_string(), false));
    desk.note_answer(&"unknown".to_string());
    assert_eq!(desk.in_flight, 0);
    let mut live: Keys<String> = Keys::new();
    live.push_back("a".to_string());
    desk.prune(&live);
    assert_eq!(listed(&desk.queue), vec!["a"]);
    assert_eq!(desk.states.len(), 1);
}

#[test]
fn terminal_photos_make_room_for_later_ones() {
    let mut gallery: Gallery<u8, u8> = Gallery::new();
    let key = |n: u16| ("p".to_string(), n, 1u16);
    gallery.insert_photo_render_buffer(("p".to_string(), 0, 1, true), 5, 10);
    gallery.insert_photo_render_buffer(("p".to_string(), 0, 1, false), 6, 10);
    for n in 0..3 {
        gallery.accept(key(n), TerminalPhotoState::Loaded(n as u8), 2);
        if n == 0 {
            gallery.insert_photo_render_buffer(("p".to_string(), 0, 1, true), 5, 10);
        }
    }
    assert!(gallery.states.get(&key(0)).is_none());
    assert!(gallery.states.get(&key(1)).is_some());
    assert!(gallery.cached_photo_render_buffer(&("p".to_string(), 0, 1, true)).is_none());
    assert_eq!(gallery.cached_photo_render_buffer(&("p".to_string(), 0, 1, false)), Some(&6));
    assert!(gallery.terminal_photo_state_for_render(&key(1)).is_some());
    gallery.accept(key(3), TerminalPhotoState::Failed, 2);
    assert!(gallery.states.get(&key(2)).is_none());
    assert!(gallery.states.get(&key(1)).is_some());
    gallery.note_refused(key(9));
    gallery.trim_terminal_photo_states(0);
    assert_eq!(gallery.states.len(), 1);
    gallery.order(key(4), false);
    gallery.order(key(5), true);
    gallery.order(key(4), false);
    assert_eq!(gallery.queue.len(), 2);
    assert!(gallery.take_next(&FetchDesk::new(), 2).is_none());
    assert_eq!(gallery.queue.len(), 0);
}

#[test]
fn texts_rank_by_their_characters() {
    let rank = |a: &str, b: &str| rank_texts(&chars_of(a), &chars_of(b));
    assert_eq!(rank("a", "b"), Rank::Before);
    assert_eq!(rank("a", "a"), Rank::Level);
    assert_eq!(rank("ab", "a"), Rank::After);
    assert_eq!(rank("\u{ff5e}", "\u{1f600}"), Rank::Before);
}

#[test]
fn sorting_an_empty_list_gives_an_empty_one() {
    let lots: Vec<mcdougs::listing::Lot> = Vec::new();
    assert!(sort_stably(lots, &mcdougs::catalog::SortKey::Name).is_empty());
}
