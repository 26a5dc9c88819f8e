use mcdougs::cache::{
    cache_entry_expired, cache_key, cache_root, decode_cached_photo_preview, decode_photo_at,
    detail_file_is_stale, details_from_cache, details_to_cache, encode_photo_preview,
    entry_expired_at, photo_file_is_stale, CachePlaces, CacheStore, PhotoFileError,
};
use mcdougs::listing::{DetailLink, LotDetails};
use mcdougs::moments::utc_now;
use mcdougs::preview::{
    decode_photo, half_block_cell, luminance, pixel_rows, photo_from_picture, scale_photo,
    PhotoError, PhotoPreview,
};

fn sample_details() -> LotDetails {
    LotDetails {
        photos: vec!["https://example.com/photo.jpg".to_string()],
        info_lines: vec!["Item Quantity: 1".to_string(), "Condition: Good".to_string()],
        documents: vec![DetailLink {
            label: "Spec".to_string(),
            url: "https://example.com/spec.pdf".to_string(),
        }],
    }
}

#[test]
fn disk_cache_round_trips_lot_details() {
    let details = sample_details();
    let now = utc_now().timestamp();
    let cached = details_to_cache("https://example.com/lot", Some(now + 60), &details);
    let (loaded, changed) = details_from_cache(cached, "https://example.com/lot", now)
        .expect("details should be cached");

    assert_eq!(loaded.photos, details.photos);
    assert_eq!(loaded.info_lines, vec!["Condition: Good"]);
    assert_eq!(loaded.documents[0].url, details.documents[0].url);
    assert!(!changed);
}

#[test]
fn disk_cache_round_trips_photo_preview_and_expires() {
    let preview = PhotoPreview { width: 2, height: 1, pixels: vec![1, 2, 3, 4, 5, 6] };
    let now = utc_now().timestamp();

    let bytes = encode_photo_preview(&preview, Some(now + 60));
    let loaded = decode_cached_photo_preview(&bytes)
        .expect("photo should load")
        .expect("photo should be cached");

    assert_eq!(loaded.width, 2);
    assert_eq!(loaded.height, 1);
    assert_eq!(loaded.pixels, preview.pixels);

    let bytes = encode_photo_preview(&preview, Some(now - 1));
    assert!(decode_cached_photo_preview(&bytes)
        .expect("expired photo load should not fail")
        .is_none());
}

#[test]
fn the_bytes_of_a_photo_file_are_fixed() {
    let preview = PhotoPreview { width: 1, height: 1, pixels: vec![10, 10, 32] };
    assert_eq!(
        encode_photo_preview(&preview, None),
        b"MCDOUGS_PHOTO_PREVIEW_V1\n1 1 0\n\x0a\x0a\x20".to_vec()
    );
    assert_eq!(
        encode_photo_preview(&preview, Some(-7)),
        b"MCDOUGS_PHOTO_PREVIEW_V1\n1 1 -7\n\x0a\x0a\x20".to_vec()
    );
}

fn file(rest: &[u8]) -> Vec<u8> {
    let mut bytes = b"MCDOUGS_PHOTO_PREVIEW_V1\n".to_vec();
    bytes.extend_from_slice(rest);
    bytes
}

#[test]
fn photo_files_that_are_none_are_told_apart() {
    let read = |rest: &[u8]| decode_photo_at(&file(rest), 100);
    assert!(matches!(decode_photo_at(b"", 100), Ok(None)));
    assert!(matches!(decode_photo_at(b"MCDOUGS_PHOTO_PREVIEW_V2\n1 1 0\nabc", 100), Ok(None)));
    assert!(matches!(read(b"1 1 0"), Ok(None)));
    assert!(matches!(read(b"1 1\nabc"), Ok(None)));
    assert!(matches!(read(b"0 1 0\n"), Ok(None)));
    assert!(matches!(read(b"1 1 0\nab"), Ok(None)));
    assert!(matches!(read(b"1 1 100\nabc"), Ok(None)));
    assert!(matches!(read(b"4294967295 4294967295 0\nabc"), Ok(None)));
    assert!(matches!(read(b"1 1 101\nabc"), Ok(Some(_))));
    assert!(matches!(read(b"1 1 -5\nabc"), Ok(Some(_))));
    assert!(matches!(read(b"\xff 1 0\nabc"), Err(PhotoFileError::Header)));
    assert!(matches!(read(b"w 1 0\nabc"), Err(PhotoFileError::Width)));
    assert!(matches!(read(b"1 h 0\nabc"), Err(PhotoFileError::Height)));
    assert!(matches!(read(b"1 1 e\nabc"), Err(PhotoFileError::Expiry)));
    assert_eq!(PhotoFileError::Expiry.text(), "invalid cached photo expiry");
    assert!(photo_file_is_stale(&file(b"1 1 e\nabc"), 100));
    assert!(!photo_file_is_stale(&file(b"1 1 0\nabc"), 100));
}

#[test]
fn entries_expire_at_their_second() {
    assert!(entry_expired_at(Some(5), 5));
    assert!(!entry_expired_at(Some(6), 5));
    assert!(!entry_expired_at(Some(0), 5));
    assert!(!entry_expired_at(Some(-1), 5));
    assert!(!entry_expired_at(None, 5));
    assert!(cache_entry_expired(Some(1)));
    assert!(!cache_entry_expired(Some(i64::MAX)));
    assert!(!cache_entry_expired(None));
}

#[test]
fn kept_details_are_for_one_address_and_time() {
    let keep = || details_to_cache("a", Some(10), &sample_details());
    assert!(details_from_cache(keep(), "b", 5).is_none());
    assert!(details_from_cache(keep(), "a", 10).is_none());
    let mut dirty = keep();
    dirty.details.info_lines.push("Item Quantity: 1".to_string());
    let (details, changed) = details_from_cache(dirty, "a", 9).unwrap();
    assert!(changed);
    assert_eq!(details.info_lines, vec!["Condition: Good"]);
    assert!(detail_file_is_stale(&None, 5));
    assert!(detail_file_is_stale(&Some(keep()), 10));
    assert!(!detail_file_is_stale(&Some(keep()), 9));
}

#[test]
fn keys_are_hashes_of_addresses() {
    assert_eq!(cache_key(""), "cbf29ce484222325");
    assert_eq!(cache_key("a"), "af63dc4c8601ec8c");
    assert_eq!(cache_key("foobar"), "85944171f73967e8");
    let store = CacheStore::from_root("root");
    let path = store.detail_path("a");
    assert_eq!((*path.root, path.folder, path.file.as_str()), ("root", "details", "af63dc4c8601ec8c.json"));
    let path = store.photo_path("a");
    assert_eq!((path.folder, path.file.as_str()), ("photos", "af63dc4c8601ec8c.rgb"));
}

fn places(
    named: Option<(&'static str, bool)>,
    local_app_data: Option<&'static str>,
    home: Option<&'static str>,
    user_profile: Option<&'static str>,
) -> CachePlaces<&'static str> {
    CachePlaces { named, local_app_data, home, user_profile, temporary: "tmp" }
}

#[test]
fn the_root_is_the_first_place_that_is_set() {
    let root = |p| {
        let r = cache_root(p);
        (r.base, r.below)
    };
    assert_eq!(root(places(Some(("here", false)), Some("l"), None, None)), ("here", vec![]));
    assert_eq!(
        root(places(Some(("", true)), Some("l"), Some("h"), None)),
        ("l", vec!["mcdougs", "cache"])
    );
    assert_eq!(root(places(None, None, Some("h"), Some("u"))), ("h", vec![".cache", "mcdougs"]));
    assert_eq!(root(places(None, None, None, Some("u"))), ("u", vec![".cache", "mcdougs"]));
    assert_eq!(root(places(None, None, None, None)), ("tmp", vec!["mcdougs-cache"]));
    let store = CacheStore::new(places(None, None, None, None));
    assert_eq!(store.root.base, "tmp");
}

#[test]
fn pixels_are_found_and_held_at_the_edge() {
    let photo = PhotoPreview { width: 2, height: 2, pixels: (0..12).collect() };
    assert_eq!(photo.pixel(0, 0), [0, 1, 2]);
    assert_eq!(photo.pixel(1, 0), [3, 4, 5]);
    assert_eq!(photo.pixel(0, 1), [6, 7, 8]);
    assert_eq!(photo.pixel(9, 9), [9, 10, 11]);
}

#[test]
fn two_pixels_make_a_half_block() {
    assert_eq!(luminance([1, 1, 1]), 10000);
    assert_eq!(luminance([255, 255, 255]), 2550000);
    assert_eq!(half_block_cell([1, 2, 3], [1, 2, 3]), (" ", [1, 2, 3], [1, 2, 3]));
    assert_eq!(half_block_cell([0, 0, 0], [9, 9, 9]), ("▄", [9, 9, 9], [0, 0, 0]));
    assert_eq!(half_block_cell([9, 9, 9], [0, 0, 0]), ("▀", [9, 9, 9], [0, 0, 0]));
}

#[test]
fn rows_of_the_terminal_show_two_rows_of_pixels() {
    assert_eq!(pixel_rows(0, 0, 3), Some((0, 1)));
    assert_eq!(pixel_rows(0, 1, 3), Some((2, 2)));
    assert_eq!(pixel_rows(1, 1, 3), None);
    assert_eq!(pixel_rows(65535, 65535, 131070), None);
}

#[test]
fn pictures_are_decoded_and_scaled() {
    let gif = b"GIF89a\x01\x00\x01\x00\x80\x00\x00\xff\x00\x00\x00\x00\x00,\x00\x00\x00\x00\x01\x00\x01\x00\x00\x02\x02D\x01\x00;";
    let photo = decode_photo(gif).expect("a picture");
    assert_eq!((photo.width, photo.height), (1, 1));
    assert_eq!(photo.pixels, vec![255, 0, 0]);
    let same = scale_photo(photo, 1, 1);
    assert_eq!(same.pixels, vec![255, 0, 0]);
    let larger = scale_photo(same, 2, 3);
    assert_eq!((larger.width, larger.height, larger.pixels.len()), (2, 3, 18));
    assert!(matches!(decode_photo(b"no picture"), Err(PhotoError::Undecodable)));
    assert!(matches!(photo_from_picture(Some((0, 4, vec![]))), Err(PhotoError::Empty)));
    assert_eq!(PhotoError::Empty.text(), "photo has no pixels");
}
