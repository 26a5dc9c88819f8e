//! What is kept on disk between runs: where it lies, in what form, and for how long.
use vstd::prelude::*;
use vstd::slice::{slice_subrange, slice_to_vec};
use vstd::utf8::{
    decode_utf8, encode_utf8, encode_utf8_decode_utf8, encode_utf8_valid_utf8, is_ascii_chars,
    is_ascii_chars_encode_utf8, valid_utf8,
};

use crate::cleaning::{clean_detail_lines, cleaned_lines};
use crate::listing::{link_texts, DetailLink, DetailsText, LotDetails};
use crate::moments::{utc_now, FIRST_SECOND, LAST_SECOND};
use crate::numbers::{
    decimal, decimal_text, hex, hex_text, is_digit, law_signed_round_trip, law_unsigned_round_trip,
    lemma_decimal, parse_i64, parse_u32, signed_decimal, signed_text, signed_value, unsigned_value,
};
use crate::preview::{is_photo, PhotoPreview, PhotoText};
use crate::text::{concat, joined, law_words_of_joined, same_text, split_words, texts, words};

verus! {

/// The first line of a photo's file.
pub const PHOTO_CACHE_MAGIC: &'static str = "MCDOUGS_PHOTO_PREVIEW_V1\n";

/// The byte that ends a line.
pub const NEWLINE: u8 = 10;

/// The 64-bit Fowler-Noll-Vo hash (1a) of some bytes.
pub open spec fn hash_of(bytes: Seq<u8>) -> u64
    decreases bytes.len(),
{
    if bytes.len() == 0 {
        0xcbf29ce484222325u64
    } else {
        ((((hash_of(bytes.drop_last()) ^ (bytes.last() as u64)) as nat) * 0x100000001b3)
            % 0x1_0000_0000_0000_0000) as u64
    }
}

/// The name that an address has on disk: the hash of its bytes as sixteen digits.
pub open spec fn key_of(value: Seq<char>) -> Seq<char> {
    hex(hash_of(encode_utf8(value)) as nat, 16)
}

/// The name that an address has on disk.
pub fn cache_key(value: &str) -> (r: String)
    ensures
        r@ == key_of(value@),
{
    let bytes = value.as_bytes();
    let mut hash: u64 = 0xcbf29ce484222325;
    let mut i: usize = 0;
    assert(bytes@.take(0) =~= seq![]);
    while i < bytes.len()
        invariant
            i <= bytes@.len(),
            hash == hash_of(bytes@.take(i as int)),
        decreases bytes@.len() - i,
    {
        proof {
            let next = bytes@.take(i + 1);
            assert(next.drop_last() =~= bytes@.take(i as int));
            assert(next.last() == bytes@[i as int]);
        }
        hash = (hash ^ (bytes[i] as u64)).wrapping_mul(0x100000001b3);
        i += 1;
    }
    assert(bytes@.take(i as int) =~= bytes@);
    hex_text(hash, 16)
}

/// A place below a root.
#[derive(Debug)]
pub struct CachePath<'a, R> {
    pub root: &'a R,
    pub folder: &'static str,
    pub file: String,
}

/// A directory and the names of those below it that lead to a place.
#[derive(Debug)]
pub struct CacheRoot<R> {
    pub base: R,
    pub below: Vec<&'static str>,
}

/// Places that a machine offers for what is kept on disk, each where it is set.
#[derive(Debug)]
pub struct CachePlaces<R> {
    /// The directory that the user names, and whether its name is empty.
    pub named: Option<(R, bool)>,
    pub local_app_data: Option<R>,
    pub home: Option<R>,
    pub user_profile: Option<R>,
    pub temporary: R,
}

/// What is kept on disk, below a root.
#[derive(Debug)]
pub struct CacheStore<R> {
    pub root: R,
}

/// The names of some directories.
pub open spec fn name_texts(names: Seq<&'static str>) -> Seq<Seq<char>> {
    names.map_values(|n: &'static str| n@)
}

/// Where the root lies: in the directory that the user names, or else below the first place
/// that is set.
pub open spec fn root_of<R>(places: CachePlaces<R>) -> (R, Seq<Seq<char>>) {
    if let Some((path, false)) = places.named {
        (path, seq![])
    } else if places.local_app_data is Some {
        (places.local_app_data->0, seq!["mcdougs"@, "cache"@])
    } else if places.home is Some {
        (places.home->0, seq![".cache"@, "mcdougs"@])
    } else if places.user_profile is Some {
        (places.user_profile->0, seq![".cache"@, "mcdougs"@])
    } else {
        (places.temporary, seq!["mcdougs-cache"@])
    }
}

/// Where the root lies.
pub fn cache_root<R>(places: CachePlaces<R>) -> (r: CacheRoot<R>)
    ensures
        (r.base, name_texts(r.below@)) == root_of(places),
{
    if let Some((path, empty)) = places.named {
        if !empty {
            let below: Vec<&'static str> = Vec::new();
            assert(name_texts(below@) =~= seq![]);
            return CacheRoot { base: path, below };
        }
    }
    if let Some(local_app_data) = places.local_app_data {
        let below: Vec<&'static str> = vec!["mcdougs", "cache"];
        assert(name_texts(below@) =~= seq!["mcdougs"@, "cache"@]);
        return CacheRoot { base: local_app_data, below };
    }
    let home = match places.home {
        Some(home) => Some(home),
        None => places.user_profile,
    };
    if let Some(home) = home {
        let below: Vec<&'static str> = vec![".cache", "mcdougs"];
        assert(name_texts(below@) =~= seq![".cache"@, "mcdougs"@]);
        return CacheRoot { base: home, below };
    }
    let below: Vec<&'static str> = vec!["mcdougs-cache"];
    assert(name_texts(below@) =~= seq!["mcdougs-cache"@]);
    CacheRoot { base: places.temporary, below }
}

impl<R> CacheStore<CacheRoot<R>> {
    /// What is kept below the root that the machine offers.
    pub fn new(places: CachePlaces<R>) -> (r: Self)
        ensures
            (r.root.base, name_texts(r.root.below@)) == root_of(places),
    {
        CacheStore { root: cache_root(places) }
    }
}

impl<R> CacheStore<R> {
    /// What is kept below a root.
    pub fn from_root(root: R) -> (r: Self)
        ensures
            r.root == root,
    {
        CacheStore { root }
    }

    /// Where the details of a lot lie.
    pub fn detail_path(&self, lot_url: &str) -> (r: CachePath<'_, R>)
        ensures
            *r.root == self.root,
            r.folder@ == "details"@,
            r.file@ == key_of(lot_url@) + ".json"@,
    {
        let key = cache_key(lot_url);
        CachePath { root: &self.root, folder: "details", file: concat(key.as_str(), ".json") }
    }

    /// Where a photo lies.
    pub fn photo_path(&self, photo_url: &str) -> (r: CachePath<'_, R>)
        ensures
            *r.root == self.root,
            r.folder@ == "photos"@,
            r.file@ == key_of(photo_url@) + ".rgb"@,
    {
        let key = cache_key(photo_url);
        CachePath { root: &self.root, folder: "photos", file: concat(key.as_str(), ".rgb") }
    }
}

/// What was kept until a second has had its time. A second that is not positive, or none, sets
/// no end.
pub open spec fn is_expired(expires_at: Option<i64>, now: int) -> bool {
    expires_at matches Some(second) && 0 < second <= now
}

/// Whether what was kept until a second has had its time by another.
pub fn entry_expired_at(expires_at: Option<i64>, now: i64) -> (r: bool)
    ensures
        r == is_expired(expires_at, now as int),
{
    match expires_at {
        Some(second) => second > 0 && second <= now,
        None => false,
    }
}

/// Whether what was kept until a second has had its time now.
pub fn cache_entry_expired(expires_at: Option<i64>) -> (r: bool)
    ensures
        exists|now: int|
            FIRST_SECOND <= now <= LAST_SECOND && r == #[trigger] is_expired(expires_at, now),
        !(expires_at matches Some(second) && 0 < second <= LAST_SECOND) ==> !r,
{
    let now = utc_now().timestamp();
    let r = entry_expired_at(expires_at, now);
    assert(r == is_expired(expires_at, now as int));
    r
}

/// Why a photo's file could not be read.
#[derive(Debug, Clone, Copy, PartialEq, Eq, Structural)]
pub enum PhotoFileError {
    /// The line of numbers is no text.
    Header,
    /// The width is no number.
    Width,
    /// The height is no number.
    Height,
    /// The second until which it is kept is no number.
    Expiry,
}

impl PhotoFileError {
    /// The words for an error.
    pub open spec fn words(self) -> Seq<char> {
        match self {
            PhotoFileError::Header => "photo cache header is not utf-8"@,
            PhotoFileError::Width => "invalid cached photo width"@,
            PhotoFileError::Height => "invalid cached photo height"@,
            PhotoFileError::Expiry => "invalid cached photo expiry"@,
        }
    }

    /// The words for this error.
    pub fn text(&self) -> (r: &'static str)
        ensures
            r@ == self.words(),
    {
        match self {
            PhotoFileError::Header => "photo cache header is not utf-8",
            PhotoFileError::Width => "invalid cached photo width",
            PhotoFileError::Height => "invalid cached photo height",
            PhotoFileError::Expiry => "invalid cached photo expiry",
        }
    }
}

/// The position of the first byte that ends a line, or the length where there is none.
pub open spec fn line_end(bytes: Seq<u8>) -> nat
    decreases bytes.len(),
{
    if bytes.len() == 0 || bytes[0] == NEWLINE {
        0
    } else {
        1 + line_end(bytes.drop_first())
    }
}

/// The numbers of a photo's file, from its second line: the width, the height and the second
/// until which it is kept, where the line holds three words.
pub open spec fn photo_numbers(line: Seq<u8>) -> Result<Option<(nat, nat, int)>, PhotoFileError> {
    if !valid_utf8(line) {
        Err(PhotoFileError::Header)
    } else {
        let parts = words(decode_utf8(line));
        if parts.len() != 3 {
            Ok(None)
        } else {
            match (
                unsigned_value(parts[0], u32::MAX as nat),
                unsigned_value(parts[1], u32::MAX as nat),
                signed_value(parts[2]),
            ) {
                (None, _, _) => Err(PhotoFileError::Width),
                (Some(_), None, _) => Err(PhotoFileError::Height),
                (Some(_), Some(_), None) => Err(PhotoFileError::Expiry),
                (Some(width), Some(height), Some(second)) => Ok(Some((width, height, second))),
            }
        }
    }
}

/// The photo in a photo's file at a second: none where the file does not start as it should,
/// does not hold three numbers, is empty, has had its time, or does not hold as many bytes as
/// the numbers say.
pub open spec fn photo_of(bytes: Seq<u8>, now: int) -> Result<Option<PhotoText>, PhotoFileError> {
    let magic = encode_utf8(PHOTO_CACHE_MAGIC@);
    if bytes.len() < magic.len() || bytes.take(magic.len() as int) != magic {
        Ok(None)
    } else {
        let rest = bytes.skip(magic.len() as int);
        let end = line_end(rest) as int;
        if end == rest.len() {
            Ok(None)
        } else {
            match photo_numbers(rest.take(end)) {
                Err(error) => Err(error),
                Ok(None) => Ok(None),
                Ok(Some((width, height, second))) => {
                    let pixels = rest.skip(end + 1);
                    if width == 0 || height == 0 || 0 < second <= now || pixels.len() != width
                        * height * 3 {
                        Ok(None)
                    } else {
                        Ok(Some(PhotoText { width, height, pixels }))
                    }
                },
            }
        }
    }
}

/// What reading a photo's file comes to.
pub open spec fn photo_outcome(r: Result<Option<PhotoPreview>, PhotoFileError>) -> Result<
    Option<PhotoText>,
    PhotoFileError,
> {
    match r {
        Ok(Some(preview)) => Ok(Some(preview@)),
        Ok(None) => Ok(None),
        Err(error) => Err(error),
    }
}

/// The text that bytes are the UTF-8 form of, by `std::str::from_utf8`, which refuses bytes
/// that are the form of none.
#[verifier::external_body]
fn read_utf8(bytes: &[u8]) -> (r: Option<String>)
    ensures
        match r {
            Some(s) => valid_utf8(bytes@) && s@ == decode_utf8(bytes@),
            None => !valid_utf8(bytes@),
        },
{
    std::str::from_utf8(bytes).ok().map(str::to_owned)
}

/// The position of the first byte that ends a line.
fn find_line_end(bytes: &[u8]) -> (r: usize)
    ensures
        r == line_end(bytes@),
        r <= bytes@.len(),
{
    let mut i: usize = 0;
    assert(bytes@.skip(0) =~= bytes@);
    while i < bytes.len() && bytes[i] != NEWLINE
        invariant
            i <= bytes@.len(),
            line_end(bytes@) == i + line_end(bytes@.skip(i as int)),
        decreases bytes@.len() - i,
    {
        assert(bytes@.skip(i as int).drop_first() =~= bytes@.skip(i + 1));
        i += 1;
    }
    i
}

/// Whether bytes start with others.
fn starts_with(bytes: &[u8], start: &[u8]) -> (r: bool)
    ensures
        r == (bytes@.len() >= start@.len() && bytes@.take(start@.len() as int) == start@),
{
    if bytes.len() < start.len() {
        return false;
    }
    let mut i: usize = 0;
    while i < start.len()
        invariant
            i <= start@.len() <= bytes@.len(),
            forall|k: int| 0 <= k < i ==> bytes@[k] == start@[k],
        decreases start@.len() - i,
    {
        if bytes[i] != start[i] {
            assert(bytes@.take(start@.len() as int)[i as int] != start@[i as int]);
            return false;
        }
        i += 1;
    }
    assert(bytes@.take(start@.len() as int) =~= start@);
    true
}

/// The numbers of a photo's file, from its second line.
fn read_photo_numbers(line: &[u8]) -> (r: Result<Option<(u32, u32, i64)>, PhotoFileError>)
    ensures
        match r {
            Ok(Some((width, height, second))) => photo_numbers(line@) == Ok::<_, PhotoFileError>(
                Some((width as nat, height as nat, second as int)),
            ),
            Ok(None) => photo_numbers(line@) == Ok::<Option<(nat, nat, int)>, PhotoFileError>(None),
            Err(error) => photo_numbers(line@) == Err::<Option<(nat, nat, int)>, _>(error),
        },
{
    let header = match read_utf8(line) {
        Some(header) => header,
        None => return Err(PhotoFileError::Header),
    };
    let parts = split_words(header.as_str());
    proof {
        assert(texts(parts@).len() == parts@.len());
        assert(forall|i: int| 0 <= i < parts@.len() ==> texts(parts@)[i] == #[trigger] parts@[i]@);
    }
    if parts.len() != 3 {
        return Ok(None);
    }
    let width: u32 = match parse_u32(parts[0].as_str()) {
        Some(width) => width,
        None => return Err(PhotoFileError::Width),
    };
    let height: u32 = match parse_u32(parts[1].as_str()) {
        Some(height) => height,
        None => return Err(PhotoFileError::Height),
    };
    match parse_i64(parts[2].as_str()) {
        Some(second) => Ok(Some((width, height, second))),
        None => Err(PhotoFileError::Expiry),
    }
}

/// The photo in a photo's file, at a second.
pub fn decode_photo_at(bytes: &[u8], now: i64) -> (r: Result<Option<PhotoPreview>, PhotoFileError>)
    ensures
        photo_outcome(r) == photo_of(bytes@, now as int),
{
    let magic = PHOTO_CACHE_MAGIC.as_bytes();
    if !starts_with(bytes, magic) {
        return Ok(None);
    }
    let rest = slice_subrange(bytes, magic.len(), bytes.len());
    assert(rest@ =~= bytes@.skip(magic@.len() as int));
    let end = find_line_end(rest);
    if end == rest.len() {
        return Ok(None);
    }
    let line = slice_subrange(rest, 0, end);
    assert(line@ =~= rest@.take(end as int));
    let (width, height, second) = match read_photo_numbers(line) {
        Ok(Some(numbers)) => numbers,
        Ok(None) => return Ok(None),
        Err(error) => return Err(error),
    };
    if width == 0 || height == 0 || entry_expired_at(Some(second), now) {
        return Ok(None);
    }
    let raw = slice_subrange(rest, end + 1, rest.len());
    assert(raw@ =~= rest@.skip(end + 1));
    assert((width as int) * (height as int) <= 0xffff_ffff * 0xffff_ffff) by (nonlinear_arith)
        requires
            0 <= width <= 0xffff_ffff,
            0 <= height <= 0xffff_ffff,
    ;
    let expected: u128 = width as u128 * height as u128 * 3;
    if raw.len() as u128 != expected {
        return Ok(None);
    }
    Ok(Some(PhotoPreview { width, height, pixels: slice_to_vec(raw) }))
}

/// The photo in a photo's file, now.
pub fn decode_cached_photo_preview(bytes: &[u8]) -> (r: Result<
    Option<PhotoPreview>,
    PhotoFileError,
>)
    ensures
        exists|now: int|
            FIRST_SECOND <= now <= LAST_SECOND && photo_outcome(r) == #[trigger] photo_of(
                bytes@,
                now,
            ),
{
    let now = utc_now().timestamp();
    let r = decode_photo_at(bytes, now);
    assert(photo_outcome(r) == photo_of(bytes@, now as int));
    r
}

/// The second until which something is kept, zero for no end.
pub open spec fn second_of(expires_at: Option<i64>) -> i64 {
    match expires_at {
        Some(second) => second,
        None => 0i64,
    }
}

/// The second line of a photo's file.
pub open spec fn photo_line(width: nat, height: nat, expires_at: Option<i64>) -> Seq<char> {
    joined(
        seq![
            decimal(width),
            decimal(height),
            signed_decimal(second_of(expires_at) as int),
        ],
        " "@,
    )
}

/// The bytes of a photo's file.
pub open spec fn photo_file(photo: PhotoText, expires_at: Option<i64>) -> Seq<u8> {
    encode_utf8(PHOTO_CACHE_MAGIC@) + encode_utf8(
        photo_line(photo.width, photo.height, expires_at),
    ).push(NEWLINE) + photo.pixels
}

/// The bytes of a photo's file.
pub fn encode_photo_preview(preview: &PhotoPreview, expires_at: Option<i64>) -> (r: Vec<u8>)
    ensures
        r@ == photo_file(preview@, expires_at),
{
    let width = decimal_text(preview.width as u64);
    let height = decimal_text(preview.height as u64);
    let second = signed_text(
        match expires_at {
            Some(second) => second,
            None => 0,
        },
    );
    let parts: Vec<String> = vec![width, height, second];
    let line = crate::text::join(&parts, " ");
    assert(texts(parts@) =~= seq![
        decimal(preview.width as nat),
        decimal(preview.height as nat),
        signed_decimal(second_of(expires_at) as int),
    ]);
    let mut bytes = slice_to_vec(PHOTO_CACHE_MAGIC.as_bytes());
    let mut line_bytes = slice_to_vec(line.as_str().as_bytes());
    bytes.append(&mut line_bytes);
    bytes.push(NEWLINE);
    let mut pixels = slice_to_vec(preview.pixels.as_slice());
    bytes.append(&mut pixels);
    assert(bytes@ =~= photo_file(preview@, expires_at));
    bytes
}

/// Digits and a sign are ASCII characters, and none of them ends a line.
proof fn lemma_line_is_ascii(width: nat, height: nat, expires_at: Option<i64>)
    ensures
        is_ascii_chars(photo_line(width, height, expires_at)),
        forall|i: int|
            0 <= i < photo_line(width, height, expires_at).len() ==> #[trigger] photo_line(
                width,
                height,
                expires_at,
            )[i] != '\n',
{
    let second = second_of(expires_at) as int;
    let a = decimal(width);
    let b = decimal(height);
    let c = signed_decimal(second);
    reveal_strlit(" ");
    reveal_with_fuel(joined, 4);
    let all = seq![a, b, c];
    assert(all.drop_last() =~= seq![a, b]);
    assert(seq![a, b].drop_last() =~= seq![a]);
    assert(photo_line(width, height, expires_at) =~= a + " "@ + b + " "@ + c);
    lemma_decimal(width);
    lemma_decimal(height);
    lemma_decimal(
        if second < 0 {
            (-second) as nat
        } else {
            second as nat
        },
    );
    assert forall|i: int| 0 <= i < c.len() implies is_digit(#[trigger] c[i]) || c[i] == '-' by {
        if second < 0 {
            if i > 0 {
                assert(c[i] == decimal((-second) as nat)[i - 1]);
            }
        }
    }
    let line = photo_line(width, height, expires_at);
    assert forall|i: int| 0 <= i < line.len() implies is_digit(#[trigger] line[i]) || line[i] == '-'
        || line[i] == ' ' by {
        let ab = a + " "@ + b;
        if i < a.len() {
            assert(line[i] == a[i]);
        } else if i == a.len() {
        } else if i < ab.len() {
            assert(line[i] == b[i - a.len() - 1]);
        } else if i == ab.len() {
        } else {
            assert(line[i] == c[i - ab.len() - 1]);
        }
    }
}

/// The first line end lies where nothing before it ends a line.
proof fn lemma_line_end(bytes: Seq<u8>, n: int)
    requires
        0 <= n < bytes.len(),
        bytes[n] == NEWLINE,
        forall|i: int| 0 <= i < n ==> #[trigger] bytes[i] != NEWLINE,
    ensures
        line_end(bytes) == n,
    decreases n,
{
    if n > 0 {
        assert(bytes.drop_first()[n - 1] == NEWLINE);
        assert forall|i: int| 0 <= i < n - 1 implies #[trigger] bytes.drop_first()[i] != NEWLINE by {
            assert(bytes[i + 1] != NEWLINE);
        }
        lemma_line_end(bytes.drop_first(), n - 1);
    }
}

/// Reading a photo's file gives back the photo that was written, until it has had its time,
/// and nothing from then on.
pub proof fn law_photo_file_round_trip(photo: PhotoText, expires_at: Option<i64>, now: int)
    requires
        is_photo(photo),
    ensures
        photo_of(photo_file(photo, expires_at), now) == Ok::<_, PhotoFileError>(
            if is_expired(expires_at, now) {
                None
            } else {
                Some(photo)
            },
        ),
{
    let second = second_of(expires_at);
    let magic = encode_utf8(PHOTO_CACHE_MAGIC@);
    let line = photo_line(photo.width, photo.height, expires_at);
    let encoded = encode_utf8(line);
    let bytes = photo_file(photo, expires_at);
    assert(bytes.take(magic.len() as int) =~= magic);
    let rest = bytes.skip(magic.len() as int);
    assert(rest =~= encoded.push(NEWLINE) + photo.pixels);
    lemma_line_is_ascii(photo.width, photo.height, expires_at);
    is_ascii_chars_encode_utf8(line);
    let n = encoded.len() as int;
    assert forall|i: int| 0 <= i < n implies #[trigger] rest[i] != NEWLINE by {
        assert(rest[i] == encoded[i]);
        assert(line[i] != '\n');
        assert('\0' <= line[i] <= '\u{7f}');
        assert(encoded[i] == line[i] as u8);
    }
    lemma_line_end(rest, n);
    assert(rest.take(n) =~= encoded);
    assert(rest.skip(n + 1) =~= photo.pixels);
    encode_utf8_valid_utf8(line);
    encode_utf8_decode_utf8(line);
    let parts = seq![decimal(photo.width), decimal(photo.height), signed_decimal(second as int)];
    law_unsigned_round_trip(photo.width, u32::MAX as nat);
    law_unsigned_round_trip(photo.height, u32::MAX as nat);
    law_signed_round_trip(second);
    reveal_strlit(" ");
    assert(" "@ =~= seq![' ']);
    law_words_of_joined(parts, ' ');
}

/// What is kept on disk of the details of a lot.
#[derive(Debug)]
pub struct CachedLotDetails {
    pub lot_url: String,
    pub expires_at: Option<i64>,
    pub details: LotDetails,
}

/// A copy of some lines.
fn copy_lines(lines: &Vec<String>) -> (r: Vec<String>)
    ensures
        texts(r@) == texts(lines@),
{
    let mut copy: Vec<String> = Vec::new();
    let mut i: usize = 0;
    while i < lines.len()
        invariant
            i <= lines@.len(),
            copy@.len() == i,
            forall|k: int| 0 <= k < i ==> (#[trigger] copy@[k])@ == lines@[k]@,
        decreases lines@.len() - i,
    {
        copy.push(lines[i].clone());
        i += 1;
    }
    assert(texts(copy@) =~= texts(lines@));
    copy
}

/// A copy of the details of a lot, with clean lines.
fn clean_copy(details: &LotDetails) -> (r: LotDetails)
    ensures
        r@ == cleaned_details(details@),
{
    let mut documents: Vec<DetailLink> = Vec::new();
    let mut i: usize = 0;
    while i < details.documents.len()
        invariant
            i <= details.documents@.len(),
            documents@.len() == i,
            forall|k: int|
                0 <= k < i ==> (#[trigger] documents@[k]).label@ == details.documents@[k].label@
                    && documents@[k].url@ == details.documents@[k].url@,
        decreases details.documents@.len() - i,
    {
        documents.push(
            DetailLink {
                label: details.documents[i].label.clone(),
                url: details.documents[i].url.clone(),
            },
        );
        i += 1;
    }
    assert(link_texts(documents@) =~= link_texts(details.documents@));
    LotDetails {
        photos: copy_lines(&details.photos),
        info_lines: clean_detail_lines(&details.info_lines),
        documents,
    }
}

/// The details of a lot with clean lines.
pub open spec fn cleaned_details(details: DetailsText) -> DetailsText {
    DetailsText { info_lines: cleaned_lines(details.info_lines), ..details }
}

/// Whether two lists of lines are the same.
fn same_lines(a: &Vec<String>, b: &Vec<String>) -> (r: bool)
    ensures
        r == (texts(a@) == texts(b@)),
{
    if a.len() != b.len() {
        assert(texts(a@).len() != texts(b@).len());
        return false;
    }
    let mut i: usize = 0;
    while i < a.len()
        invariant
            i <= a@.len() == b@.len(),
            forall|k: int| 0 <= k < i ==> (#[trigger] a@[k])@ == b@[k]@,
        decreases a@.len() - i,
    {
        if !same_text(a[i].as_str(), b[i].as_str()) {
            assert(texts(a@)[i as int] != texts(b@)[i as int]);
            return false;
        }
        i += 1;
    }
    assert(texts(a@) =~= texts(b@));
    true
}

/// What is kept of the details of a lot can be used for an address at a second.
pub open spec fn is_usable(cached: CachedLotDetails, lot_url: Seq<char>, now: int) -> bool {
    cached.lot_url@ == lot_url && !is_expired(cached.expires_at, now)
}

/// The details of a lot out of what was kept, and whether they had to be cleaned, so that they
/// should be kept anew. There are none where what was kept is for another address or has had
/// its time, and then it should go.
pub fn details_from_cache(cached: CachedLotDetails, lot_url: &str, now: i64) -> (r: Option<
    (LotDetails, bool),
>)
    ensures
        match r {
            Some((details, changed)) => {
                &&& is_usable(cached, lot_url@, now as int)
                &&& details@ == cleaned_details(cached.details@)
                &&& changed == (details@.info_lines != cached.details@.info_lines)
            },
            None => !is_usable(cached, lot_url@, now as int),
        },
{
    if !same_text(cached.lot_url.as_str(), lot_url) || entry_expired_at(cached.expires_at, now) {
        return None;
    }
    let info_lines = clean_detail_lines(&cached.details.info_lines);
    let changed = !same_lines(&info_lines, &cached.details.info_lines);
    Some(
        (
            LotDetails {
                photos: cached.details.photos,
                info_lines,
                documents: cached.details.documents,
            },
            changed,
        ),
    )
}

/// What to keep of the details of a lot.
pub fn details_to_cache(lot_url: &str, expires_at: Option<i64>, details: &LotDetails) -> (r:
    CachedLotDetails)
    ensures
        r.lot_url@ == lot_url@,
        r.expires_at == expires_at,
        r.details@ == cleaned_details(details@),
{
    CachedLotDetails { lot_url: lot_url.to_owned(), expires_at, details: clean_copy(details) }
}

/// Whether a file with the details of a lot should go, by what was read of it: because it
/// could not be read, or has had its time.
pub fn detail_file_is_stale(cached: &Option<CachedLotDetails>, now: i64) -> (r: bool)
    ensures
        r == (cached matches Some(c) ==> is_expired(c.expires_at, now as int)),
{
    match cached {
        Some(cached) => entry_expired_at(cached.expires_at, now),
        None => true,
    }
}

/// Whether a photo's file should go: because it holds no photo, or has had its time.
pub fn photo_file_is_stale(bytes: &[u8], now: i64) -> (r: bool)
    ensures
        r == !(photo_of(bytes@, now as int) matches Ok(Some(_))),
{
    match decode_photo_at(bytes, now) {
        Ok(Some(_)) => false,
        _ => true,
    }
}

/// What was kept of the details of a lot can be used for its address until it has had its
/// time, and details whose lines were clean come back as they were.
pub proof fn law_kept_details_come_back(
    cached: CachedLotDetails,
    lot_url: Seq<char>,
    details: DetailsText,
    now: int,
)
    requires
        cached.lot_url@ == lot_url,
        cached.details@ == cleaned_details(details),
    ensures
        is_usable(cached, lot_url, now) == !is_expired(cached.expires_at, now),
        cached.expires_at is None ==> is_usable(cached, lot_url, now),
        cleaned_lines(details.info_lines) == details.info_lines ==> cleaned_details(
            cached.details@,
        ) == details,
{
}

/// A photo's file is the mark of such files, a line with the width, the height and the second
/// until which it is kept, zero for no end, and then the pixels.
pub proof fn law_photo_file_is_mark_numbers_and_pixels(photo: PhotoText, expires_at: Option<i64>)
    ensures
        photo_file(photo, expires_at) == encode_utf8("MCDOUGS_PHOTO_PREVIEW_V1\n"@) + encode_utf8(
            decimal(photo.width) + seq![' '] + decimal(photo.height) + seq![' '] + signed_decimal(
                match expires_at {
                    Some(second) => second as int,
                    None => 0,
                },
            ),
        ) + seq![10u8] + photo.pixels,
{
    reveal_strlit(" ");
    let a = decimal(photo.width);
    let b = decimal(photo.height);
    let c = signed_decimal(second_of(expires_at) as int);
    let parts = seq![a, b, c];
    assert(" "@ =~= seq![' ']);
    assert(parts.drop_last() =~= seq![a, b]);
    assert(seq![a, b].drop_last() =~= seq![a]);
    assert(joined(seq![a], " "@) == a);
    assert(joined(seq![a, b], " "@) == a + " "@ + b);
    assert(joined(parts, " "@) == a + " "@ + b + " "@ + c);
    let line = encode_utf8(photo_line(photo.width, photo.height, expires_at));
    let mark = encode_utf8(PHOTO_CACHE_MAGIC@);
    assert(mark + line.push(NEWLINE) + photo.pixels =~= mark + line + seq![10u8] + photo.pixels);
}

/// What sets an end is past from that second on for good; what sets none is never past.
pub proof fn law_expiry_is_for_good(expires_at: Option<i64>, now: int, later: int)
    requires
        now <= later,
    ensures
        is_expired(expires_at, now) ==> is_expired(expires_at, later),
        expires_at is None ==> !is_expired(expires_at, now),
        expires_at matches Some(second) ==> (second <= 0 ==> !is_expired(expires_at, now)) && (
        second > 0 ==> (is_expired(expires_at, now) <==> now >= second)),
{
}

/// What is kept lies where the user says, unless that is empty; or else in the machine's place
/// for such data, below the home directory, below the user's profile, or in the temporary
/// directory: the first of these that is set.
pub proof fn law_root_is_the_first_place_that_is_set<R>(places: CachePlaces<R>)
    ensures
        places.named matches Some((path, empty)) ==> !empty ==> root_of(places) == (
            path,
            Seq::<Seq<char>>::empty(),
        ),
        (places.named matches Some((_, empty)) ==> empty) ==> {
            &&& (places.local_app_data matches Some(base) ==> root_of(places) == (
                base,
                seq!["mcdougs"@, "cache"@],
            ))
            &&& (places.local_app_data is None ==> {
                &&& (places.home matches Some(base) ==> root_of(places) == (
                    base,
                    seq![".cache"@, "mcdougs"@],
                ))
                &&& (places.home is None ==> {
                    &&& (places.user_profile matches Some(base) ==> root_of(places) == (
                        base,
                        seq![".cache"@, "mcdougs"@],
                    ))
                    &&& (places.user_profile is None ==> root_of(places) == (
                        places.temporary,
                        seq!["mcdougs-cache"@],
                    ))
                })
            })
        },
{
}

/// The name of an address on disk has sixteen digits, and the hash goes on from byte to byte.
pub proof fn law_names_on_disk_are_hashes(value: Seq<char>, bytes: Seq<u8>, byte: u8)
    ensures
        key_of(value).len() == 16,
        key_of(value) == hex(hash_of(encode_utf8(value)) as nat, 16),
        hash_of(Seq::<u8>::empty()) == 0xcbf29ce484222325,
        hash_of(bytes.push(byte)) == (((hash_of(bytes) ^ (byte as u64)) as nat) * 0x100000001b3)
            % 0x1_0000_0000_0000_0000,
{
    assert(bytes.push(byte).drop_last() =~= bytes);
    lemma_hex_len(hash_of(encode_utf8(value)) as nat, 16);
}

/// A number in so many hexadecimal digits has so many.
proof fn lemma_hex_len(n: nat, width: nat)
    ensures
        hex(n, width).len() == width,
    decreases width,
{
    if width > 0 {
        lemma_hex_len(n / 16, (width - 1) as nat);
    }
}

/// Kept details are used only for the address that they were kept for, and only while they are
/// not past.
pub proof fn law_kept_details_are_for_their_address(
    cached: CachedLotDetails,
    lot_url: Seq<char>,
    now: int,
)
    ensures
        cached.lot_url@ != lot_url ==> !is_usable(cached, lot_url, now),
        cached.expires_at matches Some(second) ==> (0 < second <= now ==> !is_usable(
            cached,
            lot_url,
            now,
        )),
        cached.lot_url@ == lot_url && (cached.expires_at matches Some(second) ==> second > now
            || second <= 0) ==> is_usable(cached, lot_url, now),
        cleaned_details(cached.details@).photos == cached.details@.photos,
        cleaned_details(cached.details@).documents == cached.details@.documents,
{
}

/// A photo's file that is cut short, or has more bytes than its numbers say, gives no photo.
pub proof fn law_photo_file_must_be_whole(bytes: Seq<u8>, now: int)
    ensures
        photo_of(bytes, now) matches Ok(Some(photo)) ==> {
            &&& photo.width > 0 && photo.height > 0
            &&& photo.pixels.len() == photo.width * photo.height * 3
            &&& encode_utf8("MCDOUGS_PHOTO_PREVIEW_V1\n"@).is_prefix_of(bytes)
            &&& photo.pixels.is_suffix_of(bytes)
        },
{
    let magic = encode_utf8(PHOTO_CACHE_MAGIC@);
    if bytes.len() >= magic.len() && bytes.take(magic.len() as int) == magic {
        let rest = bytes.skip(magic.len() as int);
        let end = line_end(rest) as int;
        lemma_line_end_bound(rest);
        if end < rest.len() {
            let pixels = rest.skip(end + 1);
            assert(pixels =~= bytes.skip(bytes.len() - pixels.len()));
        }
    }
}

/// The end of a line lies within the bytes.
proof fn lemma_line_end_bound(bytes: Seq<u8>)
    ensures
        line_end(bytes) <= bytes.len(),
    decreases bytes.len(),
{
    if bytes.len() > 0 && bytes[0] != NEWLINE {
        lemma_line_end_bound(bytes.drop_first());
    }
}

} // verus!
