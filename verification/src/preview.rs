//! Photos in a size that a terminal can show.
use vstd::prelude::*;

verus! {

/// A photo as rows of red, green and blue bytes.
#[derive(Debug)]
pub struct PhotoPreview {
    pub width: u32,
    pub height: u32,
    pub pixels: Vec<u8>,
}

/// What a photo shows.
#[verifier::ext_equal]
pub struct PhotoText {
    pub width: nat,
    pub height: nat,
    pub pixels: Seq<u8>,
}

impl View for PhotoPreview {
    type V = PhotoText;

    open spec fn view(&self) -> PhotoText {
        PhotoText {
            width: self.width as nat,
            height: self.height as nat,
            pixels: self.pixels@,
        }
    }
}

/// A photo has a width and a height, and three bytes for each pixel.
pub open spec fn is_photo(photo: PhotoText) -> bool {
    &&& 0 < photo.width <= u32::MAX
    &&& 0 < photo.height <= u32::MAX
    &&& photo.pixels.len() == photo.width * photo.height * 3
}

/// A number, or the largest below a limit where it is not below it.
pub open spec fn held_below(n: nat, limit: nat) -> nat {
    if n < limit {
        n
    } else {
        (limit - 1) as nat
    }
}

/// Where the bytes of a pixel start. One beyond the edge is the one at the edge.
pub open spec fn pixel_start(photo: PhotoText, x: nat, y: nat) -> int {
    (held_below(y, photo.height) * photo.width + held_below(x, photo.width)) * 3int
}

/// The red, green and blue of a pixel.
pub open spec fn pixel_at(photo: PhotoText, x: nat, y: nat) -> Seq<u8> {
    let start = pixel_start(photo, x, y);
    photo.pixels.subrange(start, start + 3)
}

/// How bright a colour is to the eye.
pub open spec fn brightness(colour: Seq<u8>) -> int {
    2126 * colour[0] + 7152 * colour[1] + 722 * colour[2]
}

/// The character and the two colours that show one pixel above another: a blank where they
/// are the same, and otherwise the half block of the brighter one on the other.
pub open spec fn half_block(upper: Seq<u8>, lower: Seq<u8>) -> (Seq<char>, Seq<u8>, Seq<u8>) {
    if upper == lower {
        (" "@, upper, upper)
    } else if brightness(lower) > brightness(upper) {
        ("▄"@, lower, upper)
    } else {
        ("▀"@, upper, lower)
    }
}

/// The bytes of a pixel within a photo lie within its bytes.
proof fn lemma_pixel_inside(width: int, height: int, x: int, y: int)
    requires
        0 <= x < width,
        0 <= y < height,
    ensures
        0 <= (y * width + x) * 3,
        (y * width + x) * 3 + 3 <= width * height * 3,
        0 <= y * width + x < width * height,
{
    assert((y + 1) * width <= height * width) by (nonlinear_arith)
        requires
            y < height,
            0 <= x < width,
    ;
    assert((y + 1) * width == y * width + width) by (nonlinear_arith);
    assert(0 <= y * width) by (nonlinear_arith)
        requires
            0 <= y,
            0 <= x < width,
    ;
    assert(width * height == height * width) by (nonlinear_arith);
}

impl PhotoPreview {
    /// The red, green and blue of a pixel.
    pub fn pixel(&self, x: u32, y: u32) -> (r: [u8; 3])
        requires
            is_photo(self@),
        ensures
            r@ == pixel_at(self@, x as nat, y as nat),
    {
        let x: u32 = if x < self.width {
            x
        } else {
            self.width - 1
        };
        let y: u32 = if y < self.height {
            y
        } else {
            self.height - 1
        };
        let count: usize = self.pixels.len();
        proof {
            lemma_pixel_inside(self.width as int, self.height as int, x as int, y as int);
            assert(count == (self.width as int) * (self.height as int) * 3);
            assert(((y as int) * (self.width as int) + x) * 3 + 3 <= count);
            assert(0 <= (y as int) * (self.width as int)) by (nonlinear_arith);
        }
        let start: usize = (y as usize * self.width as usize + x as usize) * 3;
        let r = [self.pixels[start], self.pixels[start + 1], self.pixels[start + 2]];
        assert(r@ =~= self.pixels@.subrange(start as int, start + 3));
        r
    }
}

/// The most width of a photo, in pixels.
pub const MAX_PHOTO_PREVIEW_WIDTH: u32 = 1024;

/// The most height of a photo, in pixels.
pub const MAX_PHOTO_PREVIEW_HEIGHT: u32 = 1024;

/// Why there is no photo in some bytes.
#[derive(Debug, Clone, Copy, PartialEq, Eq, Structural)]
pub enum PhotoError {
    /// They are no picture.
    Undecodable,
    /// The picture has no pixels.
    Empty,
}

impl PhotoError {
    /// The words for an error.
    pub open spec fn words(self) -> Seq<char> {
        match self {
            PhotoError::Undecodable => "failed to decode photo"@,
            PhotoError::Empty => "photo has no pixels"@,
        }
    }

    /// The words for this error.
    pub fn text(&self) -> (r: &'static str)
        ensures
            r@ == self.words(),
    {
        match self {
            PhotoError::Undecodable => "failed to decode photo",
            PhotoError::Empty => "photo has no pixels",
        }
    }
}

/// The width and the height of the picture that `image::load_from_memory` reads in some bytes,
/// or nothing where it can read none.
pub uninterp spec fn picture_size(bytes: Seq<u8>) -> Option<(nat, nat)>;

/// `image::load_from_memory` reads a picture in one of the formats that it knows, and
/// `DynamicImage::to_rgb8` gives it three bytes for each pixel. The size is the one that the
/// bytes name, by the decoders of the crate itself: no hook is registered for others. Which
/// pixels come out is not stated, as the decoder of JPEG files picks its arithmetic by the
/// processor; nor is that a picture comes out, as the decoders also fail where the machine
/// refuses them memory.
#[verifier::external_body]
fn read_picture(bytes: &[u8]) -> (r: Option<(u32, u32, Vec<u8>)>)
    ensures
        r matches Some((width, height, pixels)) ==> picture_size(bytes@) == Some(
            (width as nat, height as nat),
        ) && pixels@.len() == width * height * 3,
{
    match image::load_from_memory(bytes) {
        Ok(picture) => {
            let rgb = picture.to_rgb8();
            Some((rgb.width(), rgb.height(), rgb.into_raw()))
        },
        Err(_) => None,
    }
}

/// `image::imageops::resize` gives a picture another size: three bytes for each pixel of the
/// new size, and a copy where it is the old one. Which bytes it gives otherwise is not stated:
/// they rest on the sine of the machine's floating point library.
#[verifier::external_body]
fn resize_picture(width: u32, height: u32, pixels: Vec<u8>, new_width: u32, new_height: u32) -> (r:
    Vec<u8>)
    requires
        is_photo(PhotoText { width: width as nat, height: height as nat, pixels: pixels@ }),
        0 < new_width <= MAX_PHOTO_PREVIEW_WIDTH,
        0 < new_height <= MAX_PHOTO_PREVIEW_HEIGHT,
    ensures
        r@.len() == new_width * new_height * 3,
        new_width == width && new_height == height ==> r@ == pixels@,
{
    let picture = image::RgbImage::from_raw(width, height, pixels).expect("three bytes a pixel");
    image::imageops::resize(
        &picture,
        new_width,
        new_height,
        image::imageops::FilterType::Lanczos3,
    ).into_raw()
}

/// What was read of a picture as a photo.
pub fn photo_from_picture(picture: Option<(u32, u32, Vec<u8>)>) -> (r: Result<
    PhotoPreview,
    PhotoError,
>)
    requires
        picture matches Some((width, height, pixels)) ==> pixels@.len() == width * height * 3,
    ensures
        match picture {
            None => r == Err::<PhotoPreview, _>(PhotoError::Undecodable),
            Some((width, height, pixels)) => if width == 0 || height == 0 {
                r == Err::<PhotoPreview, _>(PhotoError::Empty)
            } else {
                r == Ok::<_, PhotoError>(PhotoPreview { width, height, pixels }) && is_photo(r->Ok_0@)
            },
        },
{
    match picture {
        None => Err(PhotoError::Undecodable),
        Some((width, height, pixels)) => if width == 0 || height == 0 {
            Err(PhotoError::Empty)
        } else {
            Ok(PhotoPreview { width, height, pixels })
        },
    }
}

/// The photo in some bytes, in its own size. Bytes that hold a picture give their photo, or the
/// error for a picture without pixels, unless the machine has no memory to read it.
pub fn decode_photo(bytes: &[u8]) -> (r: Result<PhotoPreview, PhotoError>)
    ensures
        match picture_size(bytes@) {
            None => r == Err::<PhotoPreview, _>(PhotoError::Undecodable),
            Some((width, height)) => {
                ||| r == Err::<PhotoPreview, _>(PhotoError::Undecodable)
                ||| (width == 0 || height == 0) && r == Err::<PhotoPreview, _>(PhotoError::Empty)
                ||| r matches Ok(photo) && is_photo(photo@) && photo@.width == width
                    && photo@.height == height
            },
        },
{
    photo_from_picture(read_picture(bytes))
}

/// A photo in another size.
pub fn scale_photo(photo: PhotoPreview, width: u32, height: u32) -> (r: PhotoPreview)
    requires
        is_photo(photo@),
        0 < width <= MAX_PHOTO_PREVIEW_WIDTH,
        0 < height <= MAX_PHOTO_PREVIEW_HEIGHT,
    ensures
        is_photo(r@),
        r.width == width,
        r.height == height,
        width == photo.width && height == photo.height ==> r@ == photo@,
{
    PhotoPreview {
        width,
        height,
        pixels: resize_picture(photo.width, photo.height, photo.pixels, width, height),
    }
}

/// How bright a colour is to the eye.
pub fn luminance(colour: [u8; 3]) -> (r: u32)
    ensures
        r == brightness(colour@),
{
    2126 * (colour[0] as u32) + 7152 * (colour[1] as u32) + 722 * (colour[2] as u32)
}

/// The character and the two colours that show one pixel above another.
pub fn half_block_cell(upper: [u8; 3], lower: [u8; 3]) -> (r: (&'static str, [u8; 3], [u8; 3]))
    ensures
        (r.0@, r.1@, r.2@) == half_block(upper@, lower@),
{
    if upper[0] == lower[0] && upper[1] == lower[1] && upper[2] == lower[2] {
        assert(upper@ =~= lower@);
        return (" ", upper, upper);
    }
    assert(upper@ != lower@);
    if luminance(lower) > luminance(upper) {
        ("▄", lower, upper)
    } else {
        ("▀", upper, lower)
    }
}

/// The rows of pixels that a row of the terminal shows, of a photo so many pixels high, or
/// nothing below its last one. An odd last row shows its pixels twice.
pub open spec fn pixel_rows_of(row_offset: nat, terminal_row: nat, pixel_height: nat) -> Option<
    (nat, nat),
> {
    let row = if row_offset + terminal_row > u16::MAX {
        u16::MAX as nat
    } else {
        row_offset + terminal_row
    };
    if row >= (pixel_height + 1) / 2 {
        None
    } else {
        Some(
            (
                row * 2,
                if row * 2 + 1 < pixel_height {
                    row * 2 + 1
                } else {
                    (pixel_height - 1) as nat
                },
            ),
        )
    }
}

/// A pair of row numbers as whole numbers.
pub open spec fn row_pair(r: Option<(u32, u32)>) -> Option<(nat, nat)> {
    match r {
        Some((a, b)) => Some((a as nat, b as nat)),
        None => None,
    }
}

/// The rows of pixels that a row of the terminal shows.
pub fn pixel_rows(row_offset: u16, terminal_row: u16, pixel_height: u32) -> (r: Option<(u32, u32)>)
    requires
        pixel_height <= 2 * u16::MAX,
    ensures
        row_pair(r) == pixel_rows_of(
            row_offset as nat,
            terminal_row as nat,
            pixel_height as nat,
        ),
{
    let row: u16 = row_offset.saturating_add(terminal_row);
    if row as u32 >= (pixel_height + 1) / 2 {
        return None;
    }
    let upper: u32 = row as u32 * 2;
    let lower: u32 = if upper + 1 < pixel_height {
        upper + 1
    } else {
        pixel_height - 1
    };
    Some((upper, lower))
}

/// The two pixels that a cell shows have the colours that they should: the upper one that of the
/// upper half of the character, the lower one that of the lower half. Where they differ, the
/// brighter one is drawn on the other.
pub proof fn law_cell_shows_both_pixels(upper: Seq<u8>, lower: Seq<u8>)
    ensures
        ({
            let (symbol, foreground, background) = half_block(upper, lower);
            &&& symbol == "▀"@ ==> foreground == upper && background == lower
            &&& symbol == "▄"@ ==> foreground == lower && background == upper
            &&& symbol == " "@ ==> background == upper && background == lower
            &&& symbol == "▀"@ || symbol == "▄"@ || symbol == " "@
            &&& upper != lower ==> brightness(foreground) >= brightness(background)
        }),
{
    reveal_strlit("▀");
    reveal_strlit("▄");
    reveal_strlit(" ");
    assert("▀"@[0] == '▀' && "▄"@[0] == '▄' && " "@[0] == ' ');
}

/// The rows of the terminal show the rows of pixels two by two from the top, each once, and none
/// beyond the last: an odd last one is shown twice.
pub proof fn law_rows_show_all_pixels(row: nat, pixel_height: nat)
    requires
        row <= u16::MAX,
    ensures
        pixel_rows_of(0, row, pixel_height) is Some <==> 2 * row < pixel_height,
        pixel_rows_of(0, row, pixel_height) matches Some((upper, lower)) ==> {
            &&& upper == 2 * row
            &&& 2 * row + 1 < pixel_height ==> lower == 2 * row + 1
            &&& 2 * row + 1 == pixel_height ==> lower == upper
        },
{
}

/// The pixels of a photo stand row by row, each with its red, green and blue; beyond an edge the
/// last one stands for all.
pub proof fn law_pixels_stand_row_by_row(photo: PhotoText, x: nat, y: nat)
    requires
        is_photo(photo),
    ensures
        x < photo.width && y < photo.height ==> pixel_at(photo, x, y) == photo.pixels.subrange(
            ((y * photo.width + x) * 3) as int,
            ((y * photo.width + x) * 3 + 3) as int,
        ),
        x >= photo.width ==> pixel_at(photo, x, y) == pixel_at(
            photo,
            (photo.width - 1) as nat,
            y,
        ),
        y >= photo.height ==> pixel_at(photo, x, y) == pixel_at(
            photo,
            x,
            (photo.height - 1) as nat,
        ),
{
}

/// Grey is as bright as its level, and of pure colours green is brighter than red, and red than
/// blue; a colour with more of any is brighter.
pub proof fn law_brightness_is_that_of_the_eye(level: u8, colour: Seq<u8>, more: Seq<u8>)
    requires
        colour.len() == 3,
        more.len() == 3,
    ensures
        brightness(seq![level, level, level]) == 10000 * level,
        level > 0 ==> brightness(seq![0, level, 0]) > brightness(seq![level, 0, 0]) > brightness(
            seq![0, 0, level],
        ),
        colour[0] <= more[0] && colour[1] <= more[1] && colour[2] <= more[2] ==> brightness(colour)
            <= brightness(more),
        colour[0] < more[0] && colour[1] == more[1] && colour[2] == more[2] ==> brightness(colour)
            < brightness(more),
{
}

/// What a photo shows is what its fields hold.
pub proof fn law_photos_show_their_fields(photo: PhotoPreview)
    ensures
        photo@.width == photo.width && photo@.height == photo.height && photo@.pixels
            == photo.pixels@,
{
}

} // verus!
