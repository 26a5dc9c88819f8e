//! How the terminal shows images, and how long a frame takes.
use vstd::prelude::*;

use crate::browser::App;
use crate::text::{ascii_lowered, concat, lower_ascii, same_text};

verus! {

/// How images are shown, by the two settings for it: the first as it stands; or else the second,
/// which says whether to use terminal graphics; or else whatever works. All in lower case.
pub open spec fn image_mode(mode: Option<Seq<char>>, graphics: Option<Seq<char>>) -> Seq<char> {
    match (mode, graphics) {
        (Some(value), _) => ascii_lowered(value),
        (None, Some(value)) => if value == "1"@ || ascii_lowered(value) == "true"@ {
            "auto"@
        } else {
            "fast"@
        },
        (None, None) => "auto"@,
    }
}

/// A setting for images says that there are none.
pub open spec fn says_no_images(mode: Seq<char>) -> bool {
    mode == "off"@ || mode == "none"@ || mode == "false"@ || mode == "0"@
}

/// A setting for images says to do without terminal graphics.
pub open spec fn says_fast_images(mode: Seq<char>) -> bool {
    mode == "fast"@ || mode == "portable"@ || mode == "ansi"@ || mode == "halfblocks"@
}

/// What an optional setting says.
pub open spec fn setting(value: Option<&str>) -> Option<Seq<char>> {
    match value {
        Some(s) => Some(s@),
        None => None,
    }
}

/// How images are shown, by the two settings for it.
pub fn image_mode_value(mode: Option<&str>, graphics: Option<&str>) -> (r: String)
    ensures
        r@ == image_mode(setting(mode), setting(graphics)),
{
    match mode {
        Some(value) => lower_ascii(value),
        None => match graphics {
            Some(value) => {
                let lower = lower_ascii(value);
                if same_text(value, "1") || same_text(lower.as_str(), "true") {
                    "auto".to_owned()
                } else {
                    "fast".to_owned()
                }
            },
            None => "auto".to_owned(),
        },
    }
}

/// Whether images are shown, by the two settings for it.
pub fn images_enabled(mode: Option<&str>, graphics: Option<&str>) -> (r: bool)
    ensures
        r == !says_no_images(image_mode(setting(mode), setting(graphics))),
{
    let value = image_mode_value(mode, graphics);
    let s = value.as_str();
    !(same_text(s, "off") || same_text(s, "none") || same_text(s, "false") || same_text(s, "0"))
}

/// Whether images are shown without terminal graphics, by the two settings for it.
pub fn image_mode_fast(mode: Option<&str>, graphics: Option<&str>) -> (r: bool)
    ensures
        r == says_fast_images(image_mode(setting(mode), setting(graphics))),
{
    let value = image_mode_value(mode, graphics);
    let s = value.as_str();
    same_text(s, "fast") || same_text(s, "portable") || same_text(s, "ansi") || same_text(
        s,
        "halfblocks",
    )
}

/// What is known of the terminal's graphics.
#[derive(Debug)]
pub enum GraphicsFound {
    /// Images are not wanted.
    Disabled,
    /// Images are wanted without terminal graphics.
    Fast,
    /// The terminal has no graphics.
    Halfblocks,
    /// The terminal has graphics of a kind.
    Protocol(String),
    /// It could not be found out.
    Failed(String),
}

/// The words for what is known of the terminal's graphics.
pub open spec fn graphics_words(found: GraphicsFound) -> Seq<char> {
    match found {
        GraphicsFound::Disabled => "Loaded live auction data. Inline photos are disabled."@,
        GraphicsFound::Fast =>
            "Loaded live auction data. Using fast portable terminal photo rendering."@,
        GraphicsFound::Halfblocks =>
            "Loaded live auction data. Using portable terminal photo rendering."@,
        GraphicsFound::Protocol(name) => "Loaded live auction data. Using "@ + name@
            + " terminal graphics when possible."@,
        GraphicsFound::Failed(error) =>
            "Loaded live auction data. Terminal graphics detection failed; using portable rendering: "@
            + error@,
    }
}

impl<P, B> App<P, B> {
    /// Takes note of what is known of the terminal's graphics.
    pub fn configure_terminal_images(&mut self, found: GraphicsFound)
        ensures
            final(self).status@ == graphics_words(found),
            *final(self) == (App {
                has_graphics: found is Protocol,
                status: final(self).status,
                ..*old(self)
            }),
    {
        match found {
            GraphicsFound::Disabled => {
                self.has_graphics = false;
                self.status = "Loaded live auction data. Inline photos are disabled.".to_owned();
            },
            GraphicsFound::Fast => {
                self.has_graphics = false;
                self.status =
                "Loaded live auction data. Using fast portable terminal photo rendering.".to_owned();
            },
            GraphicsFound::Halfblocks => {
                self.has_graphics = false;
                self.status =
                "Loaded live auction data. Using portable terminal photo rendering.".to_owned();
            },
            GraphicsFound::Protocol(name) => {
                self.has_graphics = true;
                let mut status = concat("Loaded live auction data. Using ", name.as_str());
                status.append(" terminal graphics when possible.");
                self.status = status;
            },
            GraphicsFound::Failed(error) => {
                self.has_graphics = false;
                self.status = concat(
                    "Loaded live auction data. Terminal graphics detection failed; using portable rendering: ",
                    error.as_str(),
                );
            },
        }
    }
}

/// How long the phases of a frame took, in nanoseconds.
#[derive(Debug, Clone, Copy)]
pub struct FrameProfile {
    pub input: u64,
    pub detail_results: u64,
    pub photo_results: u64,
    pub terminal_photo_results: u64,
    pub sync_selection: u64,
    pub image_redraw: u64,
    pub hydrate: u64,
    pub pump_queues: u64,
    pub pump_terminal_photos: u64,
    pub prune: u64,
    pub draw: u64,
    pub input_events: usize,
    pub drew: bool,
}

/// The nanoseconds from which on a frame that did nothing is worth a record.
pub const SLOW_FRAME: u128 = 4_000_000;

impl FrameProfile {
    /// How long a frame took.
    pub open spec fn active(&self) -> int {
        self.input + self.detail_results + self.photo_results + self.terminal_photo_results
            + self.sync_selection + self.image_redraw + self.hydrate + self.pump_queues
            + self.pump_terminal_photos + self.prune + self.draw
    }

    /// A frame that has taken no time yet.
    pub fn new() -> (r: Self)
        ensures
            r.active() == 0,
            r.input_events == 0,
            !r.drew,
    {
        FrameProfile {
            input: 0,
            detail_results: 0,
            photo_results: 0,
            terminal_photo_results: 0,
            sync_selection: 0,
            image_redraw: 0,
            hydrate: 0,
            pump_queues: 0,
            pump_terminal_photos: 0,
            prune: 0,
            draw: 0,
            input_events: 0,
            drew: false,
        }
    }

    /// How long this frame took, in nanoseconds.
    pub fn active_duration(&self) -> (r: u128)
        ensures
            r == self.active(),
    {
        self.input as u128 + self.detail_results as u128 + self.photo_results as u128
            + self.terminal_photo_results as u128 + self.sync_selection as u128
            + self.image_redraw as u128 + self.hydrate as u128 + self.pump_queues as u128
            + self.pump_terminal_photos as u128 + self.prune as u128 + self.draw as u128
    }

    /// Whether this frame is worth a record: it drew, it had input, or it was slow.
    pub fn is_worth_recording(&self) -> (r: bool)
        ensures
            r == (self.drew || self.input_events > 0 || self.active() >= SLOW_FRAME),
    {
        self.drew || self.input_events != 0 || self.active_duration() >= SLOW_FRAME
    }
}

/// The setting for images counts before that for graphics, in either case of letters. Without
/// both, images are shown as the terminal can; graphics that are refused leave images on, but
/// without them.
pub proof fn law_image_settings(mode: Seq<char>, graphics: Option<Seq<char>>, value: Seq<char>)
    ensures
        image_mode(Some(mode), graphics) == ascii_lowered(mode),
        says_no_images(image_mode(Some(mode), graphics)) <==> {
            ||| ascii_lowered(mode) == "off"@
            ||| ascii_lowered(mode) == "none"@
            ||| ascii_lowered(mode) == "false"@
            ||| ascii_lowered(mode) == "0"@
        },
        says_fast_images(image_mode(Some(mode), graphics)) <==> {
            ||| ascii_lowered(mode) == "fast"@
            ||| ascii_lowered(mode) == "portable"@
            ||| ascii_lowered(mode) == "ansi"@
            ||| ascii_lowered(mode) == "halfblocks"@
        },
        !says_no_images(image_mode(None, graphics)),
        !says_fast_images(image_mode(None, None)),
        says_fast_images(image_mode(None, Some(value))) <==> value != "1"@ && ascii_lowered(value)
            != "true"@,
{
    reveal_strlit("auto");
    reveal_strlit("fast");
    reveal_strlit("off");
    reveal_strlit("none");
    reveal_strlit("false");
    reveal_strlit("0");
    reveal_strlit("portable");
    reveal_strlit("ansi");
    reveal_strlit("halfblocks");
    assert("auto"@[1] == 'u' && "fast"@[1] == 'a' && "none"@[1] == 'o' && "ansi"@[1] == 'n');
    assert("off"@.len() == 3 && "false"@.len() == 5 && "0"@.len() == 1 && "auto"@.len() == 4
        && "fast"@.len() == 4);
    assert("portable"@.len() == 8 && "halfblocks"@.len() == 10);
}

} // verus!
