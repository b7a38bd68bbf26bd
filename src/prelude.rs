//! Types shared by the encoder and the decoder.
use vstd::prelude::*;

use vstd::string::{is_ascii, StringSliceAdditionalSpecFns};

verus! {

/// Where in the image the traversal starts, as a coarse pixel offset.
#[derive(Debug, Clone, Copy, PartialEq, Eq, Structural)]
pub enum ImagePosition {
    TopLeft,
    TopRight,
    BottomLeft,
    BottomRight,
    Center,
    At(u32, u32),
}

/// Describes an RGB color
#[derive(Debug, Clone, Copy, PartialEq, Eq, Structural)]
pub struct Rgb<T>(pub T, pub T, pub T);

impl<T: Copy> From<[T; 3]> for Rgb<T> {
    fn from(color: [T; 3]) -> (r: Self) {
        Rgb(color[0], color[1], color[2])
    }
}

impl<T: Copy> vstd::std_specs::convert::FromSpecImpl<[T; 3]> for Rgb<T> {
    open spec fn obeys_from_spec() -> bool {
        true
    }

    open spec fn from_spec(color: [T; 3]) -> Rgb<T> {
        Rgb(color@[0], color@[1], color@[2])
    }
}

/// Represents a color channel in a pixel
#[derive(Debug, Clone, Copy, PartialEq, Eq, Structural)]
pub enum RgbChannel {
    Red,
    Green,
    Blue,
}

impl RgbChannel {
    /// Position of the channel inside an RGB pixel.
    pub open spec fn spec_index(self) -> nat {
        match self {
            RgbChannel::Red => 0,
            RgbChannel::Green => 1,
            RgbChannel::Blue => 2,
        }
    }

    /// Position of the channel inside an RGB pixel: red 0, green 1, blue 2.
    pub fn index(&self) -> (r: usize)
        ensures
            r == self.spec_index(),
    {
        match self {
            RgbChannel::Red => 0,
            RgbChannel::Green => 1,
            RgbChannel::Blue => 2,
        }
    }
}

impl From<RgbChannel> for u8 {
    fn from(val: RgbChannel) -> (r: u8) {
        match val {
            RgbChannel::Red => 0,
            RgbChannel::Green => 1,
            RgbChannel::Blue => 2,
        }
    }
}

impl vstd::std_specs::convert::FromSpecImpl<RgbChannel> for u8 {
    open spec fn obeys_from_spec() -> bool {
        true
    }

    open spec fn from_spec(val: RgbChannel) -> u8 {
        val.spec_index() as u8
    }
}

impl From<RgbChannel> for usize {
    fn from(val: RgbChannel) -> (r: usize) {
        val.index()
    }
}

impl vstd::std_specs::convert::FromSpecImpl<RgbChannel> for usize {
    open spec fn obeys_from_spec() -> bool {
        true
    }

    open spec fn from_spec(val: RgbChannel) -> usize {
        val.spec_index() as usize
    }
}

impl From<&RgbChannel> for usize {
    fn from(val: &RgbChannel) -> (r: usize) {
        val.index()
    }
}

impl vstd::std_specs::convert::FromSpecImpl<&RgbChannel> for usize {
    open spec fn obeys_from_spec() -> bool {
        true
    }

    open spec fn from_spec(val: &RgbChannel) -> usize {
        val.spec_index() as usize
    }
}

/// The channel a name stands for: "red" or "r", "green" or "g", "blue" or
/// "b"; any other name stands for blue.
pub open spec fn channel_named(name: Seq<char>) -> RgbChannel {
    if name == seq!['r', 'e', 'd'] || name == seq!['r'] {
        RgbChannel::Red
    } else if name == seq!['g', 'r', 'e', 'e', 'n'] || name == seq!['g'] {
        RgbChannel::Green
    } else {
        RgbChannel::Blue
    }
}

/// Whether `name` spells the ASCII word `word`.
fn is_word(name: &str, word: &str) -> (r: bool)
    requires
        is_ascii(word),
    ensures
        r == (name@ == word@),
{
    broadcast use vstd::string::is_ascii_spec_bytes, vstd::utf8::is_ascii_chars_nat_bound;

    if !name.is_ascii() {
        return false;
    }
    let a = name.as_bytes();
    let b = word.as_bytes();
    if a.len() != b.len() {
        return false;
    }
    let mut i: usize = 0;
    while i < a.len()
        invariant
            is_ascii(name),
            is_ascii(word),
            a@ == name.spec_bytes(),
            b@ == word.spec_bytes(),
            a@.len() == b@.len(),
            name@.len() == a@.len(),
            word@.len() == b@.len(),
            i <= a@.len(),
            forall|j: int| 0 <= j < i ==> name@[j] == word@[j],
        decreases a@.len() - i,
    {
        if a[i] != b[i] {
            return false;
        }
        assert((name@[i as int] as nat) < 128 && (word@[i as int] as nat) < 128);
        i = i + 1;
    }
    assert(name@ =~= word@);
    true
}

impl From<&str> for RgbChannel {
    fn from(repr: &str) -> (r: Self) {
        proof {
            reveal_strlit("red");
            reveal_strlit("r");
            reveal_strlit("green");
            reveal_strlit("g");
            assert("red"@ =~= seq!['r', 'e', 'd']);
            assert("r"@ =~= seq!['r']);
            assert("green"@ =~= seq!['g', 'r', 'e', 'e', 'n']);
            assert("g"@ =~= seq!['g']);
        }
        if is_word(repr, "red") || is_word(repr, "r") {
            RgbChannel::Red
        } else if is_word(repr, "green") || is_word(repr, "g") {
            RgbChannel::Green
        } else {
            RgbChannel::Blue
        }
    }
}

impl vstd::std_specs::convert::FromSpecImpl<&str> for RgbChannel {
    open spec fn obeys_from_spec() -> bool {
        true
    }

    open spec fn from_spec(repr: &str) -> RgbChannel {
        channel_named(repr@)
    }
}

/// Enumerates supported image formats
#[derive(Debug, Clone, Copy, PartialEq, Eq, Structural)]
pub enum ImageFormat {
    Jpeg,
    Png,
    Bmp,
}

#[derive(Debug, Clone, Copy, PartialEq, Eq, Structural)]
pub enum CompressionType {
    /// Default compression level
    Default,
    /// Fast, minimal compression
    Fast,
    /// High compression level
    Best,
    /// Huffman coding compression
    Huffman,
    /// Run-length encoding compression
    Rle,
}

#[derive(Debug, Clone, Copy, PartialEq, Eq, Structural)]
pub enum FilterType {
    /// No processing done, best used for low bit depth greyscale or data with a
    /// low color count
    NoFilter,
    /// Filters based on previous pixel in the same scanline
    Sub,
    /// Filters based on the scanline above
    Up,
    /// Filters based on the average of left and right neighbor pixels
    Avg,
    /// Algorithm that takes into account the left, upper left, and above pixels
    Paeth,
}

/// What can go wrong around embedding and extraction.
#[derive(Debug, Clone, Copy, PartialEq, Eq, Structural)]
pub enum StegError {
    /// The payload needs more pixel visits than the traversal offers.
    CapacityExceeded,
    /// The bytes given are not an image that could be decoded.
    InvalidImage,
    /// The image could not be written in the requested format.
    WriteFailed,
    /// The payload bytes are not valid UTF-8.
    InvalidUtf8,
}

/// How payload bits are laid out in an image: shared by encoding and decoding.
#[derive(Debug, Clone, Copy, PartialEq, Eq, Structural)]
pub struct Config {
    /// Low-order bits of the channel byte used in each visited pixel (1 to 8).
    pub use_n_lsb: usize,
    /// Distance, in pixels, between two visited pixels (at least 1).
    pub step_by_n_pixels: usize,
    /// Pixels skipped after the start position.
    pub offset: usize,
    /// The channel that carries the payload.
    pub channel: RgbChannel,
    /// Where the traversal starts.
    pub position: ImagePosition,
    /// Whether the traversal wraps around to the first pixel when it runs out.
    pub spread: bool,
}

impl Config {
    pub open spec fn wf(self) -> bool {
        1 <= self.use_n_lsb <= 8 && self.step_by_n_pixels >= 1
    }

    /// One bit per pixel in the blue channel, every pixel from the top left,
    /// no wrapping.
    pub open spec fn spec_default() -> Config {
        Config {
            use_n_lsb: 1,
            step_by_n_pixels: 1,
            offset: 0,
            channel: RgbChannel::Blue,
            position: ImagePosition::TopLeft,
            spread: false,
        }
    }
}

impl Default for Config {
    fn default() -> (r: Config)
        ensures
            r == Config::spec_default(),
    {
        Config {
            use_n_lsb: 1,
            step_by_n_pixels: 1,
            offset: 0,
            channel: RgbChannel::Blue,
            position: ImagePosition::TopLeft,
            spread: false,
        }
    }
}

/// Encoding and decoding options specify how to interpret a set of bytes in an image
pub trait ImageRules: Sized {
    /// The layout settings in force.
    spec fn rules(&self) -> Config;

    /// This value with its layout settings replaced by `c`, all else kept.
    spec fn with_rules(&self, c: Config) -> Self;

    /// Sets the number of least significant bits (1 to 8) of the channel byte
    /// that each visited pixel carries. The more bits, the fewer pixels a
    /// payload needs, and the more the image changes.
    fn set_use_n_lsb(&mut self, n: usize) -> (r: &mut Self)
        requires
            1 <= n <= 8,
        ensures
            *r == old(self).with_rules((Config { use_n_lsb: n, ..old(self).rules() })),
            r.rules() == (Config { use_n_lsb: n, ..old(self).rules() }),
            *final(self) == *final(r),
    ;

    /// Skips `offset` more pixels after the start position.
    fn set_offset(&mut self, offset: usize) -> (r: &mut Self)
        ensures
            *r == old(self).with_rules((Config { offset, ..old(self).rules() })),
            r.rules() == (Config { offset, ..old(self).rules() }),
            *final(self) == *final(r),
    ;

    /// Visits one pixel every `n`; `n < 1` counts as 1.
    fn set_step_by_n_pixels(&mut self, n: usize) -> (r: &mut Self)
        ensures
            *r == old(self).with_rules(
                (Config { step_by_n_pixels: if n < 1 { 1 } else { n }, ..old(self).rules() }),
            ),
            r.rules() == (Config { step_by_n_pixels: if n < 1 { 1 } else { n }, ..old(self).rules() }),
            *final(self) == *final(r),
    ;

    /// Specifies which color channel carries the payload bits.
    fn set_use_channel(&mut self, channel: RgbChannel) -> (r: &mut Self)
        ensures
            *r == old(self).with_rules((Config { channel, ..old(self).rules() })),
            r.rules() == (Config { channel, ..old(self).rules() }),
            *final(self) == *final(r),
    ;

    /// Whether the traversal wraps around to the first pixel when it runs
    /// out.
    fn set_spread(&mut self, value: bool) -> (r: &mut Self)
        ensures
            *r == old(self).with_rules((Config { spread: value, ..old(self).rules() })),
            r.rules() == (Config { spread: value, ..old(self).rules() }),
            *final(self) == *final(r),
    ;

    /// Where the traversal starts.
    fn set_position(&mut self, value: ImagePosition) -> (r: &mut Self)
        ensures
            *r == old(self).with_rules((Config { position: value, ..old(self).rules() })),
            r.rules() == (Config { position: value, ..old(self).rules() }),
            *final(self) == *final(r),
    ;

    fn get_use_n_lsb(&self) -> (r: usize)
        ensures
            r == self.rules().use_n_lsb,
            1 <= r <= 8,
    ;

    fn get_offset(&self) -> (r: usize)
        ensures
            r == self.rules().offset,
    ;

    /// One pixel every `r` is visited; 1 means every pixel.
    fn get_step_by_n_pixels(&self) -> (r: usize)
        ensures
            r == self.rules().step_by_n_pixels,
            r >= 1,
    ;

    fn get_use_channel(&self) -> (r: &RgbChannel)
        ensures
            *r == self.rules().channel,
    ;

    fn get_spread(&self) -> (r: bool)
        ensures
            r == self.rules().spread,
    ;

    fn get_position(&self) -> (r: &ImagePosition)
        ensures
            *r == self.rules().position,
    ;
}

} // verus!
