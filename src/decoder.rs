//! Reading a payload back out of the low bits of one channel of an image.
use vstd::prelude::*;

use vstd::utf8::{decode_utf8, valid_utf8};

use crate::bits::{
    chunk_len, chunks_per_byte, get_bits, lemma_chunk_geometry, low_bits, pixels_per_byte,
    put_bits, with_bits,
};
use crate::cursor::{
    first_pixel, lemma_budget_within_image, lemma_visit_in_image, next_pixel, visit, visit_budget,
    visit_count,
};
use crate::pixels::{PixelGrid, RgbImage};
use crate::codec::{decoded_grid, load_rgb8};
use crate::prelude::{Config, ImagePosition, ImageRules, RgbChannel, StegError};

verus! {

/// Byte `b` of the stream as far as its first `j` visits have filled it: each
/// visit places the low bits of its pixel's selected channel above those
/// placed before.
pub open spec fn gathered(cfg: Config, grid: PixelGrid, b: nat, j: nat) -> u8
    decreases j,
{
    if j == 0 {
        0
    } else {
        let k = cfg.use_n_lsb as nat;
        let c = chunks_per_byte(k);
        let i = (j - 1) as nat;
        let p = visit(cfg, grid.width, grid.height, b * c + i) as int;
        let len = chunk_len(k, i) as u8;
        with_bits(
            gathered(cfg, grid, b, i),
            (i * k) as u8,
            len,
            low_bits(grid.channel(p, cfg.channel.spec_index() as int), len),
        )
    }
}

/// Byte `b` of the stream that the traversal reads out of `grid`.
pub open spec fn read_byte(cfg: Config, grid: PixelGrid, b: nat) -> u8 {
    gathered(cfg, grid, b, chunks_per_byte(cfg.use_n_lsb as nat))
}

/// Number of whole bytes that the traversal's visits hold. Each byte is read
/// from its own `chunks_per_byte` visits, as it was written; for `k` dividing
/// 8 this is the available bits divided by eight, rounded down, and for
/// other `k` it can be less.
pub open spec fn readable_bytes(cfg: Config, grid: PixelGrid) -> nat {
    visit_budget(cfg, grid.width, grid.height) / chunks_per_byte(cfg.use_n_lsb as nat)
}

/// Every whole byte that the traversal reads out of `grid`, in order.
pub open spec fn read_stream(cfg: Config, grid: PixelGrid) -> Seq<u8> {
    Seq::new(readable_bytes(cfg, grid), |b: int| read_byte(cfg, grid, b as nat))
}

/// The first `e` bytes of `s` end with the non-empty `marker`.
pub open spec fn marker_ends_at(s: Seq<u8>, marker: Seq<u8>, e: int) -> bool {
    &&& marker.len() > 0
    &&& marker.len() <= e <= s.len()
    &&& s.subrange(e - marker.len(), e) == marker
}

/// `out` and `hit` are what reading `full` with `marker` gives: the bytes up
/// to and including the first place where they end with the marker, with
/// `hit` set; or, when the marker never ends there, all of `full`.
pub open spec fn reads_until_marker(full: Seq<u8>, marker: Seq<u8>, out: Seq<u8>, hit: bool) -> bool {
    &&& out.len() <= full.len()
    &&& out == full.subrange(0, out.len() as int)
    &&& hit ==> marker_ends_at(full, marker, out.len() as int)
    &&& !hit ==> out.len() == full.len()
    &&& forall|e: int| 0 <= e < out.len() ==> !#[trigger] marker_ends_at(full, marker, e)
    &&& !hit ==> !marker_ends_at(full, marker, out.len() as int)
}

/// The last `n` elements of `s` (all of them when it is shorter).
pub open spec fn last_n(s: Seq<u8>, n: nat) -> Seq<u8> {
    if s.len() <= n {
        s
    } else {
        s.subrange(s.len() - n, s.len() as int)
    }
}

/// The bytes most recently read, at most as many as the marker has, compared
/// with the marker after each new byte.
pub struct MarkerWindow<'a> {
    marker: &'a [u8],
    window: Vec<u8>,
}

impl<'a> MarkerWindow<'a> {
    pub closed spec fn marker(&self) -> Seq<u8> {
        self.marker@
    }

    pub closed spec fn window(&self) -> Seq<u8> {
        self.window@
    }

    pub fn new(marker: &'a [u8]) -> (r: Self)
        ensures
            r.marker() == marker@,
            r.window() == Seq::<u8>::empty(),
    {
        MarkerWindow { marker, window: Vec::new() }
    }

    /// Takes the next byte; true when the window now equals the marker. An
    /// empty marker never matches and keeps no bytes.
    pub fn push(&mut self, byte: u8) -> (r: bool)
        requires
            old(self).window().len() <= old(self).marker().len(),
        ensures
            final(self).marker() == old(self).marker(),
            final(self).window().len() <= final(self).marker().len(),
            old(self).marker().len() == 0 ==> final(self).window() == old(self).window(),
            old(self).marker().len() > 0 ==> final(self).window() == last_n(
                old(self).window().push(byte),
                old(self).marker().len(),
            ),
            r == (old(self).marker().len() > 0 && final(self).window() == old(self).marker()),
    {
        if self.marker.len() == 0 {
            return false;
        }
        let ghost before = self.window@.push(byte);
        self.window.push(byte);
        if self.window.len() > self.marker.len() {
            self.window.remove(0);
        }
        proof {
            if before.len() > self.marker@.len() {
                assert(self.window@ =~= before.subrange(before.len() - self.marker@.len(), before.len() as int));
            }
        }
        self.matches()
    }

    /// Whether the window holds exactly the marker.
    fn matches(&self) -> (r: bool)
        ensures
            r == (self.window@ == self.marker@),
    {
        if self.window.len() != self.marker.len() {
            return false;
        }
        let mut i: usize = 0;
        while i < self.window.len()
            invariant
                self.window@.len() == self.marker@.len(),
                i <= self.window@.len(),
                self.window@.subrange(0, i as int) == self.marker@.subrange(0, i as int),
            decreases self.window@.len() - i,
        {
            if self.window[i] != self.marker[i] {
                assert(self.window@[i as int] != self.marker@[i as int]);
                return false;
            }
            assert(self.window@.subrange(0, i + 1) =~= self.window@.subrange(0, i as int).push(self.window@[i as int]));
            assert(self.marker@.subrange(0, i + 1) =~= self.marker@.subrange(0, i as int).push(self.marker@[i as int]));
            i = i + 1;
        }
        assert(self.window@ =~= self.window@.subrange(0, i as int));
        assert(self.marker@ =~= self.marker@.subrange(0, i as int));
        true
    }
}

/// Reads the stream of `grid` under `cfg`, stopping right after the first
/// byte at which the bytes read so far end with `marker` (an empty marker
/// never stops it). Returns the bytes read, marker included, and whether the
/// marker stopped the reading.
pub fn decode_image(cfg: &Config, img: &RgbImage, marker: &[u8]) -> (r: (Vec<u8>, bool))
    requires
        cfg.wf(),
    ensures
        reads_until_marker(read_stream(*cfg, img@), marker@, r.0@, r.1),
{
    let total = img.pixel_count();
    let w = img.width();
    let h = img.height();
    let k = cfg.use_n_lsb;
    let c = pixels_per_byte(k);
    let ch = cfg.channel.index();
    let available = visit_count(cfg, w, h, total);
    let n = available / c;
    let ghost grid = img@;
    let ghost full = read_stream(*cfg, grid);
    proof {
        lemma_budget_within_image(*cfg, w as nat, h as nat);
        assert(n * c <= available) by (nonlinear_arith)
            requires
                n == available / c,
                c > 0,
        ;
    }
    let mut out: Vec<u8> = Vec::new();
    let mut window = MarkerWindow::new(marker);
    let mut p = first_pixel(cfg, w, h, total);
    let mut b: usize = 0;
    while b < n
        invariant
            cfg.wf(),
            k == cfg.use_n_lsb,
            c == chunks_per_byte(k as nat),
            ch == cfg.channel.spec_index(),
            grid == img@,
            full == read_stream(*cfg, grid),
            total == grid.pixel_count(),
            w == grid.width,
            h == grid.height,
            n == full.len(),
            n * c <= total,
            b <= n,
            p == visit(*cfg, w as nat, h as nat, (b * c) as nat),
            out@ == full.subrange(0, b as int),
            window.marker() == marker@,
            window.window().len() <= marker@.len(),
            marker@.len() > 0 ==> window.window() == last_n(out@, marker@.len()),
            forall|e: int| 0 <= e <= b ==> !#[trigger] marker_ends_at(full, marker@, e),
        decreases n - b,
    {
        assert((b + 1) * c <= n * c) by (nonlinear_arith)
            requires
                b + 1 <= n,
        ;
        assert((b + 1) * c == b * c + c) by (nonlinear_arith);
        let mut cur: u8 = 0;
        let mut j: usize = 0;
        while j < c
            invariant
                cfg.wf(),
                k == cfg.use_n_lsb,
                c == chunks_per_byte(k as nat),
                ch == cfg.channel.spec_index(),
                grid == img@,
                total == grid.pixel_count(),
                w == grid.width,
                h == grid.height,
                b * c + c <= total,
                j <= c,
                p == visit(*cfg, w as nat, h as nat, (b * c + j) as nat),
                cur == gathered(*cfg, grid, b as nat, j as nat),
            decreases c - j,
        {
            proof {
                lemma_chunk_geometry(k as nat, j as nat);
                lemma_visit_in_image(*cfg, w as nat, h as nat, (b * c + j) as nat);
            }
            let off = j * k;
            let cnt = if k <= 8 - off {
                k
            } else {
                8 - off
            };
            let value = img.channel(p, ch);
            cur = put_bits(cur, off as u8, cnt as u8, get_bits(value, cnt as u8));
            p = next_pixel(cfg, total, p);
            j = j + 1;
        }
        assert(cur == full[b as int]);
        out.push(cur);
        assert(out@ =~= full.subrange(0, b + 1));
        let found = window.push(cur);
        proof {
            if marker@.len() > 0 {
                let m = marker@.len();
                if out@.len() >= m {
                    assert(last_n(out@, m) =~= full.subrange(b + 1 - m, b + 1));
                }
                if out@.len() > m {
                    assert(last_n(out@.drop_last(), m).push(cur).subrange(1, m as int + 1) =~= last_n(out@, m));
                    assert(out@.drop_last() =~= full.subrange(0, b as int));
                } else {
                    assert(out@.drop_last() =~= full.subrange(0, b as int));
                    assert(last_n(out@.drop_last(), m).push(cur) =~= last_n(out@, m));
                }
            }
        }
        b = b + 1;
        if found {
            return (out, true);
        }
    }
    (out, false)
}

/// std's monotonic clock reading, carried through opaquely.
#[verifier::external_type_specification]
#[verifier::external_body]
pub struct ExInstant(std::time::Instant);

/// std's error for bytes that are not UTF-8, carried through opaquely.
#[verifier::external_type_specification]
#[verifier::external_body]
pub struct ExFromUtf8Error(std::string::FromUtf8Error);

/// std's I/O error, carried through opaquely.
#[verifier::external_type_specification]
#[verifier::external_body]
pub struct ExIoError(std::io::Error);

/// Relies on Instant::now: reads the monotonic clock.
pub assume_specification[ std::time::Instant::now ]() -> std::time::Instant;

/// Relies on Instant::elapsed: the time passed since the instant.
pub assume_specification[ std::time::Instant::elapsed ](self_: &std::time::Instant) -> std::time::Duration;

/// What String::from_utf8_lossy makes of these bytes: their text, with each
/// invalid sequence replaced by U+FFFD.
pub uninterp spec fn lossy_utf8(bytes: Seq<u8>) -> Seq<char>;

/// Relies on String::from_utf8_lossy: the text of the bytes, invalid
/// sequences replaced; valid UTF-8 comes out as its text.
#[verifier::external_body]
fn lossy_string(bytes: &[u8]) -> (r: String)
    ensures
        r@ == lossy_utf8(bytes@),
        valid_utf8(bytes@) ==> r@ == decode_utf8(bytes@),
{
    String::from_utf8_lossy(bytes).into_owned()
}

/// Relies on String::from_utf8: the text of the bytes when they are valid
/// UTF-8, an error otherwise.
#[verifier::external_body]
fn utf8_string(bytes: Vec<u8>) -> (r: Result<String, std::string::FromUtf8Error>)
    ensures
        r is Ok <==> valid_utf8(bytes@),
        r matches Ok(s) ==> s@ == decode_utf8(bytes@),
{
    String::from_utf8(bytes)
}

/// What a decoding produced.
pub struct DecodedImage {
    data: Vec<u8>,
    hit_marker: bool,
    elapsed: std::time::Duration,
}

impl DecodedImage {
    /// The bytes read.
    pub closed spec fn bytes(&self) -> Seq<u8> {
        self.data@
    }

    /// Whether the marker stopped the reading.
    pub closed spec fn hit(&self) -> bool {
        self.hit_marker
    }

    /// The time the decoding took, as measured by it.
    pub closed spec fn elapsed_time(&self) -> std::time::Duration {
        self.elapsed
    }

    /// The time it took to decode the image
    pub fn decode_time(&self) -> (r: &std::time::Duration)
        ensures
            *r == self.elapsed_time(),
    {
        &self.elapsed
    }

    /// Decoded data as text, invalid UTF-8 sequences replaced by U+FFFD
    pub fn as_raw(&self) -> (r: String)
        ensures
            r@ == lossy_utf8(self.bytes()),
            valid_utf8(self.bytes()) ==> r@ == decode_utf8(self.bytes()),
    {
        lossy_string(self.data.as_slice())
    }

    /// The decoded data as text; `InvalidUtf8` when it is not valid UTF-8
    pub fn as_string(&self) -> (r: Result<String, StegError>)
        ensures
            r is Ok <==> valid_utf8(self.bytes()),
            r matches Ok(s) ==> s@ == decode_utf8(self.bytes()),
            r matches Err(e) ==> e == StegError::InvalidUtf8,
    {
        let bytes = self.data.clone();
        assert(bytes@ =~= self.data@);
        match utf8_string(bytes) {
            Ok(s) => Ok(s),
            Err(_) => Err(StegError::InvalidUtf8),
        }
    }

    /// Gets a reference to the decoded byte array
    pub fn embedded_data(&self) -> (r: &Vec<u8>)
        ensures
            r@ == self.bytes(),
    {
        &self.data
    }

    /// If this is true, decoding stopped by hitting a marker specified in the
    /// `ImageDecoder` configuration
    pub fn hit_marker(&self) -> (r: bool)
        ensures
            r == self.hit(),
    {
        self.hit_marker
    }

    /// Relies on Write::write_all: writes the decoded bytes to `w`.
    #[verifier::external_body]
    pub fn write<W: std::io::Write>(&self, w: &mut W) -> Result<(), std::io::Error> {
        w.write_all(&self.data)
    }
}

/// An image decoder tries to find data encoded into an image's pixels. Supports the same
/// configuration options as the `ImageEncoder`
pub struct ImageDecoder<'a> {
    config: Config,
    marker: Option<&'a [u8]>,
    source_image: RgbImage,
}

impl<'a> ImageDecoder<'a> {
    #[verifier::type_invariant]
    spec fn valid_rules(self) -> bool {
        self.config.wf()
    }

    /// The image that is read.
    pub closed spec fn source(&self) -> PixelGrid {
        self.source_image@
    }

    /// The marker that stops the reading; empty when there is none.
    pub closed spec fn marker_bytes(&self) -> Seq<u8> {
        match self.marker {
            Some(m) => m@,
            None => Seq::empty(),
        }
    }

    pub fn new() -> (r: Self)
        ensures
            r.rules() == Config::spec_default(),
            r.marker_bytes() == Seq::<u8>::empty(),
            r.source() == (PixelGrid { width: 16, height: 16, bytes: Seq::new(768, |i: int| 0u8) }),
    {
        Self::default()
    }

    /// A decoder for `img` with the default settings and no marker.
    pub fn from_pixels(img: RgbImage) -> (r: Self)
        ensures
            r.rules() == Config::spec_default(),
            r.marker_bytes() == Seq::<u8>::empty(),
            r.source() == img@,
    {
        ImageDecoder { config: Config::default(), marker: None, source_image: img }
    }

    /// A decoder, with the default settings and no marker, for the image that
    /// the file `bytes` holds; `InvalidImage` when they hold none.
    pub fn from_bytes(bytes: &[u8]) -> (r: Result<Self, StegError>)
        ensures
            r is Ok <==> decoded_grid(bytes@) is Some,
            r matches Ok(d) ==> {
                &&& d.rules() == Config::spec_default()
                &&& d.marker_bytes() == Seq::<u8>::empty()
                &&& Some(d.source()) == decoded_grid(bytes@)
            },
            r matches Err(e) ==> e == StegError::InvalidImage,
    {
        match load_rgb8(bytes) {
            Ok(img) => Ok(Self::from_pixels(img)),
            Err(e) => Err(e),
        }
    }

    /// Specifies a byte sequence to look for and stop deconding when found.
    pub fn until_marker(&mut self, marker_sequence: Option<&'a [u8]>) -> (r: &mut Self)
        ensures
            r.rules() == old(self).rules(),
            r.source() == old(self).source(),
            r.marker_bytes() == (match marker_sequence {
                Some(m) => m@,
                None => Seq::<u8>::empty(),
            }),
            *final(self) == *final(r),
    {
        proof {
            use_type_invariant(&*self);
        }
        self.marker = marker_sequence;
        self
    }

    /// Reads the payload: every whole byte that the traversal holds, or up to
    /// and including the first place where the bytes read end with the marker.
    pub fn decode(&self) -> (r: Result<DecodedImage, StegError>)
        ensures
            r matches Ok(d) && reads_until_marker(
                read_stream(self.rules(), self.source()),
                self.marker_bytes(),
                d.bytes(),
                d.hit(),
            ),
    {
        proof {
            use_type_invariant(self);
        }
        let start = std::time::Instant::now();
        let marker: &[u8] = match self.marker {
            Some(m) => m,
            None => &[],
        };
        let (data, hit_marker) = decode_image(&self.config, &self.source_image, marker);
        Ok(DecodedImage { data, hit_marker, elapsed: start.elapsed() })
    }
}

impl<'a> ImageDecoder<'a> {
    /// Replacing the settings keeps the source image and the marker.
    pub proof fn lemma_with_rules(&self, c: Config)
        ensures
            self.with_rules(c).rules() == c,
            self.with_rules(c).source() == self.source(),
            self.with_rules(c).marker_bytes() == self.marker_bytes(),
    {
    }
}

impl<'a> Default for ImageDecoder<'a> {
    /// Default settings, no marker, over a black 16 by 16 image.
    fn default() -> (r: Self)
        ensures
            r.rules() == Config::spec_default(),
            r.marker_bytes() == Seq::<u8>::empty(),
            r.source() == (PixelGrid { width: 16, height: 16, bytes: Seq::new(768, |i: int| 0u8) }),
    {
        ImageDecoder { config: Config::default(), marker: None, source_image: RgbImage::new(16, 16) }
    }
}

impl<'a> ImageRules for ImageDecoder<'a> {
    closed spec fn rules(&self) -> Config {
        self.config
    }

    closed spec fn with_rules(&self, c: Config) -> Self {
        ImageDecoder { config: c, marker: self.marker, source_image: self.source_image }
    }

    fn set_use_n_lsb(&mut self, n: usize) -> (r: &mut Self) {
        proof {
            use_type_invariant(&*self);
        }
        self.config = Config { use_n_lsb: n, ..self.config };
        self
    }

    fn set_offset(&mut self, offset: usize) -> (r: &mut Self) {
        proof {
            use_type_invariant(&*self);
        }
        self.config = Config { offset, ..self.config };
        self
    }

    /// When decoding data, one pixel every `n` is read. If `n < 1` is
    /// passed, it defaults to `1`.
    fn set_step_by_n_pixels(&mut self, n: usize) -> (r: &mut Self) {
        proof {
            use_type_invariant(&*self);
        }
        let step = if n < 1 {
            1
        } else {
            n
        };
        self.config = Config { step_by_n_pixels: step, ..self.config };
        self
    }

    fn set_use_channel(&mut self, channel: RgbChannel) -> (r: &mut Self) {
        proof {
            use_type_invariant(&*self);
        }
        self.config = Config { channel, ..self.config };
        self
    }

    fn set_spread(&mut self, value: bool) -> (r: &mut Self) {
        proof {
            use_type_invariant(&*self);
        }
        self.config = Config { spread: value, ..self.config };
        self
    }

    fn set_position(&mut self, value: ImagePosition) -> (r: &mut Self) {
        proof {
            use_type_invariant(&*self);
        }
        self.config = Config { position: value, ..self.config };
        self
    }

    fn get_use_n_lsb(&self) -> (r: usize) {
        proof {
            use_type_invariant(self);
        }
        self.config.use_n_lsb
    }

    fn get_offset(&self) -> (r: usize) {
        self.config.offset
    }

    fn get_step_by_n_pixels(&self) -> (r: usize) {
        proof {
            use_type_invariant(self);
        }
        self.config.step_by_n_pixels
    }

    fn get_use_channel(&self) -> (r: &RgbChannel) {
        &self.config.channel
    }

    fn get_spread(&self) -> (r: bool) {
        self.config.spread
    }

    fn get_position(&self) -> (r: &ImagePosition) {
        &self.config.position
    }
}

} // verus!
