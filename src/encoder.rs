//! Embedding a payload into the low bits of one channel of an image.
use vstd::prelude::*;

use vstd::arithmetic::div_mod::lemma_fundamental_div_mod_converse;
use vstd::utf8::encode_utf8;

use crate::bits::{
    chunk_bits, chunk_len, chunks_per_byte, get_bits, lemma_chunk_geometry,
    pixels_per_byte, put_bits, required_pixel_visits, with_bits,
};
use crate::cursor::{
    first_pixel, lemma_budget_within_image, lemma_visit_in_image, next_pixel, visit, visit_budget,
    visit_count,
};
use crate::pixels::{PixelGrid, RgbImage};
use crate::codec::{bmp_encoding, bmp_file, bmp_size_fits, decoded_grid, load_rgb8, png_encoding, png_file};
use crate::prelude::{
    CompressionType, Config, FilterType, ImageFormat, ImagePosition, ImageRules, Rgb, RgbChannel, StegError,
};

verus! {

/// Describes a color change for a pixel at coordinates `(.0, .1)` from color `.2` to color `.3`
#[derive(Debug, Clone, Copy, PartialEq, Eq, Structural)]
pub struct ColorChange(pub u32, pub u32, pub Rgb<u8>, pub Rgb<u8>);

/// Describes how a single byte is encoded
#[derive(Debug)]
pub struct ByteEncodeMap {
    pub encoded_byte: u8,
    pub affected_points: Vec<ColorChange>,
}

impl ByteEncodeMap {
    pub fn new() -> (r: Self)
        ensures
            r.encoded_byte == 0,
            r.affected_points@.len() == 0,
    {
        Self { encoded_byte: 0, affected_points: Vec::new() }
    }

    /// Number of pixels changed for this byte.
    pub fn len(&self) -> (r: usize)
        ensures
            r == self.affected_points@.len(),
    {
        self.affected_points.len()
    }
}

/// The payload bits that visit `t` carries, with `k` bits per pixel.
pub open spec fn visit_chunk(data: Seq<u8>, k: nat, t: nat) -> u8 {
    let c = chunks_per_byte(k);
    chunk_bits(data[(t / c) as int], k, t % c)
}

/// How many bits visit `t` carries, with `k` bits per pixel.
pub open spec fn visit_chunk_len(k: nat, t: nat) -> nat {
    chunk_len(k, t % chunks_per_byte(k))
}

/// The image after the first `t` visits of embedding `data` into `grid`:
/// each visit overwrites the low bits of the selected channel of its pixel
/// with the bits it carries.
pub open spec fn embed(cfg: Config, grid: PixelGrid, data: Seq<u8>, t: nat) -> PixelGrid
    decreases t,
{
    if t == 0 {
        grid
    } else {
        let g = embed(cfg, grid, data, (t - 1) as nat);
        let p = visit(cfg, grid.width, grid.height, (t - 1) as nat) as int;
        let ch = cfg.channel.spec_index() as int;
        let k = cfg.use_n_lsb as nat;
        PixelGrid {
            bytes: g.bytes.update(
                3 * p + ch,
                with_bits(
                    g.channel(p, ch),
                    0,
                    visit_chunk_len(k, (t - 1) as nat) as u8,
                    visit_chunk(data, k, (t - 1) as nat),
                ),
            ),
            ..g
        }
    }
}

/// Embedding keeps the image's dimensions and buffer length.
pub proof fn lemma_embed_shape(cfg: Config, grid: PixelGrid, data: Seq<u8>, t: nat)
    requires
        grid.wf(),
        grid.pixel_count() > 0,
    ensures
        embed(cfg, grid, data, t).width == grid.width,
        embed(cfg, grid, data, t).height == grid.height,
        embed(cfg, grid, data, t).bytes.len() == grid.bytes.len(),
    decreases t,
{
    if t > 0 {
        lemma_embed_shape(cfg, grid, data, (t - 1) as nat);
        lemma_visit_in_image(cfg, grid.width, grid.height, (t - 1) as nat);
    }
}

/// The change record of visit `t`: the pixel's coordinates, and its colour
/// before and after the visit.
pub open spec fn change_at(cfg: Config, grid: PixelGrid, data: Seq<u8>, t: nat) -> ColorChange {
    let p = visit(cfg, grid.width, grid.height, t) as int;
    ColorChange(
        (p % (grid.width as int)) as u32,
        (p / (grid.width as int)) as u32,
        embed(cfg, grid, data, t).pixel(p),
        embed(cfg, grid, data, t + 1).pixel(p),
    )
}

/// `m` records payload byte `b`: its value and the change of each of its
/// visits, in order.
pub open spec fn records_byte(m: ByteEncodeMap, cfg: Config, grid: PixelGrid, data: Seq<u8>, b: nat) -> bool {
    let c = chunks_per_byte(cfg.use_n_lsb as nat);
    &&& m.encoded_byte == data[b as int]
    &&& m.affected_points@ == Seq::new(c, |j: int| change_at(cfg, grid, data, b * c + j as nat))
}

/// Pixel visits that a payload of `n` bytes needs: each byte takes its own
/// `chunks_per_byte` visits, the last of which may carry fewer than `k` bits.
/// For `k` dividing 8 this is `ceil(8 * n / k)`; for other `k` it is more,
/// as it counts the visits that embedding really makes, which is what the
/// capacity check must match.
pub open spec fn visits_needed(cfg: Config, n: nat) -> nat {
    n * chunks_per_byte(cfg.use_n_lsb as nat)
}

/// Whether a payload of `n` bytes fits the traversal.
pub open spec fn fits(cfg: Config, grid: PixelGrid, n: nat) -> bool {
    visits_needed(cfg, n) <= visit_budget(cfg, grid.width, grid.height)
}

/// Number of change records over all byte maps.
pub open spec fn total_points(maps: Seq<ByteEncodeMap>) -> nat
    decreases maps.len(),
{
    if maps.len() == 0 {
        0
    } else {
        total_points(maps.drop_last()) + maps.last().affected_points@.len()
    }
}

/// `r` is what embedding `data` into `grid` under `cfg` gives: the capacity
/// error exactly when the payload does not fit; otherwise the original, the
/// image after every visit of the payload, and one record per payload byte.
pub open spec fn encodes(cfg: Config, grid: PixelGrid, data: Seq<u8>, r: Result<EncodedImage, StegError>) -> bool {
    &&& r is Err <==> !fits(cfg, grid, data.len())
    &&& r matches Err(e) ==> e == StegError::CapacityExceeded
    &&& r matches Ok(e) ==> {
        &&& e.original() == grid
        &&& e.altered() == embed(cfg, grid, data, visits_needed(cfg, data.len()))
        &&& e.byte_maps().len() == data.len()
        &&& forall|b: int|
            0 <= b < data.len() ==> #[trigger] records_byte(e.byte_maps()[b], cfg, grid, data, b as nat)
    }
}

/// Represents the result of an image encoded with `ImageEncoder`
pub struct EncodedImage {
    altered_image: RgbImage,
    original_image: RgbImage,
    map: Vec<ByteEncodeMap>,
}

impl EncodedImage {
    #[verifier::type_invariant]
    spec fn points_fit(self) -> bool {
        total_points(self.map@) <= usize::MAX
    }

    /// The image with the payload in it.
    pub closed spec fn altered(&self) -> PixelGrid {
        self.altered_image@
    }

    /// The image it was made from.
    pub closed spec fn original(&self) -> PixelGrid {
        self.original_image@
    }

    /// One map per payload byte.
    pub closed spec fn byte_maps(&self) -> Seq<ByteEncodeMap> {
        self.map@
    }

    pub fn changes(&self) -> (r: &Vec<ByteEncodeMap>)
        ensures
            r@ == self.byte_maps(),
    {
        &self.map
    }

    /// Number of pixel changes over all payload bytes.
    pub fn pixels_changed(&self) -> (r: usize)
        ensures
            r == total_points(self.byte_maps()),
    {
        proof {
            use_type_invariant(self);
        }
        let mut sum: usize = 0;
        let mut i: usize = 0;
        while i < self.map.len()
            invariant
                i <= self.map@.len(),
                sum == total_points(self.map@.subrange(0, i as int)),
                total_points(self.map@) <= usize::MAX,
            decreases self.map@.len() - i,
        {
            proof {
                assert(self.map@.subrange(0, i + 1).drop_last() =~= self.map@.subrange(0, i as int));
                lemma_total_points_prefix(self.map@, i as int + 1);
            }
            sum = sum + self.map[i].len();
            i = i + 1;
        }
        assert(self.map@.subrange(0, i as int) =~= self.map@);
        sum
    }

    /// The altered image as an image file: PNG for `Png`, and for `Jpeg`
    /// too (a lossy format would not keep the payload); BMP for `Bmp`.
    pub fn to_bytes(&self, format: ImageFormat) -> (r: Result<Vec<u8>, StegError>)
        ensures
            file_of(self.altered(), CompressionType::Default, FilterType::NoFilter, format, r),
    {
        ImageWriter::new(self).to_bytes(format)
    }

    /// The image with the payload in it.
    pub fn altered_image(&self) -> (r: &RgbImage)
        ensures
            r@ == self.altered(),
    {
        &self.altered_image
    }

    /// The image it was made from.
    pub fn original_image(&self) -> (r: &RgbImage)
        ensures
            r@ == self.original(),
    {
        &self.original_image
    }
}

/// A prefix never has more change records than the whole.
proof fn lemma_total_points_prefix(maps: Seq<ByteEncodeMap>, i: int)
    requires
        0 <= i <= maps.len(),
    ensures
        total_points(maps.subrange(0, i)) <= total_points(maps),
    decreases maps.len() - i,
{
    if i < maps.len() {
        lemma_total_points_prefix(maps, i + 1);
        assert(maps.subrange(0, i + 1).drop_last() =~= maps.subrange(0, i));
    } else {
        assert(maps.subrange(0, i) =~= maps);
    }
}

/// Embeds `data` into a copy of `source`. Fails, before touching any pixel,
/// when the payload needs more pixel visits than the traversal offers.
pub fn encode_image(cfg: &Config, source: &RgbImage, data: &[u8]) -> (r: Result<EncodedImage, StegError>)
    requires
        cfg.wf(),
    ensures
        encodes(*cfg, source@, data@, r),
{
    let total = source.pixel_count();
    let w = source.width();
    let h = source.height();
    let k = cfg.use_n_lsb;
    let c = pixels_per_byte(k);
    let available = visit_count(cfg, w, h, total);
    if required_pixel_visits(data.len(), k) > available as u128 {
        return Err(StegError::CapacityExceeded);
    }
    proof {
        lemma_budget_within_image(*cfg, w as nat, h as nat);
    }
    let ghost grid = source@;
    let ch = cfg.channel.index();
    let mut altered = source.duplicate();
    let mut maps: Vec<ByteEncodeMap> = Vec::new();
    let mut p = first_pixel(cfg, w, h, total);
    let mut t: usize = 0;
    let mut b: usize = 0;
    while b < data.len()
        invariant
            cfg.wf(),
            k == cfg.use_n_lsb,
            c == chunks_per_byte(k as nat),
            ch == cfg.channel.spec_index(),
            grid == source@,
            grid.wf(),
            total == grid.pixel_count(),
            w == grid.width,
            h == grid.height,
            data@.len() * c <= total,
            b <= data@.len(),
            t == b * c,
            altered@ == embed(*cfg, grid, data@, t as nat),
            p == visit(*cfg, w as nat, h as nat, t as nat),
            maps@.len() == b,
            total_points(maps@) == t,
            forall|bb: int| 0 <= bb < b ==> #[trigger] records_byte(maps@[bb], *cfg, grid, data@, bb as nat),
        decreases data@.len() - b,
    {
        let byte = data[b];
        let mut m = ByteEncodeMap { encoded_byte: byte, affected_points: Vec::new() };
        let mut j: usize = 0;
        assert((b + 1) * c <= data@.len() * c) by (nonlinear_arith)
            requires
                b + 1 <= data@.len(),
        ;
        assert((b + 1) * c == b * c + c) by (nonlinear_arith);
        while j < c
            invariant
                cfg.wf(),
                k == cfg.use_n_lsb,
                c == chunks_per_byte(k as nat),
                ch == cfg.channel.spec_index(),
                grid == source@,
                grid.wf(),
                total == grid.pixel_count(),
                w == grid.width,
                h == grid.height,
                b < data@.len(),
                byte == data@[b as int],
                b * c + c <= total,
                j <= c,
                t == b * c + j,
                altered@ == embed(*cfg, grid, data@, t as nat),
                p == visit(*cfg, w as nat, h as nat, t as nat),
                m.encoded_byte == byte,
                m.affected_points@ == Seq::new(j as nat, |jj: int| change_at(*cfg, grid, data@, (b * c + jj) as nat)),
            decreases c - j,
        {
            proof {
                lemma_chunk_geometry(k as nat, j as nat);
                lemma_fundamental_div_mod_converse(t as int, c as int, b as int, j as int);
                lemma_visit_in_image(*cfg, w as nat, h as nat, t as nat);
                lemma_embed_shape(*cfg, grid, data@, t as nat);
            }
            let off = j * k;
            let cnt = if k <= 8 - off {
                k
            } else {
                8 - off
            };
            let bits = get_bits(byte >> (off as u8), cnt as u8);
            let before = altered.pixel(p);
            let old_value = altered.channel(p, ch);
            altered.set_channel(p, ch, put_bits(old_value, 0, cnt as u8, bits));
            let after = altered.pixel(p);
            let wu = w as usize;
            assert(p / wu < h) by (nonlinear_arith)
                requires
                    p < wu * h,
                    wu > 0,
            ;
            let change = ColorChange((p % wu) as u32, (p / wu) as u32, before, after);
            m.affected_points.push(change);
            assert(m.affected_points@ =~= Seq::new((j + 1) as nat, |jj: int| change_at(*cfg, grid, data@, (b * c + jj) as nat)));
            p = next_pixel(cfg, total, p);
            t = t + 1;
            j = j + 1;
        }
        proof {
            assert(maps@.push(m).drop_last() =~= maps@);
        }
        let ghost old_maps = maps@;
        assert(m.affected_points@ =~= Seq::new(c as nat, |jj: int| change_at(*cfg, grid, data@, b as nat * c as nat + jj as nat)));
        assert(records_byte(m, *cfg, grid, data@, b as nat));
        maps.push(m);
        assert forall|bb: int| 0 <= bb < b + 1 implies #[trigger] records_byte(maps@[bb], *cfg, grid, data@, bb as nat) by {
            if bb < b {
                assert(maps@[bb] == old_maps[bb]);
            }
        }
        b = b + 1;
    }
    Ok(EncodedImage { altered_image: altered, original_image: source.duplicate(), map: maps })
}

/// An image encoder takes an image and alters its pixels to encode arbitrary data
pub struct ImageEncoder {
    config: Config,
    source_image: RgbImage,
}

impl ImageEncoder {
    #[verifier::type_invariant]
    spec fn valid_rules(self) -> bool {
        self.config.wf()
    }

    /// The image that payloads are embedded into.
    pub closed spec fn source(&self) -> PixelGrid {
        self.source_image@
    }

    /// An encoder for `img` with the default settings.
    pub fn from_pixels(img: RgbImage) -> (r: Self)
        ensures
            r.rules() == Config::spec_default(),
            r.source() == img@,
    {
        ImageEncoder { config: Config::default(), source_image: img }
    }

    /// An encoder, with the default settings, for the image that the file
    /// `bytes` holds; `InvalidImage` when they hold none.
    pub fn from_bytes(bytes: &[u8]) -> (r: Result<Self, StegError>)
        ensures
            r is Ok <==> decoded_grid(bytes@) is Some,
            r matches Ok(e) ==> e.rules() == Config::spec_default() && Some(e.source()) == decoded_grid(bytes@),
            r matches Err(e) ==> e == StegError::InvalidImage,
    {
        match load_rgb8(bytes) {
            Ok(img) => Ok(Self::from_pixels(img)),
            Err(e) => Err(e),
        }
    }

    pub fn source_image(&self) -> (r: &RgbImage)
        ensures
            r@ == self.source(),
    {
        &self.source_image
    }

    /// Encodes a string (its UTF-8 bytes) into the source image for this encoder
    pub fn encode_string(&self, data: String) -> (r: Result<EncodedImage, StegError>)
        ensures
            encodes(self.rules(), self.source(), encode_utf8(data@), r),
    {
        self.encode_data(data.as_str().as_bytes())
    }

    /// Encodes arbitrary bytes into the source image for this encoder
    pub fn encode_bytes(&self, data: &[u8]) -> (r: Result<EncodedImage, StegError>)
        ensures
            encodes(self.rules(), self.source(), data@, r),
    {
        self.encode_data(data)
    }

    fn encode_data(&self, data: &[u8]) -> (r: Result<EncodedImage, StegError>)
        ensures
            encodes(self.rules(), self.source(), data@, r),
    {
        proof {
            use_type_invariant(self);
        }
        encode_image(&self.config, &self.source_image, data)
    }
}

impl ImageEncoder {
    /// Replacing the settings keeps the source image.
    pub proof fn lemma_with_rules(&self, c: Config)
        ensures
            self.with_rules(c).rules() == c,
            self.with_rules(c).source() == self.source(),
    {
    }
}

impl Default for ImageEncoder {
    /// Default settings over a black 16 by 16 image.
    fn default() -> (r: Self)
        ensures
            r.rules() == Config::spec_default(),
            r.source() == (PixelGrid { width: 16, height: 16, bytes: Seq::new(768, |i: int| 0u8) }),
    {
        ImageEncoder { config: Config::default(), source_image: RgbImage::new(16, 16) }
    }
}

impl ImageRules for ImageEncoder {
    closed spec fn rules(&self) -> Config {
        self.config
    }

    closed spec fn with_rules(&self, c: Config) -> Self {
        ImageEncoder { config: c, source_image: self.source_image }
    }

    fn set_use_n_lsb(&mut self, n: usize) -> (r: &mut Self) {
        proof {
            use_type_invariant(&*self);
        }
        self.config = Config { use_n_lsb: n, ..self.config };
        self
    }

    fn set_offset(&mut self, offset: usize) -> (r: &mut Self) {
        proof {
            use_type_invariant(&*self);
        }
        self.config = Config { offset, ..self.config };
        self
    }

    fn set_step_by_n_pixels(&mut self, n: usize) -> (r: &mut Self) {
        proof {
            use_type_invariant(&*self);
        }
        let step = if n < 1 {
            1
        } else {
            n
        };
        self.config = Config { step_by_n_pixels: step, ..self.config };
        self
    }

    fn set_use_channel(&mut self, channel: RgbChannel) -> (r: &mut Self) {
        proof {
            use_type_invariant(&*self);
        }
        self.config = Config { channel, ..self.config };
        self
    }

    fn set_spread(&mut self, value: bool) -> (r: &mut Self) {
        proof {
            use_type_invariant(&*self);
        }
        self.config = Config { spread: value, ..self.config };
        self
    }

    fn set_position(&mut self, value: ImagePosition) -> (r: &mut Self) {
        proof {
            use_type_invariant(&*self);
        }
        self.config = Config { position: value, ..self.config };
        self
    }

    fn get_use_n_lsb(&self) -> (r: usize) {
        proof {
            use_type_invariant(self);
        }
        self.config.use_n_lsb
    }

    fn get_offset(&self) -> (r: usize) {
        self.config.offset
    }

    fn get_step_by_n_pixels(&self) -> (r: usize) {
        proof {
            use_type_invariant(self);
        }
        self.config.step_by_n_pixels
    }

    fn get_use_channel(&self) -> (r: &RgbChannel) {
        &self.config.channel
    }

    fn get_spread(&self) -> (r: bool) {
        self.config.spread
    }

    fn get_position(&self) -> (r: &ImagePosition) {
        &self.config.position
    }
}

/// `r` is the file in `format` that the image crate writes for `grid` (PNG
/// for `Png` and `Jpeg`, BMP for `Bmp`), or `WriteFailed` exactly when that
/// format cannot hold the image: a PNG with no pixel row or column, a BMP too
/// large for its 32-bit sizes.
pub open spec fn file_of(
    grid: PixelGrid,
    compression: CompressionType,
    filter: FilterType,
    format: ImageFormat,
    r: Result<Vec<u8>, StegError>,
) -> bool {
    &&& r is Ok <==> match format {
        ImageFormat::Bmp => bmp_size_fits(grid.width, grid.height),
        _ => grid.width > 0 && grid.height > 0,
    }
    &&& r matches Err(e) ==> e == StegError::WriteFailed
    &&& r matches Ok(v) ==> v@ == match format {
        ImageFormat::Bmp => bmp_encoding(grid.bytes, grid.width as u32, grid.height as u32),
        _ => png_encoding(grid.bytes, grid.width as u32, grid.height as u32, compression, filter),
    }
}

/// Writes an `EncodedImage` as an image file
pub struct ImageWriter<'a> {
    image: &'a EncodedImage,
    compression_type: CompressionType,
    filter_type: FilterType,
}

impl<'a> ImageWriter<'a> {
    pub closed spec fn target(&self) -> &'a EncodedImage {
        self.image
    }

    pub closed spec fn compression(&self) -> CompressionType {
        self.compression_type
    }

    pub closed spec fn filter(&self) -> FilterType {
        self.filter_type
    }

    /// A writer with default compression and no filtering.
    pub fn new(image_ref: &'a EncodedImage) -> (r: Self)
        ensures
            r.target() == image_ref,
            r.compression() == CompressionType::Default,
            r.filter() == FilterType::NoFilter,
    {
        Self { image: image_ref, compression_type: CompressionType::Default, filter_type: FilterType::NoFilter }
    }

    /// The altered image as an image file: PNG for `Png`, and for `Jpeg`
    /// too; BMP for `Bmp`.
    pub fn to_bytes(&self, format: ImageFormat) -> (r: Result<Vec<u8>, StegError>)
        ensures
            file_of(self.target().altered(), self.compression(), self.filter(), format, r),
    {
        let img = self.image.altered_image();
        match format {
            ImageFormat::Jpeg | ImageFormat::Png => png_file(img, self.compression_type, self.filter_type),
            ImageFormat::Bmp => bmp_file(img),
        }
    }
}

/// Pixel positions that a payload's visits span: the visits it needs times
/// the step between two of them.
pub fn bytes_needed_for_data<R: ImageRules>(data: &[u8], rules: &R) -> (r: usize)
    requires
        visits_needed(rules.rules(), data@.len()) * rules.rules().step_by_n_pixels <= usize::MAX,
    ensures
        r == visits_needed(rules.rules(), data@.len()) * rules.rules().step_by_n_pixels,
{
    let c = pixels_per_byte(rules.get_use_n_lsb());
    let step = rules.get_step_by_n_pixels();
    assert(data@.len() * c <= data@.len() * c * step) by (nonlinear_arith)
        requires
            step >= 1,
    ;
    data.len() * c * step
}

} // verus!
