//! Five-region brightness signatures, the matching distance between them, and
//! the construction of a normalised signature table from rasterised glyphs.
//!
//! Brightness is held in fixed point: `ONE` stands for a fraction of 1.0.

use vstd::prelude::*;

verus! {

/// The fixed-point value of brightness 1.0.
pub const ONE: u32 = 65536;

/// The fixed-point value of brightness 0.5.
pub const HALF: u32 = 32768;

/// Height in pixels at which glyphs are rasterised.
pub const GLYPH_HEIGHT: u32 = 36;

/// Height of the top and of the bottom band of a glyph.
pub const BAND_HEIGHT: u32 = 12;

/// Intensity divided as follows
///
/// lt t rt
/// l  m  r
/// lb b rt
///
/// Each field is a brightness on the fixed-point scale of `ONE`.
#[derive(Clone, Copy, Debug, PartialEq, Eq, Structural)]
pub struct Intensity {
    pub left: u32,
    pub right: u32,
    pub top: u32,
    pub bottom: u32,
    pub middle: u32,
}

/// `|a - b|`.
pub open spec fn gap(a: u32, b: u32) -> int {
    if a >= b {
        a - b
    } else {
        b - a
    }
}

fn abs_diff(a: u32, b: u32) -> (r: u32)
    ensures
        r == gap(a, b),
{
    if a >= b {
        a - b
    } else {
        b - a
    }
}

impl Intensity {
    /// Every region lies in `[0, ONE]`.
    pub open spec fn wf(&self) -> bool {
        &&& self.left <= ONE
        &&& self.right <= ONE
        &&& self.top <= ONE
        &&& self.bottom <= ONE
        &&& self.middle <= ONE
    }

    /// Weighted L1 distance, the bottom region counting three times.
    pub open spec fn spec_distance(&self, other: &Intensity) -> int {
        gap(self.left, other.left) + gap(self.right, other.right) + gap(self.top, other.top) + 3
            * gap(self.bottom, other.bottom) + gap(self.middle, other.middle)
    }

    /// The signature with every region fully light.
    pub open spec fn spec_white() -> Intensity {
        Intensity { left: ONE, right: ONE, top: ONE, bottom: ONE, middle: ONE }
    }

    pub fn white() -> (r: Intensity)
        ensures
            r == Intensity::spec_white(),
    {
        Intensity { left: ONE, right: ONE, top: ONE, bottom: ONE, middle: ONE }
    }

    pub fn distance(&self, other: &Intensity) -> (d: u64)
        ensures
            d == self.spec_distance(other),
    {
        abs_diff(self.left, other.left) as u64 + abs_diff(self.right, other.right) as u64
            + abs_diff(self.top, other.top) as u64 + abs_diff(self.bottom, other.bottom) as u64 * 3
            + abs_diff(self.middle, other.middle) as u64
    }

    /// Replaces every region by `func` of it.
    pub fn apply<F: Fn(u32) -> u32>(&mut self, func: F)
        requires
            old(self).wf(),
            forall|x: u32| x <= ONE ==> #[trigger] func.requires((x,)),
        ensures
            func.ensures((old(self).left,), final(self).left),
            func.ensures((old(self).right,), final(self).right),
            func.ensures((old(self).top,), final(self).top),
            func.ensures((old(self).bottom,), final(self).bottom),
            func.ensures((old(self).middle,), final(self).middle),
    {
        self.left = func(self.left);
        self.right = func(self.right);
        self.top = func(self.top);
        self.bottom = func(self.bottom);
        self.middle = func(self.middle);
    }
}

/// The distance from a signature to itself is zero.
pub proof fn lemma_distance_to_self(c: Intensity)
    ensures
        c.spec_distance(&c) == 0,
{
}

/// The ordered signature table that cells are matched against.
pub type CharIntensities = Vec<(char, Intensity)>;

/// Coverage of one pixel of a rasterised glyph, relative to its bounding box.
#[derive(Clone, Copy, Debug, PartialEq, Eq, Structural)]
pub struct Coverage {
    pub x: u32,
    pub y: u32,
    /// How much of the pixel is inked, on the scale of `ONE`.
    pub value: u32,
}

/// A character rasterised at `GLYPH_HEIGHT` pixels.
#[derive(Clone, Debug)]
pub struct GlyphRaster {
    pub character: char,
    /// Layout position plus advance width, rounded.
    pub width: u32,
    /// Top-left corner of the pixel bounding box; `None` when nothing is visible.
    pub origin: Option<(i32, i32)>,
    /// Coverage samples inside the bounding box.
    pub coverage: Vec<Coverage>,
}

/// Why a signature table could not be built.
#[derive(Clone, Copy, Debug, PartialEq, Eq, Structural)]
pub enum SignatureError {
    /// No region of any visible glyph holds any ink, so nothing can be normalised.
    AlphabetAllBlank,
    /// The glyph is too narrow for its side regions to hold a pixel.
    InvalidGlyphSignature(char),
}

/// One of the five regions of a signature.
pub enum Region {
    Left,
    Right,
    Top,
    Bottom,
    Middle,
}

/// Whether pixel `(x, y)` of a glyph of width `w` counts towards region `r`.
/// The four side regions overlap at the corners; the middle is what none of them holds.
pub open spec fn in_region(r: Region, x: int, y: int, w: int) -> bool {
    let side = w / 3;
    let band = BAND_HEIGHT as int;
    let on_left = x < side;
    let on_right = x >= w - side;
    let on_top = y < band;
    let on_bottom = y >= GLYPH_HEIGHT - band;
    match r {
        Region::Left => on_left,
        Region::Right => on_right,
        Region::Top => on_top,
        Region::Bottom => on_bottom,
        Region::Middle => !on_left && !on_right && !on_top && !on_bottom,
    }
}

/// The nominal pixel count of region `r` in a glyph of width `w`.
pub open spec fn region_pixels(r: Region, w: int) -> int {
    let side = w / 3;
    let band = BAND_HEIGHT as int;
    match r {
        Region::Left | Region::Right => side * GLYPH_HEIGHT,
        Region::Top | Region::Bottom => band * w,
        Region::Middle => (w - 2 * side) * (GLYPH_HEIGHT - 2 * band),
    }
}

/// Total coverage that the samples put into region `r`.
pub open spec fn coverage_sum(s: Seq<Coverage>, ox: int, oy: int, w: int, r: Region) -> int
    decreases s.len(),
{
    if s.len() == 0 {
        0
    } else {
        let c = s.last();
        coverage_sum(s.drop_last(), ox, oy, w, r) + if in_region(r, ox + c.x, oy + c.y, w) {
            c.value as int
        } else {
            0
        }
    }
}

/// A glyph with a visible bounding box.
pub open spec fn is_visible(g: GlyphRaster) -> bool {
    g.origin is Some
}

/// Mean coverage of region `r` of a visible glyph, before normalisation.
pub open spec fn raw_level(g: GlyphRaster, r: Region) -> int {
    let (ox, oy) = g.origin->Some_0;
    coverage_sum(g.coverage@, ox as int, oy as int, g.width as int, r) / region_pixels(
        r,
        g.width as int,
    )
}

pub open spec fn max_of(a: int, b: int) -> int {
    if a >= b {
        a
    } else {
        b
    }
}

/// The largest raw level over the five regions of a glyph.
pub open spec fn glyph_peak(g: GlyphRaster) -> int {
    max_of(
        max_of(max_of(raw_level(g, Region::Left), raw_level(g, Region::Right)), max_of(raw_level(g, Region::Top), raw_level(g, Region::Bottom))),
        raw_level(g, Region::Middle),
    )
}

/// The glyphs that have a visible bounding box, in order.
pub open spec fn visible_glyphs(gs: Seq<GlyphRaster>) -> Seq<GlyphRaster>
    decreases gs.len(),
{
    if gs.len() == 0 {
        seq![]
    } else if is_visible(gs.last()) {
        visible_glyphs(gs.drop_last()).push(gs.last())
    } else {
        visible_glyphs(gs.drop_last())
    }
}

/// The largest raw level over all regions of all visible glyphs (zero when there are none).
pub open spec fn alphabet_peak(gs: Seq<GlyphRaster>) -> int
    decreases gs.len(),
{
    if gs.len() == 0 {
        0
    } else if is_visible(gs.last()) {
        max_of(alphabet_peak(gs.drop_last()), glyph_peak(gs.last()))
    } else {
        alphabet_peak(gs.drop_last())
    }
}

/// The first visible glyph whose side regions are empty (width under 3).
pub open spec fn first_narrow(gs: Seq<GlyphRaster>) -> Option<char>
    decreases gs.len(),
{
    if gs.len() == 0 {
        None
    } else if first_narrow(gs.drop_last()) is Some {
        first_narrow(gs.drop_last())
    } else if is_visible(gs.last()) && gs.last().width < 3 {
        Some(gs.last().character)
    } else {
        None
    }
}

/// A raw level scaled by the peak and inverted: ink gives darkness, so 0 is darkest.
pub open spec fn normalized_level(v: int, peak: int) -> int {
    ONE - v * ONE / peak
}

/// The normalised signature of a visible glyph.
pub open spec fn signature_of(g: GlyphRaster, peak: int) -> Intensity {
    Intensity {
        left: normalized_level(raw_level(g, Region::Left), peak) as u32,
        right: normalized_level(raw_level(g, Region::Right), peak) as u32,
        top: normalized_level(raw_level(g, Region::Top), peak) as u32,
        bottom: normalized_level(raw_level(g, Region::Bottom), peak) as u32,
        middle: normalized_level(raw_level(g, Region::Middle), peak) as u32,
    }
}

/// The table built from `gs`: each visible glyph with its normalised signature, in
/// order, then a space that is fully light.
pub open spec fn alphabet_of(gs: Seq<GlyphRaster>) -> Seq<(char, Intensity)> {
    let peak = alphabet_peak(gs);
    visible_glyphs(gs).map_values(|g: GlyphRaster| (g.character, signature_of(g, peak))).push(
        (' ', Intensity::spec_white()),
    )
}

/// Raw levels of one visible glyph.
struct RawLevels {
    character: char,
    left: u128,
    right: u128,
    top: u128,
    bottom: u128,
    middle: u128,
}

impl RawLevels {
    spec fn describes(&self, g: GlyphRaster) -> bool {
        &&& self.character == g.character
        &&& self.left == raw_level(g, Region::Left)
        &&& self.right == raw_level(g, Region::Right)
        &&& self.top == raw_level(g, Region::Top)
        &&& self.bottom == raw_level(g, Region::Bottom)
        &&& self.middle == raw_level(g, Region::Middle)
    }
}

proof fn lemma_coverage_sum_bounds(s: Seq<Coverage>, ox: int, oy: int, w: int, r: Region)
    ensures
        0 <= coverage_sum(s, ox, oy, w, r) <= s.len() * 0xffff_ffff,
    decreases s.len(),
{
    if s.len() > 0 {
        lemma_coverage_sum_bounds(s.drop_last(), ox, oy, w, r);
    }
}

/// Adds `v` to the accumulator of a region when the pixel lies in it.
fn accumulate(acc: u128, hit: bool, v: u32) -> (r: u128)
    requires
        acc + v <= u128::MAX,
    ensures
        r == acc + if hit {
            v as int
        } else {
            0
        },
{
    if hit {
        acc + v as u128
    } else {
        acc
    }
}

/// Sums the coverage of each region of a visible glyph and divides by its pixel count.
fn glyph_raw_levels(g: &GlyphRaster, ox: i32, oy: i32) -> (r: RawLevels)
    requires
        g.origin == Some((ox, oy)),
        g.width >= 3,
    ensures
        r.describes(*g),
        r.left <= glyph_peak(*g),
        r.right <= glyph_peak(*g),
        r.top <= glyph_peak(*g),
        r.bottom <= glyph_peak(*g),
        r.middle <= glyph_peak(*g),
        glyph_peak(*g) < 0x1_0000_0000_0000_0000_0000_0000,
{
    let w = g.width;
    let side: u32 = w / 3;
    let left_edge: i64 = side as i64;
    let right_edge: i64 = w as i64 - side as i64;
    let band: i64 = BAND_HEIGHT as i64;
    let bottom_edge: i64 = GLYPH_HEIGHT as i64 - band;
    let ghost cov = g.coverage@;
    let ghost oxi = ox as int;
    let ghost oyi = oy as int;
    let ghost wi = w as int;
    let mut left: u128 = 0;
    let mut right: u128 = 0;
    let mut top: u128 = 0;
    let mut bottom: u128 = 0;
    let mut middle: u128 = 0;
    let n = g.coverage.len();
    for k in 0..n
        invariant
            n == cov.len(),
            cov == g.coverage@,
            oxi == ox,
            oyi == oy,
            wi == w,
            w >= 3,
            side == wi / 3,
            left_edge == wi / 3,
            right_edge == wi - side,
            band == BAND_HEIGHT,
            bottom_edge == GLYPH_HEIGHT - BAND_HEIGHT,
            left == coverage_sum(cov.take(k as int), oxi, oyi, wi, Region::Left),
            right == coverage_sum(cov.take(k as int), oxi, oyi, wi, Region::Right),
            top == coverage_sum(cov.take(k as int), oxi, oyi, wi, Region::Top),
            bottom == coverage_sum(cov.take(k as int), oxi, oyi, wi, Region::Bottom),
            middle == coverage_sum(cov.take(k as int), oxi, oyi, wi, Region::Middle),
    {
        let c = g.coverage[k];
        let x: i64 = ox as i64 + c.x as i64;
        let y: i64 = oy as i64 + c.y as i64;
        let on_left = x < left_edge;
        let on_right = x >= right_edge;
        let on_top = y < band;
        let on_bottom = y >= bottom_edge;
        let on_side = on_left || on_right || on_top || on_bottom;
        proof {
            let t = cov.take(k as int);
            let t1 = cov.take(k + 1);
            assert(t1.drop_last() =~= t);
            assert(t1.last() == c);
            assert(on_left == in_region(Region::Left, oxi + c.x, oyi + c.y, wi));
            assert(on_right == in_region(Region::Right, oxi + c.x, oyi + c.y, wi));
            assert(on_top == in_region(Region::Top, oxi + c.x, oyi + c.y, wi));
            assert(on_bottom == in_region(Region::Bottom, oxi + c.x, oyi + c.y, wi));
            assert(!on_side == in_region(Region::Middle, oxi + c.x, oyi + c.y, wi));
            lemma_coverage_sum_bounds(t, oxi, oyi, wi, Region::Left);
            lemma_coverage_sum_bounds(t, oxi, oyi, wi, Region::Right);
            lemma_coverage_sum_bounds(t, oxi, oyi, wi, Region::Top);
            lemma_coverage_sum_bounds(t, oxi, oyi, wi, Region::Bottom);
            lemma_coverage_sum_bounds(t, oxi, oyi, wi, Region::Middle);
            assert(k * 0xffff_ffff <= 0x1_0000_0000_0000_0000 * 0xffff_ffff) by (nonlinear_arith)
                requires k < 0x1_0000_0000_0000_0000;
        }
        left = accumulate(left, on_left, c.value);
        right = accumulate(right, on_right, c.value);
        top = accumulate(top, on_top, c.value);
        bottom = accumulate(bottom, on_bottom, c.value);
        middle = accumulate(middle, !on_side, c.value);
    }
    proof {
        assert(cov.take(n as int) =~= cov);
        lemma_coverage_sum_bounds(cov, oxi, oyi, wi, Region::Left);
        lemma_coverage_sum_bounds(cov, oxi, oyi, wi, Region::Right);
        lemma_coverage_sum_bounds(cov, oxi, oyi, wi, Region::Top);
        lemma_coverage_sum_bounds(cov, oxi, oyi, wi, Region::Bottom);
        lemma_coverage_sum_bounds(cov, oxi, oyi, wi, Region::Middle);
        assert(n * 0xffff_ffff < 0x1_0000_0000_0000_0000_0000_0000) by (nonlinear_arith)
            requires n < 0x1_0000_0000_0000_0000;
    }
    let side_pixels: u128 = side as u128 * GLYPH_HEIGHT as u128;
    let band_pixels: u128 = BAND_HEIGHT as u128 * w as u128;
    let middle_pixels: u128 = (w as u128 - 2 * side as u128) * (GLYPH_HEIGHT as u128 - 2
        * BAND_HEIGHT as u128);
    assert(side_pixels >= 1 && band_pixels >= 1 && middle_pixels >= 1) by (nonlinear_arith)
        requires
            side_pixels == side * 36,
            band_pixels == 12 * w,
            middle_pixels == (w - 2 * side) * 12,
            side >= 1,
            w >= 3 * side,
            w < 3 * side + 3,
            w >= 3,
    ;
    assert(left / side_pixels <= left && right / side_pixels <= right && top / band_pixels <= top
        && bottom / band_pixels <= bottom && middle / middle_pixels <= middle) by (nonlinear_arith)
        requires
            side_pixels >= 1,
            band_pixels >= 1,
            middle_pixels >= 1,
            left >= 0,
            right >= 0,
            top >= 0,
            bottom >= 0,
            middle >= 0,
    ;
    RawLevels {
        character: g.character,
        left: left / side_pixels,
        right: right / side_pixels,
        top: top / band_pixels,
        bottom: bottom / band_pixels,
        middle: middle / middle_pixels,
    }
}

proof fn lemma_first_narrow_prefix(gs: Seq<GlyphRaster>, j: int)
    requires
        0 <= j <= gs.len(),
        first_narrow(gs.take(j)) is Some,
    ensures
        first_narrow(gs) == first_narrow(gs.take(j)),
    decreases gs.len(),
{
    if j < gs.len() {
        assert(gs.drop_last().take(j) =~= gs.take(j));
        lemma_first_narrow_prefix(gs.drop_last(), j);
    } else {
        assert(gs.take(j) =~= gs);
    }
}

/// `ONE - v * ONE / peak`, for a raw level no larger than the peak.
fn normalize(v: u128, peak: u128) -> (r: u32)
    requires
        0 < peak < 0x1_0000_0000_0000_0000_0000_0000,
        v <= peak,
    ensures
        r == normalized_level(v as int, peak as int),
        r <= ONE,
{
    assert(v * 65536 <= peak * 65536) by (nonlinear_arith)
        requires
            v <= peak,
    ;
    assert((v * 65536) / (peak as int) <= 65536) by (nonlinear_arith)
        requires
            v * 65536 <= peak * 65536,
            peak > 0,
            v >= 0,
    ;
    let scaled: u128 = v * (ONE as u128) / peak;
    (ONE as u128 - scaled) as u32
}

/// Builds the signature table: the raw region levels of every visible glyph,
/// scaled so that the largest level over the whole table becomes darkest, and
/// inverted so that larger values are lighter; then a fully light space.
pub fn char_intensities(glyphs: &Vec<GlyphRaster>) -> (r: Result<CharIntensities, SignatureError>)
    ensures
        match first_narrow(glyphs@) {
            Some(c) => r == Err::<CharIntensities, SignatureError>(
                SignatureError::InvalidGlyphSignature(c),
            ),
            None => if alphabet_peak(glyphs@) == 0 {
                r == Err::<CharIntensities, SignatureError>(SignatureError::AlphabetAllBlank)
            } else {
                r matches Ok(a) && a@ == alphabet_of(glyphs@)
            },
        },
        r matches Ok(a) ==> forall|k: int| 0 <= k < a@.len() ==> (#[trigger] a@[k]).1.wf(),
{
    let ghost gs = glyphs@;
    let mut raws: Vec<RawLevels> = Vec::new();
    let mut peak: u128 = 0;
    let n = glyphs.len();
    for i in 0..n
        invariant
            n == gs.len(),
            gs == glyphs@,
            first_narrow(gs.take(i as int)) is None,
            peak == alphabet_peak(gs.take(i as int)),
            peak < 0x1_0000_0000_0000_0000_0000_0000,
            raws@.len() == visible_glyphs(gs.take(i as int)).len(),
            forall|k: int|
                0 <= k < raws@.len() ==> (#[trigger] raws@[k]).describes(
                    visible_glyphs(gs.take(i as int))[k],
                ),
            forall|k: int|
                0 <= k < raws@.len() ==> {
                    let q = #[trigger] raws@[k];
                    &&& q.left <= peak
                    &&& q.right <= peak
                    &&& q.top <= peak
                    &&& q.bottom <= peak
                    &&& q.middle <= peak
                },
    {
        let g = &glyphs[i];
        let ghost before = gs.take(i as int);
        let ghost old_raws = raws@;
        proof {
            assert(gs.take(i + 1).drop_last() =~= before);
            assert(gs.take(i + 1).last() == *g);
        }
        match g.origin {
            None => {},
            Some((ox, oy)) => {
                if g.width < 3 {
                    proof {
                        lemma_first_narrow_prefix(gs, i + 1);
                    }
                    return Err(SignatureError::InvalidGlyphSignature(g.character));
                }
                let raw = glyph_raw_levels(g, ox, oy);
                let mut top_level: u128 = raw.left;
                if raw.right > top_level {
                    top_level = raw.right;
                }
                let mut band_level: u128 = raw.top;
                if raw.bottom > band_level {
                    band_level = raw.bottom;
                }
                if band_level > top_level {
                    top_level = band_level;
                }
                if raw.middle > top_level {
                    top_level = raw.middle;
                }
                if top_level > peak {
                    peak = top_level;
                }
                raws.push(raw);
            },
        }
        proof {
            let after = gs.take(i + 1);
            assert forall|k: int| 0 <= k < raws@.len() implies (#[trigger] raws@[k]).describes(
                visible_glyphs(after)[k],
            ) by {
                if k < old_raws.len() {
                    assert(raws@[k] == old_raws[k]);
                    assert(old_raws[k].describes(visible_glyphs(before)[k]));
                    assert(visible_glyphs(after)[k] == visible_glyphs(before)[k]);
                } else {
                    assert(visible_glyphs(after)[k] == *g);
                }
            }
        }
    }
    proof {
        assert(gs.take(n as int) =~= gs);
        assert forall|j: int| 0 <= j < raws@.len() implies (#[trigger] raws@[j]).describes(
            visible_glyphs(gs)[j],
        ) by {
            assert(raws@[j].describes(visible_glyphs(gs.take(n as int))[j]));
        }
    }
    if peak == 0 {
        return Err(SignatureError::AlphabetAllBlank);
    }
    let ghost vis = visible_glyphs(gs);
    let mut table: CharIntensities = Vec::new();
    let m = raws.len();
    for k in 0..m
        invariant
            m == raws@.len(),
            m == vis.len(),
            0 < peak < 0x1_0000_0000_0000_0000_0000_0000,
            peak == alphabet_peak(gs),
            forall|j: int| 0 <= j < raws@.len() ==> (#[trigger] raws@[j]).describes(vis[j]),
            forall|j: int|
                0 <= j < raws@.len() ==> {
                    let q = #[trigger] raws@[j];
                    &&& q.left <= peak
                    &&& q.right <= peak
                    &&& q.top <= peak
                    &&& q.bottom <= peak
                    &&& q.middle <= peak
                },
            table@.len() == k,
            forall|j: int| 0 <= j < k ==> (#[trigger] table@[j]).1.wf(),
            forall|j: int|
                0 <= j < k ==> #[trigger] table@[j] == (vis[j].character, signature_of(
                    vis[j],
                    peak as int,
                )),
    {
        let raw = &raws[k];
        assert(raw.describes(vis[k as int]));
        let sig = Intensity {
            left: normalize(raw.left, peak),
            right: normalize(raw.right, peak),
            top: normalize(raw.top, peak),
            bottom: normalize(raw.bottom, peak),
            middle: normalize(raw.middle, peak),
        };
        table.push((raw.character, sig));
    }
    table.push((' ', Intensity::white()));
    assert(table@ =~= alphabet_of(gs));
    Ok(table)
}

/// `clamp(contrast * (g - 1/2) + 1/2, 0, 1)` on the fixed-point scale, where
/// `contrast` is itself in units of `1 / ONE` and `g` is a gamma-adjusted level.
pub open spec fn tone_level(contrast: int, g: int) -> int {
    let t = contrast * (g - HALF) + HALF * ONE;
    if t <= 0 {
        0
    } else if t >= ONE * ONE {
        ONE as int
    } else {
        t / ONE as int
    }
}

/// The contrast and gamma curve applied to each region of a sampled cell.
///
/// `gamma_levels[v]` is `v` raised to the gamma exponent, for every fixed-point
/// level `v` in `[0, ONE]`; `contrast` is on the fixed-point scale.
pub struct ToneCurve {
    pub contrast: i64,
    pub gamma_levels: Vec<u32>,
}

impl ToneCurve {
    /// One gamma level per fixed-point level, each within `[0, ONE]`.
    pub open spec fn wf(&self) -> bool {
        &&& self.gamma_levels@.len() == ONE + 1
        &&& forall|i: int| 0 <= i <= ONE ==> #[trigger] self.gamma_levels@[i] <= ONE
    }

    pub open spec fn spec_map(&self, x: u32) -> int {
        tone_level(self.contrast as int, self.gamma_levels@[x as int] as int)
    }

    /// The curve applied to each region of `c`.
    pub open spec fn spec_tone(&self, c: Intensity) -> Intensity {
        Intensity {
            left: self.spec_map(c.left) as u32,
            right: self.spec_map(c.right) as u32,
            top: self.spec_map(c.top) as u32,
            bottom: self.spec_map(c.bottom) as u32,
            middle: self.spec_map(c.middle) as u32,
        }
    }

    /// The curve with these parts, when the gamma levels are well formed.
    pub fn new(contrast: i64, gamma_levels: Vec<u32>) -> (r: Option<ToneCurve>)
        ensures
            r is Some <==> (ToneCurve { contrast, gamma_levels }).wf(),
            r matches Some(c) ==> c.contrast == contrast && c.gamma_levels@ == gamma_levels@,
    {
        if gamma_levels.len() != ONE as usize + 1 {
            return None;
        }
        let n = gamma_levels.len();
        for i in 0..n
            invariant
                n == gamma_levels@.len(),
                forall|k: int| 0 <= k < i ==> #[trigger] gamma_levels@[k] <= ONE,
        {
            if gamma_levels[i] > ONE {
                return None;
            }
        }
        Some(ToneCurve { contrast, gamma_levels })
    }

    /// Tone-maps one level.
    pub fn map(&self, x: u32) -> (r: u32)
        requires
            self.wf(),
            x <= ONE,
        ensures
            r == self.spec_map(x),
            r <= ONE,
    {
        let g = self.gamma_levels[x as usize];
        let c = self.contrast;
        let d: i128 = g as i128 - HALF as i128;
        assert(-0x8000_0000_0000_0000 * 0x8000 <= c * d <= 0x8000_0000_0000_0000 * 0x8000)
            by (nonlinear_arith)
            requires
                -0x8000_0000_0000_0000 <= c <= 0x8000_0000_0000_0000,
                -0x8000 <= d <= 0x8000,
        ;
        let t: i128 = c as i128 * d + HALF as i128 * ONE as i128;
        if t <= 0 {
            0
        } else if t >= ONE as i128 * ONE as i128 {
            ONE
        } else {
            (t as u64 / ONE as u64) as u32
        }
    }
}

/// With contrast one and the identity gamma curve (an exponent of one), tone
/// mapping leaves every level in `[0, ONE]` unchanged.
pub proof fn lemma_neutral_curve_is_identity(curve: ToneCurve, x: u32)
    requires
        curve.wf(),
        curve.contrast == ONE,
        forall|i: int| 0 <= i <= ONE ==> #[trigger] curve.gamma_levels@[i] == i,
        x <= ONE,
    ensures
        curve.spec_map(x) == x,
{
    let g = curve.gamma_levels@[x as int] as int;
    assert(g == x);
    assert(65536 * (g - 32768) + 32768 * 65536 == 65536 * g) by (nonlinear_arith);
    assert((65536 * g) / 65536 == g) by (nonlinear_arith);
    assert(65536 * g <= 0 ==> g == 0) by (nonlinear_arith)
        requires
            g >= 0,
    ;
    assert(65536 * g >= 65536 * 65536 ==> g == 65536) by (nonlinear_arith)
        requires
            g <= 65536,
    ;
}

proof fn lemma_peak_attained(gs: Seq<GlyphRaster>)
    requires
        alphabet_peak(gs) > 0,
    ensures
        exists|k: int|
            0 <= k < visible_glyphs(gs).len() && glyph_peak(#[trigger] visible_glyphs(gs)[k])
                == alphabet_peak(gs),
    decreases gs.len(),
{
    let p = gs.drop_last();
    if is_visible(gs.last()) {
        let n = visible_glyphs(p).len() as int;
        if glyph_peak(gs.last()) >= alphabet_peak(p) {
            assert(visible_glyphs(gs)[n] == gs.last());
        } else {
            lemma_peak_attained(p);
            let k = choose|k: int|
                0 <= k < visible_glyphs(p).len() && glyph_peak(#[trigger] visible_glyphs(p)[k])
                    == alphabet_peak(p);
            assert(visible_glyphs(gs)[k] == visible_glyphs(p)[k]);
        }
    } else {
        assert(visible_glyphs(gs) == visible_glyphs(p));
        assert(alphabet_peak(gs) == alphabet_peak(p));
        lemma_peak_attained(p);
    }
}

/// With contrast one and the identity gamma curve, tone mapping a well-formed
/// signature region by region gives back the same signature.
pub proof fn lemma_neutral_curve_keeps_signature(curve: ToneCurve, c: Intensity)
    requires
        curve.wf(),
        curve.contrast == ONE,
        forall|i: int| 0 <= i <= ONE ==> #[trigger] curve.gamma_levels@[i] == i,
        c.wf(),
    ensures
        curve.spec_tone(c) == c,
{
    lemma_neutral_curve_is_identity(curve, c.left);
    lemma_neutral_curve_is_identity(curve, c.right);
    lemma_neutral_curve_is_identity(curve, c.top);
    lemma_neutral_curve_is_identity(curve, c.bottom);
    lemma_neutral_curve_is_identity(curve, c.middle);
}

/// In a table built without error, the glyph that holds the most ink has a
/// region of brightness zero: normalisation makes the darkest level exactly black.
pub proof fn lemma_darkest_region_is_black(gs: Seq<GlyphRaster>)
    requires
        first_narrow(gs) is None,
        alphabet_peak(gs) > 0,
    ensures
        exists|k: int|
            0 <= k < alphabet_of(gs).len() - 1 && {
                let s = (#[trigger] alphabet_of(gs)[k]).1;
                s.left == 0 || s.right == 0 || s.top == 0 || s.bottom == 0 || s.middle == 0
            },
{
    lemma_peak_attained(gs);
    let peak = alphabet_peak(gs);
    let k = choose|k: int|
        0 <= k < visible_glyphs(gs).len() && glyph_peak(#[trigger] visible_glyphs(gs)[k]) == peak;
    let g = visible_glyphs(gs)[k];
    assert(peak * 65536 / peak == 65536) by (nonlinear_arith)
        requires
            peak > 0,
    ;
    assert(normalized_level(peak, peak) == 0);
    let s = alphabet_of(gs)[k].1;
    assert(s == signature_of(g, peak));
    assert(s.left == 0 || s.right == 0 || s.top == 0 || s.bottom == 0 || s.middle == 0);
}

} // verus!
