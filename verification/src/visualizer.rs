//! The rendering engine: ring geometry, palette, painting and the
//! anti-aliasing downscale.

use vstd::prelude::*;

use vstd::arithmetic::div_mod::lemma_fundamental_div_mod_converse;

use crate::palette::{band_level, magma_bits, magma_samples, pack_colors, packed, scaled_level};
use crate::{FF_BUFF, MARGIN};

verus! {

/// Radius of the outermost ring on a canvas of the given size: half the
/// shorter side, less the margin.
pub open spec fn max_radius(width: int, height: int) -> int {
    let shorter = if width <= height { width } else { height };
    shorter / 2 - MARGIN as int
}

/// Radius of the ring of `band`. Band 0 is the outermost ring, of radius
/// `max_radius`; from there the radii shrink linearly toward the center,
/// each rounded down to whole pixels.
pub open spec fn ring_radius(band: int, max_radius: int) -> int {
    max_radius * (FF_BUFF as int - band) / (FF_BUFF as int)
}

/// Squared distance of pixel `(x, y)` from the center of the canvas.
pub open spec fn dist_sq(x: int, y: int, width: int, height: int) -> int {
    (x - width / 2) * (x - width / 2) + (y - height / 2) * (y - height / 2)
}

/// Index of the pixel in column `x` of row `y` in a row-major buffer whose
/// rows hold `width` pixels.
pub open spec fn pixel_index(x: int, y: int, width: int) -> int {
    y * width + x
}

/// Whether a point at squared distance `d` from the center lies within the
/// ring of `band`.
pub open spec fn in_ring(d: int, band: int, max_radius: int) -> bool {
    d <= ring_radius(band, max_radius) * ring_radius(band, max_radius)
}

/// Whether `zone` is the classification of a point at squared distance `d`:
/// the band of the smallest ring that holds the point (when rings coincide,
/// the innermost of them), or `FF_BUFF` when no ring holds it.
pub open spec fn is_zone(zone: int, d: int, max_radius: int) -> bool {
    if zone == FF_BUFF as int {
        forall|band: int| 0 <= band < FF_BUFF as int ==> !in_ring(d, band, max_radius)
    } else {
        &&& 0 <= zone < FF_BUFF as int
        &&& in_ring(d, zone, max_radius)
        &&& forall|band: int| zone < band < FF_BUFF as int ==> !in_ring(d, band, max_radius)
    }
}

/// Whether `zones` is the zone map of a `width` x `height` canvas: one entry
/// per pixel in row-major order, so that entry `i` belongs to the pixel in
/// column `i % width` of row `i / width`, each the classification of its
/// pixel.
pub open spec fn is_zone_map(zones: Seq<usize>, width: int, height: int) -> bool {
    &&& zones.len() == width * height
    &&& forall|i: int|
        0 <= i < zones.len() ==> is_zone(
            #[trigger] zones[i] as int,
            dist_sq(i % width, i / width, width, height),
            max_radius(width, height),
        )
}

/// A point has exactly one zone.
pub proof fn lemma_zone_unique(first: int, second: int, d: int, max_radius: int)
    requires
        is_zone(first, d, max_radius),
        is_zone(second, d, max_radius),
    ensures
        first == second,
{
    if first < second {
        if second < FF_BUFF as int {
            assert(in_ring(d, second, max_radius));
        }
    } else if second < first {
        if first < FF_BUFF as int {
            assert(in_ring(d, first, max_radius));
        }
    }
}

/// The outermost ring has the radius `max_radius`, and no ring is larger
/// than the ring of a band before it.
pub proof fn lemma_ring_radii_shrink(outer: int, inner: int, max_radius: int)
    requires
        0 <= max_radius,
        0 <= outer <= inner <= FF_BUFF as int,
    ensures
        ring_radius(0, max_radius) == max_radius,
        0 <= ring_radius(inner, max_radius) <= ring_radius(outer, max_radius) <= max_radius,
{
    let count = FF_BUFF as int;
    assert(0 <= max_radius * (count - inner) <= max_radius * (count - outer) <= max_radius * count)
        by (nonlinear_arith)
        requires
            0 <= max_radius,
            0 <= outer <= inner <= count,
    ;
}

/// A point is background exactly when it lies farther from the center than
/// `max_radius`: every point within that distance has a band.
pub proof fn lemma_background_is_beyond_max_radius(zone: int, d: int, max_radius: int)
    requires
        0 <= max_radius,
        is_zone(zone, d, max_radius),
    ensures
        zone == FF_BUFF as int <==> d > max_radius * max_radius,
{
    lemma_ring_radii_shrink(0, 0, max_radius);
    if zone == FF_BUFF as int {
        assert(!in_ring(d, 0, max_radius));
    } else {
        lemma_ring_radii_shrink(0, zone, max_radius);
        let radius = ring_radius(zone, max_radius);
        assert(radius * radius <= max_radius * max_radius) by (nonlinear_arith)
            requires
                0 <= radius <= max_radius,
        ;
    }
}

/// A point nearer to the center is never in a ring farther out: its band
/// number is at least that of a point farther away.
pub proof fn lemma_zone_grows_toward_center(
    near: int,
    far: int,
    near_zone: int,
    far_zone: int,
    max_radius: int,
)
    requires
        near <= far,
        is_zone(near_zone, near, max_radius),
        is_zone(far_zone, far, max_radius),
        far_zone < FF_BUFF as int,
    ensures
        far_zone <= near_zone < FF_BUFF as int,
{
    assert(in_ring(near, far_zone, max_radius));
}

/// A canvas has exactly one zone map: building it again for the same
/// dimensions gives the same map.
pub proof fn lemma_zone_map_unique(
    first: Seq<usize>,
    second: Seq<usize>,
    width: int,
    height: int,
)
    requires
        is_zone_map(first, width, height),
        is_zone_map(second, width, height),
    ensures
        first == second,
{
    assert forall|i: int| 0 <= i < first.len() implies first[i] == second[i] by {
        lemma_zone_unique(
            first[i] as int,
            second[i] as int,
            dist_sq(i % width, i / width, width, height),
            max_radius(width, height),
        );
    }
    assert(first =~= second);
}

/// In a zone map the background is what lies beyond the outermost ring: a
/// pixel has the value `FF_BUFF` exactly when its distance from the center
/// exceeds `max_radius`.
pub proof fn lemma_zone_map_background(zones: Seq<usize>, width: int, height: int, i: int)
    requires
        is_zone_map(zones, width, height),
        0 <= max_radius(width, height),
        0 <= i < zones.len(),
    ensures
        zones[i] == FF_BUFF <==> dist_sq(i % width, i / width, width, height) > max_radius(
            width,
            height,
        ) * max_radius(width, height),
{
    lemma_background_is_beyond_max_radius(
        zones[i] as int,
        dist_sq(i % width, i / width, width, height),
        max_radius(width, height),
    );
}

/// The entry of a zone map for the pixel in column `x` of row `y` stands at
/// index `pixel_index(x, y, width)`. It is the classification of that
/// pixel, and it is the background value exactly when the pixel lies
/// farther from the center than `max_radius`.
pub proof fn lemma_zone_of_pixel(zones: Seq<usize>, width: int, height: int, x: int, y: int)
    requires
        is_zone_map(zones, width, height),
        0 <= max_radius(width, height),
        0 <= x < width,
        0 <= y < height,
    ensures
        0 <= pixel_index(x, y, width) < zones.len(),
        is_zone(
            zones[pixel_index(x, y, width)] as int,
            dist_sq(x, y, width, height),
            max_radius(width, height),
        ),
        zones[pixel_index(x, y, width)] == FF_BUFF <==> dist_sq(x, y, width, height) > max_radius(
            width,
            height,
        ) * max_radius(width, height),
{
    let i = y * width + x;
    assert(0 <= i < width * height) by (nonlinear_arith)
        requires
            i == y * width + x,
            0 <= x < width,
            0 <= y < height,
    ;
    lemma_fundamental_div_mod_converse(i, width, y, x);
    lemma_zone_map_background(zones, width, height, i);
}

/// Every entry of a zone map is a band or the background value `FF_BUFF`.
pub proof fn lemma_zone_map_entries(zones: Seq<usize>, width: int, height: int, i: int)
    requires
        is_zone_map(zones, width, height),
        0 <= i < zones.len(),
    ensures
        zones[i] <= FF_BUFF,
{
}

/// One 8-bit channel of a packed color: the byte that starts at bit
/// `shift` (16 for red, 8 for green, 0 for blue).
pub open spec fn channel(color: u32, shift: u32) -> u32 {
    (color >> shift) & 0xff
}

/// Packs three channel values into one color, red in bits 16 to 23, green
/// in bits 8 to 15, blue in bits 0 to 7.
pub open spec fn pack_rgb(r: u32, g: u32, b: u32) -> u32 {
    (r << 16) | (g << 8) | b
}

/// Sum of one channel over a sequence of colors.
pub open spec fn channel_sum(colors: Seq<u32>, shift: u32) -> nat
    decreases colors.len(),
{
    if colors.len() == 0 {
        0
    } else {
        channel_sum(colors.drop_last(), shift) + channel(colors.last(), shift) as nat
    }
}

/// The color whose channels are the averages, rounded down, of the channels
/// of `colors`.
pub open spec fn average_color(colors: Seq<u32>) -> u32 {
    pack_rgb(
        (channel_sum(colors, 16) / colors.len()) as u32,
        (channel_sum(colors, 8) / colors.len()) as u32,
        (channel_sum(colors, 0) / colors.len()) as u32,
    )
}

/// A channel sum is at most 255 per color.
pub proof fn lemma_channel_sum_bound(colors: Seq<u32>, shift: u32)
    ensures
        channel_sum(colors, shift) <= 255 * colors.len(),
    decreases colors.len(),
{
    if colors.len() > 0 {
        lemma_channel_sum_bound(colors.drop_last(), shift);
        let c = colors.last();
        assert((c >> shift) & 0xff <= 255) by (bit_vector);
    }
}

/// How an output canvas samples a supersampled buffer: each output pixel
/// averages a square window of source pixels.
#[derive(Clone, Copy, Debug)]
pub struct Sampling {
    /// Width of the output canvas.
    pub width: usize,
    /// Height of the output canvas.
    pub height: usize,
    /// Distance, in source pixels, between the windows of neighbouring
    /// output pixels.
    pub scale_factor: usize,
    /// Side of the sampling window, in source pixels.
    pub window: usize,
    /// Length of one row of the source buffer.
    pub source_width: usize,
}

/// Index in the source buffer of the sample at row offset `dr` and column
/// offset `dc` in the window of output pixel `pixel` (row-major).
pub open spec fn source_index(sampling: Sampling, pixel: int, dr: int, dc: int) -> int {
    ((pixel / sampling.width as int) * sampling.scale_factor + dr) * sampling.source_width + (
    pixel % sampling.width as int) * sampling.scale_factor + dc
}

/// What the window holds at offset `(dr, dc)` once output pixel `pixel` has
/// been sampled: the source pixel there or, where that index lies beyond
/// the buffer, what the window held at that offset for the pixel before
/// (black before the first).
pub open spec fn window_cell(
    buffer: Seq<u32>,
    sampling: Sampling,
    pixel: int,
    dr: int,
    dc: int,
) -> u32
    decreases pixel + 1,
{
    if pixel < 0 {
        0
    } else {
        let i = source_index(sampling, pixel, dr, dc);
        if 0 <= i < buffer.len() {
            buffer[i]
        } else {
            window_cell(buffer, sampling, pixel - 1, dr, dc)
        }
    }
}

/// The whole window of output pixel `pixel`, row by row.
pub open spec fn window_at(buffer: Seq<u32>, sampling: Sampling, pixel: int) -> Seq<u32> {
    Seq::new(
        (sampling.window * sampling.window) as nat,
        |cell: int|
            window_cell(
                buffer,
                sampling,
                pixel,
                cell / sampling.window as int,
                cell % sampling.window as int,
            ),
    )
}

/// The output buffer after downscaling `buffer` into it: each pixel of the
/// canvas is the average of its window; what lies behind the canvas in
/// `before` stays.
pub open spec fn downscaled(buffer: Seq<u32>, sampling: Sampling, before: Seq<u32>) -> Seq<u32> {
    Seq::new(
        before.len(),
        |pixel: int|
            if pixel < sampling.width * sampling.height {
                average_color(window_at(buffer, sampling, pixel))
            } else {
                before[pixel]
            },
    )
}

/// Computes `source_index` in machine integers; `None` where it does not
/// fit, so that it lies beyond every buffer.
fn sample_index(sampling: &Sampling, pixel: usize, dr: usize, dc: usize) -> (index: Option<usize>)
    requires
        sampling.width > 0,
    ensures
        index is Some ==> index->0 == source_index(*sampling, pixel as int, dr as int, dc as int),
        index is None ==> source_index(*sampling, pixel as int, dr as int, dc as int) > usize::MAX,
{
    let r = pixel / sampling.width;
    let c = pixel % sampling.width;
    let ghost row = r * sampling.scale_factor + dr;
    let ghost col = c * sampling.scale_factor + dc;
    assert(r * sampling.scale_factor >= 0 && c * sampling.scale_factor >= 0)
        by (nonlinear_arith)
        requires
            r >= 0,
            c >= 0,
            sampling.scale_factor >= 0,
    ;
    assert(row * sampling.source_width >= 0 && (sampling.source_width > 0 ==> row
        * sampling.source_width >= row)) by (nonlinear_arith)
        requires
            row >= 0,
            sampling.source_width >= 0,
    ;
    let col_part = match c.checked_mul(sampling.scale_factor) {
        Some(shift) => shift.checked_add(dc),
        None => None,
    };
    let row_part = if sampling.source_width == 0 {
        Some(0)
    } else {
        let row_index = match r.checked_mul(sampling.scale_factor) {
            Some(shift) => shift.checked_add(dr),
            None => None,
        };
        match row_index {
            Some(row_index) => row_index.checked_mul(sampling.source_width),
            None => None,
        }
    };
    match (row_part, col_part) {
        (Some(base), Some(offset)) => base.checked_add(offset),
        _ => None,
    }
}

/// The palette entry that a band shows at `level`: levels wrap around the
/// palette.
pub open spec fn band_color(colors: Seq<u32>, level: int) -> u32 {
    colors[level % colors.len() as int]
}

/// The color of every band, given the value of each as a binary32 bit
/// pattern: the palette entry at the band's level.
pub open spec fn color_map(colors: Seq<u32>, values: Seq<u32>) -> Seq<u32> {
    Seq::new(values.len(), |band: int| band_color(colors, scaled_level(values[band]) as int))
}

/// The supersampled buffer after painting: a pixel whose zone is a band
/// with a color takes that color; every other pixel (background, or a band
/// that was given no color) stays as it was.
pub open spec fn painted(zones: Seq<usize>, band_colors: Seq<u32>, before: Seq<u32>) -> Seq<u32> {
    Seq::new(
        before.len(),
        |i: int|
            if i < zones.len() && zones[i] < FF_BUFF && zones[i] < band_colors.len() {
                band_colors[zones[i] as int]
            } else {
                before[i]
            },
    )
}

/// Absolute difference of two coordinates.
fn span(a: usize, b: usize) -> (d: usize)
    ensures
        d == if a >= b { a - b } else { b - a },
{
    if a >= b {
        a - b
    } else {
        b - a
    }
}

/// Whether `bounds` holds, for every band, the square of its ring's
/// radius.
spec fn are_ring_bounds(bounds: Seq<u128>, max_radius: int) -> bool {
    &&& bounds.len() == FF_BUFF
    &&& forall|band: int|
        0 <= band < FF_BUFF as int ==> #[trigger] bounds[band] == ring_radius(band, max_radius)
            * ring_radius(band, max_radius)
}

/// The squared radius of every ring, outermost first.
fn ring_bounds(max_radius: usize) -> (bounds: Vec<u128>)
    ensures
        are_ring_bounds(bounds@, max_radius as int),
{
    let mut bounds: Vec<u128> = Vec::with_capacity(FF_BUFF);
    let mut band: usize = 0;
    while band < FF_BUFF
        invariant
            band <= FF_BUFF,
            bounds.len() == band,
            forall|b: int|
                0 <= b < band ==> #[trigger] bounds@[b] == ring_radius(b, max_radius as int)
                    * ring_radius(b, max_radius as int),
        decreases FF_BUFF - band,
    {
        let bands_left: u128 = (FF_BUFF - band) as u128;
        assert(max_radius * bands_left <= max_radius * FF_BUFF) by (nonlinear_arith)
            requires
                0 <= bands_left <= FF_BUFF,
                0 <= max_radius,
        ;
        let radius: u128 = (max_radius as u128) * bands_left / (FF_BUFF as u128);
        assert(radius * radius <= u128::MAX) by (nonlinear_arith)
            requires
                0 <= radius <= 0xffff_ffff_ffff_ffff,
        ;
        bounds.push(radius * radius);
        band += 1;
    }
    bounds
}

/// Classifies a point at squared distance `d` from the center, trying the
/// rings from the innermost outward.
fn zone_at(d: u128, bounds: &[u128], Ghost(max_radius): Ghost<int>) -> (zone: usize)
    requires
        are_ring_bounds(bounds@, max_radius),
    ensures
        is_zone(zone as int, d as int, max_radius),
{
    let mut band: usize = FF_BUFF;
    while band > 0
        invariant
            band <= FF_BUFF,
            are_ring_bounds(bounds@, max_radius),
            forall|b: int| band <= b < FF_BUFF as int ==> !in_ring(d as int, b, max_radius),
        decreases band,
    {
        band -= 1;
        if d <= bounds[band] {
            return band;
        }
    }
    FF_BUFF
}

/// Side of the window that one output pixel averages, in supersampled
/// pixels.
pub const AA_SQRT: usize = 4;

/// The rendering engine for one canvas: its palette and the zone map of its
/// supersampled canvas, both built once.
pub struct Visualizer {
    width: usize,
    height: usize,
    scale_factor: usize,
    colors: Vec<u32>,
    circles: Vec<usize>,
}

impl Visualizer {
    /// Width of the presented canvas.
    pub closed spec fn spec_width(&self) -> usize {
        self.width
    }

    /// Height of the presented canvas.
    pub closed spec fn spec_height(&self) -> usize {
        self.height
    }

    /// Supersampling factor.
    pub closed spec fn spec_scale_factor(&self) -> usize {
        self.scale_factor
    }

    /// The palette, one packed color per level.
    pub closed spec fn colors(&self) -> Seq<u32> {
        self.colors@
    }

    /// The zone map of the supersampled canvas.
    pub closed spec fn circles(&self) -> Seq<usize> {
        self.circles@
    }

    /// How the presented canvas samples the supersampled one.
    pub open spec fn sampling(&self) -> Sampling {
        Sampling {
            width: self.width(),
            height: self.height(),
            scale_factor: self.scale_factor(),
            window: AA_SQRT,
            source_width: (self.width() * self.scale_factor()) as usize,
        }
    }

    /// Whether dimensions describe a canvas that an engine can be built
    /// for: the supersampled canvas has a length that fits the machine, and
    /// its shorter side leaves room for the margin.
    pub open spec fn valid_canvas(width: usize, height: usize, scale_factor: usize) -> bool {
        &&& width * scale_factor <= usize::MAX
        &&& height * scale_factor <= usize::MAX
        &&& (width * scale_factor) * (height * scale_factor) <= usize::MAX
        &&& MARGIN <= (if width * scale_factor <= height * scale_factor {
            width * scale_factor
        } else {
            height * scale_factor
        }) / 2
    }

    /// The invariant of an engine: the palette has one entry per level, and
    /// the zone map is that of the supersampled canvas.
    pub open spec fn wf(&self) -> bool {
        &&& Self::valid_canvas(self.width(), self.height(), self.scale_factor())
        &&& self.colors().len() == FF_BUFF
        &&& is_zone_map(
            self.circles(),
            self.width() * self.scale_factor(),
            self.height() * self.scale_factor(),
        )
    }

    /// Tests whether an engine can be built for these dimensions.
    pub fn is_valid_canvas(width: usize, height: usize, scale_factor: usize) -> (valid: bool)
        ensures
            valid == Self::valid_canvas(width, height, scale_factor),
    {
        let scaled_width = match width.checked_mul(scale_factor) {
            Some(scaled_width) => scaled_width,
            None => { return false; },
        };
        let scaled_height = match height.checked_mul(scale_factor) {
            Some(scaled_height) => scaled_height,
            None => { return false; },
        };
        if scaled_width.checked_mul(scaled_height).is_none() {
            return false;
        }
        let shorter = if scaled_width <= scaled_height {
            scaled_width
        } else {
            scaled_height
        };
        MARGIN <= shorter / 2
    }

    /// Builds the engine for a `width` x `height` canvas that is painted at
    /// `scale_factor` times its size.
    pub fn new(width: usize, height: usize, scale_factor: usize) -> (engine: Visualizer)
        requires
            Self::valid_canvas(width, height, scale_factor),
        ensures
            engine.wf(),
            engine.width() == width,
            engine.height() == height,
            engine.scale_factor() == scale_factor,
            engine.colors() == packed(magma_bits(FF_BUFF as nat)),
    {
        let colors = Self::gradient(FF_BUFF as u16);
        let circles = Self::classify_circles(width * scale_factor, height * scale_factor);
        Visualizer { width, height, scale_factor, colors, circles }
    }

    /// The palette of `len` colors: the magma color map sampled at `len`
    /// evenly spaced positions, each color packed.
    pub fn gradient(len: u16) -> (colors: Vec<u32>)
        ensures
            colors@ == packed(magma_bits(len as nat)),
            colors@.len() == len,
    {
        let samples = magma_samples(len);
        pack_colors(samples.as_slice())
    }

    /// Renders one frame, if there is anything to show. With no values
    /// (no spectrum has been published yet) nothing is touched and the
    /// frame is to be skipped. Otherwise `values` holds the smoothed value
    /// of every band as a binary32 bit pattern: the bands are painted at
    /// their levels into `scaled_buffer`, which is then downscaled into
    /// `window_buffer`.
    pub fn update_window_buffer(
        &self,
        values: Option<&[u32]>,
        window_buffer: &mut Vec<u32>,
        scaled_buffer: &mut Vec<u32>,
    ) -> (shown: Option<()>)
        requires
            self.wf(),
            values is Some ==> old(window_buffer).len() == self.width() * self.height(),
            values is Some ==> old(scaled_buffer).len() == self.circles().len(),
        ensures
            shown is Some <==> values is Some,
            values is None ==> final(window_buffer)@ == old(window_buffer)@,
            values is None ==> final(scaled_buffer)@ == old(scaled_buffer)@,
            values is Some ==> final(scaled_buffer)@ == painted(
                self.circles(),
                color_map(self.colors(), values->0@),
                old(scaled_buffer)@,
            ),
            values is Some ==> final(window_buffer)@ == downscaled(
                final(scaled_buffer)@,
                self.sampling(),
                old(window_buffer)@,
            ),
            values is Some ==> final(window_buffer).len() == self.width() * self.height(),
    {
        match values {
            None => None,
            Some(values) => {
                self.draw_circles(values, window_buffer, scaled_buffer);
                Some(())
            },
        }
    }

    /// Paints every band at its level into `scaled_buffer` and downscales
    /// the result into `window_buffer`. Band `i` has the value with the
    /// binary32 bit pattern `values[i]` and shows the palette entry at its
    /// level, `FF_BUFF` times the value, rounded; levels wrap around the
    /// palette. Pixels of a band without a value, and pixels outside every
    /// ring, keep their color, however many values are given.
    pub fn draw_circles(
        &self,
        values: &[u32],
        window_buffer: &mut Vec<u32>,
        scaled_buffer: &mut Vec<u32>,
    )
        requires
            self.wf(),
            old(window_buffer).len() >= self.width() * self.height(),
            old(scaled_buffer).len() >= self.circles().len(),
        ensures
            final(scaled_buffer)@ == painted(
                self.circles(),
                color_map(self.colors(), values@),
                old(scaled_buffer)@,
            ),
            final(window_buffer)@ == downscaled(
                final(scaled_buffer)@,
                self.sampling(),
                old(window_buffer)@,
            ),
    {
        let mut band_colors: Vec<u32> = Vec::with_capacity(values.len());
        let mut band: usize = 0;
        while band < values.len()
            invariant
                band <= values.len(),
                self.colors@.len() == FF_BUFF,
                band_colors@ == color_map(self.colors@, values@.take(band as int)),
            decreases values.len() - band,
        {
            let level = band_level(values[band]);
            band_colors.push(self.colors[level % self.colors.len()]);
            assert(band_colors@ =~= color_map(self.colors@, values@.take(band + 1)));
            band += 1;
        }
        assert(values@.take(values.len() as int) =~= values@);

        let mut i: usize = 0;
        while i < self.circles.len()
            invariant
                i <= self.circles.len(),
                self.circles.len() <= scaled_buffer.len(),
                scaled_buffer.len() == old(scaled_buffer).len(),
                forall|j: int|
                    0 <= j < i ==> #[trigger] scaled_buffer@[j] == painted(
                        self.circles@,
                        band_colors@,
                        old(scaled_buffer)@,
                    )[j],
                forall|j: int|
                    i <= j < scaled_buffer.len() ==> #[trigger] scaled_buffer@[j] == old(
                        scaled_buffer
                    )@[j],
            decreases self.circles.len() - i,
        {
            let zone = self.circles[i];
            if zone < FF_BUFF && zone < band_colors.len() {
                scaled_buffer.set(i, band_colors[zone]);
            }
            i += 1;
        }
        assert(scaled_buffer@ =~= painted(self.circles@, band_colors@, old(scaled_buffer)@));

        proof {
            assert(self.scale_factor >= 1) by (nonlinear_arith)
                requires
                    self.width * self.scale_factor > 0,
            ;
            assert(self.width * self.height <= (self.width * self.scale_factor) * (self.height
                * self.scale_factor)) by (nonlinear_arith)
                requires
                    self.scale_factor >= 1,
            ;
        }
        let sampling = Sampling {
            width: self.width,
            height: self.height,
            scale_factor: self.scale_factor,
            window: AA_SQRT,
            source_width: self.width * self.scale_factor,
        };
        Self::downscale(scaled_buffer.as_slice(), &sampling, window_buffer);
    }

    /// Averages a non-empty run of packed colors channel by channel, with
    /// integer division.
    pub fn average_colors(colors: &[u32]) -> (average: u32)
        requires
            colors.len() > 0,
        ensures
            average == average_color(colors@),
    {
        let mut sum_r: u128 = 0;
        let mut sum_g: u128 = 0;
        let mut sum_b: u128 = 0;
        let mut i: usize = 0;
        while i < colors.len()
            invariant
                i <= colors.len(),
                sum_r == channel_sum(colors@.take(i as int), 16),
                sum_g == channel_sum(colors@.take(i as int), 8),
                sum_b == channel_sum(colors@.take(i as int), 0),
            decreases colors.len() - i,
        {
            let color = colors[i];
            proof {
                let next = colors@.take(i + 1);
                assert(next.drop_last() =~= colors@.take(i as int));
                assert(next.last() == color);
                lemma_channel_sum_bound(next, 16);
                lemma_channel_sum_bound(next, 8);
                lemma_channel_sum_bound(next, 0);
            }
            sum_r += ((color >> 16) & 0xff) as u128;
            sum_g += ((color >> 8) & 0xff) as u128;
            sum_b += (color & 0xff) as u128;
            assert(color & 0xff == (color >> 0) & 0xff) by (bit_vector);
            i += 1;
        }
        let count = colors.len() as u128;
        proof {
            assert(colors@.take(colors.len() as int) =~= colors@);
            lemma_channel_sum_bound(colors@, 16);
            lemma_channel_sum_bound(colors@, 8);
            lemma_channel_sum_bound(colors@, 0);
            assert(sum_r / count <= 255 && sum_g / count <= 255 && sum_b / count <= 255)
                by (nonlinear_arith)
                requires
                    count > 0,
                    0 <= sum_r <= 255 * count,
                    0 <= sum_g <= 255 * count,
                    0 <= sum_b <= 255 * count,
            ;
        }
        let avg_r = (sum_r / count) as u32;
        let avg_g = (sum_g / count) as u32;
        let avg_b = (sum_b / count) as u32;
        (avg_r << 16) | (avg_g << 8) | avg_b
    }

    /// Downscales the supersampled `buffer` into the first
    /// `width * height` pixels of `window_buffer`: every output pixel
    /// becomes the average of its sampling window. A window cell whose
    /// source index lies beyond `buffer` is skipped and keeps the color it
    /// had for the output pixel before.
    pub fn downscale(buffer: &[u32], sampling: &Sampling, window_buffer: &mut Vec<u32>)
        requires
            sampling.window > 0,
            sampling.window * sampling.window <= usize::MAX,
            sampling.width * sampling.height <= old(window_buffer).len(),
        ensures
            final(window_buffer)@ == downscaled(buffer@, *sampling, old(window_buffer)@),
    {
        let cells = sampling.window * sampling.window;
        let total = sampling.width * sampling.height;
        assert(cells > 0) by (nonlinear_arith)
            requires
                cells == sampling.window * sampling.window,
                sampling.window > 0,
        ;
        let mut colors: Vec<u32> = vec![0u32; cells];
        let mut pixel: usize = 0;
        while pixel < total
            invariant
                pixel <= total,
                total == sampling.width * sampling.height,
                total <= window_buffer.len(),
                window_buffer.len() == old(window_buffer).len(),
                sampling.window > 0,
                cells == sampling.window * sampling.window,
                cells > 0,
                colors.len() == cells,
                forall|cell: int|
                    0 <= cell < cells ==> #[trigger] colors@[cell] == window_cell(
                        buffer@,
                        *sampling,
                        pixel - 1,
                        cell / sampling.window as int,
                        cell % sampling.window as int,
                    ),
                forall|p: int|
                    0 <= p < pixel ==> #[trigger] window_buffer@[p] == average_color(
                        window_at(buffer@, *sampling, p),
                    ),
                forall|p: int|
                    pixel <= p < window_buffer.len() ==> #[trigger] window_buffer@[p] == old(
                        window_buffer
                    )@[p],
            decreases total - pixel,
        {
            assert(sampling.width > 0) by (nonlinear_arith)
                requires
                    pixel < sampling.width * sampling.height,
            ;
            let mut cell: usize = 0;
            while cell < cells
                invariant
                    cell <= cells,
                    sampling.width > 0,
                    sampling.window > 0,
                    colors.len() == cells,
                    forall|k: int|
                        0 <= k < cell ==> #[trigger] colors@[k] == window_cell(
                            buffer@,
                            *sampling,
                            pixel as int,
                            k / sampling.window as int,
                            k % sampling.window as int,
                        ),
                    forall|k: int|
                        cell <= k < cells ==> #[trigger] colors@[k] == window_cell(
                            buffer@,
                            *sampling,
                            pixel - 1,
                            k / sampling.window as int,
                            k % sampling.window as int,
                        ),
                decreases cells - cell,
            {
                let dr = cell / sampling.window;
                let dc = cell % sampling.window;
                let ghost kept = colors@[cell as int];
                let len = buffer.len();
                match sample_index(sampling, pixel, dr, dc) {
                    Some(i) => {
                        if i < len {
                            colors.set(cell, buffer[i]);
                        }
                    },
                    None => {},
                }
                assert(colors@[cell as int] == window_cell(
                    buffer@,
                    *sampling,
                    pixel as int,
                    dr as int,
                    dc as int,
                )) by {
                    assert(kept == window_cell(
                        buffer@,
                        *sampling,
                        pixel - 1,
                        cell as int / sampling.window as int,
                        cell as int % sampling.window as int,
                    ));
                }
                cell += 1;
            }
            assert(colors@ =~= window_at(buffer@, *sampling, pixel as int));
            let average = Self::average_colors(colors.as_slice());
            window_buffer.set(pixel, average);
            pixel += 1;
        }
        assert(window_buffer@ =~= downscaled(buffer@, *sampling, old(window_buffer)@));
    }

    /// Builds the zone map of a `width` x `height` canvas: for every pixel,
    /// row by row, the band of the smallest ring around the center that
    /// holds it, or `FF_BUFF` for a pixel outside every ring. The
    /// outermost ring has the radius `max_radius(width, height)`, so the
    /// background is exactly what lies farther out than that.
    pub fn classify_circles(width: usize, height: usize) -> (zones: Vec<usize>)
        requires
            width * height <= usize::MAX,
            MARGIN <= (if width <= height { width } else { height }) / 2,
        ensures
            is_zone_map(zones@, width as int, height as int),
            forall|i: int|
                0 <= i < zones@.len() ==> (#[trigger] zones@[i] == FF_BUFF <==> dist_sq(
                    i % width as int,
                    i / width as int,
                    width as int,
                    height as int,
                ) > max_radius(width as int, height as int) * max_radius(
                    width as int,
                    height as int,
                )),
            forall|x: int, y: int|
                0 <= x < width && 0 <= y < height ==> (zones@[#[trigger] pixel_index(
                    x,
                    y,
                    width as int,
                )] == FF_BUFF <==> dist_sq(x, y, width as int, height as int) > max_radius(
                    width as int,
                    height as int,
                ) * max_radius(width as int, height as int)),
    {
        let shorter = if width <= height { width } else { height };
        let bounds = ring_bounds(shorter / 2 - MARGIN);
        let cx = width / 2;
        let cy = height / 2;
        let total = width * height;
        let mut zones: Vec<usize> = Vec::with_capacity(total);
        let mut i: usize = 0;
        while i < total
            invariant
                i <= total,
                total == width * height,
                cx == width / 2,
                cy == height / 2,
                are_ring_bounds(bounds@, max_radius(width as int, height as int)),
                zones.len() == i,
                forall|j: int|
                    0 <= j < i ==> is_zone(
                        #[trigger] zones@[j] as int,
                        dist_sq(j % width as int, j / width as int, width as int, height as int),
                        max_radius(width as int, height as int),
                    ),
            decreases total - i,
        {
            let dx: u128 = span(i % width, cx) as u128;
            let dy: u128 = span(i / width, cy) as u128;
            assert(i / width < height) by (nonlinear_arith)
                requires
                    0 <= i < width * height,
                    0 < width,
            ;
            assert(dx * dx + dy * dy <= u128::MAX) by (nonlinear_arith)
                requires
                    0 <= dx <= 0x7fff_ffff_ffff_ffff,
                    0 <= dy <= 0x7fff_ffff_ffff_ffff,
            ;
            let d: u128 = dx * dx + dy * dy;
            assert(d == dist_sq(
                (i % width) as int,
                (i / width) as int,
                width as int,
                height as int,
            )) by (nonlinear_arith)
                requires
                    d == dx * dx + dy * dy,
                    dx == (i % width) as int - cx || dx == cx - (i % width) as int,
                    dy == (i / width) as int - cy || dy == cy - (i / width) as int,
                    cx == width as int / 2,
                    cy == height as int / 2,
            ;
            let zone = zone_at(
                d,
                bounds.as_slice(),
                Ghost(max_radius(width as int, height as int)),
            );
            zones.push(zone);
            i += 1;
        }
        proof {
            assert forall|i: int| 0 <= i < zones@.len() implies (#[trigger] zones@[i] == FF_BUFF
                <==> dist_sq(i % width as int, i / width as int, width as int, height as int)
                > max_radius(width as int, height as int) * max_radius(
                width as int,
                height as int,
            )) by {
                lemma_zone_map_background(zones@, width as int, height as int, i);
            }
            assert forall|x: int, y: int|
                0 <= x < width && 0 <= y < height implies (zones@[#[trigger] pixel_index(
                x,
                y,
                width as int,
            )] == FF_BUFF <==> dist_sq(x, y, width as int, height as int) > max_radius(
                width as int,
                height as int,
            ) * max_radius(width as int, height as int)) by {
                lemma_zone_of_pixel(zones@, width as int, height as int, x, y);
            }
        }
        zones
    }

    /// Width of the presented canvas.
    #[verifier::when_used_as_spec(spec_width)]
    pub fn width(&self) -> (width: usize)
        ensures
            width == self.width(),
    {
        self.width
    }

    /// Height of the presented canvas.
    #[verifier::when_used_as_spec(spec_height)]
    pub fn height(&self) -> (height: usize)
        ensures
            height == self.height(),
    {
        self.height
    }

    /// Supersampling factor.
    #[verifier::when_used_as_spec(spec_scale_factor)]
    pub fn scale_factor(&self) -> (scale_factor: usize)
        ensures
            scale_factor == self.scale_factor(),
    {
        self.scale_factor
    }

    /// The palette, one packed color per level.
    pub fn palette(&self) -> (colors: &Vec<u32>)
        ensures
            colors@ == self.colors(),
    {
        &self.colors
    }

    /// The zone map of the supersampled canvas.
    pub fn zones(&self) -> (zones: &Vec<usize>)
        ensures
            zones@ == self.circles(),
    {
        &self.circles
    }

    /// Engines for the same dimensions hold the same zone map.
    pub proof fn lemma_engines_agree(&self, other: &Visualizer)
        requires
            self.wf(),
            other.wf(),
            self.width() == other.width(),
            self.height() == other.height(),
            self.scale_factor() == other.scale_factor(),
        ensures
            self.circles() == other.circles(),
    {
        lemma_zone_map_unique(
            self.circles(),
            other.circles(),
            self.width() * self.scale_factor(),
            self.height() * self.scale_factor(),
        );
    }
}

} // verus!
