//! The escape-time test, the colour of its result, and the rendering of a
//! window: every pixel, once, row by row.
//!
//! The arithmetic is borrowed from the caller as four kernels: `locate`
//! maps a pixel to a point of the plane, `interior` says whether a point lies
//! in a region known to belong to the set, `step` takes an orbit one step
//! further, and `waveform` gives the channel levels of a continuous index.

use vstd::prelude::*;
use crate::color::{Color, OPAQUE};
use crate::escape::{escape_radius, radius_of, EscapeResult, RENDER_ESCAPE_RADIUS};
use crate::frame::{frame_from_raw, pixel_samples, sample_count, sample_offset, Frame};
use crate::options::Options;
use crate::palette::Palette;
use crate::scalar::Scalar;
use crate::window::{ComplexPoint, Window};

verus! {

/// Whether an image of the given dimensions can be held in memory: the
/// sample count of one row fits in `usize`, and that of the whole image
/// in `isize`.
pub open spec fn renderable(width: u32, height: u32) -> bool {
    4 * width <= usize::MAX && sample_count(width, height) <= isize::MAX
}

/// Whether an image of the given dimensions can be held in memory.
pub fn is_renderable(width: u32, height: u32) -> (b: bool)
    ensures
        b == renderable(width, height),
{
    let row: u64 = 4 * (width as u64);
    assert(row * height == 4 * width * height && row * height <= 0x4_0000_0000_0000_0000)
        by (nonlinear_arith)
        requires
            row == 4 * width,
            0 <= width <= 0xFFFF_FFFF,
            0 <= height <= 0xFFFF_FFFF,
    ;
    let all: u128 = (row as u128) * (height as u128);
    row <= usize::MAX as u64 && all <= isize::MAX as u128
}

/// Whether the samples show pixel `(x, y)` in a colour that `allowed`
/// admits for it.
pub open spec fn pixel_allowed(
    samples: Seq<u8>,
    width: u32,
    allowed: spec_fn(u32, u32, Color) -> bool,
    x: u32,
    y: u32,
) -> bool {
    exists|c: Color| #[trigger] allowed(x, y, c) && pixel_samples(samples, width, x, y) == c.samples()
}

/// Whether the samples are an image of the given dimensions in which
/// every pixel has a colour that `allowed` admits for it.
pub open spec fn portrays(
    samples: Seq<u8>,
    width: u32,
    height: u32,
    allowed: spec_fn(u32, u32, Color) -> bool,
) -> bool {
    &&& samples.len() == sample_count(width, height)
    &&& forall|x: u32, y: u32|
        x < width && y < height ==> #[trigger] pixel_allowed(samples, width, allowed, x, y)
}

/// Whether `allowed` leaves no choice: it admits one colour only for each
/// pixel of the image.
pub open spec fn unambiguous(
    allowed: spec_fn(u32, u32, Color) -> bool,
    width: u32,
    height: u32,
) -> bool {
    forall|x: u32, y: u32, a: Color, b: Color|
        x < width && y < height && #[trigger] allowed(x, y, a) && #[trigger] allowed(x, y, b) ==> a
            == b
}

/// A pixel that comes earlier in raster order ends before the later one
/// starts.
pub proof fn lemma_offsets_ordered(width: u32, i: u32, j: u32, x: u32, y: u32)
    requires
        i < width,
        x <= width,
        j < y || (j == y && i < x),
    ensures
        0 <= sample_offset(width, i, j),
        sample_offset(width, i, j) + 4 <= sample_offset(width, x, y),
{
    assert(0 <= (j * width + i) * 4 && (j * width + i) * 4 + 4 <= (y * width + x) * 4)
        by (nonlinear_arith)
        requires
            0 <= i < width,
            0 <= x <= width,
            0 <= j,
            j < y || (j == y && i < x),
    ;
}

/// Where a sample of an image stands: in which pixel, and at which of its
/// four channels.
pub proof fn lemma_sample_place(width: u32, height: u32, k: int) -> (place: (u32, u32, int))
    requires
        0 <= k < sample_count(width, height),
    ensures
        place.0 < width,
        place.1 < height,
        0 <= place.2 < 4,
        k == sample_offset(width, place.0, place.1) + place.2,
        sample_offset(width, place.0, place.1) + 4 <= sample_count(width, height),
{
    let p = k / 4;
    assert(width > 0 && 0 <= p < width * height) by (nonlinear_arith)
        requires
            0 <= k < 4 * width * height,
            p == k / 4,
            0 <= width,
            0 <= height,
    ;
    let x = p % (width as int);
    let y = p / (width as int);
    assert(0 <= x < width && 0 <= y < height && y * width + x == p) by (nonlinear_arith)
        requires
            width > 0,
            0 <= p < width * height,
            x == p % (width as int),
            y == p / (width as int),
    ;
    assert((y * width + x) * 4 + 4 <= 4 * width * height) by (nonlinear_arith)
        requires
            y * width + x == p,
            p < width * height,
    ;
    (x as u32, y as u32, k % 4)
}

/// Rendering hides no chance of its own: where one colour only is
/// admitted for each pixel, any two images that portray it are the same,
/// sample for sample.
pub proof fn lemma_portrait_unique(
    width: u32,
    height: u32,
    allowed: spec_fn(u32, u32, Color) -> bool,
    first: Seq<u8>,
    second: Seq<u8>,
)
    requires
        unambiguous(allowed, width, height),
        portrays(first, width, height, allowed),
        portrays(second, width, height, allowed),
    ensures
        first == second,
{
    assert forall|k: int| 0 <= k < first.len() implies first[k] == second[k] by {
        let (x, y, j) = lemma_sample_place(width, height, k);
        assert(pixel_allowed(first, width, allowed, x, y));
        assert(pixel_allowed(second, width, allowed, x, y));
        let a = choose|c: Color| #[trigger]
            allowed(x, y, c) && pixel_samples(first, width, x, y) == c.samples();
        let b = choose|c: Color| #[trigger]
            allowed(x, y, c) && pixel_samples(second, width, x, y) == c.samples();
        assert(a == b);
        assert(first[k] == pixel_samples(first, width, x, y)[j]);
        assert(second[k] == pixel_samples(second, width, x, y)[j]);
    }
    assert(first =~= second);
}

/// Every pixel of a rendered image is opaque: its fourth sample is the
/// opaque alpha.
pub proof fn lemma_portrait_opaque(
    width: u32,
    height: u32,
    allowed: spec_fn(u32, u32, Color) -> bool,
    samples: Seq<u8>,
    x: u32,
    y: u32,
)
    requires
        portrays(samples, width, height, allowed),
        x < width,
        y < height,
    ensures
        0 <= sample_offset(width, x, y),
        sample_offset(width, x, y) + 4 <= samples.len(),
        samples[sample_offset(width, x, y) + 3] == OPAQUE,
{
    assert(0 <= (y * width + x) * 4 && (y * width + x) * 4 + 4 <= 4 * width * height)
        by (nonlinear_arith)
        requires
            0 <= x < width,
            0 <= y < height,
    ;
    assert(pixel_allowed(samples, width, allowed, x, y));
    let c = choose|c: Color| #[trigger]
        allowed(x, y, c) && pixel_samples(samples, width, x, y) == c.samples();
    assert(pixel_samples(samples, width, x, y)[3] == c.samples()[3]);
}

/// An image that portrays a relation portrays every relation that admits
/// at least the same colours for the pixels of the image.
pub proof fn lemma_portrait_widens(
    width: u32,
    height: u32,
    narrow: spec_fn(u32, u32, Color) -> bool,
    wide: spec_fn(u32, u32, Color) -> bool,
    samples: Seq<u8>,
)
    requires
        portrays(samples, width, height, narrow),
        forall|x: u32, y: u32, c: Color|
            x < width && y < height && #[trigger] narrow(x, y, c) ==> wide(x, y, c),
    ensures
        portrays(samples, width, height, wide),
{
    assert forall|x: u32, y: u32| x < width && y < height implies #[trigger] pixel_allowed(
        samples,
        width,
        wide,
        x,
        y,
    ) by {
        assert(pixel_allowed(samples, width, narrow, x, y));
        let c = choose|c: Color| #[trigger]
            narrow(x, y, c) && pixel_samples(samples, width, x, y) == c.samples();
        assert(wide(x, y, c));
    }
}

/// The colours that `shade` may give each pixel.
pub open spec fn shade_colours<F: Fn(u32, u32) -> Color>(shade: F) -> spec_fn(u32, u32, Color) -> bool {
    |x: u32, y: u32, c: Color| call_ensures(shade, (x, y), c)
}

/// Whether the pixels before `(x, y)` in raster order are shown, each in
/// a colour that `allowed` admits for it.
spec fn allowed_before(
    samples: Seq<u8>,
    width: u32,
    allowed: spec_fn(u32, u32, Color) -> bool,
    x: u32,
    y: u32,
) -> bool {
    forall|i: u32, j: u32|
        i < width && (j < y || (j == y && i < x)) ==> #[trigger] pixel_allowed(
            samples,
            width,
            allowed,
            i,
            j,
        )
}

/// The image of the given dimensions in which pixel `(x, y)` has the
/// colour `shade(x, y)`, opaque. `shade` is called once for every pixel,
/// row by row from the top and from left to right within a row.
pub fn rasterize<F: Fn(u32, u32) -> Color>(width: u32, height: u32, shade: &F) -> (frame: Frame)
    requires
        renderable(width, height),
        forall|x: u32, y: u32| x < width && y < height ==> #[trigger] call_requires(*shade, (x, y)),
    ensures
        frame.spec_width() == width,
        frame.spec_height() == height,
        portrays(frame.samples(), width, height, shade_colours(*shade)),
{
    let ghost allowed = shade_colours(*shade);
    let mut samples: Vec<u8> = Vec::new();
    let mut y: u32 = 0;
    while y < height
        invariant
            y <= height,
            allowed == shade_colours(*shade),
            samples@.len() == sample_offset(width, 0, y),
            allowed_before(samples@, width, allowed, 0, y),
            forall|x: u32, y: u32|
                x < width && y < height ==> #[trigger] call_requires(*shade, (x, y)),
        decreases height - y,
    {
        let mut x: u32 = 0;
        while x < width
            invariant
                x <= width,
                y < height,
                allowed == shade_colours(*shade),
                samples@.len() == sample_offset(width, x, y),
                allowed_before(samples@, width, allowed, x, y),
                forall|x: u32, y: u32|
                    x < width && y < height ==> #[trigger] call_requires(*shade, (x, y)),
            decreases width - x,
        {
            let ghost before = samples@;
            let c: Color = shade(x, y);
            samples.push(c.r);
            samples.push(c.g);
            samples.push(c.b);
            samples.push(OPAQUE);
            proof {
                assert(allowed(x, y, c));
                assert(pixel_samples(samples@, width, x, y) =~= c.samples());
                assert(pixel_allowed(samples@, width, allowed, x, y));
                assert forall|i: u32, j: u32|
                    i < width && (j < y || (j == y && i < x + 1)) implies #[trigger] pixel_allowed(
                    samples@,
                    width,
                    allowed,
                    i,
                    j,
                ) by {
                    if !(i == x && j == y) {
                        lemma_offsets_ordered(width, i, j, x, y);
                        assert(pixel_allowed(before, width, allowed, i, j));
                        assert(pixel_samples(samples@, width, i, j) =~= pixel_samples(
                            before,
                            width,
                            i,
                            j,
                        ));
                    }
                }
                assert(sample_offset(width, (x + 1) as u32, y) == sample_offset(width, x, y) + 4)
                    by (nonlinear_arith)
                    requires
                        x + 1 <= u32::MAX,
                ;
            }
            x = x + 1;
        }
        proof {
            assert(sample_offset(width, 0, (y + 1) as u32) == sample_offset(width, width, y))
                by (nonlinear_arith)
                requires
                    y + 1 <= u32::MAX,
            ;
            assert forall|i: u32, j: u32|
                i < width && (j < y + 1 || (j == y + 1 && i < 0)) implies #[trigger] pixel_allowed(
                samples@,
                width,
                allowed,
                i,
                j,
            ) by {
                assert(j < y || (j == y && i < width));
            }
        }
        y = y + 1;
    }
    proof {
        assert(sample_offset(width, 0, height) == sample_count(width, height)) by (nonlinear_arith);
        assert forall|i: u32, j: u32| i < width && j < height implies #[trigger] pixel_allowed(
            samples@,
            width,
            allowed,
            i,
            j,
        ) by {
            assert(j < y || (j == y && i < 0));
        }
    }
    let made: Option<Frame> = frame_from_raw(width, height, samples);
    made.unwrap()
}

/// What one step of an orbit comes to.
#[derive(Clone, Copy, Debug, PartialEq, Eq, Structural)]
pub enum Advance {
    /// The orbit is still inside the escape radius, at this point.
    Inside(ComplexPoint),
    /// The orbit has left the escape radius. `smooth` is the normalized
    /// iteration count of the step, `plain` the count of the step itself.
    Outside { smooth: Scalar, plain: Scalar },
}

/// Where every orbit starts: zero.
pub open spec fn orbit_start() -> ComplexPoint {
    ComplexPoint { re: Scalar { bits: 0 }, im: Scalar { bits: 0 } }
}

/// Whether step `k` of the orbit of `point` stays inside the radius:
/// `step` may make the point after `k` of the point at `k`.
pub open spec fn step_inside<S: Fn(ComplexPoint, u32, usize, ComplexPoint) -> Advance>(
    step: S,
    point: ComplexPoint,
    radius: u32,
    orbit: Seq<ComplexPoint>,
    k: int,
) -> bool {
    call_ensures(step, (point, radius, k as usize, orbit[k]), Advance::Inside(orbit[k + 1]))
}

/// Whether the orbit of `point` leaves the radius at the step after its
/// last point, with the two counts given: `step` may say so of the last
/// point.
pub open spec fn step_outside<S: Fn(ComplexPoint, u32, usize, ComplexPoint) -> Advance>(
    step: S,
    point: ComplexPoint,
    radius: u32,
    orbit: Seq<ComplexPoint>,
    smooth: Scalar,
    plain: Scalar,
) -> bool {
    call_ensures(
        step,
        (point, radius, (orbit.len() - 1) as usize, orbit.last()),
        Advance::Outside { smooth, plain },
    )
}

/// Whether `orbit` is a run of `step` from zero that stays inside the
/// radius: each point but the first is what `step` may make of the one
/// before.
pub open spec fn stays_inside<S: Fn(ComplexPoint, u32, usize, ComplexPoint) -> Advance>(
    step: S,
    point: ComplexPoint,
    radius: u32,
    orbit: Seq<ComplexPoint>,
) -> bool {
    &&& orbit.len() > 0
    &&& orbit[0] == orbit_start()
    &&& forall|k: int|
        0 <= k < orbit.len() - 1 ==> #[trigger] step_inside(step, point, radius, orbit, k)
}

/// Whether `result` is what the escape-time test may say of `orbit` with
/// a budget of `iterations` steps: the orbit stays inside for the whole
/// budget and the result is `Bounded`, or it stays inside for fewer steps,
/// leaves at the next, and the result is `Escaped` with the index kept for
/// that step.
pub open spec fn orbit_outcome<S: Fn(ComplexPoint, u32, usize, ComplexPoint) -> Advance>(
    step: S,
    point: ComplexPoint,
    radius: u32,
    iterations: usize,
    orbit: Seq<ComplexPoint>,
    result: EscapeResult,
) -> bool {
    &&& stays_inside(step, point, radius, orbit)
    &&& {
        ||| orbit.len() == iterations + 1 && result == EscapeResult::Bounded
        ||| orbit.len() <= iterations && exists|smooth: Scalar, plain: Scalar| #[trigger]
            step_outside(step, point, radius, orbit, smooth, plain) && result
                == EscapeResult::Escaped(EscapeResult::guarded_index(smooth, plain))
    }
}

/// Whether `result` is what iterating may say of `point` with a budget
/// of `iterations` steps: the outcome of some orbit.
pub open spec fn escape_outcome<S: Fn(ComplexPoint, u32, usize, ComplexPoint) -> Advance>(
    step: S,
    point: ComplexPoint,
    radius: u32,
    iterations: usize,
    result: EscapeResult,
) -> bool {
    exists|orbit: Seq<ComplexPoint>| #[trigger]
        orbit_outcome(step, point, radius, iterations, orbit, result)
}

/// Whether `result` is what the escape-time test may say of `point`: an
/// interior point is `Bounded`, and any other has the outcome of iterating.
pub open spec fn escape_result<S: Fn(ComplexPoint, u32, usize, ComplexPoint) -> Advance>(
    step: S,
    point: ComplexPoint,
    radius: u32,
    iterations: usize,
    interior: bool,
    result: EscapeResult,
) -> bool {
    if interior {
        result == EscapeResult::Bounded
    } else {
        escape_outcome(step, point, radius, iterations, result)
    }
}

/// Whether `step` leaves no choice: of a point, a radius, a count and a
/// point reached it can say one thing only.
pub open spec fn step_single_valued<S: Fn(ComplexPoint, u32, usize, ComplexPoint) -> Advance>(
    step: S,
) -> bool {
    forall|point: ComplexPoint, radius: u32, i: usize, z: ComplexPoint, a: Advance, b: Advance|
        #[trigger] call_ensures(step, (point, radius, i, z), a) && #[trigger] call_ensures(
            step,
            (point, radius, i, z),
            b,
        ) ==> a == b
}

/// Under a `step` that leaves no choice, two orbits of one point that
/// stay inside pass through the same points as far as both reach.
pub proof fn lemma_orbits_agree<S: Fn(ComplexPoint, u32, usize, ComplexPoint) -> Advance>(
    step: S,
    point: ComplexPoint,
    radius: u32,
    first: Seq<ComplexPoint>,
    second: Seq<ComplexPoint>,
    k: int,
)
    requires
        step_single_valued(step),
        stays_inside(step, point, radius, first),
        stays_inside(step, point, radius, second),
        0 <= k < first.len(),
        k < second.len(),
    ensures
        first[k] == second[k],
    decreases k,
{
    if k > 0 {
        lemma_orbits_agree(step, point, radius, first, second, k - 1);
        assert(step_inside(step, point, radius, first, k - 1));
        assert(step_inside(step, point, radius, second, k - 1));
    }
}

/// Under a `step` that leaves no choice, an orbit that leaves after its
/// last point is no shorter than any orbit that stays inside.
pub proof fn lemma_no_orbit_outlasts_escape<S: Fn(ComplexPoint, u32, usize, ComplexPoint) -> Advance>(
    step: S,
    point: ComplexPoint,
    radius: u32,
    leaving: Seq<ComplexPoint>,
    smooth: Scalar,
    plain: Scalar,
    staying: Seq<ComplexPoint>,
)
    requires
        step_single_valued(step),
        stays_inside(step, point, radius, leaving),
        step_outside(step, point, radius, leaving, smooth, plain),
        stays_inside(step, point, radius, staying),
    ensures
        staying.len() <= leaving.len(),
{
    if staying.len() > leaving.len() {
        let k = leaving.len() - 1;
        lemma_orbits_agree(step, point, radius, leaving, staying, k);
        assert(step_inside(step, point, radius, staying, k));
    }
}

/// Iterating hides no chance of its own: under a `step` that leaves no
/// choice, a point and a budget admit one outcome only.
pub proof fn lemma_escape_deterministic<S: Fn(ComplexPoint, u32, usize, ComplexPoint) -> Advance>(
    step: S,
    point: ComplexPoint,
    radius: u32,
    iterations: usize,
    first: EscapeResult,
    second: EscapeResult,
)
    requires
        step_single_valued(step),
        escape_outcome(step, point, radius, iterations, first),
        escape_outcome(step, point, radius, iterations, second),
    ensures
        first == second,
{
    let a = choose|orbit: Seq<ComplexPoint>| #[trigger]
        orbit_outcome(step, point, radius, iterations, orbit, first);
    let b = choose|orbit: Seq<ComplexPoint>| #[trigger]
        orbit_outcome(step, point, radius, iterations, orbit, second);
    if first != EscapeResult::Bounded || a.len() <= iterations {
        let (smooth, plain) = choose|smooth: Scalar, plain: Scalar| #[trigger]
            step_outside(step, point, radius, a, smooth, plain) && first == EscapeResult::Escaped(
                EscapeResult::guarded_index(smooth, plain),
            );
        lemma_no_orbit_outlasts_escape(step, point, radius, a, smooth, plain, b);
        if second != EscapeResult::Bounded || b.len() <= iterations {
            let (smooth2, plain2) = choose|smooth: Scalar, plain: Scalar| #[trigger]
                step_outside(step, point, radius, b, smooth, plain) && second
                    == EscapeResult::Escaped(EscapeResult::guarded_index(smooth, plain));
            lemma_no_orbit_outlasts_escape(step, point, radius, b, smooth2, plain2, a);
            lemma_orbits_agree(step, point, radius, a, b, a.len() - 1);
        }
    } else if second != EscapeResult::Bounded || b.len() <= iterations {
        let (smooth2, plain2) = choose|smooth: Scalar, plain: Scalar| #[trigger]
            step_outside(step, point, radius, b, smooth, plain) && second == EscapeResult::Escaped(
                EscapeResult::guarded_index(smooth, plain),
            );
        lemma_no_orbit_outlasts_escape(step, point, radius, b, smooth2, plain2, a);
    }
}

/// An empty budget gives `Bounded`, whatever `step` would say.
pub proof fn lemma_empty_budget_is_bounded<S: Fn(ComplexPoint, u32, usize, ComplexPoint) -> Advance>(
    step: S,
    point: ComplexPoint,
    radius: u32,
    result: EscapeResult,
)
    requires
        escape_outcome(step, point, radius, 0, result),
    ensures
        result == EscapeResult::Bounded,
{
}

/// The escape-time test of one point. `interior` says whether the point
/// lies in a region known to belong to the set; such a point is `Bounded`
/// and `step` is not called for it. Otherwise the orbit starts at zero and
/// `step` is called on the point, the escape radius (the one named, or the
/// default), the count of the step and the point reached, at most
/// `iterations` times: the first step that leaves the radius gives
/// `Escaped`, and an orbit that outlasts the budget gives `Bounded`.
pub fn escape_number<S: Fn(ComplexPoint, u32, usize, ComplexPoint) -> Advance>(
    complex_point: ComplexPoint,
    escape_point: Option<u32>,
    iterations: usize,
    interior: bool,
    step: &S,
) -> (result: EscapeResult)
    requires
        forall|i: usize, z: ComplexPoint|
            i < iterations ==> #[trigger] call_requires(
                *step,
                (complex_point, radius_of(escape_point), i, z),
            ),
    ensures
        escape_result(
            *step,
            complex_point,
            radius_of(escape_point),
            iterations,
            interior,
            result,
        ),
        result.well_formed(),
{
    if interior {
        return EscapeResult::Bounded;
    }
    let radius: u32 = escape_radius(escape_point);
    let mut z: ComplexPoint = ComplexPoint { re: Scalar { bits: 0 }, im: Scalar { bits: 0 } };
    let ghost mut orbit: Seq<ComplexPoint> = seq![z];
    let mut i: usize = 0;
    while i < iterations
        invariant
            !interior,
            radius == radius_of(escape_point),
            i <= iterations,
            orbit.len() == i + 1,
            orbit.last() == z,
            stays_inside(*step, complex_point, radius, orbit),
            forall|i: usize, z: ComplexPoint|
                i < iterations ==> #[trigger] call_requires(*step, (complex_point, radius, i, z)),
        decreases iterations - i,
    {
        match step(complex_point, radius, i, z) {
            Advance::Outside { smooth, plain } => {
                let result: EscapeResult = EscapeResult::escaped(smooth, plain);
                assert(step_outside(*step, complex_point, radius, orbit, smooth, plain));
                assert(orbit_outcome(*step, complex_point, radius, iterations, orbit, result));
                return result;
            },
            Advance::Inside(next) => {
                proof {
                    let longer = orbit.push(next);
                    assert forall|k: int| 0 <= k < longer.len() - 1 implies #[trigger] step_inside(
                        *step,
                        complex_point,
                        radius,
                        longer,
                        k,
                    ) by {
                        if k < orbit.len() - 1 {
                            assert(step_inside(*step, complex_point, radius, orbit, k));
                        }
                    }
                    orbit = longer;
                }
                z = next;
            },
        }
        i = i + 1;
    }
    assert(orbit_outcome(
        *step,
        complex_point,
        radius,
        iterations,
        orbit,
        EscapeResult::Bounded,
    ));
    EscapeResult::Bounded
}

/// The colour of a result under the waveform policy: black for a bounded
/// point; for an escaped one the colour of the three channel levels that
/// `waveform` gives its continuous index, each rounded to a channel.
pub open spec fn waveform_colour<W: Fn(Scalar) -> (Scalar, Scalar, Scalar)>(
    waveform: W,
    result: EscapeResult,
    c: Color,
) -> bool {
    match result {
        EscapeResult::Bounded => c == (Color { r: 0, g: 0, b: 0 }),
        EscapeResult::Escaped(index) => exists|levels: (Scalar, Scalar, Scalar)| #[trigger]
            call_ensures(waveform, (index,), levels) && c == Color::of_levels(
                levels.0,
                levels.1,
                levels.2,
            ),
    }
}

/// Whether `waveform` leaves no choice: it can give an index one triple of
/// levels only.
pub open spec fn waveform_single_valued<W: Fn(Scalar) -> (Scalar, Scalar, Scalar)>(
    waveform: W,
) -> bool {
    forall|index: Scalar, a: (Scalar, Scalar, Scalar), b: (Scalar, Scalar, Scalar)|
        #[trigger] call_ensures(waveform, (index,), a) && #[trigger] call_ensures(
            waveform,
            (index,),
            b,
        ) ==> a == b
}

/// The colour of a result under the waveform policy. `waveform` gives the
/// red, green and blue levels of a continuous index; it is called for an
/// escaped point only, and each level is rounded to the nearest channel
/// value from 0 to 255.
pub fn choose_color<W: Fn(Scalar) -> (Scalar, Scalar, Scalar)>(
    escape_number: &EscapeResult,
    waveform: &W,
) -> (c: Color)
    requires
        forall|index: Scalar| #[trigger] call_requires(*waveform, (index,)),
    ensures
        waveform_colour(*waveform, *escape_number, c),
{
    match escape_number {
        EscapeResult::Escaped(i) => {
            let levels: (Scalar, Scalar, Scalar) = waveform(*i);
            Color::from_levels(levels.0, levels.1, levels.2)
        },
        EscapeResult::Bounded => Color::black(),
    }
}

/// The results that `evaluate` may give each pixel.
pub open spec fn evaluate_results<E: Fn(u32, u32) -> EscapeResult>(evaluate: E) -> spec_fn(
    u32,
    u32,
    EscapeResult,
) -> bool {
    |x: u32, y: u32, result: EscapeResult| call_ensures(evaluate, (x, y), result)
}

/// Whether pixel `(x, y)` of the window of `options` may come to `result`
/// at `point`: `locate` may map the pixel to the point, `interior` may say
/// `inside` of it, and the result is that of the escape-time test with the
/// rendering radius and the budget of `options`.
pub open spec fn pixel_evaluated<
    L: Fn(Window, u32, u32) -> ComplexPoint,
    I: Fn(ComplexPoint) -> bool,
    S: Fn(ComplexPoint, u32, usize, ComplexPoint) -> Advance,
>(
    options: Options,
    locate: L,
    interior: I,
    step: S,
    x: u32,
    y: u32,
    point: ComplexPoint,
    inside: bool,
    result: EscapeResult,
) -> bool {
    &&& call_ensures(locate, (options.window, x, y), point)
    &&& call_ensures(interior, (point,), inside)
    &&& escape_result(step, point, RENDER_ESCAPE_RADIUS, options.iterations, inside, result)
}

/// The results that the pipeline may give each pixel of the window of
/// `options`: the escape-time test, with the rendering radius and the
/// budget of `options`, of the point that `locate` maps the pixel to.
pub open spec fn pipeline_results<
    L: Fn(Window, u32, u32) -> ComplexPoint,
    I: Fn(ComplexPoint) -> bool,
    S: Fn(ComplexPoint, u32, usize, ComplexPoint) -> Advance,
>(options: Options, locate: L, interior: I, step: S) -> spec_fn(u32, u32, EscapeResult) -> bool {
    |x: u32, y: u32, result: EscapeResult|
        exists|point: ComplexPoint, inside: bool| #[trigger]
            pixel_evaluated(options, locate, interior, step, x, y, point, inside, result)
}

/// The colours of the waveform policy: those that `waveform` gives a
/// result that `results` admits for the pixel.
pub open spec fn waveform_colours<W: Fn(Scalar) -> (Scalar, Scalar, Scalar)>(
    results: spec_fn(u32, u32, EscapeResult) -> bool,
    waveform: W,
) -> spec_fn(u32, u32, Color) -> bool {
    |x: u32, y: u32, c: Color|
        exists|result: EscapeResult| #[trigger]
            results(x, y, result) && waveform_colour(waveform, result, c)
}

/// The colours of the palette policy: those that `palette` gives a result
/// that `results` admits for the pixel.
pub open spec fn palette_colours(
    results: spec_fn(u32, u32, EscapeResult) -> bool,
    palette: Palette,
) -> spec_fn(u32, u32, Color) -> bool {
    |x: u32, y: u32, c: Color|
        exists|result: EscapeResult| #[trigger]
            results(x, y, result) && c == palette.color_of(result)
}

/// Whether `results` leaves no choice: it admits one result only for each
/// pixel of the image.
pub open spec fn results_unambiguous(
    results: spec_fn(u32, u32, EscapeResult) -> bool,
    width: u32,
    height: u32,
) -> bool {
    forall|x: u32, y: u32, a: EscapeResult, b: EscapeResult|
        x < width && y < height && #[trigger] results(x, y, a) && #[trigger] results(x, y, b) ==> a
            == b
}

/// Whether `evaluate` may give pixel `(x, y)` the result.
spec fn gives<E: Fn(u32, u32) -> EscapeResult>(
    evaluate: &E,
    x: u32,
    y: u32,
    result: EscapeResult,
) -> bool {
    evaluate_results(*evaluate)(x, y, result)
}

/// Whether `evaluate` may be called on pixel `(x, y)`.
spec fn accepts<E: Fn(u32, u32) -> EscapeResult>(evaluate: &E, x: u32, y: u32) -> bool {
    call_requires(*evaluate, (x, y))
}

/// Whether the waveform policy may give pixel `(x, y)` the colour.
spec fn waveform_gives<E: Fn(u32, u32) -> EscapeResult, W: Fn(Scalar) -> (Scalar, Scalar, Scalar)>(
    evaluate: &E,
    waveform: &W,
    x: u32,
    y: u32,
    c: Color,
) -> bool {
    waveform_colours(evaluate_results(*evaluate), *waveform)(x, y, c)
}

/// Whether `waveform` may be called on every index.
spec fn waveform_total<W: Fn(Scalar) -> (Scalar, Scalar, Scalar)>(waveform: &W) -> bool {
    forall|index: Scalar| #[trigger] call_requires(*waveform, (index,))
}

/// The image of the window of `options` under the waveform policy: pixel
/// `(x, y)` has the colour that `choose_color` gives the result
/// `evaluate(x, y)`. `evaluate` is called once for every pixel.
pub fn generate_waveform_image<
    E: Fn(u32, u32) -> EscapeResult,
    W: Fn(Scalar) -> (Scalar, Scalar, Scalar),
>(options: &Options, evaluate: &E, waveform: &W) -> (frame: Frame)
    requires
        renderable(options.window.p_width, options.window.p_height),
        forall|x: u32, y: u32|
            options.window.holds(x, y) ==> #[trigger] call_requires(*evaluate, (x, y)),
        forall|index: Scalar| #[trigger] call_requires(*waveform, (index,)),
    ensures
        frame.spec_width() == options.window.p_width,
        frame.spec_height() == options.window.p_height,
        portrays(
            frame.samples(),
            options.window.p_width,
            options.window.p_height,
            waveform_colours(evaluate_results(*evaluate), *waveform),
        ),
{
    let width: u32 = options.window.p_width;
    let height: u32 = options.window.p_height;
    assert(waveform_total(waveform));
    let shade = |x: u32, y: u32| -> (c: Color)
        requires
            accepts(evaluate, x, y),
            waveform_total(waveform),
        ensures
            waveform_gives(evaluate, waveform, x, y, c),
        {
            let result: EscapeResult = evaluate(x, y);
            let c: Color = choose_color(&result, waveform);
            assert(gives(evaluate, x, y, result));
            c
        };
    let frame: Frame = rasterize(width, height, &shade);
    proof {
        lemma_portrait_widens(
            width,
            height,
            shade_colours(shade),
            waveform_colours(evaluate_results(*evaluate), *waveform),
            frame.samples(),
        );
    }
    frame
}

/// Whether the palette policy may give pixel `(x, y)` the colour.
spec fn palette_gives<E: Fn(u32, u32) -> EscapeResult>(
    evaluate: &E,
    palette: &Palette,
    x: u32,
    y: u32,
    c: Color,
) -> bool {
    palette_colours(evaluate_results(*evaluate), *palette)(x, y, c)
}

/// The image of the window of `options` under the palette policy: pixel
/// `(x, y)` has the colour that `palette` gives the result
/// `evaluate(x, y)`. `evaluate` is called once for every pixel.
pub fn generate_palette_image<E: Fn(u32, u32) -> EscapeResult>(
    options: &Options,
    evaluate: &E,
    palette: &Palette,
) -> (frame: Frame)
    requires
        renderable(options.window.p_width, options.window.p_height),
        forall|x: u32, y: u32|
            options.window.holds(x, y) ==> #[trigger] call_requires(*evaluate, (x, y)),
    ensures
        frame.spec_width() == options.window.p_width,
        frame.spec_height() == options.window.p_height,
        portrays(
            frame.samples(),
            options.window.p_width,
            options.window.p_height,
            palette_colours(evaluate_results(*evaluate), *palette),
        ),
{
    let width: u32 = options.window.p_width;
    let height: u32 = options.window.p_height;
    let shade = |x: u32, y: u32| -> (c: Color)
        requires
            accepts(evaluate, x, y),
        ensures
            palette_gives(evaluate, palette, x, y, c),
        {
            let result: EscapeResult = evaluate(x, y);
            assert(gives(evaluate, x, y, result));
            palette.color_for(&result)
        };
    let frame: Frame = rasterize(width, height, &shade);
    proof {
        lemma_portrait_widens(
            width,
            height,
            shade_colours(shade),
            palette_colours(evaluate_results(*evaluate), *palette),
            frame.samples(),
        );
    }
    frame
}

/// Whether the kernels may be called as the pipeline calls them on the
/// window and the budget of `options`.
pub open spec fn kernels_accept<
    L: Fn(Window, u32, u32) -> ComplexPoint,
    I: Fn(ComplexPoint) -> bool,
    S: Fn(ComplexPoint, u32, usize, ComplexPoint) -> Advance,
>(options: Options, locate: L, interior: I, step: S) -> bool {
    &&& forall|x: u32, y: u32|
        options.window.holds(x, y) ==> #[trigger] call_requires(locate, (options.window, x, y))
    &&& forall|point: ComplexPoint| #[trigger] call_requires(interior, (point,))
    &&& forall|point: ComplexPoint, i: usize, z: ComplexPoint|
        i < options.iterations ==> #[trigger] call_requires(
            step,
            (point, RENDER_ESCAPE_RADIUS, i, z),
        )
}

/// `kernels_accept`, of borrowed kernels.
spec fn pipeline_accepts<
    L: Fn(Window, u32, u32) -> ComplexPoint,
    I: Fn(ComplexPoint) -> bool,
    S: Fn(ComplexPoint, u32, usize, ComplexPoint) -> Advance,
>(options: &Options, locate: &L, interior: &I, step: &S) -> bool {
    kernels_accept(*options, *locate, *interior, *step)
}

/// `pixel_evaluated`, of borrowed kernels.
spec fn pixel_given<
    L: Fn(Window, u32, u32) -> ComplexPoint,
    I: Fn(ComplexPoint) -> bool,
    S: Fn(ComplexPoint, u32, usize, ComplexPoint) -> Advance,
>(
    options: &Options,
    locate: &L,
    interior: &I,
    step: &S,
    x: u32,
    y: u32,
    point: ComplexPoint,
    inside: bool,
    result: EscapeResult,
) -> bool {
    pixel_evaluated(*options, *locate, *interior, *step, x, y, point, inside, result)
}

/// `pipeline_results`, of borrowed kernels.
spec fn pipeline_gives<
    L: Fn(Window, u32, u32) -> ComplexPoint,
    I: Fn(ComplexPoint) -> bool,
    S: Fn(ComplexPoint, u32, usize, ComplexPoint) -> Advance,
>(
    options: &Options,
    locate: &L,
    interior: &I,
    step: &S,
    x: u32,
    y: u32,
    result: EscapeResult,
) -> bool {
    pipeline_results(*options, *locate, *interior, *step)(x, y, result)
}

/// The image of the window of `options`: pixel `(x, y)` is mapped to a
/// point of the plane by `locate`, the point is put to the escape-time test
/// with the rendering radius and the budget of `options`, and the result is
/// coloured by the waveform policy. Each pixel is computed from its own
/// coordinates alone.
pub fn generate_image<
    L: Fn(Window, u32, u32) -> ComplexPoint,
    I: Fn(ComplexPoint) -> bool,
    S: Fn(ComplexPoint, u32, usize, ComplexPoint) -> Advance,
    W: Fn(Scalar) -> (Scalar, Scalar, Scalar),
>(options: &Options, locate: &L, interior: &I, step: &S, waveform: &W) -> (frame: Frame)
    requires
        options.valid(),
        renderable(options.window.p_width, options.window.p_height),
        kernels_accept(*options, *locate, *interior, *step),
        forall|index: Scalar| #[trigger] call_requires(*waveform, (index,)),
    ensures
        frame.spec_width() == options.window.p_width,
        frame.spec_height() == options.window.p_height,
        portrays(
            frame.samples(),
            options.window.p_width,
            options.window.p_height,
            waveform_colours(pipeline_results(*options, *locate, *interior, *step), *waveform),
        ),
{
    let width: u32 = options.window.p_width;
    let height: u32 = options.window.p_height;
    assert(pipeline_accepts(options, locate, interior, step));
    let evaluate = |x: u32, y: u32| -> (result: EscapeResult)
        requires
            options.window.holds(x, y),
            pipeline_accepts(options, locate, interior, step),
        ensures
            pipeline_gives(options, locate, interior, step, x, y, result),
        {
            let point: ComplexPoint = locate(options.window, x, y);
            let inside: bool = interior(point);
            let result: EscapeResult = escape_number(
                point,
                Some(RENDER_ESCAPE_RADIUS),
                options.iterations,
                inside,
                step,
            );
            assert(pixel_given(options, locate, interior, step, x, y, point, inside, result));
            result
        };
    let frame: Frame = generate_waveform_image(options, &evaluate, waveform);
    proof {
        let narrow = waveform_colours(evaluate_results(evaluate), *waveform);
        let wide = waveform_colours(
            pipeline_results(*options, *locate, *interior, *step),
            *waveform,
        );
        assert forall|x: u32, y: u32, c: Color|
            x < width && y < height && #[trigger] narrow(x, y, c) implies wide(x, y, c) by {
            let result = choose|result: EscapeResult| #[trigger]
                evaluate_results(evaluate)(x, y, result) && waveform_colour(*waveform, result, c);
            assert(pipeline_results(*options, *locate, *interior, *step)(x, y, result));
        }
        lemma_portrait_widens(width, height, narrow, wide, frame.samples());
    }
    frame
}

/// Whether `locate` leaves no choice: it can map a pixel of a window to
/// one point only.
pub open spec fn locate_single_valued<L: Fn(Window, u32, u32) -> ComplexPoint>(locate: L) -> bool {
    forall|window: Window, x: u32, y: u32, a: ComplexPoint, b: ComplexPoint|
        #[trigger] call_ensures(locate, (window, x, y), a) && #[trigger] call_ensures(
            locate,
            (window, x, y),
            b,
        ) ==> a == b
}

/// Whether `interior` leaves no choice: it can say one thing only of a
/// point.
pub open spec fn interior_single_valued<I: Fn(ComplexPoint) -> bool>(interior: I) -> bool {
    forall|point: ComplexPoint, a: bool, b: bool|
        #[trigger] call_ensures(interior, (point,), a) && #[trigger] call_ensures(
            interior,
            (point,),
            b,
        ) ==> a == b
}

/// Kernels that leave no choice give every pixel one result only.
pub proof fn lemma_pipeline_unambiguous<
    L: Fn(Window, u32, u32) -> ComplexPoint,
    I: Fn(ComplexPoint) -> bool,
    S: Fn(ComplexPoint, u32, usize, ComplexPoint) -> Advance,
>(options: Options, locate: L, interior: I, step: S, width: u32, height: u32)
    requires
        locate_single_valued(locate),
        interior_single_valued(interior),
        step_single_valued(step),
    ensures
        results_unambiguous(pipeline_results(options, locate, interior, step), width, height),
{
    let results = pipeline_results(options, locate, interior, step);
    assert forall|x: u32, y: u32, a: EscapeResult, b: EscapeResult|
        x < width && y < height && #[trigger] results(x, y, a) && #[trigger] results(
            x,
            y,
            b,
        ) implies a == b by {
        let (point, inside) = choose|point: ComplexPoint, inside: bool| #[trigger]
            pixel_evaluated(options, locate, interior, step, x, y, point, inside, a);
        let (point2, inside2) = choose|point: ComplexPoint, inside: bool| #[trigger]
            pixel_evaluated(options, locate, interior, step, x, y, point, inside, b);
        assert(point == point2);
        assert(inside == inside2);
        if !inside {
            lemma_escape_deterministic(
                step,
                point,
                RENDER_ESCAPE_RADIUS,
                options.iterations,
                a,
                b,
            );
        }
    }
}

/// Under a waveform that leaves no choice, pixels with one result each
/// have one colour each.
pub proof fn lemma_waveform_unambiguous<W: Fn(Scalar) -> (Scalar, Scalar, Scalar)>(
    results: spec_fn(u32, u32, EscapeResult) -> bool,
    waveform: W,
    width: u32,
    height: u32,
)
    requires
        results_unambiguous(results, width, height),
        waveform_single_valued(waveform),
    ensures
        unambiguous(waveform_colours(results, waveform), width, height),
{
    let colours = waveform_colours(results, waveform);
    assert forall|x: u32, y: u32, a: Color, b: Color|
        x < width && y < height && #[trigger] colours(x, y, a) && #[trigger] colours(
            x,
            y,
            b,
        ) implies a == b by {
        let first = choose|result: EscapeResult| #[trigger]
            results(x, y, result) && waveform_colour(waveform, result, a);
        let second = choose|result: EscapeResult| #[trigger]
            results(x, y, result) && waveform_colour(waveform, result, b);
        assert(first == second);
    }
}

/// Under one palette, pixels with one result each have one colour each.
pub proof fn lemma_palette_unambiguous(
    results: spec_fn(u32, u32, EscapeResult) -> bool,
    palette: Palette,
    width: u32,
    height: u32,
)
    requires
        results_unambiguous(results, width, height),
    ensures
        unambiguous(palette_colours(results, palette), width, height),
{
    let colours = palette_colours(results, palette);
    assert forall|x: u32, y: u32, a: Color, b: Color|
        x < width && y < height && #[trigger] colours(x, y, a) && #[trigger] colours(
            x,
            y,
            b,
        ) implies a == b by {
        let first = choose|result: EscapeResult| #[trigger]
            results(x, y, result) && a == palette.color_of(result);
        let second = choose|result: EscapeResult| #[trigger]
            results(x, y, result) && b == palette.color_of(result);
        assert(first == second);
    }
}

/// Rendering the same options twice gives the same image: where the four
/// kernels leave no choice, any two images that the pipeline may give are
/// the same, sample for sample.
pub proof fn lemma_image_deterministic<
    L: Fn(Window, u32, u32) -> ComplexPoint,
    I: Fn(ComplexPoint) -> bool,
    S: Fn(ComplexPoint, u32, usize, ComplexPoint) -> Advance,
    W: Fn(Scalar) -> (Scalar, Scalar, Scalar),
>(
    options: Options,
    locate: L,
    interior: I,
    step: S,
    waveform: W,
    first: Seq<u8>,
    second: Seq<u8>,
)
    requires
        locate_single_valued(locate),
        interior_single_valued(interior),
        step_single_valued(step),
        waveform_single_valued(waveform),
        portrays(
            first,
            options.window.p_width,
            options.window.p_height,
            waveform_colours(pipeline_results(options, locate, interior, step), waveform),
        ),
        portrays(
            second,
            options.window.p_width,
            options.window.p_height,
            waveform_colours(pipeline_results(options, locate, interior, step), waveform),
        ),
    ensures
        first == second,
{
    let width = options.window.p_width;
    let height = options.window.p_height;
    let results = pipeline_results(options, locate, interior, step);
    lemma_pipeline_unambiguous(options, locate, interior, step, width, height);
    lemma_waveform_unambiguous(results, waveform, width, height);
    lemma_portrait_unique(width, height, waveform_colours(results, waveform), first, second);
}

/// Under one palette, rendering the same results twice gives the same
/// image, sample for sample.
pub proof fn lemma_palette_image_deterministic(
    results: spec_fn(u32, u32, EscapeResult) -> bool,
    palette: Palette,
    width: u32,
    height: u32,
    first: Seq<u8>,
    second: Seq<u8>,
)
    requires
        results_unambiguous(results, width, height),
        portrays(first, width, height, palette_colours(results, palette)),
        portrays(second, width, height, palette_colours(results, palette)),
    ensures
        first == second,
{
    lemma_palette_unambiguous(results, palette, width, height);
    lemma_portrait_unique(width, height, palette_colours(results, palette), first, second);
}

/// Two images of the same results under two palettes differ in colours
/// only: each pixel is coloured from one result in both, so that it shows
/// the backdrop of the one exactly where the result is `Bounded` and it
/// shows the backdrop of the other, and an entry of the one exactly where it
/// shows an entry of the other.
pub proof fn lemma_palettes_share_membership(
    results: spec_fn(u32, u32, EscapeResult) -> bool,
    width: u32,
    height: u32,
    first_palette: Palette,
    second_palette: Palette,
    first: Seq<u8>,
    second: Seq<u8>,
    x: u32,
    y: u32,
) -> (result: EscapeResult)
    requires
        results_unambiguous(results, width, height),
        portrays(first, width, height, palette_colours(results, first_palette)),
        portrays(second, width, height, palette_colours(results, second_palette)),
        x < width,
        y < height,
    ensures
        results(x, y, result),
        pixel_samples(first, width, x, y) == first_palette.color_of(result).samples(),
        pixel_samples(second, width, x, y) == second_palette.color_of(result).samples(),
        result == EscapeResult::Bounded ==> pixel_samples(first, width, x, y)
            == first_palette.ground().samples() && pixel_samples(second, width, x, y)
            == second_palette.ground().samples(),
{
    let first_colours = palette_colours(results, first_palette);
    let second_colours = palette_colours(results, second_palette);
    assert(pixel_allowed(first, width, first_colours, x, y));
    assert(pixel_allowed(second, width, second_colours, x, y));
    let a = choose|c: Color| #[trigger]
        first_colours(x, y, c) && pixel_samples(first, width, x, y) == c.samples();
    let b = choose|c: Color| #[trigger]
        second_colours(x, y, c) && pixel_samples(second, width, x, y) == c.samples();
    let ra = choose|result: EscapeResult| #[trigger]
        results(x, y, result) && a == first_palette.color_of(result);
    let rb = choose|result: EscapeResult| #[trigger]
        results(x, y, result) && b == second_palette.color_of(result);
    assert(ra == rb);
    ra
}

} // verus!
