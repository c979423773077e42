use std::cell::{Cell, RefCell};

use fractastic::color::Color;
use fractastic::escape::{EscapeResult, RENDER_ESCAPE_RADIUS};
use fractastic::mandelbrot::{
    choose_color, escape_number, generate_image, generate_palette_image,
    generate_waveform_image, is_renderable, rasterize, Advance,
};
use fractastic::options::Options;
use fractastic::palette::Palette;
use fractastic::scalar::Scalar;
use fractastic::window::{ComplexPoint, Window};

fn scalar(value: f32) -> Scalar {
    Scalar { bits: value.to_bits() }
}

fn number(s: Scalar) -> f32 {
    f32::from_bits(s.bits)
}

fn point(re: f32, im: f32) -> ComplexPoint {
    ComplexPoint { re: scalar(re), im: scalar(im) }
}

fn locate(window: Window, x: u32, y: u32) -> ComplexPoint {
    let scale = 0.001275 / number(window.zoom);
    let real_size = window.p_width as f32 * scale;
    let imaginary_size = window.p_height as f32 * scale;
    let re_proportion = x as f32 / window.p_width as f32;
    let im_proportion = y as f32 / window.p_height as f32;
    point(
        re_proportion * real_size + (number(window.origin.re) - real_size / 2.0),
        im_proportion * imaginary_size + (number(window.origin.im) - imaginary_size / 2.0),
    )
}

fn in_cardioid(re: f32, im: f32) -> bool {
    let q = (re - 0.25) * (re - 0.25) + im * im;
    q * (q + re - 0.25) < 0.25 * im * im
}

fn in_bulb(re: f32, im: f32) -> bool {
    (re + 1.0) * (re + 1.0) + im * im < 0.0625
}

fn interior(c: ComplexPoint) -> bool {
    in_cardioid(number(c.re), number(c.im)) || in_bulb(number(c.re), number(c.im))
}

fn orbit_step(c: ComplexPoint, radius: u32, i: usize, z: ComplexPoint) -> Advance {
    let (zr, zi) = (number(z.re), number(z.im));
    let re = zr * zr - zi * zi + number(c.re);
    let im = 2.0 * zr * zi + number(c.im);
    if (re * re + im * im).sqrt() >= radius as f32 {
        let log_zn = (re * re + im * im).log10() / 2.0;
        let nu = (log_zn / 2.0f32.log10()).log10() / 2.0f32.log10();
        Advance::Outside { smooth: scalar(i as f32 + 1.0 - nu), plain: scalar(i as f32) }
    } else {
        Advance::Inside(point(re, im))
    }
}

fn evaluate(c: (f32, f32), radius: Option<u32>, iterations: usize) -> EscapeResult {
    let c = point(c.0, c.1);
    escape_number(c, radius, iterations, interior(c), &orbit_step)
}

fn sine_levels(index: Scalar) -> (Scalar, Scalar, Scalar) {
    let i = number(index);
    let level = |phase: f32| scalar((0.3 * i + phase).sin() * 127.0 + 128.0);
    (level(0.0), level(2.0), level(4.0))
}

fn small_options(width: u32, height: u32, zoom: f32, iterations: usize) -> Options {
    let mut options = Options::default();
    options.window.p_width = width;
    options.window.p_height = height;
    options.window.zoom = scalar(zoom);
    options.iterations = iterations;
    options
}

fn coordinate_colour(x: u32, y: u32) -> Color {
    Color { r: x as u8, g: y as u8, b: (x + 10 * y) as u8 }
}

#[test]
fn image_has_the_size_asked_for() {
    let frame = rasterize(5, 3, &coordinate_colour);
    assert_eq!(frame.width(), 5);
    assert_eq!(frame.height(), 3);
    assert_eq!(frame.into_raw().len(), 5 * 3 * 4);
}

#[test]
fn every_pixel_has_the_colour_of_its_coordinates() {
    let frame = rasterize(5, 3, &coordinate_colour);
    for y in 0..3 {
        for x in 0..5 {
            let c = coordinate_colour(x, y);
            assert_eq!(frame.pixel(x, y), Some([c.r, c.g, c.b, 255]), "pixel ({x}, {y})");
        }
    }
    assert_eq!(frame.pixel(5, 0), None);
    assert_eq!(frame.pixel(0, 3), None);
    assert_eq!(frame.pixel(5, 3), None);
}

#[test]
fn samples_are_laid_out_row_by_row() {
    let frame = rasterize(3, 2, &coordinate_colour);
    assert_eq!(
        frame.into_raw(),
        vec![
            0, 0, 0, 255, 1, 0, 1, 255, 2, 0, 2, 255, // row 0
            0, 1, 10, 255, 1, 1, 11, 255, 2, 1, 12, 255, // row 1
        ]
    );
}

#[test]
fn image_is_what_the_image_crate_builds_pixel_by_pixel() {
    let frame = rasterize(7, 4, &coordinate_colour);
    let built = image::RgbaImage::from_fn(7, 4, |x, y| coordinate_colour(x, y).to_pixel());
    for (x, y, pixel) in built.enumerate_pixels() {
        assert_eq!(frame.pixel(x, y), Some(pixel.0));
    }
    assert_eq!(frame.into_raw(), built.into_raw());
}

#[test]
fn samples_make_an_image_of_the_same_pixels() {
    let frame = rasterize(4, 6, &coordinate_colour);
    let raw = frame.into_raw();
    let image = image::RgbaImage::from_raw(4, 6, raw).unwrap();
    for y in 0..6 {
        for x in 0..4 {
            assert_eq!(*image.get_pixel(x, y), coordinate_colour(x, y).to_pixel());
        }
    }
}

#[test]
fn shade_is_called_once_for_each_pixel_in_raster_order() {
    let calls: RefCell<Vec<(u32, u32)>> = RefCell::new(Vec::new());
    let frame = rasterize(3, 2, &|x, y| {
        calls.borrow_mut().push((x, y));
        Color::black()
    });
    assert_eq!(frame.width(), 3);
    assert_eq!(*calls.borrow(), vec![(0, 0), (1, 0), (2, 0), (0, 1), (1, 1), (2, 1)]);
}

#[test]
fn image_without_pixels_is_empty() {
    let calls = Cell::new(0u32);
    let shade = |_: u32, _: u32| {
        calls.set(calls.get() + 1);
        Color::black()
    };
    let flat = rasterize(0, 4, &shade);
    assert_eq!((flat.width(), flat.height()), (0, 4));
    assert!(flat.into_raw().is_empty());
    let thin = rasterize(4, 0, &shade);
    assert_eq!((thin.width(), thin.height()), (4, 0));
    assert_eq!(thin.pixel(0, 0), None);
    assert_eq!(calls.get(), 0);
}

#[test]
fn every_pixel_is_opaque() {
    let frame =
        rasterize(6, 5, &|x, y| Color { r: (x * 40) as u8, g: (y * 50) as u8, b: 7 });
    let raw = frame.into_raw();
    assert!(raw.chunks(4).all(|pixel| pixel[3] == 255));
}

#[test]
fn renderable_sizes() {
    assert!(is_renderable(2800, 2400));
    assert!(is_renderable(0, 0));
    assert!(is_renderable(1, 1));
    assert!(is_renderable(0, u32::MAX));
    assert!(!is_renderable(u32::MAX, u32::MAX));
    let limit = isize::MAX as u128;
    for (width, height) in [(1u32 << 15, 1u32 << 14), (1 << 16, 1 << 15), (1 << 31, 1 << 30)] {
        let samples = 4 * width as u128 * height as u128;
        assert_eq!(is_renderable(width, height), samples <= limit, "{width} by {height}");
    }
}

#[test]
fn interior_points_are_bounded_without_a_step() {
    let steps = Cell::new(0u32);
    let step = |_: ComplexPoint, _: u32, _: usize, z: ComplexPoint| {
        steps.set(steps.get() + 1);
        Advance::Inside(z)
    };
    for budget in [0usize, 1, 250] {
        assert_eq!(
            escape_number(point(0.0, 0.0), None, budget, true, &step),
            EscapeResult::Bounded
        );
    }
    assert_eq!(steps.get(), 0);
}

#[test]
fn origin_of_the_plane_is_bounded() {
    assert!(in_cardioid(0.0, 0.0));
    assert_eq!(evaluate((0.0, 0.0), None, 250), EscapeResult::Bounded);
    assert!(in_bulb(-1.0, 0.0));
    assert_eq!(evaluate((-1.0, 0.0), None, 250), EscapeResult::Bounded);
    assert_eq!(evaluate((-0.1, 0.1), Some(8), 1), EscapeResult::Bounded);
}

#[test]
fn one_plus_i_escapes_at_the_second_step() {
    let result = evaluate((1.0, 1.0), Some(2), 250);
    let log_zn = 10.0f32.log10() / 2.0;
    let nu = (log_zn / 2.0f32.log10()).log10() / 2.0f32.log10();
    assert_eq!(result, EscapeResult::Escaped(scalar(1.0 + 1.0 - nu)));
    assert_eq!(result, evaluate((1.0, 1.0), None, 250));
    match result {
        EscapeResult::Escaped(index) => {
            assert!((number(index) - 1.267_981).abs() < 1.0e-4);
            assert_eq!(index.to_index(), 1);
        }
        EscapeResult::Bounded => panic!("1 + i was reported as bounded"),
    }
}

#[test]
fn one_plus_i_escapes_a_step_later_at_radius_eight() {
    let steps = Cell::new(0usize);
    let counted = |c: ComplexPoint, radius: u32, i: usize, z: ComplexPoint| {
        steps.set(steps.get() + 1);
        orbit_step(c, radius, i, z)
    };
    let result = escape_number(point(1.0, 1.0), Some(8), 250, false, &counted);
    assert_eq!(steps.get(), 3);
    let log_zn = 98.0f32.log10() / 2.0;
    let nu = (log_zn / 2.0f32.log10()).log10() / 2.0f32.log10();
    assert_eq!(result, EscapeResult::Escaped(scalar(2.0 + 1.0 - nu)));
    match result {
        EscapeResult::Escaped(index) => {
            assert!((number(index) - 1.274_3).abs() < 1.0e-3);
            assert_eq!(index.to_index(), 1);
        }
        EscapeResult::Bounded => panic!("1 + i was reported as bounded"),
    }
}

#[test]
fn step_is_handed_the_point_and_the_radius() {
    let seen: RefCell<Vec<(ComplexPoint, u32)>> = RefCell::new(Vec::new());
    let step = |c: ComplexPoint, radius: u32, _: usize, z: ComplexPoint| {
        seen.borrow_mut().push((c, radius));
        Advance::Inside(z)
    };
    escape_number(point(0.3, -0.4), None, 2, false, &step);
    escape_number(point(0.3, -0.4), Some(8), 1, false, &step);
    escape_number(point(1.5, 2.5), Some(0), 1, false, &step);
    assert_eq!(
        *seen.borrow(),
        vec![
            (point(0.3, -0.4), 2),
            (point(0.3, -0.4), 2),
            (point(0.3, -0.4), 8),
            (point(1.5, 2.5), 0),
        ]
    );
}

#[test]
fn budget_is_the_number_of_steps_taken() {
    for budget in [0usize, 1, 2, 17, 250] {
        let steps = Cell::new(0usize);
        let step = |_: ComplexPoint, _: u32, i: usize, z: ComplexPoint| {
            assert_eq!(i, steps.get());
            steps.set(steps.get() + 1);
            Advance::Inside(z)
        };
        assert_eq!(
            escape_number(point(0.0, 0.0), None, budget, false, &step),
            EscapeResult::Bounded
        );
        assert_eq!(steps.get(), budget);
    }
}

#[test]
fn orbit_is_handed_from_step_to_step() {
    let seen: RefCell<Vec<(usize, f32)>> = RefCell::new(Vec::new());
    let step = |_: ComplexPoint, _: u32, i: usize, z: ComplexPoint| {
        seen.borrow_mut().push((i, number(z.re)));
        if i == 3 {
            Advance::Outside { smooth: scalar(3.5), plain: scalar(3.0) }
        } else {
            Advance::Inside(point(number(z.re) + 1.0, 0.0))
        }
    };
    assert_eq!(
        escape_number(point(9.0, 9.0), None, 10, false, &step),
        EscapeResult::Escaped(scalar(3.5))
    );
    assert_eq!(*seen.borrow(), vec![(0, 0.0), (1, 1.0), (2, 2.0), (3, 3.0)]);
}

#[test]
fn escape_after_the_budget_is_not_seen() {
    let step = |_: ComplexPoint, _: u32, i: usize, z: ComplexPoint| {
        if i == 3 {
            Advance::Outside { smooth: scalar(3.5), plain: scalar(3.0) }
        } else {
            Advance::Inside(z)
        }
    };
    let c = point(0.0, 0.0);
    assert_eq!(escape_number(c, None, 3, false, &step), EscapeResult::Bounded);
    assert_eq!(escape_number(c, None, 4, false, &step), EscapeResult::Escaped(scalar(3.5)));
}

#[test]
fn degenerate_smooth_index_falls_back_to_the_step() {
    let step = |_: ComplexPoint, _: u32, i: usize, z: ComplexPoint| {
        if i == 2 {
            Advance::Outside { smooth: scalar(f32::NAN), plain: scalar(i as f32) }
        } else {
            Advance::Inside(z)
        }
    };
    let c = point(0.0, 0.0);
    assert_eq!(escape_number(c, None, 5, false, &step), EscapeResult::Escaped(scalar(2.0)));
    let early = |_: ComplexPoint, _: u32, _: usize, _: ComplexPoint| Advance::Outside {
        smooth: scalar(-0.58),
        plain: scalar(0.0),
    };
    assert_eq!(escape_number(c, None, 5, false, &early), EscapeResult::Escaped(scalar(0.0)));
}

#[test]
fn budget_of_one_gives_a_usable_result_everywhere() {
    let mut escaped = 0;
    let mut bounded = 0;
    for row in -20..=20 {
        for column in -30..=20 {
            let c = (column as f32 * 0.1, row as f32 * 0.1);
            for radius in [None, Some(8)] {
                let result = evaluate(c, radius, 1);
                assert!(result.is_well_formed());
                match result {
                    EscapeResult::Escaped(index) => {
                        assert!(number(index).is_finite() && number(index) >= 0.0);
                        escaped += 1;
                    }
                    EscapeResult::Bounded => bounded += 1,
                }
            }
        }
    }
    assert!(escaped > 0 && bounded > 0);
}

#[test]
fn far_points_escape_at_the_first_step() {
    match evaluate((3.0, 0.0), None, 1) {
        EscapeResult::Escaped(index) => {
            assert!(number(index).is_finite());
            assert_eq!(index.to_index(), 0);
        }
        EscapeResult::Bounded => panic!("3 + 0i was reported as bounded"),
    }
}

#[test]
fn evaluation_is_repeatable() {
    for c in [(1.0f32, 1.0f32), (-0.75, 0.1), (0.3, 0.5), (-2.0, 0.0), (0.26, 0.0)] {
        assert_eq!(evaluate(c, Some(8), 250), evaluate(c, Some(8), 250));
    }
}

#[test]
fn bounded_points_are_black_under_the_waveform() {
    let called = Cell::new(false);
    let colour = choose_color(&EscapeResult::Bounded, &|index| {
        called.set(true);
        sine_levels(index)
    });
    assert_eq!(colour, Color { r: 0, g: 0, b: 0 });
    assert!(!called.get());
}

#[test]
fn waveform_colours_of_known_indices() {
    assert_eq!(
        choose_color(&EscapeResult::Escaped(scalar(0.0)), &sine_levels),
        Color { r: 128, g: 243, b: 32 }
    );
    let i = 10.0f32;
    let expected = Color {
        r: ((0.3 * i).sin() * 127.0 + 128.0).round() as u8,
        g: ((0.3 * i + 2.0).sin() * 127.0 + 128.0).round() as u8,
        b: ((0.3 * i + 4.0).sin() * 127.0 + 128.0).round() as u8,
    };
    assert_eq!(expected, Color { r: 146, g: 6, b: 211 });
    assert_eq!(choose_color(&EscapeResult::Escaped(scalar(i)), &sine_levels), expected);
}

#[test]
fn waveform_levels_are_rounded_to_channels() {
    let result = EscapeResult::Escaped(scalar(1.0));
    let wild = |_: Scalar| (scalar(1.0e9), scalar(-3.0), scalar(f32::NAN));
    assert_eq!(choose_color(&result, &wild), Color { r: 255, g: 0, b: 0 });
    let fractional = |_: Scalar| (scalar(12.75), scalar(254.49), scalar(0.5));
    assert_eq!(choose_color(&result, &fractional), Color { r: 13, g: 254, b: 1 });
    let formula = |_: Scalar| (scalar(128.0), scalar(243.48), scalar(31.886));
    assert_eq!(choose_color(&result, &formula), Color { r: 128, g: 243, b: 32 });
}

#[test]
fn waveform_channels_stay_in_range_for_extreme_indices() {
    for index in [0.0f32, 1.0, 250.0, 10_000.0, 1.0e20, f32::MAX] {
        let colour = choose_color(&EscapeResult::Escaped(scalar(index)), &sine_levels);
        let (r, g, b) = sine_levels(scalar(index));
        assert_eq!(colour.r as f32, number(r).round().clamp(0.0, 255.0));
        assert_eq!(colour.g as f32, number(g).round().clamp(0.0, 255.0));
        assert_eq!(colour.b as f32, number(b).round().clamp(0.0, 255.0));
        assert!(colour.r >= 1 && colour.g >= 1 && colour.b >= 1);
    }
}

fn expected_colour(options: &Options, x: u32, y: u32) -> Color {
    let c = locate(options.window, x, y);
    let result = escape_number(c, Some(8), options.iterations, interior(c), &orbit_step);
    choose_color(&result, &sine_levels)
}

fn render(options: &Options) -> Vec<u8> {
    generate_image(options, &locate, &interior, &orbit_step, &sine_levels).into_raw()
}

#[test]
fn rendering_twice_gives_the_same_samples() {
    let options = small_options(28, 24, 0.01, 250);
    let first = render(&options);
    let second = render(&options);
    assert_eq!(first.len(), 28 * 24 * 4);
    assert_eq!(first, second);
}

#[test]
fn rendering_is_the_pipeline_pixel_by_pixel() {
    let options = small_options(28, 24, 0.01, 250);
    let built =
        image::RgbaImage::from_fn(28, 24, |x, y| expected_colour(&options, x, y).to_pixel());
    assert_eq!(render(&options), built.into_raw());
}

#[test]
fn rendering_uses_the_rendering_radius_and_the_budget() {
    let options = small_options(6, 4, 0.002, 37);
    let radii: RefCell<Vec<u32>> = RefCell::new(Vec::new());
    let deepest = Cell::new(0usize);
    let windows: RefCell<Vec<Window>> = RefCell::new(Vec::new());
    let frame = generate_image(
        &options,
        &|window, x, y| {
            windows.borrow_mut().push(window);
            locate(window, x, y)
        },
        &interior,
        &|c, radius, i, z| {
            radii.borrow_mut().push(radius);
            deepest.set(deepest.get().max(i));
            orbit_step(c, radius, i, z)
        },
        &sine_levels,
    );
    assert_eq!((frame.width(), frame.height()), (6, 4));
    assert_eq!(RENDER_ESCAPE_RADIUS, 8);
    assert!(!radii.borrow().is_empty());
    assert!(radii.borrow().iter().all(|radius| *radius == 8));
    assert_eq!(deepest.get(), 36);
    assert_eq!(windows.borrow().len(), 24);
    assert!(windows.borrow().iter().all(|window| *window == options.window));
}

#[test]
fn rendering_depends_on_the_budget() {
    let shallow = render(&small_options(28, 24, 0.01, 2));
    let deep = render(&small_options(28, 24, 0.01, 250));
    assert_eq!(shallow.len(), deep.len());
    assert_ne!(shallow, deep);
}

#[test]
fn reduced_view_has_a_black_centre_and_escaped_corners() {
    let options = small_options(28, 24, 0.01, 250);
    let frame = generate_image(&options, &locate, &interior, &orbit_step, &sine_levels);
    assert_eq!(frame.pixel(14, 12), Some([0, 0, 0, 255]));
    for (x, y) in [(0, 0), (27, 23)] {
        let c = locate(options.window, x, y);
        let result = escape_number(c, Some(8), 250, interior(c), &orbit_step);
        assert!(!result.is_bounded());
        let expected = choose_color(&result, &sine_levels);
        assert_eq!(frame.pixel(x, y), Some([expected.r, expected.g, expected.b, 255]));
    }
}

#[test]
fn default_view_has_a_bounded_centre_and_escaped_corners() {
    let options = Options::default();
    assert!(options.is_valid());
    assert!(is_renderable(options.window.p_width, options.window.p_height));
    let window = options.window;
    let centre = locate(window, window.p_width / 2, window.p_height / 2);
    assert!((number(centre.re) + 0.75).abs() < 0.001275 / 2.0);
    assert!(number(centre.im).abs() < 0.001275 / 2.0);
    let at_centre =
        escape_number(centre, Some(8), options.iterations, interior(centre), &orbit_step);
    assert_eq!(at_centre, EscapeResult::Bounded);
    assert_eq!(choose_color(&at_centre, &sine_levels), Color::black());
    for (x, y) in [(0, 0), (window.p_width - 1, window.p_height - 1)] {
        let c = locate(window, x, y);
        match escape_number(c, Some(8), options.iterations, interior(c), &orbit_step) {
            EscapeResult::Escaped(index) => assert!(index.to_index() <= 3),
            EscapeResult::Bounded => panic!("corner ({x}, {y}) was reported as bounded"),
        }
    }
}

fn evaluate_pixel(options: &Options) -> impl Fn(u32, u32) -> EscapeResult + '_ {
    move |x, y| {
        let c = locate(options.window, x, y);
        escape_number(c, Some(8), options.iterations, interior(c), &orbit_step)
    }
}

#[test]
fn waveform_image_colours_each_pixel_from_its_result() {
    let options = small_options(14, 12, 0.005, 60);
    let frame = generate_waveform_image(&options, &evaluate_pixel(&options), &sine_levels);
    assert_eq!((frame.width(), frame.height()), (14, 12));
    for y in 0..12 {
        for x in 0..14 {
            let c = choose_color(&evaluate_pixel(&options)(x, y), &sine_levels);
            assert_eq!(frame.pixel(x, y), Some([c.r, c.g, c.b, 255]));
        }
    }
    assert_eq!(frame.pixel(7, 6), Some([0, 0, 0, 255]));
    assert_eq!(frame.into_raw(), render(&options));
}

#[test]
fn waveform_image_of_known_results() {
    let options = small_options(2, 1, 1.0, 1);
    let evaluate = |x: u32, _: u32| {
        if x == 0 {
            EscapeResult::Escaped(scalar(0.0))
        } else {
            EscapeResult::Bounded
        }
    };
    let frame = generate_waveform_image(&options, &evaluate, &sine_levels);
    assert_eq!(frame.into_raw(), vec![128, 243, 32, 255, 0, 0, 0, 255]);
}

#[test]
fn palette_image_colours_each_pixel_from_its_result() {
    let options = small_options(14, 12, 0.005, 60);
    let palette = Palette::random(16, Color { r: 9, g: 9, b: 9 }).unwrap();
    let frame = generate_palette_image(&options, &evaluate_pixel(&options), &palette);
    assert_eq!((frame.width(), frame.height()), (14, 12));
    for y in 0..12 {
        for x in 0..14 {
            let c = palette.color_for(&evaluate_pixel(&options)(x, y));
            assert_eq!(frame.pixel(x, y), Some([c.r, c.g, c.b, 255]));
        }
    }
    assert_eq!(frame.pixel(7, 6), Some([9, 9, 9, 255]));
}

#[test]
fn one_palette_gives_one_image() {
    let options = small_options(14, 12, 0.005, 60);
    let palette = Palette::random(16, Color::black()).unwrap();
    let first = generate_palette_image(&options, &evaluate_pixel(&options), &palette).into_raw();
    let second = generate_palette_image(&options, &evaluate_pixel(&options), &palette).into_raw();
    assert_eq!(first, second);
}

#[test]
fn two_palettes_differ_in_colours_only() {
    let options = small_options(14, 12, 0.005, 60);
    let entries = |base: u8| (0..8u8).map(|i| Color { r: base, g: i, b: 1 }).collect::<Vec<_>>();
    let first_palette = Palette::new(entries(100), Color { r: 0, g: 0, b: 0 }).unwrap();
    let second_palette = Palette::new(entries(200), Color { r: 255, g: 255, b: 255 }).unwrap();
    let first = generate_palette_image(&options, &evaluate_pixel(&options), &first_palette);
    let second = generate_palette_image(&options, &evaluate_pixel(&options), &second_palette);
    let mut bounded = 0;
    for y in 0..12 {
        for x in 0..14 {
            let a = first.pixel(x, y).unwrap();
            let b = second.pixel(x, y).unwrap();
            if a == [0, 0, 0, 255] {
                assert_eq!(b, [255, 255, 255, 255]);
                bounded += 1;
            } else {
                assert_eq!(a[0], 100);
                assert_eq!(b[0], 200);
                assert_eq!(a[1], b[1]);
            }
        }
    }
    assert!(bounded > 0 && bounded < 14 * 12);
}
