//! The settings that a caller may name, and the options they give.

use vstd::prelude::*;
use crate::options::{Options, DEFAULT_ITERATIONS};
use crate::scalar::Scalar;
use crate::window::{ComplexPoint, Window};

verus! {

/// The settings that were named: each is absent or a value.
#[derive(Clone, Copy, Debug, PartialEq, Eq, Structural)]
pub struct Args {
    pub flag_re: Option<Scalar>,
    pub flag_im: Option<Scalar>,
    pub flag_zoom: Option<Scalar>,
    pub flag_iterations: Option<usize>,
}

/// The first value where there is one, else the second.
pub open spec fn named_or<T>(named: Option<T>, otherwise: T) -> T {
    match named {
        Some(value) => value,
        None => otherwise,
    }
}

/// The options that the settings give: each one that was named replaces
/// its default, and the resolution is the default one.
pub open spec fn options_from(args: Args) -> Options {
    Options {
        iterations: named_or(args.flag_iterations, DEFAULT_ITERATIONS),
        window: Window {
            p_width: Window::classic().p_width,
            p_height: Window::classic().p_height,
            origin: ComplexPoint {
                re: named_or(args.flag_re, Window::classic().origin.re),
                im: named_or(args.flag_im, Window::classic().origin.im),
            },
            zoom: named_or(args.flag_zoom, Window::classic().zoom),
        },
    }
}

/// The options of a rendering: the defaults, with each named setting in
/// place of its default. Settings that cannot be rendered are refused: a
/// budget of no steps, or a zoom that is not a finite number above zero.
pub fn make_options_from_args(args: &Args) -> (made: Option<Options>)
    ensures
        made.is_some() == options_from(*args).valid(),
        made.is_some() ==> made.unwrap() == options_from(*args),
{
    let mut options = Options::default();

    if let Some(re) = args.flag_re {
        options.window.origin.re = re;
    }

    if let Some(im) = args.flag_im {
        options.window.origin.im = im;
    }

    if let Some(zoom) = args.flag_zoom {
        options.window.zoom = zoom;
    }

    if let Some(iterations) = args.flag_iterations {
        options.iterations = iterations;
    }

    if options.is_valid() {
        Some(options)
    } else {
        None
    }
}

/// Which settings are refused: exactly a named budget of no steps and a
/// named zoom that is not a finite number above zero. The origin is never a
/// reason.
pub proof fn lemma_settings_refused(args: Args)
    ensures
        options_from(args).valid() <==> (args.flag_iterations != Some(0usize)
            && (args.flag_zoom matches Some(zoom) ==> zoom.positive())),
{
}

/// Settings that name nothing give the default options.
pub proof fn lemma_no_settings_give_defaults()
    ensures
        options_from(
            Args { flag_re: None, flag_im: None, flag_zoom: None, flag_iterations: None },
        ) == (Options { iterations: DEFAULT_ITERATIONS, window: Window::classic() }),
        (Options { iterations: DEFAULT_ITERATIONS, window: Window::classic() }).valid(),
{
}

} // verus!
