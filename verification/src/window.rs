//! The rectangle of the complex plane that an image shows.

use vstd::prelude::*;
use vstd::arithmetic::power2::lemma2_to64;
use crate::scalar::Scalar;

verus! {

/// A point of the complex plane.
#[derive(Clone, Copy, Debug, PartialEq, Eq, Structural)]
pub struct ComplexPoint {
    pub re: Scalar,
    pub im: Scalar,
}

/// The resolution of an image and the part of the plane it frames: the
/// origin is the point at the centre, and a larger zoom magnifies.
#[derive(Clone, Copy, Debug, PartialEq, Eq, Structural)]
pub struct Window {
    pub p_width: u32,
    pub p_height: u32,
    pub origin: ComplexPoint,
    pub zoom: Scalar,
}

impl Window {
    /// The window that frames the whole set: 2800 by 2400 pixels around
    /// -0.75 + 0i at zoom 1.
    pub open spec fn classic() -> Window {
        Window {
            p_width: 2800,
            p_height: 2400,
            origin: ComplexPoint { re: Scalar { bits: 0xBF40_0000 }, im: Scalar { bits: 0 } },
            zoom: Scalar { bits: 0x3F80_0000 },
        }
    }

    /// A window can be rendered when it has pixels in both directions and
    /// its zoom is a finite number above zero.
    pub open spec fn valid(self) -> bool {
        self.p_width > 0 && self.p_height > 0 && self.zoom.positive()
    }

    /// Whether `(x, y)` is a pixel of the window.
    pub open spec fn holds(self, x: u32, y: u32) -> bool {
        x < self.p_width && y < self.p_height
    }

    /// Whether the window can be rendered.
    pub fn is_valid(&self) -> (b: bool)
        ensures
            b == self.valid(),
    {
        self.p_width > 0 && self.p_height > 0 && self.zoom.is_positive()
    }

    /// Whether `(x, y)` is a pixel of the window.
    pub fn contains(&self, x: u32, y: u32) -> (b: bool)
        ensures
            b == self.holds(x, y),
    {
        x < self.p_width && y < self.p_height
    }
}

impl Default for Window {
    fn default() -> (w: Window)
        ensures
            w == Window::classic(),
            w.valid(),
            w.origin.re.represents(-3, 4),
            w.origin.im.represents(0, 1),
            w.zoom.represents(1, 1),
    {
        proof {
            lemma2_to64();
        }
        Window {
            p_width: 2800,
            p_height: 2400,
            origin: ComplexPoint { re: Scalar { bits: 0xBF40_0000 }, im: Scalar { bits: 0 } },
            zoom: Scalar { bits: 0x3F80_0000 },
        }
    }
}

} // verus!
