use vstd::prelude::*;

verus! {

/// Size of an image in pixels.
#[derive(Debug, Clone, Copy, PartialEq, Eq, Structural)]
pub struct Dimensions {
    pub width: usize,
    pub height: usize,
}

impl Dimensions {
    /// Number of pixels in an image of this size.
    pub open spec fn pixel_count(self) -> int {
        self.width * self.height
    }

    pub fn new(width: usize, height: usize) -> (r: Self)
        ensures
            r.width == width,
            r.height == height,
    {
        Self { width, height }
    }

    /// Number of pixels, `width * height`.
    pub fn total_pixels(&self) -> (r: usize)
        requires
            self.pixel_count() <= usize::MAX,
        ensures
            r == self.pixel_count(),
    {
        self.width * self.height
    }
}

impl From<(usize, usize)> for Dimensions {
    fn from(pair: (usize, usize)) -> Self {
        Self { width: pair.0, height: pair.1 }
    }
}

impl vstd::std_specs::convert::FromSpecImpl<(usize, usize)> for Dimensions {
    open spec fn obeys_from_spec() -> bool {
        true
    }

    open spec fn from_spec(pair: (usize, usize)) -> Self {
        Dimensions { width: pair.0, height: pair.1 }
    }
}

/// A pixel coordinate: column `x` and row `y`, row 0 being the top row.
#[derive(Debug, Clone, Copy, PartialEq, Eq, Structural)]
pub struct Pixel {
    pub x: usize,
    pub y: usize,
}

impl Pixel {
    pub fn new(x: usize, y: usize) -> (r: Self)
        ensures
            r.x == x,
            r.y == y,
    {
        Self { x, y }
    }
}

impl From<(usize, usize)> for Pixel {
    fn from(pair: (usize, usize)) -> Self {
        Self { x: pair.0, y: pair.1 }
    }
}

impl vstd::std_specs::convert::FromSpecImpl<(usize, usize)> for Pixel {
    open spec fn obeys_from_spec() -> bool {
        true
    }

    open spec fn from_spec(pair: (usize, usize)) -> Self {
        Pixel { x: pair.0, y: pair.1 }
    }
}

} // verus!
