//! Frame geometry and the viewport rectangle.

use vstd::prelude::*;

verus! {

/// Width of a frame in pixels.
pub const WIDTH: usize = 1280;

/// Height of a frame in pixels.
pub const HEIGHT: usize = 720;

/// Bytes of one pixel: interleaved 8-bit red, green and blue.
pub const BYTES_PER_PIXEL: usize = 3;

/// Bytes of one full frame.
pub const BYTES_PER_FRAME: usize = WIDTH * HEIGHT * BYTES_PER_PIXEL;

/// A viewport: the rectangle of `w` by `h` pixels whose top left corner is
/// at column `x` and row `y` of the frame.
#[derive(Copy, Clone, Debug, PartialEq, Eq, Structural)]
pub struct Crop {
    pub x: u16,
    pub y: u16,
    pub w: u16,
    pub h: u16,
}

/// The viewport that covers the whole frame.
pub open spec fn spec_full_crop() -> Crop {
    Crop { x: 0, y: 0, w: WIDTH as u16, h: HEIGHT as u16 }
}

/// The viewport that covers the whole frame. While it is selected the relay
/// passes frames through.
#[verifier::when_used_as_spec(spec_full_crop)]
pub fn full_crop() -> (c: Crop)
    ensures
        c == spec_full_crop(),
{
    Crop { x: 0, y: 0, w: WIDTH as u16, h: HEIGHT as u16 }
}

impl Crop {
    /// The viewport is not empty and lies inside the frame.
    pub open spec fn spec_fits(self) -> bool {
        &&& self.w > 0
        &&& self.h > 0
        &&& self.x + self.w <= WIDTH
        &&& self.y + self.h <= HEIGHT
    }

    /// Whether the viewport is not empty and lies inside the frame.
    #[verifier::when_used_as_spec(spec_fits)]
    pub fn fits(self) -> (valid: bool)
        ensures
            valid == self.spec_fits(),
    {
        self.w > 0 && self.h > 0 && self.x as usize + self.w as usize <= WIDTH && self.y as usize
            + self.h as usize <= HEIGHT
    }
}

/// The viewport that is in force. It starts as the whole frame, and it is
/// never empty and never reaches beyond the frame. The control side writes
/// it, the relay reads it once for each frame; a reader gets a copy.
pub struct CropState {
    crop: Crop,
}

impl View for CropState {
    type V = Crop;

    closed spec fn view(&self) -> Crop {
        self.crop
    }
}

impl CropState {
    #[verifier::type_invariant]
    spec fn valid(self) -> bool {
        self.crop.fits()
    }

    /// The state in which the whole frame is selected.
    pub fn new() -> (state: CropState)
        ensures
            state@ == full_crop(),
    {
        CropState { crop: full_crop() }
    }

    /// The viewport as it is now.
    pub fn read(&self) -> (crop: Crop)
        ensures
            crop == self@,
            crop.fits(),
    {
        proof {
            use_type_invariant(self);
        }
        self.crop
    }

    /// Puts `new` in the place of the viewport, if `new` is not empty and
    /// lies inside the frame; else the viewport stays as it is. Returns
    /// whether it was replaced.
    pub fn write(&mut self, new: Crop) -> (written: bool)
        ensures
            written == new.fits(),
            final(self)@ == if written {
                new
            } else {
                old(self)@
            },
    {
        if new.fits() {
            self.crop = new;
            true
        } else {
            false
        }
    }
}

/// Whether `p` is the whole frame, in which case frames pass through
/// unchanged.
pub fn is_full_screen(p: &Crop) -> (full: bool)
    ensures
        full == (*p == full_crop()),
{
    *p == full_crop()
}

} // verus!
