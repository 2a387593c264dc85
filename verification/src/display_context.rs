use vstd::prelude::*;

verus! {

/// Display context - rendering dimensions in pixels.
#[derive(Debug, Clone, Copy)]
pub struct DisplayContext {
    /// Width in pixels
    pub width: u32,
    /// Height in pixels
    pub height: u32,
}

impl DisplayContext {
    /// Number of pixels in a `width` x `height` area.
    pub open spec fn spec_pixel_count(self) -> int {
        self.width * self.height
    }

    /// Create a new display context.
    pub fn new(width: u32, height: u32) -> (ctx: Self)
        ensures
            ctx.width == width,
            ctx.height == height,
    {
        Self { width, height }
    }

    /// Total number of pixels.
    pub fn pixel_count(&self) -> (n: usize)
        requires
            self.spec_pixel_count() <= usize::MAX,
        ensures
            n == self.spec_pixel_count(),
    {
        self.width as usize * self.height as usize
    }

    /// Size in bytes of an RGBA buffer covering every pixel.
    pub fn buffer_size(&self) -> (n: usize)
        requires
            self.spec_pixel_count() * 4 <= usize::MAX,
        ensures
            n == self.spec_pixel_count() * 4,
    {
        self.pixel_count() * 4
    }
}

} // verus!

verus! {

/// Window dimensions in physical pixels.
#[derive(Debug, Clone, Copy)]
pub struct WindowDimensions {
    pub width: u32,
    pub height: u32,
}

impl WindowDimensions {
    pub fn new(width: u32, height: u32) -> (d: Self)
        ensures
            d.width == width,
            d.height == height,
    {
        Self { width, height }
    }
}

/// A window that frames can be presented in.
pub trait WindowContext {
    /// Current size of the window's drawable area.
    fn dimensions(&self) -> WindowDimensions;

    /// Present an RGBA frame; the error says why it could not be shown.
    fn draw(&self, pixels: &[u8]) -> Result<(), String>;

    /// Ask for the window to be redrawn.
    fn request_redraw(&self);
}

} // verus!
