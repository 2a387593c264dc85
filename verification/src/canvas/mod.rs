//! 2D canvas: a pixel buffer and a queue of drawing operations.
//!
//! Shape extents are computed on exact integers: a shape that reaches past the 32-bit range
//! is clipped to the canvas like any other, without wrapping around.  Circle centres, outline
//! radii and line end points are read as 32-bit signed values; a disc radius is unsigned.

pub mod spec;
pub mod raster;
pub mod circle;
pub mod line;
pub mod ops;
pub mod laws;

use vstd::prelude::*;
use self::spec::buffer_fits;
use self::raster::dims_ok;
use self::ops::{DrawOp, apply_ops, apply_op, execute_op};

verus! {

/// Canvas state - RGBA pixel buffer with pending draw operations.
///
/// The alpha channel of every pixel is the fourth byte of its RGBA quadruple; as a
/// fraction it reads `a / 255`.
pub struct Canvas {
    pixels: Vec<u8>,
    operations: Vec<DrawOp>,
    width: u32,
    height: u32,
}

impl Canvas {
    #[verifier::type_invariant]
    spec fn well_formed(self) -> bool {
        &&& dims_ok(self.width, self.height)
        &&& buffer_fits(self.pixels@, self.width as int, self.height as int)
    }

    /// Width in pixels.
    pub closed spec fn spec_width(self) -> u32 {
        self.width
    }

    /// Height in pixels.
    pub closed spec fn spec_height(self) -> u32 {
        self.height
    }

    /// The RGBA bytes, row by row.
    pub closed spec fn spec_pixels(self) -> Seq<u8> {
        self.pixels@
    }

    /// Operations queued but not yet executed.
    pub closed spec fn spec_ops(self) -> Seq<DrawOp> {
        self.operations@
    }

    /// Create a new, fully transparent black canvas.
    pub fn new(width: u32, height: u32) -> (c: Self)
        requires
            dims_ok(width, height),
        ensures
            c.spec_width() == width,
            c.spec_height() == height,
            c.spec_pixels() == Seq::new((width * height * 4) as nat, |i: int| 0u8),
            c.spec_ops() == Seq::<DrawOp>::empty(),
    {
        let size: usize = (width as u64 * height as u64 * 4) as usize;
        let mut pixels: Vec<u8> = Vec::with_capacity(size);
        let mut i: usize = 0;
        while i < size
            invariant
                i <= size,
                size == width * height * 4,
                pixels@ == Seq::new(i as nat, |j: int| 0u8),
            decreases size - i,
        {
            pixels.push(0);
            i = i + 1;
        }
        Canvas { pixels, operations: Vec::new(), width, height }
    }

    /// Queue a draw operation.
    pub fn draw(self, op: DrawOp) -> (c: Self)
        ensures
            c.spec_width() == self.spec_width(),
            c.spec_height() == self.spec_height(),
            c.spec_pixels() == self.spec_pixels(),
            c.spec_ops() == self.spec_ops().push(op),
    {
        proof {
            use_type_invariant(&self);
        }
        let Canvas { pixels, mut operations, width, height } = self;
        operations.push(op);
        Canvas { pixels, operations, width, height }
    }

    /// Execute all pending operations in order, returning a canvas with none pending.
    pub fn execute_ops(&self) -> (c: Self)
        ensures
            c.spec_width() == self.spec_width(),
            c.spec_height() == self.spec_height(),
            c.spec_pixels() == apply_ops(self.spec_pixels(), self.spec_width() as int, self.spec_ops()),
            c.spec_ops() == Seq::<DrawOp>::empty(),
    {
        proof {
            use_type_invariant(self);
        }
        let w = self.width;
        let h = self.height;
        let mut pixels = self.pixels.clone();
        assert(pixels@ =~= self.pixels@);
        let n = self.operations.len();
        let mut i: usize = 0;
        while i < n
            invariant
                n == self.operations@.len(),
                i <= n,
                dims_ok(w, h),
                buffer_fits(pixels@, w as int, h as int),
                pixels@ == apply_ops(self.pixels@, w as int, self.operations@.take(i as int)),
            decreases n - i,
        {
            execute_op(&mut pixels, w, h, &self.operations[i]);
            proof {
                let ops = self.operations@.take(i + 1);
                assert(ops.drop_last() =~= self.operations@.take(i as int));
                assert(ops.last() == self.operations@[i as int]);
            }
            i = i + 1;
        }
        assert(self.operations@.take(n as int) =~= self.operations@);
        Canvas { pixels, operations: Vec::new(), width: w, height: h }
    }

    /// The RGBA pixel bytes, row by row.
    pub fn pixels(&self) -> (p: &[u8])
        ensures
            p@ == self.spec_pixels(),
            p@.len() == self.spec_width() * self.spec_height() * 4,
    {
        proof {
            use_type_invariant(self);
        }
        self.pixels.as_slice()
    }

    /// The alpha byte of every pixel, row by row.
    pub fn alpha(&self) -> (a: Vec<u8>)
        ensures
            a@.len() == self.spec_width() * self.spec_height(),
            forall|i: int| 0 <= i < a@.len() ==> #[trigger] a@[i] == self.spec_pixels()[4 * i + 3],
    {
        proof {
            use_type_invariant(self);
        }
        let n: usize = (self.width as u64 * self.height as u64) as usize;
        let mut a: Vec<u8> = Vec::with_capacity(n);
        let mut i: usize = 0;
        while i < n
            invariant
                n == self.width * self.height,
                dims_ok(self.width, self.height),
                self.pixels@.len() == n * 4,
                i <= n,
                a@.len() == i,
                forall|j: int| 0 <= j < i ==> #[trigger] a@[j] == self.pixels@[4 * j + 3],
            decreases n - i,
        {
            a.push(self.pixels[4 * i + 3]);
            i = i + 1;
        }
        a
    }

    /// Canvas dimensions `(width, height)`.
    pub fn dimensions(&self) -> (d: (u32, u32))
        ensures
            d == (self.spec_width(), self.spec_height()),
    {
        (self.width, self.height)
    }
}

impl Clone for Canvas {
    /// A canvas with the same dimensions, pixels and pending operations.
    fn clone(&self) -> (c: Self)
        ensures
            c.spec_width() == self.spec_width(),
            c.spec_height() == self.spec_height(),
            c.spec_pixels() == self.spec_pixels(),
            c.spec_ops() == self.spec_ops(),
    {
        proof {
            use_type_invariant(self);
        }
        let pixels = self.pixels.clone();
        let operations = self.operations.clone();
        assert(pixels@ =~= self.pixels@);
        assert(operations@ =~= self.operations@);
        Canvas { pixels, operations, width: self.width, height: self.height }
    }
}

} // verus!
