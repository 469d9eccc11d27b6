use vstd::prelude::*;
use crate::color::{alpha_of, blend, blend_pixel, lemma_blend_extremes};

verus! {

/// A top-down pixel buffer: `height` rows of `pitch` bytes, four bytes a pixel,
/// each pixel a packed 0xAARRGGBB value. The first `width` pixels of a row are
/// drawn on; the rest of the row is padding.
pub struct OffscreenBuffer {
    pub memory: Vec<u32>,
    pub width: u32,
    pub height: u32,
    pub pitch: u32,
}

/// One pixel write, in screen coordinates that may lie off the buffer.
pub ghost struct Plot {
    pub x: int,
    pub y: int,
    pub color: u32,
}

impl OffscreenBuffer {
    /// Pixels per row, padding included.
    pub open spec fn stride(&self) -> int {
        self.pitch as int / 4
    }

    pub open spec fn wf(&self) -> bool {
        &&& self.pitch % 4 == 0
        &&& self.width as int <= self.stride()
        &&& self.memory@.len() == self.height as int * self.stride()
    }

    pub open spec fn index(&self, x: int, y: int) -> int {
        y * self.stride() + x
    }

    pub open spec fn in_bounds(&self, x: int, y: int) -> bool {
        0 <= x < self.width && 0 <= y < self.height
    }

    /// The buffer's geometry is that of `other`.
    pub open spec fn same_shape(&self, other: &OffscreenBuffer) -> bool {
        &&& self.width == other.width
        &&& self.height == other.height
        &&& self.pitch == other.pitch
        &&& self.memory@.len() == other.memory@.len()
    }

    /// `mem` after one write: a pixel inside the buffer is blended with the
    /// plot's colour, one outside it is dropped.
    pub open spec fn paint(&self, mem: Seq<u32>, p: Plot) -> Seq<u32> {
        if self.in_bounds(p.x, p.y) {
            mem.update(self.index(p.x, p.y), blend(mem[self.index(p.x, p.y)], p.color))
        } else {
            mem
        }
    }

    /// `mem` after the writes of `ps`, in order.
    pub open spec fn paint_all(&self, mem: Seq<u32>, ps: Seq<Plot>) -> Seq<u32>
        decreases ps.len(),
    {
        if ps.len() == 0 {
            mem
        } else {
            self.paint(self.paint_all(mem, ps.drop_last()), ps.last())
        }
    }

    /// The value of the pixel at (x, y).
    pub open spec fn pixel(&self, x: int, y: int) -> u32 {
        self.memory@[self.index(x, y)]
    }

    pub proof fn lemma_index_in_memory(&self, x: int, y: int)
        requires
            self.wf(),
            self.in_bounds(x, y),
        ensures
            0 <= self.index(x, y) < self.memory@.len(),
    {
        let s = self.stride();
        let h = self.height as int;
        assert(0 <= y * s + x < h * s) by (nonlinear_arith)
            requires
                0 <= x < s,
                0 <= y < h,
        ;
    }

    pub proof fn lemma_paint_all_push(&self, mem: Seq<u32>, ps: Seq<Plot>, p: Plot)
        ensures
            self.paint_all(mem, ps.push(p)) == self.paint(self.paint_all(mem, ps), p),
    {
        assert(ps.push(p).drop_last() =~= ps);
    }

    /// Painting depends on the buffer's geometry alone.
    pub proof fn lemma_paint_all_same_shape(&self, other: &OffscreenBuffer, mem: Seq<u32>, ps: Seq<Plot>)
        requires
            self.width == other.width,
            self.height == other.height,
            self.pitch == other.pitch,
        ensures
            self.paint_all(mem, ps) == other.paint_all(mem, ps),
        decreases ps.len(),
    {
        if ps.len() > 0 {
            self.lemma_paint_all_same_shape(other, mem, ps.drop_last());
        }
    }

    /// A buffer of `width` by `height` pixels, all zero, with rows packed
    /// without padding.
    pub fn new(width: u32, height: u32) -> (r: OffscreenBuffer)
        requires
            width as int * 4 <= u32::MAX,
            width as int * height as int <= usize::MAX,
        ensures
            r.wf(),
            r.width == width,
            r.height == height,
            r.pitch == width as int * 4,
            forall|i: int| 0 <= i < r.memory@.len() ==> r.memory@[i] == 0,
    {
        let n = width as usize * height as usize;
        let mut memory: Vec<u32> = Vec::new();
        while memory.len() < n
            invariant
                memory@.len() <= n,
                forall|i: int| 0 <= i < memory@.len() ==> memory@[i] == 0,
            decreases n - memory@.len(),
        {
            memory.push(0);
        }
        let pitch = width * 4;
        assert(pitch as int / 4 == width as int);
        assert(width as int * height as int == height as int * width as int) by (nonlinear_arith);
        OffscreenBuffer { memory, width, height, pitch }
    }

    /// The value of the pixel at (x, y).
    pub fn get_pixel(&self, x: u32, y: u32) -> (r: u32)
        requires
            self.wf(),
            self.in_bounds(x as int, y as int),
        ensures
            r == self.pixel(x as int, y as int),
    {
        proof {
            self.lemma_index_in_memory(x as int, y as int);
        }
        let len = self.memory.len();
        let stride = (self.pitch / 4) as usize;
        assert(y as int * stride as int <= self.index(x as int, y as int) < len);
        self.memory[y as usize * stride + x as usize]
    }

    /// Sets every byte of the buffer to zero.
    pub fn clear(&mut self)
        requires
            old(self).wf(),
        ensures
            final(self).wf(),
            final(self).same_shape(old(self)),
            forall|i: int| 0 <= i < final(self).memory@.len() ==> final(self).memory@[i] == 0,
    {
        let n = self.memory.len();
        let mut i: usize = 0;
        while i < n
            invariant
                self.wf(),
                self.same_shape(old(self)),
                n == self.memory@.len(),
                i <= n,
                forall|j: int| 0 <= j < i ==> self.memory@[j] == 0,
            decreases n - i,
        {
            self.memory.set(i, 0);
            i = i + 1;
        }
    }

    /// Paints `color` over the pixel at (x, y), which must lie in the buffer.
    pub fn draw_pixel(&mut self, x: u32, y: u32, color: u32)
        requires
            old(self).wf(),
            old(self).in_bounds(x as int, y as int),
        ensures
            final(self).wf(),
            final(self).same_shape(old(self)),
            final(self).memory@ == old(self).memory@.update(
                old(self).index(x as int, y as int),
                blend(old(self).pixel(x as int, y as int), color),
            ),
    {
        proof {
            self.lemma_index_in_memory(x as int, y as int);
        }
        let len = self.memory.len();
        let stride = (self.pitch / 4) as usize;
        assert(y as int * stride as int <= self.index(x as int, y as int) < len);
        let i = y as usize * stride + x as usize;
        let v = blend_pixel(self.memory[i], color);
        self.memory.set(i, v);
    }

    /// Paints `color` at (x, y) when that pixel lies in the buffer; does
    /// nothing otherwise.
    pub fn plot(&mut self, x: i64, y: i64, color: u32)
        requires
            old(self).wf(),
        ensures
            final(self).wf(),
            final(self).same_shape(old(self)),
            final(self).memory@ == old(self).paint(
                old(self).memory@,
                Plot { x: x as int, y: y as int, color },
            ),
    {
        if 0 <= x && x < self.width as i64 && 0 <= y && y < self.height as i64 {
            self.draw_pixel(x as u32, y as u32, color);
        }
    }
}

/// After a clear, every pixel of the buffer reads zero.
pub proof fn lemma_clear_then_read(b: OffscreenBuffer, x: int, y: int)
    requires
        b.wf(),
        b.in_bounds(x, y),
        forall|i: int| 0 <= i < b.memory@.len() ==> b.memory@[i] == 0,
    ensures
        b.pixel(x, y) == 0,
{
    b.lemma_index_in_memory(x, y);
}

/// A pixel write as `draw_pixel` makes it: an opaque colour leaves exactly
/// that colour in the pixel, and a colour whose alpha is zero leaves the
/// whole buffer as it was.
pub proof fn lemma_draw_pixel_extremes(before: OffscreenBuffer, after: OffscreenBuffer, x: int, y: int, color: u32)
    requires
        before.wf(),
        before.in_bounds(x, y),
        after.same_shape(&before),
        after.memory@ == before.memory@.update(before.index(x, y), blend(before.pixel(x, y), color)),
    ensures
        alpha_of(color) == 255 ==> after.pixel(x, y) == color,
        alpha_of(color) == 0 ==> after.memory@ == before.memory@,
{
    before.lemma_index_in_memory(x, y);
    lemma_blend_extremes(before.pixel(x, y), color);
    if alpha_of(color) == 0 {
        assert(after.memory@ =~= before.memory@);
    }
}

} // verus!
