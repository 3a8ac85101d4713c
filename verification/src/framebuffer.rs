use vstd::prelude::*;

use crate::color::{color_of_word, storage_word, Color};
use crate::{Pixel, Point};

verus! {

/// The word with the bytes of `w` in reverse order.
pub open spec fn swap32(w: u32) -> u32 {
    ((w & 0xff) << 24u32) | ((w & 0xff00) << 8u32) | ((w >> 8u32) & 0xff00) | (w >> 24u32)
}

/// Reversing the bytes twice gives the word back.
pub proof fn lemma_swap32_involution(w: u32)
    ensures
        swap32(swap32(w)) == w,
{
    assert(swap32(swap32(w)) == w) by (bit_vector);
}

/// Calls `u32::to_be`. Its documentation: a no-op on big-endian targets, a
/// byte swap on little-endian ones. Claimed: the result is the argument or
/// its byte swap. Which of the two it is depends on the machine, so nothing
/// more is said.
#[verifier::external_body]
fn u32_to_be(x: u32) -> (r: u32)
    ensures
        r == x || r == swap32(x),
{
    x.to_be()
}

/// Reverses the bytes of a word.
fn swap_word(w: u32) -> (r: u32)
    ensures
        r == swap32(w),
{
    ((w & 0xff) << 24u32) | ((w & 0xff00) << 8u32) | ((w >> 8u32) & 0xff00) | (w >> 24u32)
}

/// Whether a word produced by `to_be(1)` shows that `to_be` swaps bytes.
pub fn swaps_for_probe(probe: u32) -> (b: bool)
    requires
        probe == 1 || probe == swap32(1),
    ensures
        b == (probe == swap32(1)),
{
    assert(swap32(1) == 0x0100_0000) by (bit_vector);
    probe != 1
}

/// Whether `to_be` swaps bytes on the machine that runs this code: it
/// asks `to_be` about the word 1 and reads the answer with
/// `swaps_for_probe`.
pub(crate) fn host_swaps_for_big_endian() -> bool {
    let probe = u32_to_be(1);
    swaps_for_probe(probe)
}

/// A framebuffer of `width * height` 32-bit words, row by row, ready to be
/// handed to the display. Each word holds a `Bgr888` storage word; a
/// big-endian buffer keeps it in big-endian byte order, which on a
/// little-endian host means byte-swapped.
pub struct DmaReadyFramebuffer {
    pub width: usize,
    pub height: usize,
    pub framebuffer: Vec<u32>,
    big_endian: bool,
    swapped: bool,
}

impl DmaReadyFramebuffer {
    /// The width in pixels.
    pub closed spec fn w(&self) -> usize {
        self.width
    }

    /// The height in pixels.
    pub closed spec fn h(&self) -> usize {
        self.height
    }

    /// The stored words, row by row.
    pub closed spec fn words(&self) -> Seq<u32> {
        self.framebuffer@
    }

    /// Whether words are kept in big-endian byte order.
    pub closed spec fn is_big_endian(&self) -> bool {
        self.big_endian
    }

    /// Whether words are stored byte-swapped with respect to the host's own
    /// byte order: only a big-endian buffer on a host that swaps for
    /// big-endian order stores them so.
    pub closed spec fn stores_swapped(&self) -> bool {
        self.swapped
    }

    /// The buffer holds one word per pixel, and only a big-endian buffer
    /// stores words swapped.
    pub open spec fn wf(&self) -> bool {
        &&& self.words().len() == self.w() * self.h()
        &&& self.stores_swapped() ==> self.is_big_endian()
    }

    /// The same size, byte order and storage as `other`.
    pub open spec fn same_layout(&self, other: &DmaReadyFramebuffer) -> bool {
        &&& self.w() == other.w()
        &&& self.h() == other.h()
        &&& self.is_big_endian() == other.is_big_endian()
        &&& self.stores_swapped() == other.stores_swapped()
    }

    /// Whether a point lies on the buffer, measured as the bounds check
    /// measures it: against the width and height converted to `i32`.
    pub open spec fn in_bounds(&self, p: Point) -> bool {
        0 <= p.x && p.x < self.w() as i32 && 0 <= p.y && p.y < self.h() as i32
    }

    /// The index of the word of an in-bounds point.
    pub open spec fn index_of(&self, p: Point) -> int {
        p.y * self.w() + p.x
    }

    /// The word stored for a `Bgr888` storage word.
    pub open spec fn encode(&self, w: u32) -> u32 {
        if self.stores_swapped() { swap32(w) } else { w }
    }

    /// The `Bgr888` storage word that a stored word holds.
    pub open spec fn decode(&self, w: u32) -> u32 {
        if self.stores_swapped() { swap32(w) } else { w }
    }

    /// The word stored for a colour.
    pub open spec fn word_of(&self, c: Color) -> u32 {
        self.encode(storage_word(c.r, c.g, c.b))
    }

    /// The colour shown at a point, or `None` off the buffer.
    pub open spec fn pixel_at(&self, p: Point) -> Option<Color> {
        if self.in_bounds(p) {
            Some(color_of_word(self.decode(self.words()[self.index_of(p)])))
        } else {
            None
        }
    }

    /// The words `words` after drawing one pixel on this buffer's geometry
    /// and byte order: in bounds its word is replaced, off the buffer
    /// nothing changes.
    pub open spec fn put_pixel(&self, words: Seq<u32>, p: Point, c: Color) -> Seq<u32> {
        if self.in_bounds(p) {
            words.update(self.index_of(p), self.word_of(c))
        } else {
            words
        }
    }

    /// The words after drawing one pixel.
    pub open spec fn words_with_pixel(&self, p: Point, c: Color) -> Seq<u32> {
        self.put_pixel(self.words(), p, c)
    }

    /// The words after drawing the given pixels in order.
    pub open spec fn words_after(&self, pixels: Seq<Pixel>) -> Seq<u32>
        decreases pixels.len(),
    {
        if pixels.len() == 0 {
            self.words()
        } else {
            self.put_pixel(self.words_after(pixels.drop_last()), pixels.last().point, pixels.last().color)
        }
    }

    /// A black framebuffer of the given size, big-endian or not, that stores
    /// words swapped exactly when it is big-endian and `host_swaps` says the
    /// host's own order is not big-endian.
    pub fn with_byte_order(width: usize, height: usize, big_endian: bool, host_swaps: bool) -> (fb:
        DmaReadyFramebuffer)
        requires
            width * height * 4 <= isize::MAX,
        ensures
            fb.wf(),
            fb.w() == width,
            fb.h() == height,
            fb.is_big_endian() == big_endian,
            fb.stores_swapped() == (big_endian && host_swaps),
            fb.words() == Seq::new((width * height) as nat, |i: int| 0u32),
    {
        let framebuffer = vec![0u32; width * height];
        let fb = DmaReadyFramebuffer {
            width,
            height,
            framebuffer,
            big_endian,
            swapped: big_endian && host_swaps,
        };
        assert(fb.words() == Seq::new((width * height) as nat, |i: int| 0u32));
        fb
    }

    /// A black framebuffer of the given size. A big-endian one stores words
    /// swapped exactly when `to_be` swaps bytes on this machine.
    pub fn new(width: usize, height: usize, big_endian: bool) -> (fb: DmaReadyFramebuffer)
        requires
            width * height * 4 <= isize::MAX,
        ensures
            fb.wf(),
            fb.w() == width,
            fb.h() == height,
            fb.is_big_endian() == big_endian,
            fb.stores_swapped() ==> big_endian,
            fb.words() == Seq::new((width * height) as nat, |i: int| 0u32),
    {
        let host_swaps = host_swaps_for_big_endian();
        DmaReadyFramebuffer::with_byte_order(width, height, big_endian, host_swaps)
    }

    /// Whether words are kept in big-endian byte order.
    pub fn big_endian(&self) -> (b: bool)
        ensures
            b == self.is_big_endian(),
    {
        self.big_endian
    }

    /// Stores a colour at a point; points off the buffer are ignored.
    pub fn set_pixel(&mut self, point: Point, color: Color)
        requires
            old(self).wf(),
        ensures
            final(self).words() == old(self).words_with_pixel(point, color),
            final(self).same_layout(old(self)),
            final(self).wf(),
    {
        if point.x >= 0 && point.x < self.width as i32 && point.y >= 0 && point.y
            < self.height as i32 {
            let n = self.framebuffer.len();
            proof {
                lemma_in_bounds_index(self.width, self.height, point);
            }
            assert(point.y * self.width <= point.y * self.width + point.x < n);
            let index = point.y as usize * self.width + point.x as usize;
            let storage = color.into_storage();
            let word = if self.swapped {
                swap_word(storage)
            } else {
                storage
            };
            self.framebuffer.set(index, word);
        }
    }

    /// The colour at a point, or `None` for points off the buffer.
    pub fn get_pixel(&mut self, point: Point) -> (c: Option<Color>)
        requires
            old(self).wf(),
        ensures
            c == old(self).pixel_at(point),
            *final(self) == *old(self),
    {
        if point.x >= 0 && point.x < self.width as i32 && point.y >= 0 && point.y
            < self.height as i32 {
            let n = self.framebuffer.len();
            proof {
                lemma_in_bounds_index(self.width, self.height, point);
            }
            assert(point.y * self.width <= point.y * self.width + point.x < n);
            let index = point.y as usize * self.width + point.x as usize;
            let word = self.framebuffer[index];
            let storage = if self.swapped {
                swap_word(word)
            } else {
                word
            };
            Some(Color::from_storage(storage))
        } else {
            None
        }
    }

    /// Stores the given pixels one after another.
    pub fn draw_iter(&mut self, pixels: &Vec<Pixel>)
        requires
            old(self).wf(),
        ensures
            final(self).wf(),
            final(self).same_layout(old(self)),
            final(self).words() == old(self).words_after(pixels@),
    {
        let mut i: usize = 0;
        while i < pixels.len()
            invariant
                0 <= i <= pixels@.len(),
                self.wf(),
                self.same_layout(old(self)),
                self.words() == old(self).words_after(pixels@.take(i as int)),
            decreases pixels@.len() - i,
        {
            let pixel = pixels[i];
            proof {
                assert(pixels@.take(i + 1).drop_last() == pixels@.take(i as int));
            }
            self.set_pixel(pixel.point, pixel.color);
            i = i + 1;
        }
        proof {
            assert(pixels@.take(pixels@.len() as int) == pixels@);
        }
    }

    /// Stores the same colour in every word.
    pub fn clear(&mut self, color: Color)
        requires
            old(self).wf(),
        ensures
            final(self).wf(),
            final(self).same_layout(old(self)),
            final(self).words() == Seq::new(old(self).words().len(), |i: int| old(self).word_of(color)),
    {
        let storage = color.into_storage();
        let word = if self.swapped {
            swap_word(storage)
        } else {
            storage
        };
        let n = self.framebuffer.len();
        let mut i: usize = 0;
        while i < n
            invariant
                0 <= i <= n,
                n == self.framebuffer@.len(),
                n == old(self).framebuffer@.len(),
                word == old(self).word_of(color),
                self.width == old(self).width,
                self.height == old(self).height,
                self.big_endian == old(self).big_endian,
                self.swapped == old(self).swapped,
                forall|j: int| 0 <= j < i ==> self.framebuffer@[j] == word,
            decreases n - i,
        {
            self.framebuffer.set(i, word);
            i = i + 1;
        }
        proof {
            assert(self.framebuffer@ == Seq::new(n as nat, |j: int| old(self).word_of(color)));
        }
    }

    /// The width and height in pixels, as `u32`.
    pub fn size(&self) -> (s: (u32, u32))
        ensures
            s == (self.w() as u32, self.h() as u32),
    {
        (self.width as u32, self.height as u32)
    }
}

/// Reading a pixel gives back the colour last stored there: after
/// `set_pixel(p, c)` the pixel at `p` is `c` when `p` lies on the buffer,
/// and every other pixel keeps its colour.
pub proof fn law_get_after_set(
    before: DmaReadyFramebuffer,
    after: DmaReadyFramebuffer,
    p: Point,
    c: Color,
    q: Point,
)
    requires
        before.wf(),
        after.same_layout(&before),
        after.words() == before.words_with_pixel(p, c),
    ensures
        before.in_bounds(p) ==> after.pixel_at(p) == Some(c),
        q != p ==> after.pixel_at(q) == before.pixel_at(q),
{
    if before.in_bounds(p) {
        lemma_in_bounds_index(before.width, before.height, p);
        let w = storage_word(c.r, c.g, c.b);
        crate::color::law_storage_roundtrip(c);
        lemma_swap32_involution(w);
        assert(after.words()[before.index_of(p)] == before.word_of(c));
        if q != p && before.in_bounds(q) {
            lemma_in_bounds_index(before.width, before.height, q);
            lemma_distinct_index(before.width, p, q);
        }
    }
}

/// After `clear(c)` every pixel on the buffer shows `c`.
pub proof fn law_clear(before: DmaReadyFramebuffer, after: DmaReadyFramebuffer, c: Color, q: Point)
    requires
        before.wf(),
        after.same_layout(&before),
        after.words() == Seq::new(before.words().len(), |i: int| before.word_of(c)),
        after.in_bounds(q),
    ensures
        after.pixel_at(q) == Some(c),
{
    lemma_in_bounds_index(before.width, before.height, q);
    crate::color::law_storage_roundtrip(c);
    lemma_swap32_involution(storage_word(c.r, c.g, c.b));
}

/// A new framebuffer is black everywhere on it.
pub proof fn law_new_is_black(fb: DmaReadyFramebuffer, q: Point)
    requires
        fb.wf(),
        fb.words() == Seq::new((fb.w() * fb.h()) as nat, |i: int| 0u32),
        fb.in_bounds(q),
    ensures
        fb.pixel_at(q) == Some(Color { r: 0, g: 0, b: 0 }),
{
    lemma_in_bounds_index(fb.width, fb.height, q);
    assert(swap32(0) == 0) by (bit_vector);
}

/// Distinct points on the buffer have distinct word indices.
proof fn lemma_distinct_index(width: usize, p: Point, q: Point)
    requires
        0 <= p.x < width,
        0 <= q.x < width,
        0 <= p.y,
        0 <= q.y,
        p != q,
    ensures
        p.y * width + p.x != q.y * width + q.x,
{
    if p.y == q.y {
        assert(p.x != q.x);
    } else if p.y < q.y {
        assert(p.y * width + width <= q.y * width) by (nonlinear_arith)
            requires
                p.y < q.y,
                0 <= width,
        ;
    } else {
        assert(q.y * width + width <= p.y * width) by (nonlinear_arith)
            requires
                q.y < p.y,
                0 <= width,
        ;
    }
}

/// A non-negative coordinate below a size converted to `i32` is below the size.
proof fn lemma_below_cast(size: usize, v: i32)
    by (bit_vector)
    requires
        0 <= v,
        v < size as i32,
    ensures
        v < size,
{
}

/// An in-bounds point addresses a word of the buffer.
proof fn lemma_in_bounds_index(width: usize, height: usize, p: Point)
    requires
        0 <= p.x,
        p.x < width as i32,
        0 <= p.y,
        p.y < height as i32,
    ensures
        p.x < width,
        p.y < height,
        p.y * width + p.x < width * height,
{
    lemma_below_cast(width, p.x);
    lemma_below_cast(height, p.y);
    assert(p.y * width + p.x < width * height) by (nonlinear_arith)
        requires
            0 <= p.x < width,
            0 <= p.y < height,
    ;
}

/// The word a framebuffer stores for a colour: with the host's byte order,
/// red in the low byte, then green, then blue, the top byte zero; stored
/// swapped (a big-endian buffer on a little-endian host), red in the top
/// byte, then green, then blue, the low byte zero.
pub proof fn law_stored_word_layout(fb: DmaReadyFramebuffer, c: Color)
    ensures
        !fb.stores_swapped() ==> fb.word_of(c) == (c.r as u32) | ((c.g as u32) << 8u32) | ((c.b as u32) << 16u32),
        fb.stores_swapped() ==> fb.word_of(c) == ((c.r as u32) << 24u32) | ((c.g as u32) << 16u32) | ((c.b as u32)
            << 8u32),
{
    let (r, g, b) = (c.r, c.g, c.b);
    let w = storage_word(r, g, b);
    assert(w == (r as u32) + (g as u32) * 256 + (b as u32) * 65536);
    assert(w == (r as u32) | ((g as u32) << 8u32) | ((b as u32) << 16u32)) by (bit_vector)
        requires
            w == (r as u32) + (g as u32) * 256 + (b as u32) * 65536,
    ;
    let x = swap32(w);
    assert(x == ((r as u32) << 24u32) | ((g as u32) << 16u32) | ((b as u32) << 8u32)) by (bit_vector)
        requires
            w == (r as u32) + (g as u32) * 256 + (b as u32) * 65536,
            x == ((w & 0xff) << 24u32) | ((w & 0xff00) << 8u32) | ((w >> 8u32) & 0xff00) | (w >> 24u32),
    ;
}

} // verus!
