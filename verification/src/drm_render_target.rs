use vstd::prelude::*;

use crate::color::{storage_word, Color};
use crate::framebuffer::{swap32, DmaReadyFramebuffer};

verus! {

/// A failure to put a framebuffer on the display.
#[derive(Clone, Copy, Debug, PartialEq, Eq, Structural)]
pub enum FbWriteError {
    Error,
}

/// Something that shows framebuffers of 32-bit words.
pub trait FramebufferTarget {
    fn eat_framebuffer(&mut self, buf: &[u32]) -> Result<(), FbWriteError>;
}

/// How many device nodes are tried when looking for a display.
pub const DEVICE_COUNT: usize = 5;

/// The device nodes tried, in order: the three primary cards, then the two
/// render nodes.
pub open spec fn device_path_spec(i: int) -> Seq<char> {
    if i == 0 {
        "/dev/dri/card0"@
    } else if i == 1 {
        "/dev/dri/card1"@
    } else if i == 2 {
        "/dev/dri/card2"@
    } else if i == 3 {
        "/dev/dri/renderD128"@
    } else {
        "/dev/dri/renderD129"@
    }
}

/// The `i`-th device node to try.
pub fn device_path(i: usize) -> (p: &'static str)
    requires
        i < DEVICE_COUNT,
    ensures
        p@ == device_path_spec(i as int),
{
    if i == 0 {
        "/dev/dri/card0"
    } else if i == 1 {
        "/dev/dri/card1"
    } else if i == 2 {
        "/dev/dri/card2"
    } else if i == 3 {
        "/dev/dri/renderD128"
    } else {
        "/dev/dri/renderD129"
    }
}

/// What to do after trying a device node.
#[derive(Clone, Copy, Debug, PartialEq, Eq, Structural)]
pub enum ProbeStep {
    /// Use the device node with this index.
    Use(usize),
    /// Try the device node with this index next.
    Try(usize),
    /// No device node could be opened.
    GiveUp,
}

/// The step that follows trying device node `tried`, where `opened` says
/// whether it opened.
pub open spec fn probe_step_spec(tried: int, opened: bool) -> ProbeStep {
    if opened {
        ProbeStep::Use(tried as usize)
    } else if tried + 1 < DEVICE_COUNT {
        ProbeStep::Try((tried + 1) as usize)
    } else {
        ProbeStep::GiveUp
    }
}

/// The next step of the search for a display, after trying the device node
/// with index `tried`: use it if it opened, otherwise try the next one, and
/// give up after the last.
pub fn probe_step(tried: usize, opened: bool) -> (s: ProbeStep)
    requires
        tried < DEVICE_COUNT,
    ensures
        s == probe_step_spec(tried as int, opened),
        opened ==> s == ProbeStep::Use(tried),
        !opened && tried + 1 < DEVICE_COUNT ==> s == ProbeStep::Try((tried + 1) as usize),
        !opened && tried + 1 == DEVICE_COUNT ==> s == ProbeStep::GiveUp,
{
    if opened {
        ProbeStep::Use(tried)
    } else if tried + 1 < DEVICE_COUNT {
        ProbeStep::Try(tried + 1)
    } else {
        ProbeStep::GiveUp
    }
}

/// The device node a whole search settles on, starting at node `i`, when
/// `opens[k]` says whether node `k` opens: the steps of `probe_step_spec`
/// followed until one uses a node (`Some`) or gives up (`None`).
pub open spec fn probe_outcome(opens: Seq<bool>, i: int) -> Option<int>
    decreases DEVICE_COUNT - i,
{
    if 0 <= i < DEVICE_COUNT {
        match probe_step_spec(i, opens[i]) {
            ProbeStep::Use(k) => Some(k as int),
            ProbeStep::Try(next) => probe_outcome(opens, next as int),
            ProbeStep::GiveUp => None,
        }
    } else {
        None
    }
}

/// A search that follows `probe_step` from the first device node uses the
/// first node in the list that opens, and gives up only when none of them
/// opens.
pub proof fn law_search_uses_first_open(opens: Seq<bool>)
    requires
        opens.len() == DEVICE_COUNT,
    ensures
        forall|k: int|
            0 <= k < DEVICE_COUNT ==> (probe_outcome(opens, 0) == Some(k) <==> (opens[k]
                && forall|j: int| 0 <= j < k ==> !opens[j])),
        probe_outcome(opens, 0) is None <==> forall|j: int| 0 <= j < DEVICE_COUNT ==> !opens[j],
{
    lemma_outcome_from(opens, 0);
}

/// From node `i` on, the search settles on the first node at or after `i`
/// that opens.
proof fn lemma_outcome_from(opens: Seq<bool>, i: int)
    requires
        opens.len() == DEVICE_COUNT,
        0 <= i <= DEVICE_COUNT,
    ensures
        forall|k: int|
            i <= k < DEVICE_COUNT ==> (probe_outcome(opens, i) == Some(k) <==> (opens[k]
                && forall|j: int| i <= j < k ==> !opens[j])),
        probe_outcome(opens, i) is None <==> forall|j: int| i <= j < DEVICE_COUNT ==> !opens[j],
        probe_outcome(opens, i) matches Some(k) ==> i <= k < DEVICE_COUNT,
    decreases DEVICE_COUNT - i,
{
    if i < DEVICE_COUNT && !opens[i] && i + 1 < DEVICE_COUNT {
        lemma_outcome_from(opens, i + 1);
    }
}

/// Byte `k` (0 to 3) of the scan-out form of a framebuffer word: the top
/// three bytes of the word, highest first, then an opaque alpha of 255.
pub open spec fn scanout_byte(word: u32, k: int) -> u8 {
    if k == 0 {
        ((word >> 24u32) & 0xff) as u8
    } else if k == 1 {
        ((word >> 16u32) & 0xff) as u8
    } else if k == 2 {
        ((word >> 8u32) & 0xff) as u8
    } else {
        255u8
    }
}

/// Writes `width * height` framebuffer words into a mapped display buffer of
/// four bytes per pixel, row by row: for word `p` the bytes at `4 * p` to
/// `4 * p + 3` become its scan-out form. Bytes beyond are left alone.
pub fn write_scanout(buf: &mut [u8], buffer: &[u32], width: usize, height: usize)
    requires
        width * height <= buffer@.len(),
        width * height * 4 <= old(buf)@.len(),
    ensures
        final(buf)@.len() == old(buf)@.len(),
        forall|k: int|
            0 <= k < final(buf)@.len() ==> #[trigger] final(buf)@[k] == if k < width * height * 4 {
                scanout_byte(buffer@[k / 4], k % 4)
            } else {
                old(buf)@[k]
            },
        forall|p: int|
            #![trigger buffer@[p]]
            0 <= p < width * height ==> {
                &&& final(buf)@[4 * p] == ((buffer@[p] >> 24u32) & 0xff) as u8
                &&& final(buf)@[4 * p + 1] == ((buffer@[p] >> 16u32) & 0xff) as u8
                &&& final(buf)@[4 * p + 2] == ((buffer@[p] >> 8u32) & 0xff) as u8
                &&& final(buf)@[4 * p + 3] == 255u8
            },
{
    let len = buf.len();
    let n = width * height;
    let mut p: usize = 0;
    while p < n
        invariant
            0 <= p <= n,
            n == width * height,
            n <= buffer@.len(),
            n * 4 <= buf@.len(),
            len == buf@.len(),
            buf@.len() == old(buf)@.len(),
            forall|k: int|
                0 <= k < buf@.len() ==> #[trigger] buf@[k] == if k < p * 4 {
                    scanout_byte(buffer@[k / 4], k % 4)
                } else {
                    old(buf)@[k]
                },
        decreases n - p,
    {
        let word = buffer[p];
        let o = p * 4;
        buf[o] = ((word >> 24u32) & 0xff) as u8;
        buf[o + 1] = ((word >> 16u32) & 0xff) as u8;
        buf[o + 2] = ((word >> 8u32) & 0xff) as u8;
        buf[o + 3] = 255u8;
        p = p + 1;
        proof {
            assert forall|k: int| 0 <= k < buf@.len() implies #[trigger] buf@[k] == if k < p * 4 {
                scanout_byte(buffer@[k / 4], k % 4)
            } else {
                old(buf)@[k]
            } by {
                if o <= k < o + 4 {
                    assert(k / 4 == p - 1);
                    assert(k % 4 == k - o);
                }
            }
        }
    }
    proof {
        assert forall|q: int| #![trigger buffer@[q]] 0 <= q < width * height implies {
            &&& buf@[4 * q] == ((buffer@[q] >> 24u32) & 0xff) as u8
            &&& buf@[4 * q + 1] == ((buffer@[q] >> 16u32) & 0xff) as u8
            &&& buf@[4 * q + 2] == ((buffer@[q] >> 8u32) & 0xff) as u8
            &&& buf@[4 * q + 3] == 255u8
        } by {
            assert((4 * q) / 4 == q && (4 * q) % 4 == 0);
            assert((4 * q + 1) / 4 == q && (4 * q + 1) % 4 == 1);
            assert((4 * q + 2) / 4 == q && (4 * q + 2) % 4 == 2);
            assert((4 * q + 3) / 4 == q && (4 * q + 3) % 4 == 3);
            assert(buf@[4 * q] == scanout_byte(buffer@[q], 0));
            assert(buf@[4 * q + 1] == scanout_byte(buffer@[q], 1));
            assert(buf@[4 * q + 2] == scanout_byte(buffer@[q], 2));
            assert(buf@[4 * q + 3] == scanout_byte(buffer@[q], 3));
        }
    }
}

/// A framebuffer that stores its words byte-swapped (a big-endian buffer on
/// a little-endian host) is shown in its true colours: the scan-out bytes of
/// the word stored for colour `c` are its red, green and blue channels, in
/// that order, followed by an opaque alpha.
pub proof fn law_scanout_shows_stored_colour(fb: DmaReadyFramebuffer, c: Color)
    requires
        fb.stores_swapped(),
    ensures
        scanout_byte(fb.word_of(c), 0) == c.r,
        scanout_byte(fb.word_of(c), 1) == c.g,
        scanout_byte(fb.word_of(c), 2) == c.b,
        scanout_byte(fb.word_of(c), 3) == 255,
{
    let (r, g, b) = (c.r, c.g, c.b);
    let w = storage_word(r, g, b);
    assert(w == (r as u32) + (g as u32) * 256 + (b as u32) * 65536);
    let x = swap32(w);
    assert(((x >> 24u32) & 0xff) as u8 == r && ((x >> 16u32) & 0xff) as u8 == g && ((x >> 8u32) & 0xff) as u8 == b) by (bit_vector)
        requires
            w == (r as u32) + (g as u32) * 256 + (b as u32) * 65536,
            x == ((w & 0xff) << 24u32) | ((w & 0xff00) << 8u32) | ((w >> 8u32) & 0xff00) | (w >> 24u32),
    ;
}

/// Whether pixel `p` of a `width`-wide buffer lies in an odd row below
/// `height` and an odd column.
pub open spec fn pattern_pixel(p: int, width: int, height: int) -> bool {
    &&& width > 0
    &&& p / width < height
    &&& (p / width) % 2 == 1
    &&& (p % width) % 2 == 1
}

/// Byte `k` (0 to 3) of a pixel of the start-up pattern.
pub open spec fn pattern_byte(k: int) -> u8 {
    if k == 0 {
        128u8
    } else if k == 1 {
        0u8
    } else if k == 2 {
        128u8
    } else {
        255u8
    }
}

/// The largest odd number not above `n`, or -1.
pub open spec fn odd_floor(n: int) -> int {
    if n % 2 == 1 { n } else { n - 1 }
}

/// The last pixel of the pattern fits the buffer.
pub open spec fn pattern_fits(len: nat, width: nat, height: nat) -> bool {
    (width >= 2 && height >= 2) ==> odd_floor(height - 1) * width * 4 + odd_floor(width - 1) * 4
        + 4 <= len
}

/// Whether the start-up pattern of a `width` x `height` display fits a
/// mapped buffer of `len` bytes.
pub fn test_pattern_fits(len: usize, width: usize, height: usize) -> (ok: bool)
    ensures
        ok == pattern_fits(len as nat, width as nat, height as nat),
{
    if width < 2 || height < 2 {
        return true;
    }
    let last_row = if (height - 1) % 2 == 1 { height - 1 } else { height - 2 };
    let last_col = if (width - 1) % 2 == 1 { width - 1 } else { width - 2 };
    // compare last_row * width * 4 + last_col * 4 + 4 <= len without overflow
    if len < 4 {
        return false;
    }
    let room = (len - 4) / 4;
    if last_col > room {
        return false;
    }
    let room = room - last_col;
    if last_row == 0 {
        return true;
    }
    let ok = width <= room / last_row;
    proof {
        lemma_fits_by_division(len as int, width as int, last_row as int, last_col as int);
    }
    ok
}

/// The byte bound of the pattern's last pixel, checked by division.
proof fn lemma_fits_by_division(len: int, width: int, last_row: int, last_col: int)
    requires
        len >= 4,
        width >= 2,
        last_row >= 1,
        0 <= last_col <= (len - 4) / 4,
    ensures
        (last_row * width * 4 + last_col * 4 + 4 <= len) == (width <= ((len - 4) / 4 - last_col) / last_row),
{
    let room = (len - 4) / 4 - last_col;
    vstd::arithmetic::div_mod::lemma_fundamental_div_mod(len - 4, 4);
    vstd::arithmetic::div_mod::lemma_fundamental_div_mod(room, last_row);
    // last_row * width * 4 + last_col * 4 + 4 <= len  <=>  last_row * width <= room
    assert((last_row * width * 4 + last_col * 4 + 4 <= len) == (last_row * width <= room)) by (nonlinear_arith)
        requires
            len - 4 == 4 * ((len - 4) / 4) + (len - 4) % 4,
            0 <= (len - 4) % 4 < 4,
            room == (len - 4) / 4 - last_col,
    ;
    assert((last_row * width <= room) == (width <= room / last_row)) by (nonlinear_arith)
        requires
            room == last_row * (room / last_row) + room % last_row,
            0 <= room % last_row < last_row,
            last_row >= 1,
            room >= 0,
    ;
}

/// Paints the start-up pattern into a mapped display buffer of four bytes
/// per pixel: every pixel in an odd row and an odd column becomes
/// (128, 0, 128, 255); all other bytes are left alone.
pub fn fill_test_pattern(buf: &mut [u8], width: usize, height: usize)
    requires
        pattern_fits(old(buf)@.len(), width as nat, height as nat),
    ensures
        final(buf)@.len() == old(buf)@.len(),
        forall|k: int|
            0 <= k < final(buf)@.len() ==> #[trigger] final(buf)@[k] == if pattern_pixel(
                k / 4,
                width as int,
                height as int,
            ) {
                pattern_byte(k % 4)
            } else {
                old(buf)@[k]
            },
        forall|p: int|
            width > 0 && 0 <= p < width * height && (p / width as int) % 2 == 1 && (p % width as int) % 2
                == 1 ==> #[trigger] pixel_bytes(final(buf)@, p) == (128u8, 0u8, 128u8, 255u8),
        forall|k: int|
            0 <= k < final(buf)@.len() && !(width > 0 && k / 4 < width * height && ((k / 4) / width as int)
                % 2 == 1 && ((k / 4) % width as int) % 2 == 1) ==> #[trigger] final(buf)@[k] == old(buf)@[k],
{
    if width < 2 || height < 2 {
        proof {
            assert forall|k: int| 0 <= k < buf@.len() implies !#[trigger] pattern_pixel(k / 4, width as int, height as int) by {
                lemma_pattern_needs_two(k / 4, width as int, height as int);
            }
            law_pattern_pixels_are_magenta(old(buf)@, buf@, width as int, height as int);
        }
        return;
    }
    let len = buf.len();
    let ghost w = width as int;
    let mut j: usize = 1;
    while j < height
        invariant
            1 <= j <= height + 1,
            j % 2 == 1,
            width >= 2,
            height >= 2,
            w == width,
            len == buf@.len(),
            pattern_fits(old(buf)@.len(), width as nat, height as nat),
            buf@.len() == old(buf)@.len(),
            forall|k: int|
                0 <= k < buf@.len() ==> #[trigger] buf@[k] == if pattern_pixel(
                    k / 4,
                    width as int,
                    height as int,
                ) && k / 4 < (j - 1) * width {
                    pattern_byte(k % 4)
                } else {
                    old(buf)@[k]
                },
        decreases height + 1 - j,
    {
        proof {
            assert forall|k: int| 0 <= k < buf@.len() implies #[trigger] buf@[k] == if pattern_pixel(
                k / 4,
                width as int,
                height as int,
            ) && k / 4 < j * width {
                pattern_byte(k % 4)
            } else {
                old(buf)@[k]
            } by {
                let p = k / 4;
                assert((j - 1) * w + w == j * w) by (nonlinear_arith);
                if (j - 1) * w <= p < j * w {
                    lemma_row_of(p, j - 1, w);
                }
            }
        }
        let mut i: usize = 1;
        while i < width
            invariant
                1 <= i <= width + 1,
                i % 2 == 1,
                j % 2 == 1,
                1 <= j < height,
                width >= 2,
                w == width,
                len == buf@.len(),
                pattern_fits(old(buf)@.len(), width as nat, height as nat),
                buf@.len() == old(buf)@.len(),
                forall|k: int|
                    0 <= k < buf@.len() ==> #[trigger] buf@[k] == if pattern_pixel(
                        k / 4,
                        width as int,
                        height as int,
                    ) && k / 4 < j * width + i - 1 {
                        pattern_byte(k % 4)
                    } else {
                        old(buf)@[k]
                    },
            decreases width + 1 - i,
        {
            proof {
                lemma_pattern_offset_fits(buf@.len(), width as int, height as int, j as int, i as int);
            }
            let o = (j * width + i) * 4;
            buf[o] = 128u8;
            buf[o + 1] = 0u8;
            buf[o + 2] = 128u8;
            buf[o + 3] = 255u8;
            proof {
                assert forall|k: int| 0 <= k < buf@.len() implies #[trigger] buf@[k] == if pattern_pixel(
                    k / 4,
                    width as int,
                    height as int,
                ) && k / 4 < j * width + i + 1 {
                    pattern_byte(k % 4)
                } else {
                    old(buf)@[k]
                } by {
                    if o <= k < o + 4 {
                        assert(k / 4 == j * width + i);
                        assert(k % 4 == k - o);
                        lemma_row_col(j as int, i as int, w);
                    } else if k / 4 == j * width + i - 1 {
                        lemma_row_col(j as int, (i - 1) as int, w);
                    }
                }
            }
            i = i + 2;
        }
        proof {
            assert forall|k: int| 0 <= k < buf@.len() implies #[trigger] buf@[k] == if pattern_pixel(
                k / 4,
                width as int,
                height as int,
            ) && k / 4 < (j + 1) * width {
                pattern_byte(k % 4)
            } else {
                old(buf)@[k]
            } by {
                let p = k / 4;
                assert((j + 1) * w == j * w + w) by (nonlinear_arith);
                if i == width && p == j * w + w - 1 {
                    lemma_row_col(j as int, w - 1, w);
                }
            }
        }
        j = j + 2;
    }
    proof {
        assert forall|k: int| 0 <= k < buf@.len() implies #[trigger] buf@[k] == if pattern_pixel(
            k / 4,
            width as int,
            height as int,
        ) {
            pattern_byte(k % 4)
        } else {
            old(buf)@[k]
        } by {
            let p = k / 4;
            lemma_pixel_position(p, w);
            if pattern_pixel(p, w, height as int) {
                assert(p / w < height);
                assert(p / w <= j - 2) by {
                    assert(p / w % 2 == 1);
                }
                assert(p < (j - 1) * w) by (nonlinear_arith)
                    requires
                        p / w <= j - 2,
                        p == w * (p / w) + p % w,
                        0 <= p % w < w,
                ;
            }
        }
    }
    proof {
        law_pattern_pixels_are_magenta(old(buf)@, buf@, width as int, height as int);
    }
}

/// The four bytes of pixel `p` in a buffer of four bytes per pixel.
pub open spec fn pixel_bytes(s: Seq<u8>, p: int) -> (u8, u8, u8, u8) {
    (s[4 * p], s[4 * p + 1], s[4 * p + 2], s[4 * p + 3])
}

/// Once the start-up pattern is painted, every pixel in an odd row and an
/// odd column of the display holds the bytes 128, 0, 128, 255: blue 128,
/// green 0, red 128 and an opaque alpha, a magenta dot; every other byte is
/// left as it was.
pub proof fn law_pattern_pixels_are_magenta(before: Seq<u8>, after: Seq<u8>, width: int, height: int)
    requires
        after.len() == before.len(),
        pattern_fits(before.len(), width as nat, height as nat),
        width >= 0,
        height >= 0,
        forall|k: int|
            0 <= k < after.len() ==> #[trigger] after[k] == if pattern_pixel(k / 4, width, height) {
                pattern_byte(k % 4)
            } else {
                before[k]
            },
    ensures
        forall|p: int|
            width > 0 && 0 <= p < width * height && (p / width) % 2 == 1 && (p % width) % 2 == 1
                ==> #[trigger] pixel_bytes(after, p) == (128u8, 0u8, 128u8, 255u8),
        forall|k: int|
            0 <= k < after.len() && !(width > 0 && k / 4 < width * height && ((k / 4) / width) % 2 == 1
                && ((k / 4) % width) % 2 == 1) ==> #[trigger] after[k] == before[k],
{
    assert forall|p: int|
        width > 0 && 0 <= p < width * height && (p / width) % 2 == 1 && (p % width) % 2 == 1
            implies #[trigger] pixel_bytes(after, p) == (128u8, 0u8, 128u8, 255u8) by {
        lemma_pixel_position(p, width);
        assert(p / width < height) by (nonlinear_arith)
            requires
                p == width * (p / width) + p % width,
                0 <= p % width < width,
                p < width * height,
        ;
        assert(pattern_pixel(p, width, height));
        lemma_pattern_offset_fits(
            before.len(),
            width,
            height,
            p / width,
            p % width,
        );
        assert(4 * p + 4 <= after.len()) by (nonlinear_arith)
            requires
                p == width * (p / width) + p % width,
                ((p / width) * width + p % width) * 4 + 4 <= after.len(),
        ;
        assert((4 * p) / 4 == p && (4 * p) % 4 == 0);
        assert((4 * p + 1) / 4 == p && (4 * p + 1) % 4 == 1);
        assert((4 * p + 2) / 4 == p && (4 * p + 2) % 4 == 2);
        assert((4 * p + 3) / 4 == p && (4 * p + 3) % 4 == 3);
        assert(after[4 * p] == pattern_byte(0));
        assert(after[4 * p + 1] == pattern_byte(1));
        assert(after[4 * p + 2] == pattern_byte(2));
        assert(after[4 * p + 3] == pattern_byte(3));
    }
    assert forall|k: int|
        0 <= k < after.len() && !(width > 0 && k / 4 < width * height && ((k / 4) / width) % 2 == 1
            && ((k / 4) % width) % 2 == 1) implies #[trigger] after[k] == before[k] by {
        if pattern_pixel(k / 4, width, height) {
            let p = k / 4;
            lemma_pixel_position(p, width);
            assert(p < width * height) by (nonlinear_arith)
                requires
                    p == width * (p / width) + p % width,
                    0 <= p % width < width,
                    p / width < height,
                    p / width >= 0,
            ;
        }
    }
}

proof fn lemma_pattern_needs_two(p: int, width: int, height: int)
    requires
        width < 2 || height < 2,
        p >= 0,
    ensures
        !pattern_pixel(p, width, height),
{
    if width == 1 {
        assert(p % width == 0);
    }
    if width > 0 && height < 2 {
        if p / width < height {
            assert(p / width >= 0) by (nonlinear_arith)
                requires
                    p >= 0,
                    width > 0,
            ;
        }
    }
}

/// A pixel index splits into row and column.
proof fn lemma_pixel_position(p: int, width: int)
    requires
        width > 0,
    ensures
        p == width * (p / width) + p % width,
        0 <= p % width < width,
{
    vstd::arithmetic::div_mod::lemma_fundamental_div_mod(p, width);
}

/// The pixel at row `j`, column `i` has index `j * width + i`.
proof fn lemma_row_col(j: int, i: int, width: int)
    requires
        0 <= i < width,
        0 <= j,
    ensures
        (j * width + i) / width == j,
        (j * width + i) % width == i,
{
    vstd::arithmetic::div_mod::lemma_fundamental_div_mod_converse(j * width + i, width, j, i);
}

/// A pixel index within row `j` lies in row `j`.
proof fn lemma_row_of(p: int, j: int, width: int)
    requires
        width > 0,
        0 <= j,
        j * width <= p < j * width + width,
    ensures
        p / width == j,
        p % width == p - j * width,
{
    lemma_row_col(j, p - j * width, width);
}

/// The pattern pixel at odd row `j`, odd column `i` fits the buffer.
proof fn lemma_pattern_offset_fits(len: nat, width: int, height: int, j: int, i: int)
    requires
        pattern_fits(len, width as nat, height as nat),
        width >= 2,
        height >= 2,
        1 <= j < height,
        1 <= i < width,
        j % 2 == 1,
        i % 2 == 1,
    ensures
        (j * width + i) * 4 + 4 <= len,
{
    assert(j <= odd_floor(height - 1));
    assert(i <= odd_floor(width - 1));
    assert(j * width * 4 <= odd_floor(height - 1) * width * 4) by (nonlinear_arith)
        requires
            j <= odd_floor(height - 1),
            width >= 0,
    ;
}

} // verus!
