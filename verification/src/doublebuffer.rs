use vstd::prelude::*;

use crate::framebuffer::{host_swaps_for_big_endian, DmaReadyFramebuffer};

verus! {

/// Two big-endian framebuffers of one size, one drawn into while the other
/// is shown. `toggle` selects the current one: `fbuf0` when set, `fbuf1`
/// otherwise.
pub struct DoubleBuffer {
    pub toggle: bool,
    pub size: usize,
    pub fbuf0: DmaReadyFramebuffer,
    pub fbuf1: DmaReadyFramebuffer,
}

impl DoubleBuffer {
    /// Both buffers are well formed.
    pub open spec fn wf(&self) -> bool {
        self.fbuf0.wf() && self.fbuf1.wf()
    }

    /// The buffer that `toggle` selects.
    pub open spec fn current(&self) -> DmaReadyFramebuffer {
        if self.toggle {
            self.fbuf0
        } else {
            self.fbuf1
        }
    }

    /// The same buffers with `toggle` flipped.
    pub open spec fn toggled(&self) -> DoubleBuffer {
        DoubleBuffer { toggle: !self.toggle, ..*self }
    }

    /// The same state with the current buffer replaced.
    pub open spec fn with_current(&self, fb: DmaReadyFramebuffer) -> DoubleBuffer {
        if self.toggle {
            DoubleBuffer { fbuf0: fb, ..*self }
        } else {
            DoubleBuffer { fbuf1: fb, ..*self }
        }
    }

    /// Two black big-endian framebuffers of the given size that store
    /// words swapped exactly when `host_swaps` says the host's own order is
    /// not big-endian; `toggle` starts unset.
    pub fn with_byte_order(width: usize, height: usize, host_swaps: bool) -> (db: DoubleBuffer)
        requires
            width * height * 4 <= isize::MAX,
        ensures
            db.wf(),
            !db.toggle,
            db.size == width * height,
            db.fbuf0.w() == width && db.fbuf0.h() == height && db.fbuf0.is_big_endian(),
            db.fbuf1.w() == width && db.fbuf1.h() == height && db.fbuf1.is_big_endian(),
            db.fbuf0.stores_swapped() == host_swaps,
            db.fbuf1.stores_swapped() == host_swaps,
            db.fbuf0.words() == Seq::new((width * height) as nat, |i: int| 0u32),
            db.fbuf1.words() == Seq::new((width * height) as nat, |i: int| 0u32),
    {
        let fbuf0 = DmaReadyFramebuffer::with_byte_order(width, height, true, host_swaps);
        let fbuf1 = DmaReadyFramebuffer::with_byte_order(width, height, true, host_swaps);
        DoubleBuffer { toggle: false, size: width * height, fbuf0, fbuf1 }
    }

    /// Two black big-endian framebuffers of the given size, storing words
    /// swapped exactly when `to_be` swaps bytes on this machine; `toggle`
    /// starts unset.
    pub fn new(width: usize, height: usize) -> (db: DoubleBuffer)
        requires
            width * height * 4 <= isize::MAX,
        ensures
            db.wf(),
            !db.toggle,
            db.size == width * height,
            db.fbuf0.w() == width && db.fbuf0.h() == height && db.fbuf0.is_big_endian(),
            db.fbuf1.w() == width && db.fbuf1.h() == height && db.fbuf1.is_big_endian(),
            db.fbuf0.stores_swapped() == db.fbuf1.stores_swapped(),
            db.fbuf0.words() == Seq::new((width * height) as nat, |i: int| 0u32),
            db.fbuf1.words() == Seq::new((width * height) as nat, |i: int| 0u32),
    {
        let host_swaps = host_swaps_for_big_endian();
        DoubleBuffer::with_byte_order(width, height, host_swaps)
    }

    /// Flips `toggle` and hands out the buffer it now selects; what the
    /// caller leaves in that buffer stays in it.
    pub fn swap_framebuffer(&mut self) -> (fb: &mut DmaReadyFramebuffer)
        ensures
            *fb == old(self).toggled().current(),
            *final(self) == old(self).toggled().with_current(*final(fb)),
    {
        self.toggle = !self.toggle;
        if self.toggle {
            &mut self.fbuf0
        } else {
            &mut self.fbuf1
        }
    }

    /// Hands out the buffer that `toggle` selects.
    pub fn get_current_framebuffer(&mut self) -> (fb: &mut DmaReadyFramebuffer)
        ensures
            *fb == old(self).current(),
            *final(self) == old(self).with_current(*final(fb)),
    {
        if self.toggle {
            &mut self.fbuf0
        } else {
            &mut self.fbuf1
        }
    }
}

/// Swapping alternates between the two buffers: the buffer that one swap
/// hands out comes back, as the caller left it, two swaps later, whatever
/// was done to the other buffer in between.
pub proof fn law_swap_alternates(db: DoubleBuffer, first: DmaReadyFramebuffer, second: DmaReadyFramebuffer)
    ensures
        db.toggled().with_current(first).toggled().with_current(second).toggled().current()
            == first,
        db.toggled().toggled().toggled().toggle == !db.toggle,
{
}

/// Looking at the current buffer hands out the one the last swap handed
/// out.
pub proof fn law_current_after_swap(db: DoubleBuffer, left: DmaReadyFramebuffer)
    ensures
        db.toggled().with_current(left).current() == left,
{
}

} // verus!
