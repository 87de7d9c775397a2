//! What the kernel draws on the frame buffer that the loader hands it.
use vstd::prelude::*;

verus! {

/// Fills the frame buffer with a repeating gradient: byte `i` becomes
/// `i % 256`.
pub fn paint_gradient(frame_buffer: &mut [u8])
    ensures
        final(frame_buffer)@.len() == old(frame_buffer)@.len(),
        forall|i: int|
            0 <= i < final(frame_buffer)@.len() ==> #[trigger] final(frame_buffer)@[i] == (i
                % 256) as u8,
{
    let n = frame_buffer.len();
    let mut i: usize = 0;
    while i < n
        invariant
            n == frame_buffer@.len(),
            i <= n,
            forall|k: int| 0 <= k < i ==> #[trigger] frame_buffer@[k] == (k % 256) as u8,
        decreases n - i,
    {
        frame_buffer[i] = (i % 256) as u8;
        i = i + 1;
    }
}

} // verus!
