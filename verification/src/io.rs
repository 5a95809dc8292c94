//! The computational part of the zkVM I/O boundary: file-descriptor
//! constants and the sizing rule for hint buffers. The reads and writes
//! themselves are host-side work and live outside the library.
use vstd::prelude::*;
use vstd::arithmetic::div_mod::lemma_fundamental_div_mod;

verus! {

/// The file descriptor public values are committed on.
pub const FD_PUBLIC_VALUES: u32 = 3;

/// The file descriptor the hint stream is read from.
pub const FD_HINT: u32 = 4;

/// The capacity of a hint buffer: the length rounded up to a whole number
/// of four-byte words, so the backing allocation stays word-aligned.
pub fn hint_buffer_capacity(len: usize) -> (r: usize)
    requires
        len + 3 <= usize::MAX,
    ensures
        r % 4 == 0,
        len <= r,
        r < len + 4,
{
    let q = (len + 3) / 4;
    proof {
        lemma_fundamental_div_mod((len + 3) as int, 4);
        assert((len + 3) as int == 4 * ((len + 3) as int / 4) + (len + 3) as int % 4);
    }
    q * 4
}

} // verus!
