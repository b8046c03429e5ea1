//! Small verified helpers for byte buffers.

use vstd::prelude::*;

verus! {

/// Byte value of `\n`.
pub const NEWLINE: u8 = 10;

/// Byte value of a space.
pub const SPACE: u8 = 32;

/// Byte value of `"`.
pub const QUOTE: u8 = 34;

/// Byte value of `#`.
pub const HASH: u8 = 35;

/// Byte value of `(`.
pub const LEFT_PAREN: u8 = 40;

/// Byte value of `)`.
pub const RIGHT_PAREN: u8 = 41;

/// Byte value of `*`.
pub const STAR: u8 = 42;

/// Byte value of `/`.
pub const SLASH: u8 = 47;

/// Byte value of `:`.
pub const COLON: u8 = 58;

/// Byte value of `[`.
pub const LEFT_BRACKET: u8 = 91;

/// Byte value of `\`.
pub const BACKSLASH: u8 = 92;

/// Byte value of `n`.
pub const LOWER_N: u8 = 110;

/// Append every byte of `bytes` to `out`, in order.
pub fn push_bytes(out: &mut Vec<u8>, bytes: &[u8])
    ensures
        final(out)@ == old(out)@ + bytes@,
{
    let n = bytes.len();
    let mut k: usize = 0;
    while k < n
        invariant
            n == bytes@.len(),
            k <= n,
            out@ == old(out)@ + bytes@.take(k as int),
        decreases n - k,
    {
        out.push(bytes[k]);
        proof {
            assert(bytes@.take(k as int + 1) =~= bytes@.take(k as int) + seq![bytes@[k as int]]);
        }
        k = k + 1;
    }
    proof {
        assert(bytes@.take(n as int) =~= bytes@);
    }
}

/// Whether two byte slices hold the same bytes.
pub fn bytes_eq(a: &[u8], b: &[u8]) -> (r: bool)
    ensures
        r == (a@ == b@),
{
    if a.len() != b.len() {
        proof {
            assert(a@.len() != b@.len());
        }
        return false;
    }
    let n = a.len();
    let mut k: usize = 0;
    while k < n
        invariant
            n == a@.len() == b@.len(),
            k <= n,
            forall|i: int| 0 <= i < k ==> a@[i] == b@[i],
        decreases n - k,
    {
        if a[k] != b[k] {
            return false;
        }
        k = k + 1;
    }
    proof {
        assert(a@ =~= b@);
    }
    true
}

} // verus!
