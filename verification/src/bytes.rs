//! Little-endian integers inside a byte image.
use vstd::prelude::*;

verus! {

/// The number that `bytes` encodes, least significant byte first.
pub open spec fn le_value(bytes: Seq<u8>) -> nat
    decreases bytes.len(),
{
    if bytes.len() == 0 {
        0
    } else {
        bytes[0] as nat + 256 * le_value(bytes.drop_first())
    }
}

/// The little-endian number held by the `n` bytes of `data` that start at `off`.
pub open spec fn le_at(data: Seq<u8>, off: int, n: int) -> nat {
    le_value(data.subrange(off, off + n))
}

/// `256` raised to the power `k`.
pub open spec fn pow256(k: nat) -> nat
    decreases k,
{
    if k == 0 {
        1
    } else {
        256 * pow256((k - 1) as nat)
    }
}

proof fn lemma_pow256_monotonic(j: nat, k: nat)
    requires
        j <= k,
    ensures
        pow256(j) <= pow256(k),
    decreases k,
{
    if j < k {
        lemma_pow256_monotonic(j, (k - 1) as nat);
    }
}

proof fn lemma_pow256_small()
    ensures
        pow256(2) == 0x1_0000,
        pow256(4) == 0x1_0000_0000,
        pow256(8) == 0x1_0000_0000_0000_0000,
{
    reveal_with_fuel(pow256, 9);
}

/// Reads the `n`-byte little-endian number that starts at `off` in `data`.
pub fn read_le(data: &[u8], off: usize, n: usize) -> (v: u64)
    requires
        n <= 8,
        off + n <= data@.len(),
    ensures
        v == le_at(data@, off as int, n as int),
        v < pow256(n as nat),
        n == 2 ==> v < 0x1_0000,
        n == 4 ==> v < 0x1_0000_0000,
{
    let len = data.len();
    let mut acc: u64 = 0;
    let mut i: usize = n;
    proof {
        assert(data@.subrange(off + n, off + n) =~= Seq::<u8>::empty());
    }
    while i > 0
        invariant
            n <= 8,
            off + n <= data@.len(),
            len == data@.len(),
            i <= n,
            acc == le_value(data@.subrange(off + i, off + n)),
            acc < pow256((n - i) as nat),
        decreases i,
    {
        let b = data[off + i - 1];
        proof {
            let s = data@.subrange(off + i - 1, off + n);
            assert(s.drop_first() =~= data@.subrange(off + i, off + n));
            assert(s[0] == b);
            let k = (n - i) as nat;
            lemma_pow256_monotonic(k + 1, 8);
            lemma_pow256_small();
            assert(pow256(k + 1) == 256 * pow256(k));
            assert(acc * 256 + b < pow256(k + 1)) by (nonlinear_arith)
                requires
                    acc < pow256(k),
                    b < 256,
                    pow256(k + 1) == 256 * pow256(k),
            ;
        }
        acc = acc * 256 + b as u64;
        i = i - 1;
    }
    proof {
        lemma_pow256_small();
    }
    acc
}

/// A little-endian number of `n` bytes is below `256^n`.
proof fn lemma_le_value_bound(bytes: Seq<u8>)
    ensures
        le_value(bytes) < pow256(bytes.len()),
    decreases bytes.len(),
{
    if bytes.len() > 0 {
        let rest = bytes.drop_first();
        lemma_le_value_bound(rest);
        let k = rest.len();
        assert(pow256(k + 1) == 256 * pow256(k));
        assert(bytes[0] + 256 * le_value(rest) < pow256(k + 1)) by (nonlinear_arith)
            requires
                le_value(rest) < pow256(k),
                bytes[0] < 256,
                pow256(k + 1) == 256 * pow256(k),
        ;
    }
}

/// The `n` bytes at `off` hold a number below `256^n`: below `2^16` for two
/// bytes, `2^32` for four and `2^64` for eight.
pub proof fn lemma_le_at_bound(data: Seq<u8>, off: int, n: int)
    requires
        0 <= off,
        0 <= n <= 8,
        off + n <= data.len(),
    ensures
        le_at(data, off, n) < pow256(n as nat),
        n == 2 ==> le_at(data, off, n) < 0x1_0000,
        n == 4 ==> le_at(data, off, n) < 0x1_0000_0000,
        n == 8 ==> le_at(data, off, n) < 0x1_0000_0000_0000_0000,
{
    lemma_le_value_bound(data.subrange(off, off + n));
    lemma_pow256_small();
}

/// Little-endian order: no bytes are zero, and `n + 1` bytes at `off` are the
/// byte at `off` plus 256 times the `n` bytes after it.
pub proof fn lemma_le_at_step(data: Seq<u8>, off: int, n: int)
    requires
        0 <= off,
        0 <= n,
        off + n + 1 <= data.len(),
    ensures
        le_at(data, off, 0) == 0,
        le_at(data, off, n + 1) == data[off] + 256 * le_at(data, off + 1, n),
{
    let s = data.subrange(off, off + n + 1);
    assert(s.drop_first() =~= data.subrange(off + 1, off + 1 + n));
    assert(data.subrange(off, off) =~= Seq::<u8>::empty());
}

} // verus!
