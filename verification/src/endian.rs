//! Big-endian numbers: what a run of bytes spells, the bytes that spell a
//! number, and the two conversions in executable form.

use vstd::prelude::*;

verus! {

/// 256 to the power `n`.
pub open spec fn pow256(n: nat) -> nat
    decreases n,
{
    if n == 0 {
        1
    } else {
        256 * pow256((n - 1) as nat)
    }
}

/// The number that `bytes` spell in base 256, most significant byte first.
pub open spec fn be_value(bytes: Seq<u8>) -> nat
    decreases bytes.len(),
{
    if bytes.len() == 0 {
        0
    } else {
        be_value(bytes.drop_last()) * 256 + bytes.last() as nat
    }
}

/// The `width` low-order base-256 digits of `x`, most significant first.
pub open spec fn be_bytes(x: nat, width: nat) -> Seq<u8>
    decreases width,
{
    if width == 0 {
        Seq::empty()
    } else {
        be_bytes(x / 256, (width - 1) as nat).push((x % 256) as u8)
    }
}

/// The powers of 256 that bound the fixed-width integers.
pub proof fn lemma_pow256_values()
    ensures
        pow256(0) == 1,
        pow256(1) == 0x100,
        pow256(2) == 0x1_0000,
        pow256(3) == 0x100_0000,
        pow256(4) == 0x1_0000_0000,
        pow256(5) == 0x100_0000_0000,
        pow256(6) == 0x1_0000_0000_0000,
        pow256(7) == 0x100_0000_0000_0000,
        pow256(8) == 0x1_0000_0000_0000_0000,
{
    reveal_with_fuel(pow256, 9);
}

/// `be_bytes` gives exactly as many bytes as asked for.
pub proof fn lemma_be_bytes_len(x: nat, width: nat)
    ensures
        be_bytes(x, width).len() == width,
    decreases width,
{
    if width > 0 {
        lemma_be_bytes_len(x / 256, (width - 1) as nat);
    }
}

/// `n` bytes spell a number below 256 to the `n`.
pub proof fn lemma_be_value_bound(bytes: Seq<u8>)
    ensures
        be_value(bytes) < pow256(bytes.len()),
    decreases bytes.len(),
{
    if bytes.len() > 0 {
        lemma_be_value_bound(bytes.drop_last());
    }
}

/// Spelling a number that fits in `width` bytes and reading the bytes back
/// gives the number.
pub proof fn lemma_be_value_of_be_bytes(x: nat, width: nat)
    requires
        x < pow256(width),
    ensures
        be_value(be_bytes(x, width)) == x,
    decreases width,
{
    if width > 0 {
        let s = be_bytes(x, width);
        let head = be_bytes(x / 256, (width - 1) as nat);
        assert(s.drop_last() =~= head);
        assert(s.last() == (x % 256) as u8);
        lemma_be_value_of_be_bytes(x / 256, (width - 1) as nat);
    }
}

/// Reading bytes and spelling the number again in the same width gives the
/// bytes: no two runs of one length spell the same number.
pub proof fn lemma_be_bytes_of_be_value(bytes: Seq<u8>)
    ensures
        be_bytes(be_value(bytes), bytes.len()) == bytes,
    decreases bytes.len(),
{
    if bytes.len() > 0 {
        let v = be_value(bytes);
        let head = bytes.drop_last();
        assert(v / 256 == be_value(head));
        assert(v % 256 == bytes.last() as nat);
        lemma_be_bytes_of_be_value(head);
        assert(be_bytes(v, bytes.len()) =~= bytes);
    }
}

/// The first byte decides the magnitude: the number lies between the first
/// byte and its successor, each scaled by 256 to the count of bytes after it.
pub proof fn lemma_be_value_leading(bytes: Seq<u8>)
    requires
        bytes.len() > 0,
    ensures
        bytes[0] as nat * pow256((bytes.len() - 1) as nat) <= be_value(bytes),
        be_value(bytes) < (bytes[0] as nat + 1) * pow256((bytes.len() - 1) as nat),
    decreases bytes.len(),
{
    let head = bytes.drop_last();
    if bytes.len() == 1 {
        assert(be_value(head) == 0);
        assert(be_value(bytes) == bytes[0] as nat);
        assert(pow256(0) == 1);
    } else {
        lemma_be_value_leading(head);
        assert(head[0] == bytes[0]);
        let p = pow256((head.len() - 1) as nat);
        let b = bytes[0] as nat;
        let v = be_value(head);
        assert(pow256((bytes.len() - 1) as nat) == 256 * p);
        assert(be_value(bytes) == v * 256 + bytes.last() as nat);
        assert(b * (256 * p) == (b * p) * 256) by (nonlinear_arith);
        assert((b + 1) * (256 * p) == ((b + 1) * p) * 256) by (nonlinear_arith);
        assert((b * p) * 256 <= v * 256);
        assert((v + 1) * 256 <= ((b + 1) * p) * 256);
    }
}

/// Reads up to eight bytes as one big-endian number. No bytes spell zero.
pub fn read_be(bytes: &[u8]) -> (x: u64)
    requires
        bytes@.len() <= 8,
    ensures
        x == be_value(bytes@),
{
    let mut x: u64 = 0;
    let mut i: usize = 0;
    while i < bytes.len()
        invariant
            i <= bytes@.len() <= 8,
            x == be_value(bytes@.take(i as int)),
        decreases bytes@.len() - i,
    {
        proof {
            let seen = bytes@.take(i as int);
            let next = bytes@.take(i + 1);
            assert(next.drop_last() =~= seen);
            assert(next.last() == bytes@[i as int]);
            lemma_be_value_bound(seen);
            lemma_be_value_bound(next);
            lemma_pow256_monotonic(next.len(), 8);
            lemma_pow256_values();
        }
        x = x * 256 + bytes[i] as u64;
        i += 1;
    }
    assert(bytes@.take(i as int) =~= bytes@);
    x
}

/// A larger exponent gives no smaller power.
pub proof fn lemma_pow256_monotonic(m: nat, n: nat)
    requires
        m <= n,
    ensures
        pow256(m) <= pow256(n),
        pow256(m) > 0,
    decreases n,
{
    if m < n {
        lemma_pow256_monotonic(m, (n - 1) as nat);
    } else if n > 0 {
        lemma_pow256_monotonic((m - 1) as nat, (n - 1) as nat);
    }
}

/// Appends the `width` low-order bytes of `x` to `out`, most significant
/// first.
pub fn write_be(x: u64, width: usize, out: &mut Vec<u8>)
    ensures
        final(out)@ == old(out)@ + be_bytes(x as nat, width as nat),
    decreases width,
{
    if width > 0 {
        write_be(x / 256, width - 1, out);
        out.push((x % 256) as u8);
    }
}

/// The number of bytes in the shortest big-endian spelling of `x`: none for
/// zero.
pub open spec fn byte_len(x: nat) -> nat
    decreases x,
{
    if x == 0 {
        0
    } else {
        1 + byte_len(x / 256)
    }
}

/// A number fits in `byte_len` bytes and, unless it is zero, in no fewer.
pub proof fn lemma_byte_len_bounds(x: nat)
    ensures
        x < pow256(byte_len(x)),
        x > 0 ==> pow256((byte_len(x) - 1) as nat) <= x,
    decreases x,
{
    if x > 0 {
        lemma_byte_len_bounds(x / 256);
        if x / 256 == 0 {
            assert(byte_len(x / 256) == 0);
            assert(byte_len(x) == 1);
            assert(pow256(0) == 1);
        }
    }
}

/// The one width `n` for which `x` fills `n` bytes and needs them all is
/// `byte_len(x)`.
pub proof fn lemma_byte_len_unique(x: nat, n: nat)
    requires
        x < pow256(n),
        n > 0 ==> pow256((n - 1) as nat) <= x,
    ensures
        byte_len(x) == n,
{
    let m = byte_len(x);
    lemma_byte_len_bounds(x);
    if m < n {
        lemma_pow256_monotonic(m, (n - 1) as nat);
    } else if m > n {
        lemma_pow256_monotonic(n, (m - 1) as nat);
        lemma_pow256_monotonic(0, n);
    }
}

/// Bytes whose first is not zero are the shortest spelling of their number.
pub proof fn lemma_byte_len_of_be_value(bytes: Seq<u8>)
    requires
        bytes.len() == 0 || bytes[0] != 0,
    ensures
        byte_len(be_value(bytes)) == bytes.len(),
{
    lemma_be_value_bound(bytes);
    if bytes.len() > 0 {
        lemma_be_value_leading(bytes);
        let p = pow256((bytes.len() - 1) as nat);
        let b = bytes[0] as nat;
        assert(p <= b * p) by (nonlinear_arith)
            requires
                b >= 1,
        ;
    }
    lemma_byte_len_unique(be_value(bytes), bytes.len());
}

/// The number of bytes in the shortest big-endian spelling of `x`.
pub fn min_width(x: u64) -> (n: usize)
    ensures
        n == byte_len(x as nat),
        n <= 8,
{
    proof {
        lemma_byte_len_bounds(x as nat);
        lemma_pow256_values();
        if byte_len(x as nat) > 8 {
            lemma_pow256_monotonic(8, (byte_len(x as nat) - 1) as nat);
        }
    }
    let mut n: usize = 0;
    let mut rest = x;
    while rest > 0
        invariant
            n + byte_len(rest as nat) == byte_len(x as nat),
            byte_len(x as nat) <= 8,
        decreases rest,
    {
        rest = rest / 256;
        n += 1;
    }
    n
}

/// Appends `bytes` to `out`.
pub fn append_bytes(out: &mut Vec<u8>, bytes: &[u8])
    ensures
        final(out)@ == old(out)@ + bytes@,
{
    let mut i: usize = 0;
    while i < bytes.len()
        invariant
            i <= bytes@.len(),
            out@ == old(out)@ + bytes@.take(i as int),
        decreases bytes@.len() - i,
    {
        out.push(bytes[i]);
        assert(bytes@.take(i + 1) =~= bytes@.take(i as int).push(bytes@[i as int]));
        i += 1;
    }
    assert(bytes@.take(i as int) =~= bytes@);
}

} // verus!
