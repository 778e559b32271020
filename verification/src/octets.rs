//! Copying bytes, and big-endian integers as they stand in a frame header and
//! a close payload.
use vstd::prelude::*;

verus! {

/// The smaller of two numbers.
pub open spec fn least(a: int, b: int) -> int {
    if a <= b {
        a
    } else {
        b
    }
}

/// The smaller of two lengths.
pub(crate) fn smaller(a: usize, b: usize) -> (r: usize)
    ensures
        r == least(a as int, b as int),
{
    if a <= b {
        a
    } else {
        b
    }
}

/// Copies as many bytes as fit to the front of a buffer.
pub(crate) fn copy_front(out: &mut [u8], from: &[u8]) -> (r: usize)
    ensures
        r == least(from@.len() as int, old(out)@.len() as int),
        final(out)@ == from@.take(r as int) + old(out)@.skip(r as int),
{
    let n: usize = smaller(from.len(), out.len());
    let ghost given = out@;
    let mut i: usize = 0;
    assert(out@ =~= from@.take(0) + given.skip(0));
    while i < n
        invariant
            i <= n,
            n <= from@.len(),
            n <= out@.len(),
            out@.len() == given.len(),
            out@ == from@.take(i as int) + given.skip(i as int),
        decreases n - i,
    {
        out[i] = from[i];
        i = i + 1;
        assert(out@ =~= from@.take(i as int) + given.skip(i as int));
    }
    n
}

/// The number whose big-endian digits in base 256 are `s`.
pub open spec fn be_value(s: Seq<u8>) -> nat
    decreases s.len(),
{
    if s.len() == 0 {
        0
    } else {
        be_value(s.drop_last()) * 256 + s.last() as nat
    }
}

/// The last `width` digits in base 256 of `n`, most significant first.
pub open spec fn be_bytes(n: nat, width: nat) -> Seq<u8>
    decreases width,
{
    if width == 0 {
        Seq::empty()
    } else {
        be_bytes(n / 256, (width - 1) as nat).push((n % 256) as u8)
    }
}

/// The largest number plus one that `width` digits in base 256 can write.
pub open spec fn be_limit(width: nat) -> nat
    decreases width,
{
    if width == 0 {
        1
    } else {
        256 * be_limit((width - 1) as nat)
    }
}

pub proof fn lemma_be_bytes_len(n: nat, width: nat)
    ensures
        be_bytes(n, width).len() == width,
    decreases width,
{
    if width > 0 {
        lemma_be_bytes_len(n / 256, (width - 1) as nat);
    }
}

/// Reading back the digits of a number that fits gives the number.
pub proof fn lemma_be_value_of_be_bytes(n: nat, width: nat)
    requires
        n < be_limit(width),
    ensures
        be_value(be_bytes(n, width)) == n,
    decreases width,
{
    if width > 0 {
        let limit = be_limit((width - 1) as nat);
        assert(n / 256 < limit) by (nonlinear_arith)
            requires
                n < 256 * limit,
        ;
        lemma_be_value_of_be_bytes(n / 256, (width - 1) as nat);
        lemma_be_bytes_len(n / 256, (width - 1) as nat);
        let s = be_bytes(n, width);
        assert(s.drop_last() =~= be_bytes(n / 256, (width - 1) as nat));
        assert(s.last() == (n % 256) as u8);
    }
}

pub proof fn lemma_be_limits()
    ensures
        be_limit(2) == 0x1_0000,
        be_limit(8) == 0x1_0000_0000_0000_0000,
{
    reveal_with_fuel(be_limit, 9);
}

/// The value of two bytes.
pub proof fn lemma_be_value_2(s: Seq<u8>)
    requires
        s.len() == 2,
    ensures
        be_value(s) == s[0] * 256 + s[1],
{
    reveal_with_fuel(be_value, 3);
    assert(s.drop_last().drop_last() =~= Seq::<u8>::empty());
}

/// Appends the two bytes of a 16-bit number.
pub fn u16_to_be(n: u16) -> (r: [u8; 2])
    ensures
        r@ == be_bytes(n as nat, 2),
{
    let r: [u8; 2] = [(n / 256) as u8, (n % 256) as u8];
    proof {
        reveal_with_fuel(be_bytes, 3);
        assert(r@ =~= be_bytes(n as nat, 2));
    }
    r
}

/// The eight bytes of a 64-bit number.
pub fn u64_to_be(n: u64) -> (r: [u8; 8])
    ensures
        r@ == be_bytes(n as nat, 8),
{
    let q1: u64 = n / 256;
    let q2: u64 = q1 / 256;
    let q3: u64 = q2 / 256;
    let q4: u64 = q3 / 256;
    let q5: u64 = q4 / 256;
    let q6: u64 = q5 / 256;
    let q7: u64 = q6 / 256;
    let r: [u8; 8] = [
        (q7 % 256) as u8,
        (q6 % 256) as u8,
        (q5 % 256) as u8,
        (q4 % 256) as u8,
        (q3 % 256) as u8,
        (q2 % 256) as u8,
        (q1 % 256) as u8,
        (n % 256) as u8,
    ];
    proof {
        reveal_with_fuel(be_bytes, 9);
        assert(r@ =~= be_bytes(n as nat, 8));
    }
    r
}

/// The number written by two bytes.
pub fn u16_from_be(b0: u8, b1: u8) -> (r: u16)
    ensures
        r == be_value(seq![b0, b1]),
{
    proof {
        lemma_be_value_2(seq![b0, b1]);
    }
    b0 as u16 * 256 + b1 as u16
}

proof fn lemma_be_value_bound(s: Seq<u8>)
    ensures
        be_value(s) < be_limit(s.len()),
    decreases s.len(),
{
    if s.len() > 0 {
        lemma_be_value_bound(s.drop_last());
    }
}

/// The number written by eight bytes.
pub fn u64_from_be(bytes: &[u8]) -> (r: u64)
    requires
        bytes@.len() == 8,
    ensures
        r == be_value(bytes@),
{
    let mut r: u64 = 0;
    let mut i: usize = 0;
    proof {
        assert(bytes@.take(0) =~= Seq::<u8>::empty());
    }
    while i < 8
        invariant
            i <= 8,
            bytes@.len() == 8,
            r == be_value(bytes@.take(i as int)),
        decreases 8 - i,
    {
        proof {
            let before = bytes@.take(i as int);
            let after = bytes@.take(i + 1);
            assert(after.drop_last() =~= before);
            lemma_be_value_bound(after);
            reveal_with_fuel(be_limit, 9);
            assert(be_limit(after.len()) <= be_limit(8)) by {
                assert(after.len() == i + 1);
            }
            lemma_be_limits();
        }
        r = r * 256 + bytes[i] as u64;
        i = i + 1;
    }
    proof {
        assert(bytes@.take(8) =~= bytes@);
    }
    r
}

} // verus!
