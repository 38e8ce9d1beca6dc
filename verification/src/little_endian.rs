//! Numbers as bytes, the least significant first.

use vstd::prelude::*;

verus! {

/// 256 to the power of `n`.
pub open spec fn base(n: nat) -> nat
    decreases n,
{
    if n == 0 {
        1
    } else {
        256 * base((n - 1) as nat)
    }
}

/// The number that bytes spell, the least significant first.
pub open spec fn value(bytes: Seq<u8>) -> nat
    decreases bytes.len(),
{
    if bytes.len() == 0 {
        0
    } else {
        value(bytes.drop_last()) + bytes.last() as nat * base((bytes.len() - 1) as nat)
    }
}

/// The `n` bytes that spell a number, the least significant first.
pub open spec fn spelled(number: nat, n: nat) -> Seq<u8>
    decreases n,
{
    if n == 0 {
        Seq::empty()
    } else {
        seq![(number % 256) as u8] + spelled(number / 256, (n - 1) as nat)
    }
}

/// So many bytes spell a number below the power of their count.
pub proof fn lemma_value_bound(bytes: Seq<u8>)
    ensures
        value(bytes) < base(bytes.len()),
    decreases bytes.len(),
{
    if bytes.len() > 0 {
        lemma_value_bound(bytes.drop_last());
        let b = base((bytes.len() - 1) as nat);
        let v = bytes.last() as nat;
        assert(v * b <= 255 * b) by (nonlinear_arith)
            requires
                v <= 255,
        ;
    }
}

/// Powers of 256.
pub proof fn lemma_bases()
    ensures
        base(4) == 0x1_0000_0000,
        base(8) == 0x1_0000_0000_0000_0000,
{
    reveal_with_fuel(base, 9);
}

/// The value with the first byte taken out.
pub proof fn lemma_value_front(bytes: Seq<u8>)
    requires
        bytes.len() > 0,
    ensures
        value(bytes) == bytes[0] as nat + 256 * value(bytes.drop_first()),
    decreases bytes.len(),
{
    if bytes.len() == 1 {
        reveal_with_fuel(value, 2);
        reveal_with_fuel(base, 1);
        assert(bytes.drop_last() =~= Seq::empty());
        assert(bytes.drop_first() =~= Seq::empty());
        assert(base(0) == 1);
    } else {
        let n = bytes.len();
        let tail = bytes.drop_first();
        lemma_value_front(bytes.drop_last());
        assert(bytes.drop_last().drop_first() =~= tail.drop_last());
        assert(tail.last() == bytes.last());
        let v = bytes.last() as nat;
        let b = base((n - 2) as nat);
        assert(base((n - 1) as nat) == 256 * b);
        assert(v * (256 * b) == 256 * (v * b)) by (nonlinear_arith);
    }
}

/// A number that fits is given back by the bytes that spell it.
pub proof fn lemma_value_back(number: nat, n: nat)
    requires
        number < base(n),
    ensures
        spelled(number, n).len() == n,
        value(spelled(number, n)) == number,
    decreases n,
{
    if n > 0 {
        lemma_value_back(number / 256, (n - 1) as nat);
        let bytes = spelled(number, n);
        let tail = spelled(number / 256, (n - 1) as nat);
        assert(bytes.drop_first() =~= tail);
        lemma_value_front(bytes);
    }
}

/// The number that the `n` bytes at `at` spell.
pub fn read(bytes: &[u8], at: usize, n: usize) -> (number: u64)
    requires
        n <= 8,
        at + n <= bytes@.len(),
    ensures
        number == value(bytes@.subrange(at as int, at + n)),
{
    let total: usize = bytes.len();
    let mut number: u64 = 0;
    let mut i: usize = n;
    let ghost all = bytes@.subrange(at as int, at + n);
    proof {
        lemma_bases();
        assert(all.skip(n as int) =~= Seq::empty());
    }
    while i > 0
        invariant
            n <= 8,
            i <= n,
            total == bytes@.len(),
            at + n <= total,
            all == bytes@.subrange(at as int, at + n),
            number == value(all.skip(i as int)),
            base(8) == 0x1_0000_0000_0000_0000,
        decreases i,
    {
        i -= 1;
        proof {
            let rest = all.skip(i as int);
            assert(rest.drop_first() =~= all.skip(i + 1));
            assert(rest[0] == bytes@[at + i]);
            lemma_value_front(rest);
            lemma_value_bound(rest);
            lemma_base_grows(rest.len(), 8);
        }
        number = number * 256 + bytes[at + i] as u64;
    }
    assert(all.skip(0) =~= all);
    number
}

/// Powers grow.
pub proof fn lemma_base_grows(a: nat, b: nat)
    requires
        a <= b,
    ensures
        base(a) <= base(b),
    decreases b,
{
    if a < b {
        lemma_base_grows(a, (b - 1) as nat);
    }
}

/// Appends the four bytes that spell a number.
pub fn write_u32(out: &mut Vec<u8>, number: u32)
    ensures
        final(out)@ == old(out)@ + spelled(number as nat, 4),
{
    let ghost before = out@;
    out.push((number % 256) as u8);
    out.push((number / 256 % 256) as u8);
    out.push((number / 65536 % 256) as u8);
    out.push((number / 16777216) as u8);
    proof {
        reveal_with_fuel(spelled, 5);
        let n = number as nat;
        assert(n / 256 / 256 == n / 65536);
        assert(n / 65536 / 256 == n / 16777216);
        assert(out@ =~= before + spelled(n, 4));
    }
}

} // verus!
