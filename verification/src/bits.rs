//! Byte patterns of numbers, lowest byte first.

use vstd::prelude::*;

verus! {

/// The number of values that `width` bytes can hold.
pub open spec fn byte_range(width: nat) -> nat
    decreases width,
{
    if width == 0 {
        1
    } else {
        256 * byte_range((width - 1) as nat)
    }
}

/// The `width` lowest bytes of a number, lowest first.
pub open spec fn le_bytes(value: nat, width: nat) -> Seq<u8>
    decreases width,
{
    if width == 0 {
        Seq::empty()
    } else {
        seq![(value % 256) as u8] + le_bytes(value / 256, (width - 1) as nat)
    }
}

/// The number whose bytes, lowest first, are `bytes`.
pub open spec fn le_value(bytes: Seq<u8>) -> nat
    decreases bytes.len(),
{
    if bytes.len() == 0 {
        0
    } else {
        bytes[0] as nat + 256 * le_value(bytes.drop_first())
    }
}

/// A number is written in as many bytes as were asked for.
pub proof fn lemma_le_bytes_len(value: nat, width: nat)
    ensures
        le_bytes(value, width).len() == width,
    decreases width,
{
    if width > 0 {
        lemma_le_bytes_len(value / 256, (width - 1) as nat);
    }
}

/// The number that bytes stand for is below the range of that many bytes.
pub proof fn lemma_le_value_bound(bytes: Seq<u8>)
    ensures
        le_value(bytes) < byte_range(bytes.len()),
    decreases bytes.len(),
{
    if bytes.len() > 0 {
        lemma_le_value_bound(bytes.drop_first());
    }
}

/// Reading bytes as a number and writing the number in as many bytes gives
/// the same bytes: nothing of the bit pattern is lost or changed.
pub proof fn lemma_bytes_round_trip(bytes: Seq<u8>)
    ensures
        le_bytes(le_value(bytes), bytes.len()) == bytes,
    decreases bytes.len(),
{
    if bytes.len() > 0 {
        let rest = bytes.drop_first();
        lemma_bytes_round_trip(rest);
        let v = le_value(bytes);
        assert(v % 256 == bytes[0] as nat && v / 256 == le_value(rest)) by (nonlinear_arith)
            requires
                v == bytes[0] as nat + 256 * le_value(rest),
                bytes[0] < 256,
        ;
        assert(le_bytes(v, bytes.len()) =~= bytes);
    } else {
        assert(le_bytes(le_value(bytes), 0) =~= bytes);
    }
}

/// Writing a number that fits in `width` bytes and reading the bytes as a
/// number gives the same number.
pub proof fn lemma_value_round_trip(value: nat, width: nat)
    requires
        value < byte_range(width),
    ensures
        le_value(le_bytes(value, width)) == value,
    decreases width,
{
    if width > 0 {
        let bytes = le_bytes(value, width);
        assert(value / 256 < byte_range((width - 1) as nat)) by (nonlinear_arith)
            requires
                value < 256 * byte_range((width - 1) as nat),
        ;
        lemma_value_round_trip(value / 256, (width - 1) as nat);
        assert(bytes.drop_first() =~= le_bytes(value / 256, (width - 1) as nat));
        assert(value == value % 256 + 256 * (value / 256)) by (nonlinear_arith);
    }
}

/// Eight bytes hold the numbers below two to the power of sixty-four.
pub proof fn lemma_byte_range_8()
    ensures
        byte_range(8) == 0x1_0000_0000_0000_0000,
{
    reveal_with_fuel(byte_range, 9);
}

/// The range of bytes grows with their number.
pub proof fn lemma_byte_range_monotone(narrow: nat, wide: nat)
    requires
        narrow <= wide,
    ensures
        1 <= byte_range(narrow) <= byte_range(wide),
    decreases wide,
{
    if narrow < wide {
        lemma_byte_range_monotone(narrow, (wide - 1) as nat);
    } else if wide > 0 {
        lemma_byte_range_monotone((narrow - 1) as nat, (wide - 1) as nat);
    }
}

/// The `width` lowest bytes of `value`, lowest first.
pub fn to_le_bytes(value: u64, width: usize) -> (r: Vec<u8>)
    requires
        width <= 8,
    ensures
        r@ == le_bytes(value as nat, width as nat),
        r.len() == width,
{
    proof {
        lemma_le_bytes_len(value as nat, width as nat);
    }
    let mut out: Vec<u8> = Vec::new();
    let mut rest: u64 = value;
    let mut i: usize = 0;
    while i < width
        invariant
            i <= width,
            out.len() == i,
            out@ + le_bytes(rest as nat, (width - i) as nat) == le_bytes(value as nat, width as nat),
        decreases width - i,
    {
        let ghost before = out@;
        out.push((rest % 256) as u8);
        assert(out@ + le_bytes((rest / 256) as nat, (width - i - 1) as nat) =~= before + le_bytes(
            rest as nat,
            (width - i) as nat,
        ));
        rest = rest / 256;
        i = i + 1;
    }
    assert(out@ + le_bytes(rest as nat, 0) =~= out@);
    out
}

/// The number whose bytes, lowest first, are `bytes`.
pub fn from_le_bytes(bytes: &Vec<u8>) -> (r: u64)
    requires
        bytes.len() <= 8,
    ensures
        r == le_value(bytes@),
{
    let mut acc: u64 = 0;
    let mut i: usize = bytes.len();
    assert(bytes@.subrange(i as int, bytes.len() as int) =~= Seq::empty());
    while i > 0
        invariant
            i <= bytes.len() <= 8,
            acc == le_value(bytes@.subrange(i as int, bytes.len() as int)),
        decreases i,
    {
        let ghost tail = bytes@.subrange(i as int, bytes.len() as int);
        let ghost longer = bytes@.subrange(i - 1, bytes.len() as int);
        proof {
            assert(longer.drop_first() =~= tail);
            lemma_le_value_bound(tail);
            lemma_le_value_bound(longer);
            lemma_byte_range_monotone(longer.len(), 8);
            lemma_byte_range_8();
        }
        acc = acc * 256 + bytes[i - 1] as u64;
        i = i - 1;
    }
    assert(bytes@.subrange(0, bytes.len() as int) =~= bytes@);
    acc
}

} // verus!
