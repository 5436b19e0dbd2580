//! Integers as bytes, lowest byte first.

use vstd::prelude::*;

verus! {

/// How many values `width` bytes can hold.
pub open spec fn range_of(width: nat) -> nat
    decreases width,
{
    if width == 0 {
        1
    } else {
        256 * range_of((width - 1) as nat)
    }
}

/// The lowest `width` bytes of `value`, lowest first.
pub open spec fn to_bytes(value: nat, width: nat) -> Seq<u8>
    decreases width,
{
    if width == 0 {
        Seq::empty()
    } else {
        seq![(value % 256) as u8] + to_bytes(value / 256, (width - 1) as nat)
    }
}

/// The number that `bytes` stand for, lowest first.
pub open spec fn from_bytes(bytes: Seq<u8>) -> nat
    decreases bytes.len(),
{
    if bytes.len() == 0 {
        0
    } else {
        bytes[0] as nat + 256 * from_bytes(bytes.skip(1))
    }
}

/// A number has as many bytes as were asked for.
pub broadcast proof fn lemma_to_bytes_len(value: nat, width: nat)
    ensures
        (#[trigger] to_bytes(value, width)).len() == width,
    decreases width,
{
    if width > 0 {
        lemma_to_bytes_len(value / 256, (width - 1) as nat);
    }
}

/// A number that fits in `width` bytes is read back from them.
pub proof fn law_from_bytes_of_to_bytes(value: nat, width: nat)
    requires
        value < range_of(width),
    ensures
        from_bytes(to_bytes(value, width)) == value,
    decreases width,
{
    if width > 0 {
        let rest = to_bytes(value / 256, (width - 1) as nat);
        assert(value / 256 < range_of((width - 1) as nat)) by (nonlinear_arith)
            requires
                value < 256 * range_of((width - 1) as nat),
        ;
        law_from_bytes_of_to_bytes(value / 256, (width - 1) as nat);
        assert(to_bytes(value, width).skip(1) =~= rest);
    }
}

/// The number that some bytes stand for fits in them.
pub proof fn lemma_from_bytes_bound(bytes: Seq<u8>)
    ensures
        from_bytes(bytes) < range_of(bytes.len()),
    decreases bytes.len(),
{
    if bytes.len() > 0 {
        lemma_from_bytes_bound(bytes.skip(1));
    }
}

/// Two, four and eight bytes hold the integers of those widths.
pub proof fn lemma_range_of_widths()
    ensures
        range_of(2) == 0x1_0000,
        range_of(4) == 0x1_0000_0000,
        range_of(8) == 0x1_0000_0000_0000_0000,
{
    reveal_with_fuel(range_of, 9);
}

/// A wider number has a larger range.
proof fn lemma_range_of_monotone(narrow: nat, wide: nat)
    requires
        narrow <= wide,
    ensures
        range_of(narrow) <= range_of(wide),
    decreases wide,
{
    if narrow < wide {
        lemma_range_of_monotone(narrow, (wide - 1) as nat);
    }
}

/// Appends the lowest `width` bytes of `value`.
pub fn push_bytes(out: &mut Vec<u8>, value: u64, width: usize)
    ensures
        final(out)@ == old(out)@ + to_bytes(value as nat, width as nat),
{
    let mut rest: u64 = value;
    let mut left: usize = width;
    while left > 0
        invariant
            left <= width,
            out@ + to_bytes(rest as nat, left as nat) == old(out)@ + to_bytes(
                value as nat,
                width as nat,
            ),
        decreases left,
    {
        let ghost before = out@;
        let byte: u8 = (rest % 256) as u8;
        out.push(byte);
        assert(out@ + to_bytes((rest / 256) as nat, (left - 1) as nat) =~= before + to_bytes(
            rest as nat,
            left as nat,
        ));
        rest = rest / 256;
        left = left - 1;
    }
    assert(out@ + to_bytes(rest as nat, 0) =~= out@);
}

/// Reads the number that the `width` bytes at `start` stand for.
pub fn read_bytes(data: &[u8], start: usize, width: usize) -> (value: u64)
    requires
        width <= 8,
        start + width <= data@.len(),
    ensures
        value == from_bytes(data@.subrange(start as int, start + width)),
        value < range_of(width as nat),
{
    let ghost bytes = data@.subrange(start as int, start + width);
    let end: usize = data.len();
    let mut value: u64 = 0;
    let mut left: usize = width;
    assert(bytes.skip(width as int) =~= Seq::empty());
    while left > 0
        invariant
            left <= width <= 8,
            start + width <= end == data@.len(),
            bytes == data@.subrange(start as int, start + width),
            value == from_bytes(bytes.skip(left as int)),
        decreases left,
    {
        proof {
            let tail = bytes.skip(left as int);
            let longer = bytes.skip(left - 1);
            lemma_from_bytes_bound(tail);
            lemma_range_of_monotone(tail.len(), 7);
            reveal_with_fuel(range_of, 8);
            assert(longer.skip(1) =~= tail);
            assert(longer[0] == data@[start + left - 1]);
        }
        value = value * 256 + data[start + left - 1] as u64;
        left = left - 1;
    }
    proof {
        assert(bytes.skip(0) =~= bytes);
        lemma_from_bytes_bound(bytes);
    }
    value
}

} // verus!
