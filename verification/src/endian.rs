//! Numbers as bytes, in both byte orders.

use vstd::prelude::*;

verus! {

/// The number that bytes write, the most significant byte first.
pub open spec fn be_value(s: Seq<u8>) -> nat
    decreases s.len(),
{
    if s.len() == 0 {
        0
    } else {
        be_value(s.drop_last()) * 256 + s.last() as nat
    }
}

/// The number that bytes write, the least significant byte first.
pub open spec fn le_value(s: Seq<u8>) -> nat {
    be_value(s.reverse())
}

/// The number that bytes write in the given byte order.
pub open spec fn order_value(s: Seq<u8>, big: bool) -> nat {
    if big {
        be_value(s)
    } else {
        le_value(s)
    }
}

/// The numbers that `width` bytes can write are those below `radix(width)`,
/// for a width of at most 8.
pub open spec fn radix(width: int) -> nat {
    if width <= 0 {
        1
    } else if width == 1 {
        0x100
    } else if width == 2 {
        0x1_0000
    } else if width == 3 {
        0x100_0000
    } else if width == 4 {
        0x1_0000_0000
    } else if width == 5 {
        0x100_0000_0000
    } else if width == 6 {
        0x1_0000_0000_0000
    } else if width == 7 {
        0x100_0000_0000_0000
    } else {
        0x1_0000_0000_0000_0000
    }
}

/// Bytes written behind a number shift it by one place each.
pub proof fn lemma_be_value_push(s: Seq<u8>, b: u8)
    ensures
        be_value(s.push(b)) == be_value(s) * 256 + b as nat,
{
    assert(s.push(b).drop_last() =~= s);
}

/// Whether the bytes `raw` hold the numbers `values` in groups of `width`
/// bytes, each in the byte order `big`.
pub open spec fn holds(raw: Seq<u8>, values: Seq<nat>, width: int, big: bool) -> bool {
    &&& raw.len() == width * values.len()
    &&& forall|k: int|
        0 <= k < values.len() ==> #[trigger] values[k] == order_value(
            raw.subrange(k * width, k * width + width),
            big,
        )
}

/// Reads the `width` bytes of `b` from `off` on as a number, the most
/// significant byte first.
pub fn read_be(b: &[u8], off: usize, width: usize) -> (r: u64)
    requires
        width <= 8,
        off + width <= b@.len(),
    ensures
        r == be_value(b@.subrange(off as int, off + width)),
        r < radix(width as int),
{
    let len: usize = b.len();
    let mut acc: u64 = 0;
    let mut i: usize = 0;
    assert(b@.subrange(off as int, off + 0) =~= Seq::<u8>::empty());
    while i < width
        invariant
            i <= width <= 8,
            off + width <= b@.len() == len,
            acc == be_value(b@.subrange(off as int, off + i)),
            acc < radix(i as int),
        decreases width - i,
    {
        proof {
            lemma_be_value_push(b@.subrange(off as int, off + i), b@[off + i]);
            assert(b@.subrange(off as int, off + i).push(b@[off + i]) =~= b@.subrange(
                off as int,
                off + i + 1,
            ));
        }
        acc = acc * 256 + b[off + i] as u64;
        i += 1;
    }
    acc
}

/// Where bytes write a number below 256, the last byte is the number and
/// the bytes before it are 0.
pub proof fn lemma_be_value_small(s: Seq<u8>)
    requires
        s.len() >= 1,
        be_value(s) < 256,
    ensures
        s.last() == be_value(s),
        forall|i: int| 0 <= i < s.len() - 1 ==> #[trigger] s[i] == 0,
    decreases s.len(),
{
    let d = s.drop_last();
    assert(be_value(d) == 0) by (nonlinear_arith)
        requires
            be_value(d) * 256 + s.last() as nat == be_value(s),
            be_value(s) < 256,
    ;
    if d.len() >= 1 {
        lemma_be_value_small(d);
        assert forall|i: int| 0 <= i < s.len() - 1 implies #[trigger] s[i] == 0 by {
            assert(s[i] == d[i]);
        }
    }
}

/// Reads the `width` bytes of `b` from `off` on as a number, the least
/// significant byte first.
pub fn read_le(b: &[u8], off: usize, width: usize) -> (r: u64)
    requires
        width <= 8,
        off + width <= b@.len(),
    ensures
        r == le_value(b@.subrange(off as int, off + width)),
        r < radix(width as int),
{
    let len: usize = b.len();
    let ghost rev = b@.subrange(off as int, off + width).reverse();
    let mut acc: u64 = 0;
    let mut i: usize = 0;
    assert(rev.subrange(0, 0) =~= Seq::<u8>::empty());
    while i < width
        invariant
            i <= width <= 8,
            off + width <= b@.len() == len,
            rev == b@.subrange(off as int, off + width).reverse(),
            acc == be_value(rev.subrange(0, i as int)),
            acc < radix(i as int),
        decreases width - i,
    {
        proof {
            lemma_be_value_push(rev.subrange(0, i as int), rev[i as int]);
            assert(rev.subrange(0, i as int).push(rev[i as int]) =~= rev.subrange(0, i + 1));
            assert(rev[i as int] == b@[off + width - 1 - i]);
        }
        acc = acc * 256 + b[off + width - 1 - i] as u64;
        i += 1;
    }
    assert(rev.subrange(0, width as int) =~= rev);
    acc
}

/// The byte order of bytes that hold numbers of which the last is 1: the
/// first byte of the last group is 0 if and only if the most significant
/// byte comes first. The groups before the last hold the other numbers.
pub proof fn lemma_last_group_tells_order(raw: Seq<u8>, values: Seq<nat>, width: int, big: bool)
    requires
        2 <= width <= 8,
        values.len() >= 1,
        values.last() == 1,
        holds(raw, values, width, big),
    ensures
        (raw[(values.len() - 1) * width] == 0) == big,
        holds(raw.subrange(0, (values.len() - 1) * width), values.drop_last(), width, big),
{
    let k = values.len() - 1;
    let g = raw.subrange(k * width, k * width + width);
    assert(k * width + width == width * values.len()) by (nonlinear_arith)
        requires
            k == values.len() - 1,
    ;
    assert(0 <= k * width) by (nonlinear_arith)
        requires
            k >= 0,
            width >= 0,
    ;
    assert(values[k] == order_value(g, big));
    if big {
        lemma_be_value_small(g);
        assert(g[0] == 0);
    } else {
        lemma_be_value_small(g.reverse());
        assert(g.reverse().last() == g[0]);
    }
    assert(raw[k * width] == g[0]);
    let head = raw.subrange(0, k * width);
    let rest = values.drop_last();
    assert(head.len() == width * rest.len()) by (nonlinear_arith)
        requires
            head.len() == k * width,
            rest.len() == k,
    ;
    assert forall|j: int| 0 <= j < rest.len() implies #[trigger] rest[j] == order_value(
        head.subrange(j * width, j * width + width),
        big,
    ) by {
        assert((j + 1) * width <= k * width) by (nonlinear_arith)
            requires
                j + 1 <= k,
                width >= 0,
        ;
        assert((j + 1) * width == j * width + width) by (nonlinear_arith);
        assert(0 <= j * width) by (nonlinear_arith)
            requires
                j >= 0,
                width >= 0,
        ;
        assert(head.subrange(j * width, j * width + width) =~= raw.subrange(
            j * width,
            j * width + width,
        ));
        assert(values[j] == rest[j]);
    }
}

} // verus!
