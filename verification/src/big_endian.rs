//! Numbers as big-endian bytes.
use crate::value::bytes_lt;
use vstd::prelude::*;

verus! {

/// The number whose big-endian digits the bytes are.
pub open spec fn be_value(bytes: Seq<u8>) -> nat
    decreases bytes.len(),
{
    if bytes.len() == 0 {
        0
    } else {
        be_value(bytes.drop_last()) * 256 + bytes.last() as nat
    }
}

/// The last `width` big-endian digits of a number.
pub open spec fn be_bytes(value: nat, width: nat) -> Seq<u8>
    decreases width,
{
    if width == 0 {
        Seq::empty()
    } else {
        be_bytes(value / 256, (width - 1) as nat).push((value % 256) as u8)
    }
}

/// A number of 64 bits as eight big-endian bytes.
pub open spec fn u64_bytes(value: u64) -> Seq<u8> {
    be_bytes(value as nat, 8)
}

/// The power of 256.
spec fn pow256(n: nat) -> nat
    decreases n,
{
    if n == 0 {
        1
    } else {
        pow256((n - 1) as nat) * 256
    }
}

proof fn digits_of_a_number(value: nat, width: nat)
    requires
        value < pow256(width),
    ensures
        be_bytes(value, width).len() == width,
        be_value(be_bytes(value, width)) == value,
    decreases width,
{
    if width > 0 {
        let shorter = be_bytes(value / 256, (width - 1) as nat);
        digits_of_a_number(value / 256, (width - 1) as nat);
        assert(be_bytes(value, width).drop_last() =~= shorter);
    }
}

proof fn number_of_digits(bytes: Seq<u8>)
    ensures
        be_bytes(be_value(bytes), bytes.len()) == bytes,
        be_value(bytes) < pow256(bytes.len()),
    decreases bytes.len(),
{
    if bytes.len() > 0 {
        number_of_digits(bytes.drop_last());
        assert(bytes =~= bytes.drop_last().push(bytes.last()));
        assert((bytes.len() - 1) as nat == bytes.drop_last().len());
    } else {
        assert(bytes =~= be_bytes(0, 0));
    }
}

/// The eight bytes of a number give it back.
pub proof fn u64_bytes_give_the_number(value: u64)
    ensures
        u64_bytes(value).len() == 8,
        be_value(u64_bytes(value)) == value,
{
    assert(pow256(8) == 0x1_0000_0000_0000_0000) by {
        reveal_with_fuel(pow256, 9);
    }
    digits_of_a_number(value as nat, 8);
}

/// Eight bytes are those of the number that they give.
pub proof fn eight_bytes_are_a_number(bytes: Seq<u8>)
    requires
        bytes.len() == 8,
    ensures
        be_value(bytes) <= u64::MAX,
        u64_bytes(be_value(bytes) as u64) == bytes,
{
    assert(pow256(8) == 0x1_0000_0000_0000_0000) by {
        reveal_with_fuel(pow256, 9);
    }
    number_of_digits(bytes);
}

proof fn first_digit(bytes: Seq<u8>)
    requires
        bytes.len() > 0,
    ensures
        be_value(bytes) == bytes[0] * pow256((bytes.len() - 1) as nat) + be_value(
            bytes.drop_first(),
        ),
    decreases bytes.len(),
{
    if bytes.len() == 1 {
        assert(bytes.drop_last() =~= Seq::<u8>::empty());
        assert(bytes.drop_first() =~= Seq::<u8>::empty());
        assert(bytes[0] * pow256(0) == bytes[0]) by (nonlinear_arith)
            requires
                pow256(0) == 1,
        ;
    } else {
        let p = pow256((bytes.len() - 2) as nat);
        first_digit(bytes.drop_last());
        assert(pow256((bytes.len() - 1) as nat) == p * 256);
        assert(bytes.drop_first().last() == bytes.last());
        assert(bytes.drop_last().drop_first() =~= bytes.drop_first().drop_last());
        assert((bytes[0] * p + be_value(bytes.drop_first().drop_last())) * 256 == bytes[0] * (p
            * 256) + be_value(bytes.drop_first().drop_last()) * 256) by (nonlinear_arith);
    }
}

/// Numbers of as many bytes stand in the order of their bytes: a scan in key order is one in
/// numeric order.
pub proof fn byte_order_is_numeric_order(a: Seq<u8>, b: Seq<u8>)
    requires
        a.len() == b.len(),
    ensures
        bytes_lt(a, b) <==> be_value(a) < be_value(b),
    decreases a.len(),
{
    if a.len() > 0 {
        let p = pow256((a.len() - 1) as nat);
        let ra = be_value(a.drop_first());
        let rb = be_value(b.drop_first());
        first_digit(a);
        first_digit(b);
        number_of_digits(a.drop_first());
        number_of_digits(b.drop_first());
        byte_order_is_numeric_order(a.drop_first(), b.drop_first());
        if a[0] < b[0] {
            assert(a[0] * p + ra < b[0] * p + rb) by (nonlinear_arith)
                requires
                    a[0] < b[0],
                    ra < p,
            ;
        } else if b[0] < a[0] {
            assert(b[0] * p + rb < a[0] * p + ra) by (nonlinear_arith)
                requires
                    b[0] < a[0],
                    rb < p,
            ;
        }
    }
}

/// Appends the eight bytes of a number.
pub fn push_u64(out: &mut Vec<u8>, value: u64)
    ensures
        final(out)@ == old(out)@ + u64_bytes(value),
{
    push_digits(out, value, 8);
}

fn push_digits(out: &mut Vec<u8>, value: u64, width: u8)
    ensures
        final(out)@ == old(out)@ + be_bytes(value as nat, width as nat),
    decreases width,
{
    if width > 0 {
        push_digits(out, value / 256, (width - 1) as u8);
        out.push((value % 256) as u8);
    }
}

/// The number whose eight bytes stand at `from`.
pub fn read_u64(bytes: &Vec<u8>, from: usize) -> (r: u64)
    requires
        from + 8 <= bytes@.len(),
    ensures
        r == be_value(bytes@.subrange(from as int, from + 8)),
        u64_bytes(r) == bytes@.subrange(from as int, from + 8),
{
    let ghost read = bytes@.subrange(from as int, from + 8);
    let end: usize = bytes.len();
    let mut value: u64 = 0;
    let mut i: usize = 0;
    proof {
        eight_bytes_are_a_number(read);
    }
    while i < 8
        invariant
            i <= 8,
            from + 8 <= end,
            end == bytes@.len(),
            read == bytes@.subrange(from as int, from + 8),
            value == be_value(read.take(i as int)),
            be_value(read) <= u64::MAX,
        decreases 8 - i,
    {
        proof {
            assert(read.take(i + 1).drop_last() =~= read.take(i as int));
            prefix_is_no_larger(read, i + 1);
        }
        value = value * 256 + bytes[from + i] as u64;
        i = i + 1;
    }
    assert(read.take(8) =~= read);
    value
}

proof fn prefix_is_no_larger(bytes: Seq<u8>, n: int)
    requires
        0 <= n <= bytes.len(),
    ensures
        be_value(bytes.take(n)) <= be_value(bytes),
    decreases bytes.len() - n,
{
    if n < bytes.len() {
        prefix_is_no_larger(bytes, n + 1);
        assert(bytes.take(n + 1).drop_last() =~= bytes.take(n));
    } else {
        assert(bytes.take(n) =~= bytes);
    }
}

} // verus!
