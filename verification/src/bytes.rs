//! Numbers in sequences of bytes.
use vstd::prelude::*;

verus! {

/// Whether some bytes stand at a place.
pub open spec fn fits(bytes: Seq<u8>, at: int, n: int) -> bool {
    0 <= at && at + n <= bytes.len()
}

/// The number that some bytes stand for, the lowest first.
pub open spec fn little(bytes: Seq<u8>) -> nat
    decreases bytes.len(),
{
    if bytes.len() == 0 {
        0
    } else {
        bytes[0] as nat + 256 * little(bytes.drop_first())
    }
}

/// The number that some bytes stand for, the highest first.
pub open spec fn big(bytes: Seq<u8>) -> nat
    decreases bytes.len(),
{
    if bytes.len() == 0 {
        0
    } else {
        256 * big(bytes.drop_last()) + bytes.last() as nat
    }
}

/// The number that the bytes at a place stand for, the lowest first.
pub open spec fn little_at(bytes: Seq<u8>, at: int, n: int) -> nat {
    little(bytes.subrange(at, at + n))
}

/// The number that the bytes at a place stand for, the highest first.
pub open spec fn big_at(bytes: Seq<u8>, at: int, n: int) -> nat {
    big(bytes.subrange(at, at + n))
}

proof fn little_two(b: Seq<u8>)
    requires
        b.len() == 2,
    ensures
        little(b) == b[0] + 256 * b[1],
{
    reveal_with_fuel(little, 3);
}

proof fn little_four(b: Seq<u8>)
    requires
        b.len() == 4,
    ensures
        little(b) == b[0] + 256 * b[1] + 65_536 * b[2] + 16_777_216 * b[3],
{
    reveal_with_fuel(little, 5);
}

proof fn little_eight(b: Seq<u8>)
    requires
        b.len() == 8,
    ensures
        little(b) == little(b.take(4)) + 4_294_967_296 * little(b.skip(4)),
{
    reveal_with_fuel(little, 5);
    let d = b.drop_first();
    let e = d.drop_first();
    let f = e.drop_first();
    let g = f.drop_first();
    assert(g =~= b.skip(4));
    little_four(b.take(4));
    assert(little(b) == b[0] + 256 * (b[1] + 256 * (b[2] + 256 * (b[3] + 256 * little(g)))));
}

proof fn big_two(b: Seq<u8>)
    requires
        b.len() == 2,
    ensures
        big(b) == 256 * b[0] + b[1],
{
    reveal_with_fuel(big, 3);
}

proof fn big_four(b: Seq<u8>)
    requires
        b.len() == 4,
    ensures
        big(b) == 16_777_216 * b[0] + 65_536 * b[1] + 256 * b[2] + b[3],
{
    reveal_with_fuel(big, 5);
}

/// The two bytes at a place, the lowest first.
pub fn read_u16_le(bytes: &[u8], at: usize) -> (r: Option<u16>)
    ensures
        match r {
            Some(v) => fits(bytes@, at as int, 2) && v == little_at(bytes@, at as int, 2),
            None => !fits(bytes@, at as int, 2),
        },
{
    let n: usize = bytes.len();
    if n < 2 || at > n - 2 {
        return None;
    }
    proof {
        little_two(bytes@.subrange(at as int, at + 2));
    }
    Some(bytes[at] as u16 + 256 * bytes[at + 1] as u16)
}

/// The four bytes at a place, the lowest first.
pub fn read_u32_le(bytes: &[u8], at: usize) -> (r: Option<u32>)
    ensures
        match r {
            Some(v) => fits(bytes@, at as int, 4) && v == little_at(bytes@, at as int, 4),
            None => !fits(bytes@, at as int, 4),
        },
{
    let n: usize = bytes.len();
    if n < 4 || at > n - 4 {
        return None;
    }
    proof {
        little_four(bytes@.subrange(at as int, at + 4));
    }
    Some(
        bytes[at] as u32 + 256 * bytes[at + 1] as u32 + 65_536 * bytes[at + 2] as u32 + 16_777_216
            * bytes[at + 3] as u32,
    )
}

/// The eight bytes at a place, the lowest first.
pub fn read_u64_le(bytes: &[u8], at: usize) -> (r: Option<u64>)
    ensures
        match r {
            Some(v) => fits(bytes@, at as int, 8) && v == little_at(bytes@, at as int, 8),
            None => !fits(bytes@, at as int, 8),
        },
{
    let n: usize = bytes.len();
    if n < 8 || at > n - 8 {
        return None;
    }
    proof {
        let b = bytes@.subrange(at as int, at + 8);
        little_eight(b);
        assert(b.take(4) =~= bytes@.subrange(at as int, at + 4));
        assert(b.skip(4) =~= bytes@.subrange(at + 4, at + 8));
    }
    match read_u32_le(bytes, at) {
        Some(low) => match read_u32_le(bytes, at + 4) {
            Some(high) => Some(low as u64 + 4_294_967_296 * high as u64),
            None => None,
        },
        None => None,
    }
}

/// The two bytes at a place, the highest first.
pub fn read_u16_be(bytes: &[u8], at: usize) -> (r: Option<u16>)
    ensures
        match r {
            Some(v) => fits(bytes@, at as int, 2) && v == big_at(bytes@, at as int, 2),
            None => !fits(bytes@, at as int, 2),
        },
{
    let n: usize = bytes.len();
    if n < 2 || at > n - 2 {
        return None;
    }
    proof {
        big_two(bytes@.subrange(at as int, at + 2));
    }
    Some(256 * bytes[at] as u16 + bytes[at + 1] as u16)
}

/// The four bytes at a place, the highest first.
pub fn read_u32_be(bytes: &[u8], at: usize) -> (r: Option<u32>)
    ensures
        match r {
            Some(v) => fits(bytes@, at as int, 4) && v == big_at(bytes@, at as int, 4),
            None => !fits(bytes@, at as int, 4),
        },
{
    let n: usize = bytes.len();
    if n < 4 || at > n - 4 {
        return None;
    }
    proof {
        big_four(bytes@.subrange(at as int, at + 4));
    }
    Some(
        16_777_216 * bytes[at] as u32 + 65_536 * bytes[at + 1] as u32 + 256 * bytes[at + 2] as u32
            + bytes[at + 3] as u32,
    )
}

/// A slice as a list of its own.
pub fn part(bytes: &[u8], from: usize, to: usize) -> (r: Vec<u8>)
    requires
        from <= to <= bytes@.len(),
    ensures
        r@ == bytes@.subrange(from as int, to as int),
{
    let mut out: Vec<u8> = Vec::new();
    let mut i: usize = from;
    while i < to
        invariant
            from <= i <= to <= bytes@.len(),
            out@ == bytes@.subrange(from as int, i as int),
        decreases to - i,
    {
        out.push(bytes[i]);
        i += 1;
        assert(bytes@.subrange(from as int, i as int) =~= bytes@.subrange(
            from as int,
            i - 1,
        ).push(bytes@[i - 1]));
    }
    out
}

/// A number as eight bytes, the highest first.
pub fn to_bytes_be(v: u64) -> (r: Vec<u8>)
    ensures
        r@.len() == 8,
        big(r@) == v,
{
    let q1: u64 = v / 256;
    let q2: u64 = q1 / 256;
    let q3: u64 = q2 / 256;
    let q4: u64 = q3 / 256;
    let q5: u64 = q4 / 256;
    let q6: u64 = q5 / 256;
    let q7: u64 = q6 / 256;
    let mut out: Vec<u8> = Vec::new();
    push_digit(&mut out, 0, q7);
    push_digit(&mut out, q7, q6);
    push_digit(&mut out, q6, q5);
    push_digit(&mut out, q5, q4);
    push_digit(&mut out, q4, q3);
    push_digit(&mut out, q3, q2);
    push_digit(&mut out, q2, q1);
    push_digit(&mut out, q1, v);
    out
}

/// Puts the last digit of a number, to the base of 256, behind the others.
fn push_digit(out: &mut Vec<u8>, others: u64, v: u64)
    requires
        big(old(out)@) == others,
        others == v / 256,
    ensures
        final(out)@.len() == old(out)@.len() + 1,
        big(final(out)@) == v,
{
    let ghost before = out@;
    out.push((v % 256) as u8);
    assert(out@.drop_last() =~= before);
}

/// Bytes stand for a number to the base of 256: with the lowest first, eight of them for the sum
/// of each times its place.
pub proof fn little_is_to_the_base_of_256(b: Seq<u8>)
    ensures
        b.len() == 2 ==> little(b) == b[0] + 256 * b[1],
        b.len() == 4 ==> little(b) == b[0] + 256 * b[1] + 65_536 * b[2] + 16_777_216 * b[3],
        b.len() == 8 ==> little(b) == b[0] + 256 * b[1] + 65_536 * b[2] + 16_777_216 * b[3]
            + 4_294_967_296 * b[4] + 1_099_511_627_776 * b[5] + 281_474_976_710_656 * b[6]
            + 72_057_594_037_927_936 * b[7],
        b.len() == 2 ==> big(b) == 256 * b[0] + b[1],
        b.len() == 4 ==> big(b) == 16_777_216 * b[0] + 65_536 * b[1] + 256 * b[2] + b[3],
{
    reveal_with_fuel(little, 9);
    reveal_with_fuel(big, 5);
}

/// The bytes of a number turned round stand for the same number the other way round.
pub proof fn turned_bytes_stand_for_the_same(b: Seq<u8>)
    ensures
        little(b) == big(b.reverse()),
    decreases b.len(),
{
    let r = b.reverse();
    if b.len() > 0 {
        turned_bytes_stand_for_the_same(b.drop_first());
        assert(r.drop_last() =~= b.drop_first().reverse());
        assert(r.last() == b[0]);
    }
}

} // verus!
