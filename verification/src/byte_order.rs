use vstd::prelude::*;

verus! {

/// The four big-endian bytes of a 32-bit value, most significant first.
pub open spec fn u32_be(x: u32) -> Seq<u8> {
    seq![
        (x / 0x1000000) as u8,
        ((x / 0x10000) % 0x100) as u8,
        ((x / 0x100) % 0x100) as u8,
        (x % 0x100) as u8,
    ]
}

/// The 32-bit value read big-endian from four bytes.
pub open spec fn be_u32(s: Seq<u8>) -> u32
    recommends
        s.len() == 4,
{
    (s[0] as int * 0x1000000 + s[1] as int * 0x10000 + s[2] as int * 0x100 + s[3] as int) as u32
}

/// Reading the four big-endian bytes of a value back gives the value.
pub proof fn lemma_be_u32_of_u32_be(x: u32)
    ensures
        be_u32(u32_be(x)) == x,
{
    assert((x / 0x1000000) < 0x100 && (x / 0x1000000) * 0x1000000 + ((x / 0x10000) % 0x100)
        * 0x10000 + ((x / 0x100) % 0x100) * 0x100 + (x % 0x100) == x) by (bit_vector);
}

/// Four bytes are the big-endian bytes of the value they encode.
pub proof fn lemma_u32_be_of_be_u32(s: Seq<u8>)
    requires
        s.len() == 4,
    ensures
        u32_be(be_u32(s)) == s,
{
    let a = s[0] as u32;
    let b = s[1] as u32;
    let c = s[2] as u32;
    let d = s[3] as u32;
    let n = be_u32(s);
    assert(n == a * 0x1000000 + b * 0x10000 + c * 0x100 + d) by {
        assert(a < 0x100 && b < 0x100 && c < 0x100 && d < 0x100 ==> (a as int) * 0x1000000 + (
        b as int) * 0x10000 + (c as int) * 0x100 + (d as int) < 0x100000000) by (bit_vector);
    }
    assert(a < 0x100 && b < 0x100 && c < 0x100 && d < 0x100 && n == a * 0x1000000 + b * 0x10000 + c
        * 0x100 + d ==> n / 0x1000000 == a && (n / 0x10000) % 0x100 == b && (n / 0x100) % 0x100
        == c && n % 0x100 == d) by (bit_vector);
    assert(u32_be(n) =~= s);
}

/// Writes a 32-bit value as its four big-endian bytes.
pub fn u32_to_be_bytes(x: u32) -> (r: [u8; 4])
    ensures
        r@ == u32_be(x),
{
    proof {
        assert(x / 0x1000000 < 0x100 && (x / 0x10000) % 0x100 < 0x100 && (x / 0x100) % 0x100
            < 0x100 && x % 0x100 < 0x100) by (bit_vector);
    }
    let r: [u8; 4] = [
        (x / 0x1000000) as u8,
        ((x / 0x10000) % 0x100) as u8,
        ((x / 0x100) % 0x100) as u8,
        (x % 0x100) as u8,
    ];
    proof {
        assert(r@ =~= u32_be(x));
    }
    r
}

/// Reads a 32-bit value from four big-endian bytes of a slice.
pub fn u32_from_be_bytes(s: &[u8], start: usize) -> (r: u32)
    requires
        start + 4 <= s@.len(),
    ensures
        r == be_u32(s@.subrange(start as int, start as int + 4)),
{
    let n = s.len();
    let b0 = *vstd::slice::slice_index_get(s, start);
    let b1 = *vstd::slice::slice_index_get(s, start + 1);
    let b2 = *vstd::slice::slice_index_get(s, start + 2);
    let b3 = *vstd::slice::slice_index_get(s, start + 3);
    let r = (b0 as u32) * 0x1000000 + (b1 as u32) * 0x10000 + (b2 as u32) * 0x100 + (b3 as u32);
    proof {
        let sub = s@.subrange(start as int, start as int + 4);
        assert(sub[0] == b0 && sub[1] == b1 && sub[2] == b2 && sub[3] == b3);
    }
    r
}

} // verus!
