use vstd::prelude::*;

pub mod byte_order;
pub mod chunk;
pub mod chunk_type;
pub mod crc32;
pub mod error;
pub mod png;
pub mod text;

verus! {

pub open spec fn png_signature_spec() -> Seq<u8> {
    seq![0x89u8, 0x50u8, 0x4Eu8, 0x47u8, 0x0Du8, 0x0Au8, 0x1Au8, 0x0Au8]
}

/// The fixed eight-byte signature that every container starts with.
pub fn png_signature() -> (r: [u8; 8])
    ensures
        r@ == png_signature_spec(),
{
    let r: [u8; 8] = [0x89u8, 0x50u8, 0x4Eu8, 0x47u8, 0x0Du8, 0x0Au8, 0x1Au8, 0x0Au8];
    proof {
        assert(r@ =~= png_signature_spec());
    }
    r
}

} // verus!
