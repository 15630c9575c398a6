//! Payload builders for the compute budget program: requesting a compute
//! unit limit and a compute unit price (the priority fee).

use vstd::prelude::*;

use crate::serialization::{spec_u32_le, spec_u64_le};

verus! {

/// The compute budget program's address.
pub const COMPUTE_BUDGET_PROGRAM_ID: [u8; 32] = [
    0x03, 0x06, 0x46, 0x6f, 0xe5, 0x21, 0x17, 0x32, 0xff, 0xec, 0xad, 0xba, 0x72, 0xc3, 0x9b, 0xe7,
    0xbc, 0x8c, 0xe5, 0xbb, 0xc5, 0xf7, 0x12, 0x6b, 0x2c, 0x43, 0x9b, 0x3a, 0x40, 0x00, 0x00, 0x00,
];

/// Payload that sets the compute unit limit: its selector byte, then the
/// limit little-endian.
pub fn create_compute_unit_limit_instruction(units: u32) -> (r: Vec<u8>)
    ensures
        r@ == seq![2u8] + spec_u32_le(units),
{
    let mut data: Vec<u8> = Vec::new();
    data.push(2);
    data.push((units % 0x100) as u8);
    data.push(((units / 0x100) % 0x100) as u8);
    data.push(((units / 0x1_0000) % 0x100) as u8);
    data.push((units / 0x100_0000) as u8);
    proof {
        assert(data@ =~= seq![2u8] + spec_u32_le(units));
    }
    data
}

/// Payload that sets the compute unit price in microlamports: its selector
/// byte, then the price little-endian.
pub fn create_compute_unit_price_instruction(microlamports: u64) -> (r: Vec<u8>)
    ensures
        r@ == seq![3u8] + spec_u64_le(microlamports),
{
    let mut data: Vec<u8> = Vec::new();
    data.push(3);
    data.push((microlamports % 0x100) as u8);
    data.push(((microlamports / 0x100) % 0x100) as u8);
    data.push(((microlamports / 0x1_0000) % 0x100) as u8);
    data.push(((microlamports / 0x100_0000) % 0x100) as u8);
    data.push(((microlamports / 0x1_0000_0000) % 0x100) as u8);
    data.push(((microlamports / 0x100_0000_0000) % 0x100) as u8);
    data.push(((microlamports / 0x1_0000_0000_0000) % 0x100) as u8);
    data.push((microlamports / 0x100_0000_0000_0000) as u8);
    proof {
        assert(data@ =~= seq![3u8] + spec_u64_le(microlamports));
    }
    data
}

} // verus!
