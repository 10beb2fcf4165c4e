//! Variable-length bus headers for register access.
//!
//! Every bus transaction starts with a 1-3 byte header: byte 0 carries the
//! write flag (bit 7), the sub-address-present flag (bit 6) and the register
//! id (bits 0-5); byte 1, present only for a nonzero sub-id, carries the
//! extended-sub-address flag (bit 7) and the sub-id's low 7 bits; byte 2,
//! present only for a sub-id above 127, carries the sub-id's bits 7-14.

use vstd::prelude::*;

verus! {

/// How many header bytes a register with this sub-id needs: 1 when the
/// sub-id is zero, 2 when it fits in 7 bits, and 3 otherwise.
pub open spec fn spec_header_length(sub_id: u16) -> int {
    if sub_id == 0 {
        1
    } else if sub_id <= 127 {
        2
    } else {
        3
    }
}

/// The first header byte: write flag, sub-address-present flag, register id.
pub open spec fn spec_header_byte0(id: u8, sub_id: u16, is_write: bool) -> u8 {
    (if is_write {
        0x80u8
    } else {
        0u8
    }) | (if sub_id > 0 {
        0x40u8
    } else {
        0u8
    }) | (id & 0x3f)
}

/// The second header byte: extended flag and the sub-id's low 7 bits.
pub open spec fn spec_header_byte1(sub_id: u16) -> u8 {
    (if sub_id > 127 {
        0x80u8
    } else {
        0u8
    }) | ((sub_id as u8) & 0x7f)
}

/// The third header byte: the sub-id's bits 7-14.
pub open spec fn spec_header_byte2(sub_id: u16) -> u8 {
    ((sub_id & 0x7f80) >> 7u16) as u8
}

/// The whole header for one access to `(id, sub_id)`, as the bytes that go
/// on the bus.
pub open spec fn spec_header_bytes(id: u8, sub_id: u16, is_write: bool) -> Seq<u8> {
    if sub_id == 0 {
        seq![spec_header_byte0(id, sub_id, is_write)]
    } else if sub_id <= 127 {
        seq![spec_header_byte0(id, sub_id, is_write), spec_header_byte1(sub_id)]
    } else {
        seq![
            spec_header_byte0(id, sub_id, is_write),
            spec_header_byte1(sub_id),
            spec_header_byte2(sub_id),
        ]
    }
}

/// Returns the length of the header for a register with the given sub-id.
pub fn header_length(sub_id: u16) -> (r: usize)
    ensures
        r == spec_header_length(sub_id),
{
    if sub_id == 0 {
        1
    } else if sub_id <= 127 {
        2
    } else {
        3
    }
}

/// Builds the bus header for one access to the register `(id, sub_id)`,
/// flagged as a write when `is_write` is set.
pub fn build_header(id: u8, sub_id: u16, is_write: bool) -> (r: Vec<u8>)
    requires
        id <= 0x3f,
        sub_id <= 0x7fff,
    ensures
        r@ == spec_header_bytes(id, sub_id, is_write),
        r@.len() == spec_header_length(sub_id),
        r@[0] == spec_header_byte0(id, sub_id, is_write),
        sub_id > 0 ==> r@[1] == spec_header_byte1(sub_id),
        sub_id > 127 ==> r@[2] == spec_header_byte2(sub_id),
{
    let mut r: Vec<u8> = Vec::new();
    let write_flag: u8 = if is_write {
        0x80
    } else {
        0
    };
    let sub_flag: u8 = if sub_id > 0 {
        0x40
    } else {
        0
    };
    r.push(write_flag | sub_flag | (id & 0x3f));
    if sub_id > 0 {
        let ext_flag: u8 = if sub_id > 127 {
            0x80
        } else {
            0
        };
        r.push(ext_flag | ((sub_id as u8) & 0x7f));
        if sub_id > 127 {
            r.push(((sub_id & 0x7f80) >> 7u16) as u8);
        }
    }
    proof {
        assert(r@ =~= spec_header_bytes(id, sub_id, is_write));
    }
    r
}

/// The flag bits never corrupt the address: the register id and the sub-id
/// can be read back from the header bytes exactly, whatever the write and
/// extended flags are.
pub proof fn lemma_header_preserves_address(id: u8, sub_id: u16, is_write: bool)
    requires
        id <= 0x3f,
        sub_id <= 0x7fff,
    ensures
        spec_header_byte0(id, sub_id, is_write) & 0x3f == id,
        ((spec_header_byte0(id, sub_id, is_write) >> 7u8) & 1 == 1) == is_write,
        ((spec_header_byte0(id, sub_id, is_write) >> 6u8) & 1 == 1) == (sub_id > 0),
        ((spec_header_byte1(sub_id) >> 7u8) & 1 == 1) == (sub_id > 127),
        0 < sub_id <= 127 ==> (spec_header_byte1(sub_id) & 0x7f) as u16 == sub_id,
        sub_id > 127 ==> ((spec_header_byte1(sub_id) & 0x7f) as u16) | ((spec_header_byte2(
            sub_id,
        ) as u16) << 7u16) == sub_id,
{
    lemma_header_preserves_address_bv(id, sub_id, is_write);
}

proof fn lemma_header_preserves_address_bv(id: u8, sub_id: u16, is_write: bool)
    by (bit_vector)
    requires
        id <= 0x3f,
        sub_id <= 0x7fff,
    ensures
        spec_header_byte0(id, sub_id, is_write) & 0x3f == id,
        ((spec_header_byte0(id, sub_id, is_write) >> 7u8) & 1 == 1) == is_write,
        ((spec_header_byte0(id, sub_id, is_write) >> 6u8) & 1 == 1) == (sub_id > 0),
        ((spec_header_byte1(sub_id) >> 7u8) & 1 == 1) == (sub_id > 127),
        0 < sub_id <= 127 ==> (spec_header_byte1(sub_id) & 0x7f) as u16 == sub_id,
        sub_id > 127 ==> ((spec_header_byte1(sub_id) & 0x7f) as u16) | ((spec_header_byte2(
            sub_id,
        ) as u16) << 7u16) == sub_id,
{
}

} // verus!
