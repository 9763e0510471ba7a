//! Reading and writing the bytes of a relocatable region.

use vstd::bytes::{
    spec_u32_from_le_bytes, spec_u32_to_le_bytes, spec_u64_from_le_bytes, spec_u64_to_le_bytes,
    u32_from_le_bytes, u32_to_le_bytes, u64_from_le_bytes, u64_to_le_bytes,
};
use vstd::prelude::*;
use vstd::slice::slice_subrange;

verus! {

/// Two regions hold the same bytes in `[start, start + len)`.
pub open spec fn agree_on(a: Seq<u8>, b: Seq<u8>, start: int, len: int) -> bool {
    forall|k: int| start <= k < start + len ==> a[k] == b[k]
}

/// `moved` holds in `[start + shift, start + shift + len)` the bytes that
/// `region` holds in `[start, start + len)`.
pub open spec fn same_bytes_shifted(
    region: Seq<u8>,
    moved: Seq<u8>,
    start: int,
    len: int,
    shift: int,
) -> bool {
    forall|k: int| start <= k < start + len ==> moved[k + shift] == region[k]
}

/// A fixed part of `fixed` bytes at `position` and a dynamic part of
/// `dynamic` bytes at `dynamic_start` both lie inside a region of
/// `region_len` bytes.
pub open spec fn parts_inside(
    region_len: int,
    position: int,
    fixed: int,
    dynamic_start: int,
    dynamic: int,
) -> bool {
    &&& 0 <= position
    &&& position + fixed <= region_len
    &&& 0 <= dynamic_start
    &&& dynamic_start + dynamic <= region_len
}

/// `after` has the length of `before` and differs from it at most in
/// `[start, start + len)`.
pub open spec fn changed_only_in(before: Seq<u8>, after: Seq<u8>, start: int, len: int) -> bool {
    &&& after.len() == before.len()
    &&& forall|k: int| 0 <= k < before.len() && !(start <= k < start + len) ==> after[k] == before[k]
}

/// `after` has the length of `before` and differs from it at most in the
/// fixed part `[dest, dest + fixed)` and in the dynamic part
/// `[dynamic_start, dynamic_start + dynamic)`.
pub open spec fn changed_only_in_parts(
    before: Seq<u8>,
    after: Seq<u8>,
    dest: int,
    fixed: int,
    dynamic_start: int,
    dynamic: int,
) -> bool {
    &&& after.len() == before.len()
    &&& forall|k: int|
        0 <= k < before.len() && !(dest <= k < dest + fixed) && !(dynamic_start <= k
            < dynamic_start + dynamic) ==> after[k] == before[k]
}

/// A region of `region_len` bytes has room for a value whose fixed part of
/// `fixed` bytes goes to `dest` and whose dynamic part of `dynamic` bytes
/// goes to `dynamic_start`: both parts lie inside the region and do not
/// overlap.
pub open spec fn room_for(
    region_len: int,
    dest: int,
    fixed: int,
    dynamic_start: int,
    dynamic: int,
) -> bool {
    &&& parts_inside(region_len, dest, fixed, dynamic_start, dynamic)
    &&& (dest + fixed <= dynamic_start || dynamic_start + dynamic <= dest)
}

/// A fixed part of `fixed` bytes at `dest` and a dynamic part of `dynamic`
/// bytes at `dynamic_start` do not overlap, and no byte of one is further
/// than `i32::MAX` from the start of the other.
pub open spec fn parts_nearby(dest: int, fixed: int, dynamic_start: int, dynamic: int) -> bool {
    &&& (dest + fixed <= dynamic_start || dynamic_start + dynamic <= dest)
    &&& dynamic_start + dynamic - dest <= i32::MAX
    &&& dest + fixed - dynamic_start <= i32::MAX
}

/// Copies `bytes` into the region, starting at `position`.
pub fn write_bytes(region: &mut Vec<u8>, position: usize, bytes: &[u8])
    requires
        position + bytes@.len() <= old(region)@.len(),
    ensures
        changed_only_in(old(region)@, final(region)@, position as int, bytes@.len() as int),
        final(region)@.subrange(position as int, position + bytes@.len()) == bytes@,
{
    let end: usize = region.len();
    let mut i: usize = 0;
    while i < bytes.len()
        invariant
            i <= bytes@.len(),
            position + bytes@.len() <= region@.len(),
            region@.len() == old(region)@.len(),
            region@.len() == end,
            forall|k: int|
                0 <= k < region@.len() && !(position <= k < position + i) ==> region@[k] == old(
                    region,
                )@[k],
            forall|k: int| 0 <= k < i ==> region@[position + k] == bytes@[k],
        decreases bytes@.len() - i,
    {
        region[position + i] = bytes[i];
        i += 1;
    }
    assert(region@.subrange(position as int, position + bytes@.len()) =~= bytes@);
}

/// Writes one byte at `position`.
pub fn write_u8(region: &mut Vec<u8>, position: usize, value: u8)
    requires
        position < old(region)@.len(),
    ensures
        changed_only_in(old(region)@, final(region)@, position as int, 1),
        final(region)@[position as int] == value,
{
    region[position] = value;
}

/// Writes `value` at `position`, in four bytes, least significant first.
pub fn write_u32(region: &mut Vec<u8>, position: usize, value: u32)
    requires
        position + 4 <= old(region)@.len(),
    ensures
        changed_only_in(old(region)@, final(region)@, position as int, 4),
        final(region)@.subrange(position as int, position + 4) == spec_u32_to_le_bytes(value),
{
    let bytes = u32_to_le_bytes(value);
    write_bytes(region, position, bytes.as_slice());
}

/// Writes `value` at `position`, in eight bytes, least significant first.
pub fn write_u64(region: &mut Vec<u8>, position: usize, value: u64)
    requires
        position + 8 <= old(region)@.len(),
    ensures
        changed_only_in(old(region)@, final(region)@, position as int, 8),
        final(region)@.subrange(position as int, position + 8) == spec_u64_to_le_bytes(value),
{
    let bytes = u64_to_le_bytes(value);
    write_bytes(region, position, bytes.as_slice());
}

/// The four bytes at `position`, read least significant first.
pub fn read_u32(region: &[u8], position: usize) -> (value: u32)
    requires
        position + 4 <= region@.len(),
    ensures
        value == spec_u32_from_le_bytes(region@.subrange(position as int, position + 4)),
{
    let end: usize = region.len();
    u32_from_le_bytes(slice_subrange(region, position, position + 4))
}

/// The eight bytes at `position`, read least significant first.
pub fn read_u64(region: &[u8], position: usize) -> (value: u64)
    requires
        position + 8 <= region@.len(),
    ensures
        value == spec_u64_from_le_bytes(region@.subrange(position as int, position + 8)),
{
    let end: usize = region.len();
    u64_from_le_bytes(slice_subrange(region, position, position + 8))
}

} // verus!
