//! Plain values: integers, which have a fixed part and nothing else. In a
//! region an integer stands with its least significant byte first.

use crate::compact::Compact;
use crate::region::{read_u32, read_u64, write_u32, write_u64, write_u8};
use vstd::bytes::{
    lemma_auto_spec_u32_to_from_le_bytes, lemma_auto_spec_u64_to_from_le_bytes,
    spec_u32_from_le_bytes, spec_u32_to_le_bytes, spec_u64_from_le_bytes, spec_u64_to_le_bytes,
};
use vstd::prelude::*;

verus! {

impl Compact for u8 {
    type Content = u8;

    open spec fn content(&self) -> u8 {
        *self
    }

    open spec fn valid(&self) -> bool {
        true
    }

    open spec fn still_compact(&self) -> bool {
        true
    }

    open spec fn detached(&self) -> bool {
        true
    }

    open spec fn fixed_size() -> nat {
        1
    }

    open spec fn dynamic_size(content: u8) -> nat {
        0
    }

    open spec fn offsets_fit(position: int, dynamic_start: int, content: u8) -> bool {
        true
    }

    open spec fn stored_at(region: Seq<u8>, position: int, dynamic_start: int, content: u8) -> bool {
        &&& 0 <= position < region.len()
        &&& 0 <= dynamic_start <= region.len()
        &&& region[position] == content
    }

    open spec fn decoded(region: Seq<u8>, position: int) -> Option<u8> {
        if 0 <= position < region.len() {
            Some(region[position])
        } else {
            None
        }
    }

    proof fn lemma_offsets_fit_nearby(position: int, dynamic_start: int, content: u8) {
    }

    proof fn lemma_stored_at_inside(
        region: Seq<u8>,
        position: int,
        dynamic_start: int,
        content: u8,
    ) {
    }

    proof fn lemma_stored_at_moved(
        region: Seq<u8>,
        moved: Seq<u8>,
        position: int,
        dynamic_start: int,
        shift: int,
        content: u8,
    ) {
    }

    proof fn lemma_stored_at_decoded(
        region: Seq<u8>,
        position: int,
        dynamic_start: int,
        content: u8,
    ) {
    }

    fn is_still_compact(&self) -> (compact: bool) {
        true
    }

    fn fixed_size_bytes() -> (size: usize) {
        1
    }

    fn dynamic_size_bytes(&self) -> (size: usize) {
        0
    }

    fn compact(self, region: &mut Vec<u8>, dest: usize, dynamic_start: usize) {
        write_u8(region, dest, self);
    }

    fn decompact(region: &[u8], source: usize) -> (value: u8) {
        region[source]
    }
}

impl Compact for u32 {
    type Content = u32;

    open spec fn content(&self) -> u32 {
        *self
    }

    open spec fn valid(&self) -> bool {
        true
    }

    open spec fn still_compact(&self) -> bool {
        true
    }

    open spec fn detached(&self) -> bool {
        true
    }

    open spec fn fixed_size() -> nat {
        4
    }

    open spec fn dynamic_size(content: u32) -> nat {
        0
    }

    open spec fn offsets_fit(position: int, dynamic_start: int, content: u32) -> bool {
        true
    }

    open spec fn stored_at(
        region: Seq<u8>,
        position: int,
        dynamic_start: int,
        content: u32,
    ) -> bool {
        &&& 0 <= position
        &&& position + 4 <= region.len()
        &&& 0 <= dynamic_start <= region.len()
        &&& region.subrange(position, position + 4) == spec_u32_to_le_bytes(content)
    }

    open spec fn decoded(region: Seq<u8>, position: int) -> Option<u32> {
        if 0 <= position && position + 4 <= region.len() {
            Some(spec_u32_from_le_bytes(region.subrange(position, position + 4)))
        } else {
            None
        }
    }

    proof fn lemma_offsets_fit_nearby(position: int, dynamic_start: int, content: u32) {
    }

    proof fn lemma_stored_at_inside(
        region: Seq<u8>,
        position: int,
        dynamic_start: int,
        content: u32,
    ) {
    }

    proof fn lemma_stored_at_moved(
        region: Seq<u8>,
        moved: Seq<u8>,
        position: int,
        dynamic_start: int,
        shift: int,
        content: u32,
    ) {
        assert(moved.subrange(position + shift, position + shift + 4) =~= region.subrange(
            position,
            position + 4,
        ));
    }

    proof fn lemma_stored_at_decoded(
        region: Seq<u8>,
        position: int,
        dynamic_start: int,
        content: u32,
    ) {
        lemma_auto_spec_u32_to_from_le_bytes();
        assert(spec_u32_to_le_bytes(content).len() == 4);
    }

    fn is_still_compact(&self) -> (compact: bool) {
        true
    }

    fn fixed_size_bytes() -> (size: usize) {
        4
    }

    fn dynamic_size_bytes(&self) -> (size: usize) {
        0
    }

    fn compact(self, region: &mut Vec<u8>, dest: usize, dynamic_start: usize) {
        write_u32(region, dest, self);
        proof {
            Self::lemma_stored_at_decoded(region@, dest as int, dynamic_start as int, self);
        }
    }

    fn decompact(region: &[u8], source: usize) -> (value: u32) {
        read_u32(region, source)
    }
}

impl Compact for u64 {
    type Content = u64;

    open spec fn content(&self) -> u64 {
        *self
    }

    open spec fn valid(&self) -> bool {
        true
    }

    open spec fn still_compact(&self) -> bool {
        true
    }

    open spec fn detached(&self) -> bool {
        true
    }

    open spec fn fixed_size() -> nat {
        8
    }

    open spec fn dynamic_size(content: u64) -> nat {
        0
    }

    open spec fn offsets_fit(position: int, dynamic_start: int, content: u64) -> bool {
        true
    }

    open spec fn stored_at(
        region: Seq<u8>,
        position: int,
        dynamic_start: int,
        content: u64,
    ) -> bool {
        &&& 0 <= position
        &&& position + 8 <= region.len()
        &&& 0 <= dynamic_start <= region.len()
        &&& region.subrange(position, position + 8) == spec_u64_to_le_bytes(content)
    }

    open spec fn decoded(region: Seq<u8>, position: int) -> Option<u64> {
        if 0 <= position && position + 8 <= region.len() {
            Some(spec_u64_from_le_bytes(region.subrange(position, position + 8)))
        } else {
            None
        }
    }

    proof fn lemma_offsets_fit_nearby(position: int, dynamic_start: int, content: u64) {
    }

    proof fn lemma_stored_at_inside(
        region: Seq<u8>,
        position: int,
        dynamic_start: int,
        content: u64,
    ) {
    }

    proof fn lemma_stored_at_moved(
        region: Seq<u8>,
        moved: Seq<u8>,
        position: int,
        dynamic_start: int,
        shift: int,
        content: u64,
    ) {
        assert(moved.subrange(position + shift, position + shift + 8) =~= region.subrange(
            position,
            position + 8,
        ));
    }

    proof fn lemma_stored_at_decoded(
        region: Seq<u8>,
        position: int,
        dynamic_start: int,
        content: u64,
    ) {
        lemma_auto_spec_u64_to_from_le_bytes();
    }

    fn is_still_compact(&self) -> (compact: bool) {
        true
    }

    fn fixed_size_bytes() -> (size: usize) {
        8
    }

    fn dynamic_size_bytes(&self) -> (size: usize) {
        0
    }

    fn compact(self, region: &mut Vec<u8>, dest: usize, dynamic_start: usize) {
        write_u64(region, dest, self);
        proof {
            Self::lemma_stored_at_decoded(region@, dest as int, dynamic_start as int, self);
        }
    }

    fn decompact(region: &[u8], source: usize) -> (value: u64) {
        read_u64(region, source)
    }
}

impl Compact for usize {
    type Content = usize;

    open spec fn content(&self) -> usize {
        *self
    }

    open spec fn valid(&self) -> bool {
        true
    }

    open spec fn still_compact(&self) -> bool {
        true
    }

    open spec fn detached(&self) -> bool {
        true
    }

    open spec fn fixed_size() -> nat {
        8
    }

    open spec fn dynamic_size(content: usize) -> nat {
        0
    }

    open spec fn offsets_fit(position: int, dynamic_start: int, content: usize) -> bool {
        true
    }

    open spec fn stored_at(
        region: Seq<u8>,
        position: int,
        dynamic_start: int,
        content: usize,
    ) -> bool {
        &&& 0 <= position
        &&& position + 8 <= region.len()
        &&& 0 <= dynamic_start <= region.len()
        &&& region.subrange(position, position + 8) == spec_u64_to_le_bytes(content as u64)
    }

    open spec fn decoded(region: Seq<u8>, position: int) -> Option<usize> {
        if 0 <= position && position + 8 <= region.len() && spec_u64_from_le_bytes(
            region.subrange(position, position + 8),
        ) <= usize::MAX {
            Some(spec_u64_from_le_bytes(region.subrange(position, position + 8)) as usize)
        } else {
            None
        }
    }

    proof fn lemma_offsets_fit_nearby(position: int, dynamic_start: int, content: usize) {
    }

    proof fn lemma_stored_at_inside(
        region: Seq<u8>,
        position: int,
        dynamic_start: int,
        content: usize,
    ) {
    }

    proof fn lemma_stored_at_moved(
        region: Seq<u8>,
        moved: Seq<u8>,
        position: int,
        dynamic_start: int,
        shift: int,
        content: usize,
    ) {
        assert(moved.subrange(position + shift, position + shift + 8) =~= region.subrange(
            position,
            position + 8,
        ));
    }

    proof fn lemma_stored_at_decoded(
        region: Seq<u8>,
        position: int,
        dynamic_start: int,
        content: usize,
    ) {
        lemma_auto_spec_u64_to_from_le_bytes();
    }

    fn is_still_compact(&self) -> (compact: bool) {
        true
    }

    fn fixed_size_bytes() -> (size: usize) {
        8
    }

    fn dynamic_size_bytes(&self) -> (size: usize) {
        0
    }

    fn compact(self, region: &mut Vec<u8>, dest: usize, dynamic_start: usize) {
        write_u64(region, dest, self as u64);
        proof {
            Self::lemma_stored_at_decoded(region@, dest as int, dynamic_start as int, self);
        }
    }

    fn decompact(region: &[u8], source: usize) -> (value: usize) {
        read_u64(region, source) as usize
    }
}

} // verus!
