//! The relocation protocol: what every value has to offer so that it can be
//! laid out in a relocatable region and read back from one.
//!
//! A value has a fixed part, whose size depends on its type alone, and a
//! dynamic part, whose size depends on what the value holds. Compaction
//! writes the fixed part to one place in a region and the dynamic part to
//! another; every reference from the fixed part into the dynamic part is
//! written as an offset relative to the position of the reference, so the
//! bytes can be moved as a whole and still be read.

use crate::region::{
    agree_on, changed_only_in_parts, parts_inside, parts_nearby, room_for, same_bytes_shifted,
};
use vstd::prelude::*;

verus! {

/// A value that can be compacted into a relocatable region and decompacted
/// from one.
pub trait Compact: Sized {
    /// What can be read from a value, whatever storage it lives in.
    type Content;

    /// The readable content of the value.
    spec fn content(&self) -> Self::Content;

    /// The value and all that it holds satisfy their invariants.
    spec fn valid(&self) -> bool;

    /// No pointer that can be reached from the value points to the heap.
    spec fn still_compact(&self) -> bool;

    /// Every pointer that can be reached from the value points to the heap.
    spec fn detached(&self) -> bool;

    /// The size of the fixed part, in bytes.
    spec fn fixed_size() -> nat;

    /// The size of the dynamic part of a value with this content, in bytes.
    spec fn dynamic_size(content: Self::Content) -> nat;

    /// Every offset that compaction writes for a value with this content,
    /// with the fixed part at `position` and the dynamic part from
    /// `dynamic_start` on, fits the width in which offsets are stored.
    spec fn offsets_fit(position: int, dynamic_start: int, content: Self::Content) -> bool;

    /// The region holds a value with this content: its fixed part at
    /// `position`, its dynamic part from `dynamic_start` on, each field's
    /// share of the dynamic part directly behind that of the field before.
    spec fn stored_at(
        region: Seq<u8>,
        position: int,
        dynamic_start: int,
        content: Self::Content,
    ) -> bool;

    /// What a reader finds that starts at `position` and follows the
    /// pointers it meets, if the bytes it meets stand for a value.
    spec fn decoded(region: Seq<u8>, position: int) -> Option<Self::Content>;

    /// Where the two parts lie near each other, every offset fits.
    proof fn lemma_offsets_fit_nearby(position: int, dynamic_start: int, content: Self::Content)
        requires
            parts_nearby(
                position,
                Self::fixed_size() as int,
                dynamic_start,
                Self::dynamic_size(content) as int,
            ),
        ensures
            Self::offsets_fit(position, dynamic_start, content),
    ;

    /// Both parts of a stored value lie inside the region.
    proof fn lemma_stored_at_inside(
        region: Seq<u8>,
        position: int,
        dynamic_start: int,
        content: Self::Content,
    )
        requires
            Self::stored_at(region, position, dynamic_start, content),
        ensures
            parts_inside(
                region.len() as int,
                position,
                Self::fixed_size() as int,
                dynamic_start,
                Self::dynamic_size(content) as int,
            ),
    ;

    /// A stored value can be moved: where the bytes of its two parts stand
    /// `shift` places further on, in the same or in another region, the
    /// value is stored `shift` places further on. No byte has to be changed
    /// for that, and no other byte matters.
    proof fn lemma_stored_at_moved(
        region: Seq<u8>,
        moved: Seq<u8>,
        position: int,
        dynamic_start: int,
        shift: int,
        content: Self::Content,
    )
        requires
            Self::stored_at(region, position, dynamic_start, content),
            parts_inside(
                moved.len() as int,
                position + shift,
                Self::fixed_size() as int,
                dynamic_start + shift,
                Self::dynamic_size(content) as int,
            ),
            same_bytes_shifted(region, moved, position, Self::fixed_size() as int, shift),
            same_bytes_shifted(
                region,
                moved,
                dynamic_start,
                Self::dynamic_size(content) as int,
                shift,
            ),
        ensures
            Self::stored_at(moved, position + shift, dynamic_start + shift, content),
    ;

    /// A reader finds what was stored.
    proof fn lemma_stored_at_decoded(
        region: Seq<u8>,
        position: int,
        dynamic_start: int,
        content: Self::Content,
    )
        requires
            Self::stored_at(region, position, dynamic_start, content),
        ensures
            Self::decoded(region, position) == Some(content),
    ;

    /// Whether the value, where it is now, needs no heap storage.
    fn is_still_compact(&self) -> (compact: bool)
        requires
            self.valid(),
        ensures
            compact == self.still_compact(),
    ;

    /// The size of the fixed part, in bytes.
    fn fixed_size_bytes() -> (size: usize)
        requires
            Self::fixed_size() <= usize::MAX,
        ensures
            size == Self::fixed_size(),
    ;

    /// The number of bytes that the dynamic part takes if the value is
    /// compacted now.
    fn dynamic_size_bytes(&self) -> (size: usize)
        requires
            self.valid(),
            Self::dynamic_size(self.content()) <= usize::MAX,
        ensures
            size == Self::dynamic_size(self.content()),
    ;

    /// The number of bytes that the whole value takes if it is compacted
    /// now.
    fn total_size_bytes(&self) -> (size: usize)
        requires
            self.valid(),
            Self::fixed_size() + Self::dynamic_size(self.content()) <= usize::MAX,
        ensures
            size == Self::fixed_size() + Self::dynamic_size(self.content()),
    {
        Self::fixed_size_bytes() + self.dynamic_size_bytes()
    }

    /// Moves the value into the region: the fixed part to `dest`, the
    /// dynamic part to `dynamic_start` and behind. Nothing else in the
    /// region changes. The value itself is used up.
    fn compact(self, region: &mut Vec<u8>, dest: usize, dynamic_start: usize)
        requires
            self.valid(),
            room_for(
                old(region)@.len() as int,
                dest as int,
                Self::fixed_size() as int,
                dynamic_start as int,
                Self::dynamic_size(self.content()) as int,
            ),
            Self::offsets_fit(dest as int, dynamic_start as int, self.content()),
        ensures
            changed_only_in_parts(
                old(region)@,
                final(region)@,
                dest as int,
                Self::fixed_size() as int,
                dynamic_start as int,
                Self::dynamic_size(self.content()) as int,
            ),
            Self::stored_at(final(region)@, dest as int, dynamic_start as int, self.content()),
            Self::decoded(final(region)@, dest as int) == Some(self.content()),
    ;

    /// Moves the value into the region: the fixed part to `dest`, the
    /// dynamic part directly behind it.
    fn compact_behind(self, region: &mut Vec<u8>, dest: usize)
        requires
            self.valid(),
            dest + Self::fixed_size() + Self::dynamic_size(self.content()) <= old(region)@.len(),
            Self::offsets_fit(dest as int, dest + Self::fixed_size(), self.content()),
        ensures
            changed_only_in_parts(
                old(region)@,
                final(region)@,
                dest as int,
                Self::fixed_size() as int,
                dest + Self::fixed_size(),
                Self::dynamic_size(self.content()) as int,
            ),
            Self::stored_at(
                final(region)@,
                dest as int,
                dest + Self::fixed_size(),
                self.content(),
            ),
            Self::decoded(final(region)@, dest as int) == Some(self.content()),
    {
        let end: usize = region.len();
        let fixed = Self::fixed_size_bytes();
        self.compact(region, dest, dest + fixed)
    }

    /// Reads the value whose fixed part the region holds at `source` into
    /// storage of its own.
    fn decompact(region: &[u8], source: usize) -> (value: Self)
        requires
            Self::decoded(region@, source as int) is Some,
        ensures
            Some(value.content()) == Self::decoded(region@, source as int),
            value.valid(),
            value.detached(),
    ;
}

/// A stored value depends on the bytes of its two parts only.
pub proof fn lemma_stored_at_frame<T: Compact>(
    before: Seq<u8>,
    after: Seq<u8>,
    position: int,
    dynamic_start: int,
    content: T::Content,
)
    requires
        T::stored_at(before, position, dynamic_start, content),
        before.len() == after.len(),
        agree_on(before, after, position, T::fixed_size() as int),
        agree_on(before, after, dynamic_start, T::dynamic_size(content) as int),
    ensures
        T::stored_at(after, position, dynamic_start, content),
{
    T::lemma_stored_at_inside(before, position, dynamic_start, content);
    T::lemma_stored_at_moved(before, after, position, dynamic_start, 0, content);
}

/// A compacted value that is copied to another place as raw bytes, its two
/// parts at the distance they had, is read there with the content it had.
pub proof fn law_relocation<T: Compact>(
    region: Seq<u8>,
    moved: Seq<u8>,
    position: int,
    dynamic_start: int,
    shift: int,
    content: T::Content,
)
    requires
        T::stored_at(region, position, dynamic_start, content),
        parts_inside(
            moved.len() as int,
            position + shift,
            T::fixed_size() as int,
            dynamic_start + shift,
            T::dynamic_size(content) as int,
        ),
        same_bytes_shifted(region, moved, position, T::fixed_size() as int, shift),
        same_bytes_shifted(region, moved, dynamic_start, T::dynamic_size(content) as int, shift),
    ensures
        T::decoded(moved, position + shift) == Some(content),
{
    T::lemma_stored_at_moved(region, moved, position, dynamic_start, shift, content);
    T::lemma_stored_at_decoded(moved, position + shift, dynamic_start + shift, content);
}

/// A value that was compacted behind its fixed part and is decompacted from
/// there comes back with the content it had, valid, and with every pointer
/// pointing to heap storage of its own.
pub proof fn law_round_trip<T: Compact>(value: T, region: Seq<u8>, dest: int, read: T)
    requires
        T::stored_at(region, dest, dest + T::fixed_size(), value.content()),
        T::decoded(region, dest) is Some ==> {
            &&& Some(read.content()) == T::decoded(region, dest)
            &&& read.valid()
            &&& read.detached()
        },
    ensures
        T::decoded(region, dest) is Some,
        read.content() == value.content(),
        read.valid(),
        read.detached(),
{
    T::lemma_stored_at_decoded(region, dest, dest + T::fixed_size(), value.content());
}

} // verus!
