//! An optional value that follows the relocation protocol: a slot that
//! holds one value or none.

use crate::compact::Compact;
use crate::region::write_u8;
use vstd::pervasive::unreached;
use vstd::prelude::*;

verus! {

/// A slot for zero or one value. An empty slot has no dynamic part; an
/// occupied one has that of its value.
#[derive(Clone, Default, Debug)]
pub struct CompactOption<T: Compact + Clone>(pub Option<T>);

/// The byte that marks an empty slot in a region.
pub const EMPTY_MARK: u8 = 0;

/// The byte that marks an occupied slot in a region.
pub const OCCUPIED_MARK: u8 = 1;

impl<T: Compact + Clone> std::ops::Deref for CompactOption<T> {
    type Target = Option<T>;

    /// The slot.
    fn deref(&self) -> (slot: &Option<T>)
        ensures
            *slot == self.0,
    {
        &self.0
    }
}

impl<T: Compact + Clone> std::ops::DerefMut for CompactOption<T> {
    /// The slot, for writing.
    fn deref_mut(&mut self) -> (slot: &mut Option<T>)
        ensures
            *slot == old(self).0,
            final(self).0 == *final(slot),
    {
        &mut self.0
    }
}

impl<T: Compact + Clone> Compact for CompactOption<T> {
    type Content = Option<T::Content>;

    open spec fn content(&self) -> Option<T::Content> {
        match self.0 {
            Some(value) => Some(value.content()),
            None => None,
        }
    }

    open spec fn valid(&self) -> bool {
        match self.0 {
            Some(value) => value.valid(),
            None => true,
        }
    }

    open spec fn still_compact(&self) -> bool {
        match self.0 {
            Some(value) => value.still_compact(),
            None => true,
        }
    }

    open spec fn detached(&self) -> bool {
        match self.0 {
            Some(value) => value.detached(),
            None => true,
        }
    }

    open spec fn fixed_size() -> nat {
        1 + T::fixed_size()
    }

    open spec fn dynamic_size(content: Option<T::Content>) -> nat {
        match content {
            Some(value) => T::dynamic_size(value),
            None => 0,
        }
    }

    open spec fn offsets_fit(
        position: int,
        dynamic_start: int,
        content: Option<T::Content>,
    ) -> bool {
        match content {
            Some(value) => T::offsets_fit(position + 1, dynamic_start, value),
            None => true,
        }
    }

    open spec fn stored_at(
        region: Seq<u8>,
        position: int,
        dynamic_start: int,
        content: Option<T::Content>,
    ) -> bool {
        &&& 0 <= position
        &&& position + Self::fixed_size() <= region.len()
        &&& 0 <= dynamic_start <= region.len()
        &&& match content {
            Some(value) => region[position] == OCCUPIED_MARK && T::stored_at(
                region,
                position + 1,
                dynamic_start,
                value,
            ),
            None => region[position] == EMPTY_MARK,
        }
    }

    open spec fn decoded(region: Seq<u8>, position: int) -> Option<Option<T::Content>> {
        if 0 <= position && position + Self::fixed_size() <= region.len() {
            if region[position] == EMPTY_MARK {
                Some(None)
            } else if region[position] == OCCUPIED_MARK {
                match T::decoded(region, position + 1) {
                    Some(value) => Some(Some(value)),
                    None => None,
                }
            } else {
                None
            }
        } else {
            None
        }
    }

    proof fn lemma_offsets_fit_nearby(
        position: int,
        dynamic_start: int,
        content: Option<T::Content>,
    ) {
        match content {
            Some(value) => {
                T::lemma_offsets_fit_nearby(position + 1, dynamic_start, value);
            },
            None => {},
        }
    }

    proof fn lemma_stored_at_inside(
        region: Seq<u8>,
        position: int,
        dynamic_start: int,
        content: Option<T::Content>,
    ) {
        match content {
            Some(value) => {
                T::lemma_stored_at_inside(region, position + 1, dynamic_start, value);
            },
            None => {},
        }
    }

    proof fn lemma_stored_at_moved(
        region: Seq<u8>,
        moved: Seq<u8>,
        position: int,
        dynamic_start: int,
        shift: int,
        content: Option<T::Content>,
    ) {
        assert(moved[position + shift] == region[position]);
        match content {
            Some(value) => {
                T::lemma_stored_at_moved(
                    region,
                    moved,
                    position + 1,
                    dynamic_start,
                    shift,
                    value,
                );
            },
            None => {},
        }
    }

    proof fn lemma_stored_at_decoded(
        region: Seq<u8>,
        position: int,
        dynamic_start: int,
        content: Option<T::Content>,
    ) {
        match content {
            Some(value) => {
                T::lemma_stored_at_decoded(region, position + 1, dynamic_start, value);
            },
            None => {},
        }
    }

    fn is_still_compact(&self) -> (compact: bool) {
        match &self.0 {
            Some(value) => value.is_still_compact(),
            None => true,
        }
    }

    fn fixed_size_bytes() -> (size: usize) {
        1 + T::fixed_size_bytes()
    }

    fn dynamic_size_bytes(&self) -> (size: usize) {
        match &self.0 {
            Some(value) => value.dynamic_size_bytes(),
            None => 0,
        }
    }

    fn compact(self, region: &mut Vec<u8>, dest: usize, dynamic_start: usize) {
        let ghost content = self.content();
        let end: usize = region.len();
        match self.0 {
            Some(value) => {
                // The mark goes first: the slot of the value lies behind it.
                write_u8(region, dest, OCCUPIED_MARK);
                value.compact(region, dest + 1, dynamic_start);
            },
            None => {
                write_u8(region, dest, EMPTY_MARK);
            },
        }
        proof {
            Self::lemma_stored_at_decoded(region@, dest as int, dynamic_start as int, content);
        }
    }

    fn decompact(region: &[u8], source: usize) -> (value: Self) {
        let end: usize = region.len();
        let mark = region[source];
        if mark == OCCUPIED_MARK {
            CompactOption(Some(T::decompact(region, source + 1)))
        } else if mark == EMPTY_MARK {
            CompactOption(None)
        } else {
            unreached()
        }
    }
}

/// An empty slot takes no dynamic bytes; an occupied slot takes exactly
/// those of its value.
pub proof fn law_option_dynamic_size<T: Compact + Clone>(option: CompactOption<T>)
    ensures
        option.0 is None ==> CompactOption::<T>::dynamic_size(option.content()) == 0,
        option.0 is Some ==> CompactOption::<T>::dynamic_size(option.content())
            == T::dynamic_size(option.0.unwrap().content()),
{
}

/// An empty slot that was compacted and is decompacted is an empty slot:
/// it reaches no pointer, so it is compact and detached at once.
pub proof fn law_empty_option_round_trip<T: Compact + Clone>(
    region: Seq<u8>,
    dest: int,
    read: CompactOption<T>,
)
    requires
        CompactOption::<T>::stored_at(
            region,
            dest,
            dest + CompactOption::<T>::fixed_size(),
            None,
        ),
        CompactOption::<T>::decoded(region, dest) is Some ==> Some(read.content())
            == CompactOption::<T>::decoded(region, dest),
    ensures
        read.0 is None,
        read.still_compact(),
        read.detached(),
{
}

} // verus!
