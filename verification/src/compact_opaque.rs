//! A box that erases the type of what it holds: the bytes of one compacted
//! value and nothing else.

use crate::compact::Compact;
use crate::compact_vec::CompactVec;
use crate::pointer_to_maybe_compact::Inner;
use vstd::prelude::*;

verus! {

/// The bytes of a value that was compacted when the box was made. The box
/// does not know the type of the value: who reads the value back has to
/// know it.
pub struct Opaque {
    data: CompactVec<u8>,
}

impl View for Opaque {
    type V = Seq<u8>;

    /// The bytes in the box.
    closed spec fn view(&self) -> Seq<u8> {
        self.data@
    }
}

impl Opaque {
    /// The state of the pointer to the storage of the bytes.
    pub closed spec fn pointer(&self) -> Inner {
        self.data.pointer()
    }

    /// Moves a value into a box of exactly its total size: the fixed part
    /// at the beginning, the dynamic part directly behind it.
    pub fn new<T: Compact>(specific: T) -> (opaque: Self)
        requires
            specific.valid(),
            T::fixed_size() + T::dynamic_size(specific.content()) <= usize::MAX,
            T::offsets_fit(0, T::fixed_size() as int, specific.content()),
        ensures
            opaque@.len() == T::fixed_size() + T::dynamic_size(specific.content()),
            T::stored_at(opaque@, 0, T::fixed_size() as int, specific.content()),
            T::decoded(opaque@, 0) == Some(specific.content()),
            opaque.pointer() is Free,
    {
        let total = specific.total_size_bytes();
        let mut bytes: Vec<u8> = vec![0u8; total];
        specific.compact_behind(&mut bytes, 0);
        Opaque { data: CompactVec::from_vec(bytes) }
    }

    /// The bytes in the box.
    pub fn as_bytes(&self) -> (bytes: &[u8])
        ensures
            bytes@ == self@,
    {
        self.data.as_slice()
    }
}

impl Clone for Opaque {
    /// A box with the same bytes, in heap storage of its own.
    fn clone(&self) -> (copy: Self)
        ensures
            copy@ == self@,
            copy.pointer() is Free,
    {
        let mut data = CompactVec::with_capacity(self.data.len());
        data.extend_from_copy_slice(self.data.as_slice());
        assert(data@ =~= self.data@);
        Opaque { data }
    }
}

impl Compact for Opaque {
    type Content = Seq<u8>;

    open spec fn content(&self) -> Seq<u8> {
        self@
    }

    open spec fn valid(&self) -> bool {
        true
    }

    open spec fn still_compact(&self) -> bool {
        !(self.pointer() is Free)
    }

    open spec fn detached(&self) -> bool {
        self.pointer() is Free
    }

    open spec fn fixed_size() -> nat {
        CompactVec::<u8>::fixed_size()
    }

    open spec fn dynamic_size(content: Seq<u8>) -> nat {
        CompactVec::<u8>::dynamic_size(content)
    }

    open spec fn offsets_fit(position: int, dynamic_start: int, content: Seq<u8>) -> bool {
        CompactVec::<u8>::offsets_fit(position, dynamic_start, content)
    }

    open spec fn stored_at(
        region: Seq<u8>,
        position: int,
        dynamic_start: int,
        content: Seq<u8>,
    ) -> bool {
        CompactVec::<u8>::stored_at(region, position, dynamic_start, content)
    }

    open spec fn decoded(region: Seq<u8>, position: int) -> Option<Seq<u8>> {
        CompactVec::<u8>::decoded(region, position)
    }

    proof fn lemma_offsets_fit_nearby(position: int, dynamic_start: int, content: Seq<u8>) {
        CompactVec::<u8>::lemma_offsets_fit_nearby(position, dynamic_start, content);
    }

    proof fn lemma_stored_at_inside(
        region: Seq<u8>,
        position: int,
        dynamic_start: int,
        content: Seq<u8>,
    ) {
    }

    proof fn lemma_stored_at_moved(
        region: Seq<u8>,
        moved: Seq<u8>,
        position: int,
        dynamic_start: int,
        shift: int,
        content: Seq<u8>,
    ) {
        CompactVec::<u8>::lemma_stored_at_moved(
            region,
            moved,
            position,
            dynamic_start,
            shift,
            content,
        );
    }

    proof fn lemma_stored_at_decoded(
        region: Seq<u8>,
        position: int,
        dynamic_start: int,
        content: Seq<u8>,
    ) {
        CompactVec::<u8>::lemma_stored_at_decoded(region, position, dynamic_start, content);
    }

    fn is_still_compact(&self) -> (compact: bool) {
        self.data.is_still_compact()
    }

    fn fixed_size_bytes() -> (size: usize) {
        CompactVec::<u8>::fixed_size_bytes()
    }

    fn dynamic_size_bytes(&self) -> (size: usize) {
        proof {
            assert(self.data.content() =~= self@);
        }
        self.data.dynamic_size_bytes()
    }

    fn compact(self, region: &mut Vec<u8>, dest: usize, dynamic_start: usize) {
        let ghost content = self@;
        proof {
            assert(self.data.content() =~= self@);
        }
        self.data.compact(region, dest, dynamic_start);
        proof {
            Self::lemma_stored_at_decoded(region@, dest as int, dynamic_start as int, content);
        }
    }

    fn decompact(region: &[u8], source: usize) -> (value: Self) {
        let data = CompactVec::<u8>::decompact(region, source);
        proof {
            assert(data.content() =~= data@);
        }
        Opaque { data }
    }
}

} // verus!
