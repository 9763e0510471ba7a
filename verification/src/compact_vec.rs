//! The growable buffer that backs every container: a contiguous sequence of
//! elements together with the relocatable pointer that says where its
//! storage lives.

use crate::compact::{lemma_stored_at_frame, Compact};
use crate::pointer_to_maybe_compact::{decoded, encoded, Inner, PointerToMaybeCompact, POINTER_SIZE};
use crate::region::{changed_only_in_parts, read_u64, room_for, write_u64};
use vstd::bytes::{
    lemma_auto_spec_u64_to_from_le_bytes, spec_u64_from_le_bytes, spec_u64_to_le_bytes,
};
use vstd::laws_eq::obeys_concrete_eq;
use vstd::pervasive::unreached;
use vstd::prelude::*;

verus! {

/// A growable sequence of elements. A buffer that was never given storage
/// has an unset pointer; one that owns heap storage has a free pointer.
#[derive(Debug)]
pub struct CompactVec<T> {
    ptr: PointerToMaybeCompact<T>,
    items: Vec<T>,
}

impl<T> View for CompactVec<T> {
    type V = Seq<T>;

    closed spec fn view(&self) -> Seq<T> {
        self.items@
    }
}

/// `Vec::as_ptr`, as an integer: the address at which the vector keeps its
/// elements. Nothing is claimed about the address.
#[verifier::external_body]
fn storage_address<T>(items: &Vec<T>) -> u64 {
    items.as_ptr() as u64
}

impl<T> CompactVec<T> {
    /// The state of the pointer to the buffer's storage.
    pub closed spec fn pointer(&self) -> Inner {
        self.ptr@
    }

    /// An empty buffer without storage.
    pub fn new() -> (vec: Self)
        ensures
            vec@ == Seq::<T>::empty(),
            vec.pointer() == Inner::Uninitialized,
    {
        CompactVec { ptr: PointerToMaybeCompact::default(), items: Vec::new() }
    }

    /// An empty buffer with heap storage for `cap` elements.
    pub fn with_capacity(cap: usize) -> (vec: Self)
        ensures
            vec@ == Seq::<T>::empty(),
            vec.pointer() is Free,
    {
        let items: Vec<T> = Vec::with_capacity(cap);
        let address = storage_address(&items);
        CompactVec { ptr: PointerToMaybeCompact::new_free(address), items }
    }

    /// A buffer that takes over the elements and the heap storage of `items`.
    pub fn from_vec(items: Vec<T>) -> (vec: Self)
        ensures
            vec@ == items@,
            vec.pointer() is Free,
    {
        let address = storage_address(&items);
        CompactVec { ptr: PointerToMaybeCompact::new_free(address), items }
    }

    /// The elements, as a vector.
    pub fn into_vec(self) -> (items: Vec<T>)
        ensures
            items@ == self@,
    {
        self.items
    }

    /// The number of elements.
    pub fn len(&self) -> (len: usize)
        ensures
            len == self@.len(),
    {
        self.items.len()
    }

    /// Whether the buffer holds no element.
    pub fn is_empty(&self) -> (empty: bool)
        ensures
            empty == (self@.len() == 0),
    {
        self.items.len() == 0
    }

    /// The element at `index`.
    pub fn get(&self, index: usize) -> (item: &T)
        requires
            index < self@.len(),
        ensures
            *item == self@[index as int],
    {
        &self.items[index]
    }

    /// The element at `index`, for writing.
    pub fn get_mut(&mut self, index: usize) -> (item: &mut T)
        requires
            index < old(self)@.len(),
        ensures
            *item == old(self)@[index as int],
            final(self)@ == old(self)@.update(index as int, *final(item)),
            final(self).pointer() == old(self).pointer(),
    {
        &mut self.items[index]
    }

    /// Puts `value` at `index` and returns what was there.
    pub fn replace(&mut self, index: usize, value: T) -> (previous: T)
        requires
            index < old(self)@.len(),
        ensures
            previous == old(self)@[index as int],
            final(self)@ == old(self)@.update(index as int, value),
            final(self).pointer() == old(self).pointer(),
    {
        let mut value = value;
        core::mem::swap(&mut self.items[index], &mut value);
        value
    }

    /// Appends `value`. The buffer owns heap storage afterwards.
    pub fn push(&mut self, value: T)
        ensures
            final(self)@ == old(self)@.push(value),
            final(self).pointer() is Free,
    {
        self.items.push(value);
        let address = storage_address(&self.items);
        self.ptr.set_to_free(address);
    }

    /// Removes the last element and returns it, if there is one.
    pub fn pop(&mut self) -> (last: Option<T>)
        ensures
            old(self)@.len() == 0 ==> last is None && final(self)@ == old(self)@,
            old(self)@.len() > 0 ==> last == Some(old(self)@.last()) && final(self)@ == old(
                self,
            )@.drop_last(),
            final(self).pointer() == old(self).pointer(),
    {
        self.items.pop()
    }

    /// Removes the element at `index`, moving the later ones one place
    /// towards the front, and returns it.
    pub fn remove(&mut self, index: usize) -> (item: T)
        requires
            index < old(self)@.len(),
        ensures
            item == old(self)@[index as int],
            final(self)@ == old(self)@.remove(index as int),
            final(self).pointer() == old(self).pointer(),
    {
        self.items.remove(index)
    }

    /// Exchanges the elements at `a` and `b`.
    pub fn swap(&mut self, a: usize, b: usize)
        requires
            a < old(self)@.len(),
            b < old(self)@.len(),
        ensures
            final(self)@ == old(self)@.update(a as int, old(self)@[b as int]).update(
                b as int,
                old(self)@[a as int],
            ),
            final(self).pointer() == old(self).pointer(),
    {
        if a < b {
            let (left, right) = self.items.as_mut_slice().split_at_mut(b);
            core::mem::swap(&mut left[a], &mut right[0]);
        } else if b < a {
            let (left, right) = self.items.as_mut_slice().split_at_mut(a);
            core::mem::swap(&mut left[b], &mut right[0]);
        }
    }

    /// The elements, as a slice.
    pub fn as_slice(&self) -> (slice: &[T])
        ensures
            slice@ == self@,
    {
        self.items.as_slice()
    }

    /// The elements, as a slice for writing.
    pub fn as_mut_slice(&mut self) -> (slice: &mut [T])
        ensures
            slice@ == old(self)@,
            final(slice)@ == final(self)@,
            final(self).pointer() == old(self).pointer(),
    {
        self.items.as_mut_slice()
    }
}

impl<T: Clone> Clone for CompactVec<T> {
    /// A buffer with heap storage of its own that holds a clone of every
    /// element.
    fn clone(&self) -> (copy: Self)
        ensures
            copy@.len() == self@.len(),
            forall|i: int| 0 <= i < self@.len() ==> cloned::<T>(self@[i], #[trigger] copy@[i]),
            copy.pointer() is Free,
    {
        CompactVec::from_vec(self.items.clone())
    }
}

impl<T: Copy> CompactVec<T> {
    /// Appends a copy of every element of `other`.
    pub fn extend_from_copy_slice(&mut self, other: &[T])
        ensures
            final(self)@ == old(self)@ + other@,
            other@.len() > 0 ==> final(self).pointer() is Free,
            other@.len() == 0 ==> final(self).pointer() == old(self).pointer(),
    {
        let mut i: usize = 0;
        while i < other.len()
            invariant
                i <= other@.len(),
                self@ == old(self)@ + other@.subrange(0, i as int),
                i > 0 ==> self.pointer() is Free,
                i == 0 ==> self.pointer() == old(self).pointer(),
            decreases other@.len() - i,
        {
            self.push(other[i]);
            i += 1;
        }
    }
}

impl<T: PartialEq> CompactVec<T> {
    /// Whether some element equals `item`.
    pub fn contains(&self, item: &T) -> (found: bool)
        requires
            obeys_concrete_eq::<T>(),
        ensures
            found == self@.contains(*item),
    {
        let mut i: usize = 0;
        while i < self.items.len()
            invariant
                i <= self@.len(),
                obeys_concrete_eq::<T>(),
                forall|j: int| 0 <= j < i ==> self@[j] != *item,
            decreases self@.len() - i,
        {
            proof {
                reveal(obeys_concrete_eq);
            }
            if self.items[i] == *item {
                return true;
            }
            i += 1;
        }
        false
    }
}

/// The number of bytes that the fixed part of a buffer occupies in a
/// region: the pointer to the elements, then their number in eight bytes.
pub const VEC_FIXED_SIZE: usize = 17;

/// The sum of the dynamic sizes of the first `count` elements.
pub open spec fn dynamic_sizes<T: Compact>(contents: Seq<T::Content>, count: int) -> nat
    decreases count,
{
    if count <= 0 {
        0
    } else {
        dynamic_sizes::<T>(contents, count - 1) + T::dynamic_size(contents[count - 1])
    }
}

/// Where the fixed part of the element at `index` lies, in a buffer whose
/// dynamic part starts at `dynamic_start`: the fixed parts of the elements
/// stand at the beginning of the dynamic part, one behind the other.
pub open spec fn slot_position<T: Compact>(dynamic_start: int, index: int) -> int {
    dynamic_start + index * T::fixed_size()
}

/// Where the dynamic part of the element at `index` starts: behind the
/// fixed parts of all elements and the dynamic parts of the elements
/// before it.
pub open spec fn share_start<T: Compact>(
    dynamic_start: int,
    contents: Seq<T::Content>,
    index: int,
) -> int {
    dynamic_start + contents.len() * T::fixed_size() + dynamic_sizes::<T>(contents, index)
}

/// The dynamic sizes of more elements add up to no less.
pub proof fn lemma_dynamic_sizes_monotonic<T: Compact>(
    contents: Seq<T::Content>,
    fewer: int,
    more: int,
)
    requires
        fewer <= more,
    ensures
        dynamic_sizes::<T>(contents, fewer) <= dynamic_sizes::<T>(contents, more),
    decreases more - fewer,
{
    if fewer < more {
        lemma_dynamic_sizes_monotonic::<T>(contents, fewer, more - 1);
    }
}

/// The parts of the element at `index` lie inside the dynamic part of the
/// buffer, the fixed part before the dynamic parts of all elements.
pub proof fn lemma_element_parts_inside<T: Compact>(
    dynamic_start: int,
    contents: Seq<T::Content>,
    index: int,
)
    requires
        0 <= index < contents.len(),
    ensures
        dynamic_start <= slot_position::<T>(dynamic_start, index),
        slot_position::<T>(dynamic_start, index) + T::fixed_size() == slot_position::<T>(
            dynamic_start,
            index + 1,
        ),
        slot_position::<T>(dynamic_start, index + 1) <= share_start::<T>(
            dynamic_start,
            contents,
            0,
        ),
        share_start::<T>(dynamic_start, contents, 0) <= share_start::<T>(
            dynamic_start,
            contents,
            index,
        ),
        share_start::<T>(dynamic_start, contents, index) + T::dynamic_size(contents[index])
            == share_start::<T>(dynamic_start, contents, index + 1),
        share_start::<T>(dynamic_start, contents, index + 1) <= dynamic_start + CompactVec::<
            T,
        >::dynamic_size(contents),
{
    let size = T::fixed_size() as int;
    let count = contents.len() as int;
    assert(0 <= index * size) by (nonlinear_arith)
        requires
            0 <= index,
            0 <= size,
    ;
    assert((index + 1) * size == index * size + size) by (nonlinear_arith);
    assert((index + 1) * size <= count * size) by (nonlinear_arith)
        requires
            index + 1 <= count,
            0 <= size,
    ;
    lemma_dynamic_sizes_monotonic::<T>(contents, 0, index);
    lemma_dynamic_sizes_monotonic::<T>(contents, index + 1, count);
}

/// The parts of an element lie before the parts of the same kind of every
/// later element.
pub proof fn lemma_element_parts_ordered<T: Compact>(
    dynamic_start: int,
    contents: Seq<T::Content>,
    earlier: int,
    later: int,
)
    requires
        0 <= earlier < later < contents.len(),
    ensures
        slot_position::<T>(dynamic_start, earlier + 1) <= slot_position::<T>(
            dynamic_start,
            later,
        ),
        share_start::<T>(dynamic_start, contents, earlier + 1) <= share_start::<T>(
            dynamic_start,
            contents,
            later,
        ),
{
    let size = T::fixed_size() as int;
    assert((earlier + 1) * size <= later * size) by (nonlinear_arith)
        requires
            earlier + 1 <= later,
            0 <= size,
    ;
    lemma_dynamic_sizes_monotonic::<T>(contents, earlier + 1, later);
}

impl<T: Compact> Compact for CompactVec<T> {
    type Content = Seq<T::Content>;

    open spec fn content(&self) -> Seq<T::Content> {
        Seq::new(self@.len(), |i: int| self@[i].content())
    }

    open spec fn valid(&self) -> bool {
        forall|i: int| 0 <= i < self@.len() ==> (#[trigger] self@[i]).valid()
    }

    open spec fn still_compact(&self) -> bool {
        &&& !(self.pointer() is Free)
        &&& forall|i: int| 0 <= i < self@.len() ==> (#[trigger] self@[i]).still_compact()
    }

    open spec fn detached(&self) -> bool {
        &&& self.pointer() is Free
        &&& forall|i: int| 0 <= i < self@.len() ==> (#[trigger] self@[i]).detached()
    }

    open spec fn fixed_size() -> nat {
        VEC_FIXED_SIZE as nat
    }

    open spec fn dynamic_size(content: Seq<T::Content>) -> nat {
        content.len() * T::fixed_size() + dynamic_sizes::<T>(content, content.len() as int)
    }

    open spec fn offsets_fit(position: int, dynamic_start: int, content: Seq<T::Content>) -> bool {
        &&& i32::MIN <= dynamic_start - position <= i32::MAX
        &&& forall|i: int|
            0 <= i < content.len() ==> T::offsets_fit(
                slot_position::<T>(dynamic_start, i),
                share_start::<T>(dynamic_start, content, i),
                #[trigger] content[i],
            )
    }

    open spec fn stored_at(
        region: Seq<u8>,
        position: int,
        dynamic_start: int,
        content: Seq<T::Content>,
    ) -> bool {
        &&& 0 <= position
        &&& position + VEC_FIXED_SIZE <= region.len()
        &&& 0 <= dynamic_start
        &&& dynamic_start + Self::dynamic_size(content) <= region.len()
        &&& i32::MIN <= dynamic_start - position <= i32::MAX
        &&& decoded(region.subrange(position, position + POINTER_SIZE)) == Some(
            Inner::Compact((dynamic_start - position) as i32),
        )
        &&& content.len() <= usize::MAX
        &&& region.subrange(position + POINTER_SIZE, position + VEC_FIXED_SIZE)
            == spec_u64_to_le_bytes(content.len() as u64)
        &&& forall|i: int|
            0 <= i < content.len() ==> T::stored_at(
                region,
                slot_position::<T>(dynamic_start, i),
                share_start::<T>(dynamic_start, content, i),
                #[trigger] content[i],
            )
    }

    open spec fn decoded(region: Seq<u8>, position: int) -> Option<Seq<T::Content>> {
        if 0 <= position && position + VEC_FIXED_SIZE <= region.len() {
            match decoded(region.subrange(position, position + POINTER_SIZE)) {
                Some(Inner::Compact(offset)) => {
                    let dynamic_start = position + offset;
                    let count = spec_u64_from_le_bytes(
                        region.subrange(position + POINTER_SIZE, position + VEC_FIXED_SIZE),
                    );
                    if 0 <= dynamic_start && count <= usize::MAX && dynamic_start + count
                        * T::fixed_size() <= region.len() && forall|i: int|
                        0 <= i < count ==> (#[trigger] T::decoded(
                            region,
                            slot_position::<T>(dynamic_start, i),
                        )) is Some {
                        Some(
                            Seq::new(
                                count as nat,
                                |i: int|
                                    T::decoded(
                                        region,
                                        slot_position::<T>(dynamic_start, i),
                                    ).unwrap(),
                            ),
                        )
                    } else {
                        None
                    }
                },
                _ => None,
            }
        } else {
            None
        }
    }

    proof fn lemma_offsets_fit_nearby(
        position: int,
        dynamic_start: int,
        content: Seq<T::Content>,
    ) {
        assert forall|i: int| 0 <= i < content.len() implies T::offsets_fit(
            slot_position::<T>(dynamic_start, i),
            share_start::<T>(dynamic_start, content, i),
            #[trigger] content[i],
        ) by {
            lemma_element_parts_inside::<T>(dynamic_start, content, i);
            T::lemma_offsets_fit_nearby(
                slot_position::<T>(dynamic_start, i),
                share_start::<T>(dynamic_start, content, i),
                content[i],
            );
        }
    }

    proof fn lemma_stored_at_inside(
        region: Seq<u8>,
        position: int,
        dynamic_start: int,
        content: Seq<T::Content>,
    ) {
    }

    proof fn lemma_stored_at_moved(
        region: Seq<u8>,
        moved: Seq<u8>,
        position: int,
        dynamic_start: int,
        shift: int,
        content: Seq<T::Content>,
    ) {
        assert(moved.subrange(position + shift, position + shift + POINTER_SIZE)
            =~= region.subrange(position, position + POINTER_SIZE));
        assert(moved.subrange(
            position + shift + POINTER_SIZE,
            position + shift + VEC_FIXED_SIZE,
        ) =~= region.subrange(position + POINTER_SIZE, position + VEC_FIXED_SIZE));
        assert forall|i: int| 0 <= i < content.len() implies T::stored_at(
            moved,
            slot_position::<T>(dynamic_start + shift, i),
            share_start::<T>(dynamic_start + shift, content, i),
            #[trigger] content[i],
        ) by {
            lemma_element_parts_inside::<T>(dynamic_start, content, i);
            T::lemma_stored_at_moved(
                region,
                moved,
                slot_position::<T>(dynamic_start, i),
                share_start::<T>(dynamic_start, content, i),
                shift,
                content[i],
            );
        }
    }

    proof fn lemma_stored_at_decoded(
        region: Seq<u8>,
        position: int,
        dynamic_start: int,
        content: Seq<T::Content>,
    ) {
        lemma_auto_spec_u64_to_from_le_bytes();
        let count = content.len() as int;
        assert(count * T::fixed_size() <= Self::dynamic_size(content));
        assert forall|i: int| 0 <= i < count implies (#[trigger] T::decoded(
            region,
            slot_position::<T>(dynamic_start, i),
        )) == Some(content[i]) by {
            T::lemma_stored_at_decoded(
                region,
                slot_position::<T>(dynamic_start, i),
                share_start::<T>(dynamic_start, content, i),
                content[i],
            );
        }
        assert(Self::decoded(region, position).unwrap() =~= content);
    }

    fn is_still_compact(&self) -> (compact: bool) {
        if !self.ptr.is_compact() {
            return false;
        }
        let mut i: usize = 0;
        while i < self.items.len()
            invariant
                i <= self@.len(),
                self.valid(),
                forall|j: int| 0 <= j < i ==> (#[trigger] self@[j]).still_compact(),
            decreases self@.len() - i,
        {
            if !self.items[i].is_still_compact() {
                return false;
            }
            i += 1;
        }
        true
    }

    fn fixed_size_bytes() -> (size: usize) {
        VEC_FIXED_SIZE
    }

    fn dynamic_size_bytes(&self) -> (size: usize) {
        let ghost contents = self.content();
        let count = self.items.len();
        if count == 0 {
            assert(contents.len() * T::fixed_size() == 0) by (nonlinear_arith)
                requires
                    contents.len() == 0,
            ;
            return 0;
        }
        proof {
            lemma_element_parts_inside::<T>(0, contents, 0);
        }
        let fixed = T::fixed_size_bytes();
        let mut size: usize = 0;
        let mut i: usize = 0;
        while i < count
            invariant
                i <= count,
                count == self@.len(),
                contents == self.content(),
                self.valid(),
                fixed == T::fixed_size(),
                Self::dynamic_size(contents) <= usize::MAX,
                size == i * T::fixed_size() + dynamic_sizes::<T>(contents, i as int),
            decreases count - i,
        {
            proof {
                lemma_element_parts_inside::<T>(0, contents, i as int);
            }
            let share = self.items[i].dynamic_size_bytes();
            size = size + fixed + share;
            i += 1;
        }
        size
    }

    fn compact(self, region: &mut Vec<u8>, dest: usize, dynamic_start: usize) {
        let ghost contents = self.content();
        let ghost before = region@;
        let ghost start = dynamic_start as int;
        let ghost total = Self::dynamic_size(contents) as int;
        let end: usize = region.len();
        let items = self.into_vec();
        let ghost all = items@;
        let count = items.len();
        let mut pointer = PointerToMaybeCompact::<T>::default();
        pointer.set_to_compact(dest as u64, dynamic_start as u64);
        pointer.write_to(region, dest);
        write_u64(region, dest + POINTER_SIZE, count as u64);
        let ghost pointer_bytes = encoded(pointer@);
        let ghost count_bytes = spec_u64_to_le_bytes(count as u64);
        assert(region@.subrange(dest as int, dest + POINTER_SIZE) =~= pointer_bytes);
        if count > 0 {
            proof {
                lemma_element_parts_inside::<T>(start, contents, 0);
            }
            let fixed = T::fixed_size_bytes();
            // The fixed parts of the elements stand first; the dynamic part
            // of each element follows that of the element before it.
            let mut slot: usize = dynamic_start;
            let mut share: usize = dynamic_start + count * fixed;
            for item in iter: items
                invariant
                    count == contents.len(),
                    iter.seq() == all,
                    all.len() == count,
                    forall|j: int|
                        0 <= j < count ==> (#[trigger] all[j]).content() == contents[j]
                            && all[j].valid(),
                    fixed == T::fixed_size(),
                    start == dynamic_start,
                    total == Self::dynamic_size(contents),
                    region@.len() == end,
                    room_for(end as int, dest as int, VEC_FIXED_SIZE as int, start, total),
                    Self::offsets_fit(dest as int, start, contents),
                    slot == slot_position::<T>(start, iter.index() as int),
                    share == share_start::<T>(start, contents, iter.index() as int),
                    region@.subrange(dest as int, dest + POINTER_SIZE) == pointer_bytes,
                    region@.subrange(dest + POINTER_SIZE, dest + VEC_FIXED_SIZE) == count_bytes,
                    changed_only_in_parts(
                        before,
                        region@,
                        dest as int,
                        VEC_FIXED_SIZE as int,
                        start,
                        total,
                    ),
                    forall|j: int|
                        0 <= j < iter.index() ==> T::stored_at(
                            region@,
                            slot_position::<T>(start, j),
                            share_start::<T>(start, contents, j),
                            #[trigger] contents[j],
                        ),
            {
                let ghost earlier = region@;
                let ghost position = iter.index() as int;
                proof {
                    lemma_element_parts_inside::<T>(start, contents, position);
                    assert(all[position].content() == contents[position]);
                    assert(T::offsets_fit(
                        slot_position::<T>(start, position),
                        share_start::<T>(start, contents, position),
                        contents[position],
                    ));
                }
                let size = item.dynamic_size_bytes();
                item.compact(region, slot, share);
                proof {
                    assert(region@.subrange(dest as int, dest + POINTER_SIZE) =~= earlier.subrange(
                        dest as int,
                        dest + POINTER_SIZE,
                    ));
                    assert(region@.subrange(dest + POINTER_SIZE, dest + VEC_FIXED_SIZE)
                        =~= earlier.subrange(dest + POINTER_SIZE, dest + VEC_FIXED_SIZE));
                    assert forall|j: int| 0 <= j < position + 1 implies T::stored_at(
                        region@,
                        slot_position::<T>(start, j),
                        share_start::<T>(start, contents, j),
                        #[trigger] contents[j],
                    ) by {
                        if j < position {
                            lemma_element_parts_inside::<T>(start, contents, j);
                            lemma_element_parts_ordered::<T>(start, contents, j, position);
                            lemma_stored_at_frame::<T>(
                                earlier,
                                region@,
                                slot_position::<T>(start, j),
                                share_start::<T>(start, contents, j),
                                contents[j],
                            );
                        }
                    }
                }
                slot = slot + fixed;
                share = share + size;
            }
        }
        proof {
            crate::pointer_to_maybe_compact::lemma_decoded_encoded(pointer@);
            Self::lemma_stored_at_decoded(region@, dest as int, start, contents);
        }
    }

    fn decompact(region: &[u8], source: usize) -> (value: Self) {
        let end: usize = region.len();
        let pointer = match PointerToMaybeCompact::<T>::read_from(region, source) {
            Some(pointer) => pointer,
            None => unreached(),
        };
        let ghost start = crate::pointer_to_maybe_compact::resolved_address(
            pointer@,
            source as int,
        );
        let ghost fixed_size = T::fixed_size() as int;
        let dynamic_start = pointer.ptr(source as u64) as usize;
        let count = read_u64(region, source + POINTER_SIZE) as usize;
        let mut items: Vec<T> = Vec::new();
        if count > 0 {
            assert(fixed_size <= count * fixed_size) by (nonlinear_arith)
                requires
                    1 <= count,
                    0 <= fixed_size,
            ;
            let fixed = T::fixed_size_bytes();
            let mut slot: usize = dynamic_start;
            let mut i: usize = 0;
            while i < count
                invariant
                    i <= count,
                    fixed == T::fixed_size(),
                    fixed_size == T::fixed_size(),
                    start == dynamic_start,
                    start + count * fixed_size <= region@.len(),
                    region@.len() == end,
                    slot == slot_position::<T>(start, i as int),
                    forall|j: int|
                        0 <= j < count ==> (#[trigger] T::decoded(
                            region@,
                            slot_position::<T>(start, j),
                        )) is Some,
                    items@.len() == i,
                    forall|j: int|
                        0 <= j < i ==> Some((#[trigger] items@[j]).content()) == T::decoded(
                            region@,
                            slot_position::<T>(start, j),
                        ) && items@[j].valid() && items@[j].detached(),
                decreases count - i,
            {
                proof {
                    assert((i + 1) * fixed_size == i * fixed_size + fixed_size)
                        by (nonlinear_arith);
                    assert((i + 1) * fixed_size <= count * fixed_size) by (nonlinear_arith)
                        requires
                            i + 1 <= count,
                            0 <= fixed_size,
                    ;
                    assert(T::decoded(region@, slot_position::<T>(start, i as int)) is Some);
                }
                let item = T::decompact(region, slot);
                items.push(item);
                slot = slot + fixed;
                i += 1;
            }
        }
        let value = CompactVec::from_vec(items);
        assert(value.content() =~= Self::decoded(region@, source as int).unwrap());
        value
    }
}

/// A buffer with heap storage of its own is not compact any more: what
/// decompaction returns for a buffer never is.
pub proof fn law_detached_buffer_is_not_compact<T: Compact>(vec: CompactVec<T>)
    requires
        vec.detached(),
    ensures
        !vec.still_compact(),
{
}

} // verus!
