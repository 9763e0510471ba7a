//! The relocatable pointer: a reference that is either an absolute address,
//! an offset relative to the place where the pointer itself is stored, or
//! not set at all.
//!
//! A pointer does not know where it is stored. Every operation that needs
//! the pointer's own address takes it as an argument, so that a pointer
//! which is copied together with its target resolves to the copied target.

use crate::region::{changed_only_in, read_u64, write_u64, write_u8};
use std::marker::PhantomData;
use vstd::bytes::{
    lemma_auto_spec_u64_to_from_le_bytes, spec_u64_from_le_bytes, spec_u64_to_le_bytes,
};
use vstd::prelude::*;
use vstd::string::StringExecFns;

verus! {

/// The three states a relocatable pointer can be in.
#[derive(Clone, Copy, Debug, PartialEq, Eq, Structural)]
pub enum Inner {
    /// On the heap: an absolute address.
    Free(u64),
    /// In the dynamic part of a region: a signed byte offset from the
    /// address of the pointer itself.
    Compact(i32),
    /// No target.
    Uninitialized,
}

/// A pointer to storage that is either on the heap or embedded in the same
/// relocatable region as the pointer.
#[derive(Debug)]
pub struct PointerToMaybeCompact<T> {
    inner: Inner,
    marker: PhantomData<T>,
}

/// A request to give storage back to the allocator it came from.
#[derive(Clone, Copy, Debug, PartialEq, Eq, Structural)]
pub struct Deallocation {
    /// The address of the storage.
    pub address: u64,
    /// The length that the storage was allocated with.
    pub length: usize,
}

impl<T> View for PointerToMaybeCompact<T> {
    type V = Inner;

    closed spec fn view(&self) -> Inner {
        self.inner
    }
}

/// The number of bytes that a pointer occupies in a region: one byte for
/// the state, eight for the address or the offset.
pub const POINTER_SIZE: usize = 9;

/// The address that a pointer in state `state`, stored at `own_address`,
/// refers to. An unset pointer resolves to the null address.
pub open spec fn resolved_address(state: Inner, own_address: int) -> int {
    match state {
        Inner::Free(address) => address as int,
        Inner::Compact(offset) => own_address + offset,
        Inner::Uninitialized => 0,
    }
}

/// The two's complement of `offset` in 32 bits.
pub open spec fn offset_word(offset: i32) -> u64 {
    if offset >= 0 {
        offset as u64
    } else {
        (offset + 0x1_0000_0000) as u64
    }
}

/// The offset whose two's complement in 32 bits is `word`.
pub open spec fn word_offset(word: u64) -> i32 {
    if word < 0x8000_0000 {
        word as i32
    } else {
        (word - 0x1_0000_0000) as i32
    }
}

/// The eight payload bytes of a state, as a number.
pub open spec fn payload_word(state: Inner) -> u64 {
    match state {
        Inner::Free(address) => address,
        Inner::Compact(offset) => offset_word(offset),
        Inner::Uninitialized => 0,
    }
}

/// The state byte of a state.
pub open spec fn state_tag(state: Inner) -> u8 {
    match state {
        Inner::Free(_) => 0,
        Inner::Compact(_) => 1,
        Inner::Uninitialized => 2,
    }
}

/// The bytes of a pointer in a region: the state byte, then the payload in
/// eight bytes, least significant first.
pub open spec fn encoded(state: Inner) -> Seq<u8> {
    seq![state_tag(state)] + spec_u64_to_le_bytes(payload_word(state))
}

/// The state that nine bytes of a region stand for, if any.
pub open spec fn decoded(bytes: Seq<u8>) -> Option<Inner> {
    if bytes.len() != POINTER_SIZE {
        None
    } else {
        let word = spec_u64_from_le_bytes(bytes.subrange(1, 9));
        if bytes[0] == 0 {
            Some(Inner::Free(word))
        } else if bytes[0] == 1 && word < 0x1_0000_0000 {
            Some(Inner::Compact(word_offset(word)))
        } else if bytes[0] == 2 && word == 0 {
            Some(Inner::Uninitialized)
        } else {
            None
        }
    }
}

/// Reading back what was written gives the state that was written.
pub proof fn lemma_decoded_encoded(state: Inner)
    ensures
        encoded(state).len() == POINTER_SIZE,
        decoded(encoded(state)) == Some(state),
{
    lemma_auto_spec_u64_to_from_le_bytes();
    let payload = spec_u64_to_le_bytes(payload_word(state));
    assert(encoded(state).subrange(1, 9) =~= payload);
}

/// What `format!` with `{:#x}` makes of an address.
pub uninterp spec fn hexadecimal(address: u64) -> Seq<char>;

/// What `format!` with `{:?}` makes of an offset.
pub uninterp spec fn decimal(offset: i32) -> Seq<char>;

/// `format!` with `{:#x}`: the address in hexadecimal digits after `0x`.
#[verifier::external_body]
fn format_address(address: u64) -> (text: String)
    ensures
        text@ == hexadecimal(address),
{
    format!("{:#x}", address)
}

/// `format!` with `{:?}`: the offset in decimal digits, with its sign.
#[verifier::external_body]
fn format_offset(offset: i32) -> (text: String)
    ensures
        text@ == decimal(offset),
{
    format!("{:?}", offset)
}

impl<T> Default for PointerToMaybeCompact<T> {
    /// A pointer without a target.
    fn default() -> (pointer: Self)
        ensures
            pointer@ == Inner::Uninitialized,
    {
        PointerToMaybeCompact { inner: Inner::Uninitialized, marker: PhantomData }
    }
}

impl<T> PointerToMaybeCompact<T> {
    /// A pointer to heap storage at address `ptr`.
    pub fn new_free(ptr: u64) -> (pointer: Self)
        ensures
            pointer@ == Inner::Free(ptr),
    {
        PointerToMaybeCompact { inner: Inner::Free(ptr), marker: PhantomData }
    }

    /// Points the pointer at heap storage at address `ptr`.
    pub fn set_to_free(&mut self, ptr: u64)
        ensures
            final(self)@ == Inner::Free(ptr),
    {
        self.inner = Inner::Free(ptr);
    }

    /// Points the pointer, which is stored at `own_address`, at the address
    /// `ptr` in the same region. The distance between the two has to fit
    /// the stored offset.
    pub fn set_to_compact(&mut self, own_address: u64, ptr: u64)
        requires
            i32::MIN <= ptr - own_address <= i32::MAX,
        ensures
            final(self)@ == Inner::Compact((ptr - own_address) as i32),
            resolved_address(final(self)@, own_address as int) == ptr,
    {
        let offset: i32 = if ptr >= own_address {
            (ptr - own_address) as i32
        } else {
            let distance: u64 = own_address - ptr;
            if distance == 0x8000_0000 {
                i32::MIN
            } else {
                -(distance as i32)
            }
        };
        self.inner = Inner::Compact(offset);
    }

    /// The address that the pointer, stored at `own_address`, refers to.
    /// An unset pointer gives the null address.
    pub fn ptr(&self, own_address: u64) -> (address: u64)
        requires
            0 <= resolved_address(self@, own_address as int) <= u64::MAX,
        ensures
            address == resolved_address(self@, own_address as int),
    {
        match self.inner {
            Inner::Free(address) => address,
            Inner::Compact(offset) => {
                if offset >= 0 {
                    own_address + (offset as u64)
                } else {
                    own_address - ((-(offset as i64)) as u64)
                }
            },
            Inner::Uninitialized => 0,
        }
    }

    /// The address that the pointer, stored at `own_address`, refers to,
    /// for writing through it.
    pub fn mut_ptr(&mut self, own_address: u64) -> (address: u64)
        requires
            0 <= resolved_address(old(self)@, own_address as int) <= u64::MAX,
        ensures
            address == resolved_address(old(self)@, own_address as int),
            final(self)@ == old(self)@,
    {
        self.ptr(own_address)
    }

    /// The state of the pointer.
    pub fn state(&self) -> (state: Inner)
        ensures
            state == self@,
    {
        self.inner
    }

    /// Whether the storage needs no release of its own: true of a pointer
    /// into a region and of an unset pointer, false of a pointer to the heap.
    pub fn is_compact(&self) -> (compact: bool)
        ensures
            compact == !(self@ is Free),
    {
        match self.inner {
            Inner::Free(_) => false,
            Inner::Compact(_) | Inner::Uninitialized => true,
        }
    }

    /// What has to be given back to the allocator when storage of `length`
    /// elements behind this pointer is released: the heap storage of a free
    /// pointer, and nothing otherwise.
    pub fn deallocate_if_free(&self, length: usize) -> (release: Option<Deallocation>)
        ensures
            release == match self@ {
                Inner::Free(address) => Some(Deallocation { address, length }),
                _ => None::<Deallocation>,
            },
    {
        match self.inner {
            Inner::Free(address) => Some(Deallocation { address, length }),
            _ => None,
        }
    }

    /// The state in words: `Free` and the address, `Compact` and the offset,
    /// or `uninitialized`.
    pub fn to_string(&self) -> (text: String)
        ensures
            text@ == match self@ {
                Inner::Free(address) => "Free "@ + hexadecimal(address),
                Inner::Compact(offset) => "Compact "@ + decimal(offset),
                Inner::Uninitialized => "uninitialized"@,
            },
    {
        match self.inner {
            Inner::Free(address) => {
                let digits = format_address(address);
                String::from_str("Free ").concat(digits.as_str())
            },
            Inner::Compact(offset) => {
                let digits = format_offset(offset);
                String::from_str("Compact ").concat(digits.as_str())
            },
            Inner::Uninitialized => String::from_str("uninitialized"),
        }
    }

    /// Writes the pointer into the region at `position`.
    pub fn write_to(&self, region: &mut Vec<u8>, position: usize)
        requires
            position + POINTER_SIZE <= old(region)@.len(),
        ensures
            changed_only_in(old(region)@, final(region)@, position as int, POINTER_SIZE as int),
            final(region)@.subrange(position as int, position + POINTER_SIZE) == encoded(self@),
            decoded(final(region)@.subrange(position as int, position + POINTER_SIZE)) == Some(
                self@,
            ),
    {
        let end: usize = region.len();
        let (tag, word): (u8, u64) = match self.inner {
            Inner::Free(address) => (0, address),
            Inner::Compact(offset) => {
                if offset >= 0 {
                    (1, offset as u64)
                } else {
                    (1, (offset as i64 + 0x1_0000_0000) as u64)
                }
            },
            Inner::Uninitialized => (2, 0),
        };
        write_u8(region, position, tag);
        write_u64(region, position + 1, word);
        proof {
            lemma_decoded_encoded(self@);
            assert(region@.subrange(position as int, position + POINTER_SIZE) =~= seq![tag]
                + region@.subrange(position + 1, position + 9));
        }
    }

    /// Reads the pointer that the region holds at `position`, if the nine
    /// bytes there stand for one.
    pub fn read_from(region: &[u8], position: usize) -> (pointer: Option<Self>)
        requires
            position + POINTER_SIZE <= region@.len(),
        ensures
            match pointer {
                Some(pointer) => decoded(
                    region@.subrange(position as int, position + POINTER_SIZE),
                ) == Some(pointer@),
                None => decoded(region@.subrange(position as int, position + POINTER_SIZE))
                    is None,
            },
    {
        let end: usize = region.len();
        let tag: u8 = region[position];
        let word: u64 = read_u64(region, position + 1);
        proof {
            let bytes = region@.subrange(position as int, position + POINTER_SIZE);
            assert(bytes.subrange(1, 9) =~= region@.subrange(position + 1, position + 9));
        }
        if tag == 0 {
            Some(PointerToMaybeCompact { inner: Inner::Free(word), marker: PhantomData })
        } else if tag == 1 && word < 0x1_0000_0000 {
            let offset: i32 = if word < 0x8000_0000 {
                word as i32
            } else {
                (word as i64 - 0x1_0000_0000) as i32
            };
            Some(PointerToMaybeCompact { inner: Inner::Compact(offset), marker: PhantomData })
        } else if tag == 2 && word == 0 {
            Some(PointerToMaybeCompact { inner: Inner::Uninitialized, marker: PhantomData })
        } else {
            None
        }
    }
}

} // verus!
