//! A string buffer that follows the relocation protocol. It holds valid
//! UTF-8 at all times and grows by whole strings only.

use crate::compact::Compact;
use crate::compact_vec::CompactVec;
use crate::pointer_to_maybe_compact::Inner;
use vstd::pervasive::unreached;
use vstd::prelude::*;
use vstd::string::StringSliceAdditionalSpecFns;
use vstd::utf8::{encode_utf8, encode_utf8_valid_utf8, valid_utf8, valid_utf8_concat};

verus! {

/// A compact storage for text: the bytes of its UTF-8 encoding in one
/// buffer.
pub struct CompactString {
    chars: CompactVec<u8>,
}

impl View for CompactString {
    type V = Seq<u8>;

    /// The bytes of the text.
    closed spec fn view(&self) -> Seq<u8> {
        self.chars@
    }
}

/// `std::str::from_utf8`: the bytes as text, which succeeds exactly on valid
/// UTF-8 and gives a string slice over the same bytes.
#[verifier::external_body]
fn text_of_bytes(bytes: &[u8]) -> (text: Option<&str>)
    ensures
        text is Some <==> valid_utf8(bytes@),
        text is Some ==> text.unwrap().spec_bytes() == bytes@,
{
    std::str::from_utf8(bytes).ok()
}

impl CompactString {
    /// The state of the pointer to the storage of the bytes.
    pub closed spec fn pointer(&self) -> Inner {
        self.chars.pointer()
    }

    /// Create an empty string
    pub fn new() -> (string: Self)
        ensures
            string@ == Seq::<u8>::empty(),
            string.valid(),
            string.pointer() == Inner::Uninitialized,
    {
        CompactString { chars: CompactVec::new() }
    }

    /// Appends a given string slice onto the end of this string.
    pub fn push_str(&mut self, string: &str)
        requires
            old(self).valid(),
        ensures
            final(self)@ == old(self)@ + string.spec_bytes(),
            final(self).valid(),
            string.spec_bytes().len() > 0 ==> final(self).pointer() is Free,
            string.spec_bytes().len() == 0 ==> final(self).pointer() == old(self).pointer(),
    {
        proof {
            encode_utf8_valid_utf8(string@);
            valid_utf8_concat(self@, string.spec_bytes());
        }
        self.chars.extend_from_copy_slice(string.as_bytes());
    }

    /// The text.
    pub fn as_str(&self) -> (text: &str)
        requires
            self.valid(),
        ensures
            text.spec_bytes() == self@,
    {
        match text_of_bytes(self.chars.as_slice()) {
            Some(text) => text,
            None => unreached(),
        }
    }

    /// A string with the text of `string`, in heap storage of its own.
    pub fn from_string(string: String) -> (compact: Self)
        ensures
            compact@ == encode_utf8(string@),
            compact.valid(),
            compact.pointer() is Free,
    {
        let mut compact = CompactString { chars: CompactVec::with_capacity(0) };
        assert(compact@ =~= Seq::<u8>::empty());
        compact.push_str(string.as_str());
        assert(compact@ =~= encode_utf8(string@));
        compact
    }
}

impl From<String> for CompactString {
    /// A string with the text of `string`, in heap storage of its own.
    fn from(string: String) -> (compact: CompactString)
        ensures
            compact@ == encode_utf8(string@),
            compact.valid(),
            compact.pointer() is Free,
    {
        CompactString::from_string(string)
    }
}

impl vstd::std_specs::convert::FromSpecImpl<String> for CompactString {
    /// The address of the new storage is not a function of the text.
    open spec fn obeys_from_spec() -> bool {
        false
    }

    open spec fn from_spec(string: String) -> CompactString {
        arbitrary()
    }
}

impl Clone for CompactString {
    /// A string with the same text, in heap storage of its own.
    fn clone(&self) -> (copy: Self)
        ensures
            copy@ == self@,
            self.valid() ==> copy.valid(),
            copy.pointer() is Free,
    {
        let mut chars = CompactVec::with_capacity(self.chars.len());
        chars.extend_from_copy_slice(self.chars.as_slice());
        assert(chars@ =~= self.chars@);
        CompactString { chars }
    }
}

impl Default for CompactString {
    /// The empty string.
    fn default() -> (string: Self)
        ensures
            string@ == Seq::<u8>::empty(),
            string.valid(),
    {
        CompactString::new()
    }
}

impl Compact for CompactString {
    type Content = Seq<u8>;

    open spec fn content(&self) -> Seq<u8> {
        self@
    }

    open spec fn valid(&self) -> bool {
        valid_utf8(self@)
    }

    open spec fn still_compact(&self) -> bool {
        !(self.pointer() is Free)
    }

    open spec fn detached(&self) -> bool {
        self.pointer() is Free
    }

    open spec fn fixed_size() -> nat {
        CompactVec::<u8>::fixed_size()
    }

    open spec fn dynamic_size(content: Seq<u8>) -> nat {
        CompactVec::<u8>::dynamic_size(content)
    }

    open spec fn offsets_fit(position: int, dynamic_start: int, content: Seq<u8>) -> bool {
        CompactVec::<u8>::offsets_fit(position, dynamic_start, content)
    }

    open spec fn stored_at(
        region: Seq<u8>,
        position: int,
        dynamic_start: int,
        content: Seq<u8>,
    ) -> bool {
        &&& valid_utf8(content)
        &&& CompactVec::<u8>::stored_at(region, position, dynamic_start, content)
    }

    open spec fn decoded(region: Seq<u8>, position: int) -> Option<Seq<u8>> {
        match CompactVec::<u8>::decoded(region, position) {
            Some(bytes) => if valid_utf8(bytes) {
                Some(bytes)
            } else {
                None
            },
            None => None,
        }
    }

    proof fn lemma_offsets_fit_nearby(position: int, dynamic_start: int, content: Seq<u8>) {
        CompactVec::<u8>::lemma_offsets_fit_nearby(position, dynamic_start, content);
    }

    proof fn lemma_stored_at_inside(
        region: Seq<u8>,
        position: int,
        dynamic_start: int,
        content: Seq<u8>,
    ) {
    }

    proof fn lemma_stored_at_moved(
        region: Seq<u8>,
        moved: Seq<u8>,
        position: int,
        dynamic_start: int,
        shift: int,
        content: Seq<u8>,
    ) {
        CompactVec::<u8>::lemma_stored_at_moved(
            region,
            moved,
            position,
            dynamic_start,
            shift,
            content,
        );
    }

    proof fn lemma_stored_at_decoded(
        region: Seq<u8>,
        position: int,
        dynamic_start: int,
        content: Seq<u8>,
    ) {
        CompactVec::<u8>::lemma_stored_at_decoded(region, position, dynamic_start, content);
    }

    fn is_still_compact(&self) -> (compact: bool) {
        self.chars.is_still_compact()
    }

    fn fixed_size_bytes() -> (size: usize) {
        CompactVec::<u8>::fixed_size_bytes()
    }

    fn dynamic_size_bytes(&self) -> (size: usize) {
        proof {
            assert(self.chars.content() =~= self@);
        }
        self.chars.dynamic_size_bytes()
    }

    fn compact(self, region: &mut Vec<u8>, dest: usize, dynamic_start: usize) {
        let ghost content = self@;
        proof {
            assert(self.chars.content() =~= self@);
        }
        self.chars.compact(region, dest, dynamic_start);
        proof {
            Self::lemma_stored_at_decoded(region@, dest as int, dynamic_start as int, content);
        }
    }

    fn decompact(region: &[u8], source: usize) -> (value: Self) {
        let chars = CompactVec::<u8>::decompact(region, source);
        proof {
            assert(chars.content() =~= chars@);
        }
        CompactString { chars }
    }
}

} // verus!
