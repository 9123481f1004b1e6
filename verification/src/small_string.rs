//! Byte strings short enough to be stored inline inside an encoded term.

use vstd::prelude::*;
use vstd::slice::slice_to_vec;
use vstd::string::StringSliceAdditionalSpecFns;

verus! {

/// Longest byte string that an encoded term stores inline; anything longer is
/// replaced by its 128-bit hash and interned.
pub const INLINE_STRING_MAX_SIZE: usize = 15;

/// A byte string of at most `INLINE_STRING_MAX_SIZE` bytes, held inline in an
/// encoded term instead of going through the interner.
#[derive(Clone, Debug, PartialEq, Eq, Hash)]
pub struct SmallString {
    pub bytes: Vec<u8>,
}

impl View for SmallString {
    type V = Seq<u8>;

    open spec fn view(&self) -> Seq<u8> {
        self.bytes@
    }
}

impl SmallString {
    pub open spec fn wf(&self) -> bool {
        self@.len() <= INLINE_STRING_MAX_SIZE
    }

    /// Inlines `value` if its UTF-8 form fits the budget.
    pub fn new(value: &str) -> (r: Option<SmallString>)
        ensures
            value.spec_bytes().len() <= INLINE_STRING_MAX_SIZE ==> (r matches Some(s)
                && s@ == value.spec_bytes() && s.wf()),
            value.spec_bytes().len() > INLINE_STRING_MAX_SIZE ==> r is None,
    {
        let bytes = value.as_bytes();
        if bytes.len() <= INLINE_STRING_MAX_SIZE {
            Some(SmallString { bytes: slice_to_vec(bytes) })
        } else {
            None
        }
    }

    /// Inlines the byte string `bytes` if it fits the budget.
    pub fn from_bytes(bytes: &[u8]) -> (r: Option<SmallString>)
        ensures
            bytes@.len() <= INLINE_STRING_MAX_SIZE ==> (r matches Some(s) && s@ == bytes@
                && s.wf()),
            bytes@.len() > INLINE_STRING_MAX_SIZE ==> r is None,
    {
        if bytes.len() <= INLINE_STRING_MAX_SIZE {
            Some(SmallString { bytes: slice_to_vec(bytes) })
        } else {
            None
        }
    }

    pub fn len(&self) -> (r: usize)
        ensures
            r == self@.len(),
    {
        self.bytes.len()
    }

    pub fn is_empty(&self) -> (r: bool)
        ensures
            r == (self@.len() == 0),
    {
        self.bytes.len() == 0
    }

    pub fn as_bytes(&self) -> (r: &[u8])
        ensures
            r@ == self@,
    {
        self.bytes.as_slice()
    }
}

} // verus!
