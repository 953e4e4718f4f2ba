//! One record of a table: a key and the data stored under it.

use vstd::prelude::*;
use vstd::slice::slice_to_vec;

verus! {

/// An immutable key/data pair of opaque bytes.
#[derive(Clone, Debug, PartialEq, Eq)]
pub struct DatabaseItem {
    key: Vec<u8>,
    data: Vec<u8>,
}

impl View for DatabaseItem {
    type V = (Seq<u8>, Seq<u8>);

    closed spec fn view(&self) -> (Seq<u8>, Seq<u8>) {
        (self.key@, self.data@)
    }
}

impl DatabaseItem {
    /// Copies `key` and `data` into an item that owns its bytes.
    pub fn new(key: &[u8], data: &[u8]) -> (item: DatabaseItem)
        ensures
            item@ == (key@, data@),
    {
        DatabaseItem { key: slice_to_vec(key), data: slice_to_vec(data) }
    }

    /// Gives up the item for its key and its data.
    pub fn into_parts(self) -> (parts: (Vec<u8>, Vec<u8>))
        ensures
            parts.0@ == self@.0,
            parts.1@ == self@.1,
    {
        (self.key, self.data)
    }

    /// The key bytes.
    pub fn key(&self) -> (key: &[u8])
        ensures
            key@ == self@.0,
    {
        self.key.as_slice()
    }

    /// The data bytes.
    pub fn data(&self) -> (data: &[u8])
        ensures
            data@ == self@.1,
    {
        self.data.as_slice()
    }
}

} // verus!
