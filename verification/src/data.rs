//! `DuckData`: the owned byte-buffer abstraction the whole file model is
//! built on.

use vstd::prelude::*;
use crate::format::is_digit;
use crate::text::{lossy_chars, lossy_string};

verus! {

/// An owned sequence of raw bytes.  No invariant of its own; it is the
/// carrier for file contents, record spans and field candidates.
#[derive(Debug)]
pub struct DuckData {
    my_data: Vec<u8>,
}

impl View for DuckData {
    type V = Seq<u8>;

    closed spec fn view(&self) -> Seq<u8> {
        self.my_data@
    }
}

impl DuckData {
    /// Wraps an owned byte vector; never fails.
    pub fn new(data: Vec<u8>) -> (r: DuckData)
        ensures
            r@ == data@,
    {
        DuckData { my_data: data }
    }

    /// Number of bytes held.
    pub fn len(&self) -> (r: usize)
        ensures
            r == self@.len(),
    {
        self.my_data.len()
    }

    /// True when no bytes are held.
    pub fn is_empty(&self) -> (r: bool)
        ensures
            r == (self@.len() == 0),
    {
        self.my_data.is_empty()
    }

    /// Appends `data`, consuming it.
    pub fn push(&mut self, data: DuckData)
        ensures
            final(self)@ == old(self)@ + data@,
    {
        let mut other = data;
        self.my_data.append(&mut other.my_data);
    }

    /// True of an ASCII decimal digit byte.
    pub fn is_ascii_number(b: u8) -> (r: bool)
        ensures
            r == is_digit(b),
    {
        48 <= b && b <= 57
    }

    /// The byte at index `i`; the caller keeps `i` in range.
    pub fn get(&self, i: usize) -> (r: u8)
        requires
            i < self@.len(),
        ensures
            r == self@[i as int],
    {
        self.my_data[i]
    }

    /// A fresh buffer holding the bytes of `[a, b)`.
    pub fn range(&self, a: usize, b: usize) -> (r: DuckData)
        requires
            a <= b <= self@.len(),
        ensures
            r@ == self@.subrange(a as int, b as int),
    {
        DuckData { my_data: copy_range(&self.my_data, a, b) }
    }

    /// Gives up the wrapper and hands the bytes back.
    pub fn into_vec(self) -> (r: Vec<u8>)
        ensures
            r@ == self@,
    {
        self.my_data
    }

    /// Borrows the bytes held.
    pub fn as_vec(&self) -> (r: &Vec<u8>)
        ensures
            r@ == self@,
    {
        &self.my_data
    }

    /// Lossy text rendering: UTF-8 text when the bytes decode, else each
    /// byte as a decimal number joined by spaces.
    pub fn to_string(&self) -> (r: String)
        ensures
            r@ == lossy_chars(self@, 32),
    {
        lossy_string(&self.my_data, 32)
    }
}

impl Clone for DuckData {
    fn clone(&self) -> (r: Self)
        ensures
            r@ == self@,
    {
        DuckData { my_data: self.my_data.clone() }
    }
}

impl PartialEq for DuckData {
    fn eq(&self, other: &DuckData) -> (r: bool) {
        eq_bytes(&self.my_data, &other.my_data)
    }
}

impl vstd::std_specs::cmp::PartialEqSpecImpl for DuckData {
    open spec fn obeys_eq_spec() -> bool {
        true
    }

    open spec fn eq_spec(&self, other: &DuckData) -> bool {
        self@ == other@
    }
}

impl Eq for DuckData {
}

/// Byte-for-byte equality of two vectors.
pub fn eq_bytes(a: &Vec<u8>, b: &Vec<u8>) -> (r: bool)
    ensures
        r == (a@ == b@),
{
    if a.len() != b.len() {
        return false;
    }
    let n = a.len();
    let mut i: usize = 0;
    while i < n
        invariant
            n == a@.len() == b@.len(),
            i <= n,
            forall|k: int| 0 <= k < i ==> a@[k] == b@[k],
        decreases n - i,
    {
        if a[i] != b[i] {
            return false;
        }
        i += 1;
    }
    proof {
        assert(a@ =~= b@);
    }
    true
}

/// A fresh vector holding the bytes of `d[a, b)`.
pub fn copy_range(d: &Vec<u8>, a: usize, b: usize) -> (r: Vec<u8>)
    requires
        a <= b <= d@.len(),
    ensures
        r@ == d@.subrange(a as int, b as int),
{
    let mut r: Vec<u8> = Vec::new();
    let mut i: usize = a;
    while i < b
        invariant
            a <= i <= b <= d@.len(),
            r@ == d@.subrange(a as int, i as int),
        decreases b - i,
    {
        r.push(d[i]);
        i += 1;
        proof {
            assert(r@ =~= d@.subrange(a as int, i as int));
        }
    }
    r
}

} // verus!
