//! The text of a Lox string object.

use crate::hashmap::{hash_of_writes, hash_text, text_bytes, Key};
use vstd::prelude::*;
use vstd::string::*;

verus! {

#[derive(Debug, Hash, PartialEq, Eq, PartialOrd, Ord)]
pub struct String {
    inner: std::string::String,
}

impl View for String {
    type V = Seq<char>;

    closed spec fn view(&self) -> Seq<char> {
        self.inner@
    }
}

impl Clone for String {
    fn clone(&self) -> (copy: Self)
        ensures
            copy@ == self@,
    {
        String { inner: self.inner.clone() }
    }
}

impl String {
    pub fn new(chars: &str) -> (string: Self)
        ensures
            string@ == chars@,
    {
        Self { inner: chars.to_owned() }
    }

    pub fn as_str(&self) -> (text: &str)
        ensures
            text@ == self@,
    {
        self.inner.as_str()
    }

    /// The text of `self` followed by the text of `other`.
    pub fn concat(&self, other: &String) -> (joined: String)
        ensures
            joined@ == self@ + other@,
    {
        let mut inner = self.inner.clone();
        inner.append(other.inner.as_str());
        String { inner }
    }

    /// Whether the two hold the same text.
    pub fn equals(&self, other: &String) -> (b: bool)
        ensures
            b == (self@ == other@),
    {
        self.inner == other.inner
    }
}

impl Key for String {
    type Id = Seq<char>;

    open spec fn id(&self) -> Seq<char> {
        self@
    }

    open spec fn hash_of(id: Seq<char>) -> u64 {
        hash_of_writes(seq![text_bytes(id), seq![0xffu8]])
    }

    fn hash(&self) -> (hash: u64) {
        hash_text(self.inner.as_str())
    }

    fn same(&self, other: &Self) -> (b: bool) {
        self.inner == other.inner
    }
}

} // verus!
