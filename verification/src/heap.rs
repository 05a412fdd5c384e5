//! The heap: every string object of one interpreter, and the table that
//! interns them. A text is stored once; its handle is its place in the heap.

use crate::hashmap::HashMap;
use crate::object::Handle;
use crate::string::String;
use vstd::prelude::*;

verus! {

pub struct Heap {
    /// The objects, each at the place that its handle names.
    objects: Vec<String>,
    /// Interned strings: from a text to the handle of its object.
    strings: HashMap<String, Handle>,
}

impl View for Heap {
    type V = Seq<Seq<char>>;

    /// The texts of the objects, in the order of their handles.
    closed spec fn view(&self) -> Seq<Seq<char>> {
        Seq::new(self.objects@.len(), |i: int| self.objects@[i]@)
    }
}

/// No text occurs twice.
pub open spec fn distinct(texts: Seq<Seq<char>>) -> bool {
    forall|i: int, j: int|
        0 <= i < texts.len() && 0 <= j < texts.len() && #[trigger] texts[i] == #[trigger] texts[j]
            ==> i == j
}

/// Whether `text` is one of `texts`.
pub open spec fn holds(texts: Seq<Seq<char>>, text: Seq<char>) -> bool {
    exists|i: int| 0 <= i < texts.len() && #[trigger] texts[i] == text
}

/// The place of `text` among `texts`, where it is one of them.
pub open spec fn place_of(texts: Seq<Seq<char>>, text: Seq<char>) -> int {
    choose|i: int| 0 <= i < texts.len() && #[trigger] texts[i] == text
}

/// The heap after `text` is interned, and the place of `text` in it: the
/// heap is unchanged where it holds the text already, else the text is added
/// at the end.
pub open spec fn interned(texts: Seq<Seq<char>>, text: Seq<char>) -> (Seq<Seq<char>>, int) {
    if holds(texts, text) {
        (texts, place_of(texts, text))
    } else {
        (texts.push(text), texts.len() as int)
    }
}

impl Heap {
    /// The heap's invariant: no text is stored twice, and the table knows
    /// the place of each.
    pub closed spec fn wf(&self) -> bool {
        &&& self.strings.wf()
        &&& forall|i: int|
            0 <= i < self.objects@.len() ==> self.strings@.contains_key(
                (#[trigger] self.objects@[i])@,
            ) && self.strings@[self.objects@[i]@].index == i
        &&& forall|text: Seq<char>| #[trigger]
            self.strings@.contains_key(text) ==> self.strings@[text].index < self.objects@.len()
                && self.objects@[self.strings@[text].index as int]@ == text
    }

    pub proof fn lemma_distinct(&self)
        requires
            self.wf(),
        ensures
            distinct(self@),
    {
        assert forall|i: int, j: int|
            0 <= i < self@.len() && 0 <= j < self@.len() && #[trigger] self@[i]
                == #[trigger] self@[j] implies i == j by {
            assert(self.strings@[self.objects@[i]@].index == i);
            assert(self.strings@[self.objects@[j]@].index == j);
        }
    }

    pub fn new() -> (heap: Self)
        ensures
            heap.wf(),
            heap@ == Seq::<Seq<char>>::empty(),
    {
        let heap = Self { objects: Vec::new(), strings: HashMap::new() };
        assert(heap@ =~= Seq::<Seq<char>>::empty());
        heap
    }

    /// How many objects the heap holds.
    pub fn len(&self) -> (len: usize)
        ensures
            len == self@.len(),
    {
        self.objects.len()
    }

    /// Stores `value`, whose text the heap does not hold yet, as a new object;
    /// `find` tells whether the heap holds a text.
    pub fn allocate(&mut self, value: String) -> (handle: Handle)
        requires
            old(self).wf(),
            !holds(old(self)@, value@),
        ensures
            final(self).wf(),
            final(self)@ == old(self)@.push(value@),
            handle.index == old(self)@.len(),
    {
        let handle = Handle::new(self.objects.len());
        let ghost text = value@;
        proof {
            if self.strings@.contains_key(text) {
                assert(self@[self.strings@[text].index as int] == text);
            }
        }
        self.strings.insert(value.clone(), handle);
        self.objects.push(value);
        assert(self@ =~= old(self)@.push(text));
        handle
    }

    /// The handle of the object with the text of `string`, where the heap
    /// holds it.
    pub fn find(&self, string: &String) -> (found: Option<Handle>)
        requires
            self.wf(),
        ensures
            match found {
                Some(handle) => holds(self@, string@) && handle.index == place_of(self@, string@)
                    && handle.index < self@.len() && self@[handle.index as int] == string@,
                None => !holds(self@, string@),
            },
    {
        proof {
            self.lemma_distinct();
        }
        match self.strings.get(string) {
            Some(string_handle) => {
                let handle = *string_handle;
                proof {
                    assert(self@[handle.index as int] == string@);
                    assert(holds(self@, string@));
                    let place = place_of(self@, string@);
                    assert(self@[place] == self@[handle.index as int]);
                }
                Some(handle)
            },
            None => {
                proof {
                    if holds(self@, string@) {
                        let place = place_of(self@, string@);
                        assert(self.strings@.contains_key(self.objects@[place]@));
                    }
                }
                None
            },
        }
    }

    /// Interns `string`: hands out the handle of the object with this text,
    /// which is stored now if it was not before.
    pub fn allocate_string(&mut self, string: String) -> (handle: Handle)
        requires
            old(self).wf(),
        ensures
            final(self).wf(),
            (final(self)@, handle.index as int) == interned(old(self)@, string@),
            handle.index < final(self)@.len(),
            final(self)@[handle.index as int] == string@,
    {
        match self.find(&string) {
            Some(handle) => handle,
            None => self.allocate(string),
        }
    }

    /// Interns the text `chars`.
    pub fn intern(&mut self, chars: &str) -> (handle: Handle)
        requires
            old(self).wf(),
        ensures
            final(self).wf(),
            (final(self)@, handle.index as int) == interned(old(self)@, chars@),
            handle.index < final(self)@.len(),
            final(self)@[handle.index as int] == chars@,
    {
        self.allocate_string(String::new(chars))
    }

    /// The object that `handle` names, if the heap holds one there.
    pub fn get(&self, handle: Handle) -> (string: Option<&String>)
        ensures
            match string {
                Some(string) => handle.index < self@.len() && string@ == self@[handle.index as int],
                None => handle.index >= self@.len(),
            },
    {
        if handle.index < self.objects.len() {
            Some(&self.objects[handle.index])
        } else {
            None
        }
    }
}

/// Interning a text twice gives one handle, and the second time changes
/// nothing.
pub proof fn lemma_intern_twice(texts: Seq<Seq<char>>, text: Seq<char>)
    requires
        distinct(texts),
    ensures
        interned(interned(texts, text).0, text) == interned(texts, text),
        distinct(interned(texts, text).0),
{
    let (after, place) = interned(texts, text);
    if holds(texts, text) {
    } else {
        assert(after[texts.len() as int] == text);
        assert(holds(after, text));
        let again = place_of(after, text);
        assert(after[again] == text);
        if again < texts.len() {
            assert(texts[again] == text);
        }
    }
}

/// In a heap two handles name one text exactly when they are one handle.
pub proof fn lemma_handle_identity(texts: Seq<Seq<char>>, a: Handle, b: Handle)
    requires
        distinct(texts),
        a.index < texts.len(),
        b.index < texts.len(),
    ensures
        (texts[a.index as int] == texts[b.index as int]) == (a == b),
{
}

/// Interning what is left of a heap's texts keeps every handle: the heap
/// only grows at its end.
pub proof fn lemma_intern_keeps(texts: Seq<Seq<char>>, text: Seq<char>)
    ensures
        texts.len() <= interned(texts, text).0.len(),
        forall|i: int| 0 <= i < texts.len() ==> interned(texts, text).0[i] == texts[i],
        0 <= interned(texts, text).1 < interned(texts, text).0.len(),
        interned(texts, text).0[interned(texts, text).1] == text,
{
    if holds(texts, text) {
    } else {
    }
}

/// Joining three texts and interning the result gives one handle, whichever
/// two are joined first.
pub proof fn lemma_concat_associative(
    texts: Seq<Seq<char>>,
    a: Seq<char>,
    b: Seq<char>,
    c: Seq<char>,
)
    ensures
        interned(texts, (a + b) + c) == interned(texts, a + (b + c)),
{
    assert((a + b) + c =~= a + (b + c));
}

} // verus!
