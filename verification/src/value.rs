//! Copying and comparing values by what they stand for.
use crate::text;
use vstd::prelude::*;

verus! {

/// A type whose values can be copied and compared.
pub trait Value: DeepView + Sized {
    /// A value that stands for the same.
    fn duplicate(&self) -> (copy: Self)
        ensures
            copy.deep_view() == self.deep_view(),
    ;

    /// Whether two values stand for the same.
    fn same(&self, other: &Self) -> (same: bool)
        ensures
            same == (self.deep_view() == other.deep_view()),
    ;
}

/// A type whose values can be the keys of a map. Keys are told apart by their
/// identity, which may leave out some of what they hold.
pub trait Key: Value {
    type Id;

    /// What tells one key from another.
    spec fn id(key: Self::V) -> Self::Id;

    /// Whether two keys are one.
    fn is_key(&self, other: &Self) -> (yes: bool)
        ensures
            yes == (Self::id(self.deep_view()) == Self::id(other.deep_view())),
    ;
}

impl Key for String {
    type Id = Seq<char>;

    open spec fn id(key: Seq<char>) -> Seq<char> {
        key
    }

    fn is_key(&self, other: &String) -> bool {
        self.same(other)
    }
}

impl Key for (String, String) {
    type Id = (Seq<char>, Seq<char>);

    open spec fn id(key: (Seq<char>, Seq<char>)) -> (Seq<char>, Seq<char>) {
        key
    }

    fn is_key(&self, other: &(String, String)) -> bool {
        self.same(other)
    }
}

/// A type of whose values only a part counts when they are compared.
pub trait Compared: Value {
    /// The part that counts, with the rest blanked out.
    spec fn bare(value: Self::V) -> Self::V;

    /// The part that counts.
    fn to_bare(&self) -> (bare: Self)
        ensures
            bare.deep_view() == Self::bare(self.deep_view()),
    ;
}

impl Value for bool {
    fn duplicate(&self) -> bool {
        *self
    }

    fn same(&self, other: &bool) -> bool {
        *self == *other
    }
}

impl Value for u16 {
    fn duplicate(&self) -> u16 {
        *self
    }

    fn same(&self, other: &u16) -> bool {
        *self == *other
    }
}

impl Value for u64 {
    fn duplicate(&self) -> u64 {
        *self
    }

    fn same(&self, other: &u64) -> bool {
        *self == *other
    }
}

impl Value for String {
    fn duplicate(&self) -> String {
        self.clone()
    }

    fn same(&self, other: &String) -> bool {
        text::same_text(self.as_str(), other.as_str())
    }
}

impl<T: Value> Value for Option<T> {
    fn duplicate(&self) -> Option<T> {
        match self {
            Some(t) => Some(t.duplicate()),
            None => None,
        }
    }

    fn same(&self, other: &Option<T>) -> bool {
        match (self, other) {
            (Some(a), Some(b)) => a.same(b),
            (None, None) => true,
            _ => false,
        }
    }
}

impl<T: Value> Value for Vec<T> {
    fn duplicate(&self) -> (copy: Vec<T>) {
        let mut copy: Vec<T> = Vec::new();
        let mut i: usize = 0;
        while i < self.len()
            invariant
                i <= self@.len(),
                copy.deep_view() == self.deep_view().take(i as int),
            decreases self@.len() - i,
        {
            let item = self[i].duplicate();
            let ghost before = copy.deep_view();
            let ghost added = item.deep_view();
            copy.push(item);
            assert(copy.deep_view() =~= before.push(added));
            assert(self.deep_view().take(i + 1) =~= before.push(self.deep_view()[i as int]));
            i = i + 1;
        }
        assert(copy.deep_view() =~= self.deep_view());
        copy
    }

    fn same(&self, other: &Vec<T>) -> (same: bool) {
        if self.len() != other.len() {
            assert(self.deep_view().len() != other.deep_view().len());
            return false;
        }
        let mut i: usize = 0;
        while i < self.len()
            invariant
                i <= self@.len(),
                self@.len() == other@.len(),
                forall|j: int| 0 <= j < i ==> self.deep_view()[j] == other.deep_view()[j],
            decreases self@.len() - i,
        {
            if !self[i].same(&other[i]) {
                assert(self.deep_view()[i as int] != other.deep_view()[i as int]);
                return false;
            }
            i = i + 1;
        }
        assert(self.deep_view() =~= other.deep_view());
        true
    }
}

impl<A: Value, B: Value> Value for (A, B) {
    fn duplicate(&self) -> (A, B) {
        (self.0.duplicate(), self.1.duplicate())
    }

    fn same(&self, other: &(A, B)) -> bool {
        self.0.same(&other.0) && self.1.same(&other.1)
    }
}

/// Whether a text is one of a list.
pub fn list_contains(list: &Vec<String>, s: &str) -> (yes: bool)
    ensures
        yes == list.deep_view().contains(s@),
{
    let mut i: usize = 0;
    while i < list.len()
        invariant
            i <= list@.len(),
            forall|j: int| 0 <= j < i ==> list.deep_view()[j] != s@,
        decreases list@.len() - i,
    {
        if text::same_text(list[i].as_str(), s) {
            assert(list.deep_view()[i as int] == s@);
            return true;
        }
        i = i + 1;
    }
    false
}

} // verus!
