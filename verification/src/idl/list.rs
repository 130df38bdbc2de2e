//! A list that is either borrowed or owned.

use vstd::prelude::*;
use vstd::std_specs::cmp::PartialEqSpec;
use vstd::std_specs::iter::IteratorSpec;

verus! {

/// A list that can be either borrowed or owned.
///
/// The borrowed form suits constant data, the owned form suits data built at run time (by the
/// parser, for instance). Two lists are equal when they hold equal items in the same order,
/// whichever form each of them has.
#[derive(Debug, Clone)]
pub enum List<'a, T> {
    /// Borrowed slice of references.
    Borrowed(&'a [&'a T]),
    /// Owned vector.
    Owned(Vec<T>),
}

impl<'a, T> List<'a, T> {
    /// The items of the list, in order.
    pub open spec fn items(self) -> Seq<T> {
        match self {
            List::Borrowed(s) => Seq::new(s@.len(), |i: int| *s@[i]),
            List::Owned(v) => v@,
        }
    }

    /// References to the items of the list, in order.
    pub fn refs(&self) -> (r: Vec<&T>)
        ensures
            r@.len() == self.items().len(),
            forall|i: int| 0 <= i < r@.len() ==> *r@[i] == self.items()[i],
    {
        let mut out: Vec<&T> = Vec::new();
        match self {
            List::Borrowed(s) => {
                let n = s.len();
                for k in 0..n
                    invariant
                        n == s@.len(),
                        *self == List::<'a, T>::Borrowed(*s),
                        out@.len() == k,
                        forall|i: int| 0 <= i < k ==> *out@[i] == self.items()[i],
                {
                    out.push(s[k]);
                }
            },
            List::Owned(v) => {
                let n = v.len();
                for k in 0..n
                    invariant
                        n == v@.len(),
                        *self == List::<'a, T>::Owned(*v),
                        out@.len() == k,
                        forall|i: int| 0 <= i < k ==> *out@[i] == self.items()[i],
                {
                    out.push(&v[k]);
                }
            },
        }
        out
    }

    /// Returns an iterator over references to the items.
    pub fn iter(&self) -> (r: std::vec::IntoIter<&T>)
        ensures
            r.remaining().len() == self.items().len(),
            forall|i: int| 0 <= i < r.remaining().len() ==> *r.remaining()[i] == self.items()[i],
    {
        self.refs().into_iter()
    }

    /// Returns the number of items in the list.
    pub fn len(&self) -> (r: usize)
        ensures
            r == self.items().len(),
    {
        match self {
            List::Borrowed(s) => s.len(),
            List::Owned(v) => v.len(),
        }
    }

    /// Returns true if the list is empty.
    pub fn is_empty(&self) -> (r: bool)
        ensures
            r == (self.items().len() == 0),
    {
        self.len() == 0
    }

    /// The borrowed slice of references if this list is borrowed.
    pub fn as_borrowed(&self) -> (r: Option<&[&T]>)
        ensures
            match *self {
                List::Borrowed(s) => r == Some(s),
                List::Owned(_) => r is None,
            },
    {
        match self {
            List::Borrowed(slice) => Some(slice),
            List::Owned(_) => None,
        }
    }

    /// The owned vector of values if this list is owned.
    pub fn as_owned(&self) -> (r: Option<&Vec<T>>)
        ensures
            match *self {
                List::Borrowed(_) => r is None,
                List::Owned(v) => r == Some(&v),
            },
    {
        match self {
            List::Borrowed(_) => None,
            List::Owned(vec) => Some(vec),
        }
    }
}

impl<'a, T> Default for List<'a, T> {
    fn default() -> (r: Self)
        ensures
            r == List::<'a, T>::Borrowed(&[]),
    {
        List::Borrowed(&[])
    }
}

impl<'a, T> From<Vec<T>> for List<'a, T> {
    fn from(vec: Vec<T>) -> (r: Self) {
        List::Owned(vec)
    }
}

impl<'a, T> vstd::std_specs::convert::FromSpecImpl<Vec<T>> for List<'a, T> {
    open spec fn obeys_from_spec() -> bool {
        true
    }

    open spec fn from_spec(v: Vec<T>) -> Self {
        List::Owned(v)
    }
}

impl<'a, T> From<&'a [&'a T]> for List<'a, T> {
    fn from(slice: &'a [&'a T]) -> (r: Self) {
        List::Borrowed(slice)
    }
}

impl<'a, T> vstd::std_specs::convert::FromSpecImpl<&'a [&'a T]> for List<'a, T> {
    open spec fn obeys_from_spec() -> bool {
        true
    }

    open spec fn from_spec(v: &'a [&'a T]) -> Self {
        List::Borrowed(v)
    }
}

impl<'a, T: PartialEq> PartialEq for List<'a, T> {
    fn eq(&self, other: &Self) -> (r: bool) {
        if self.len() != other.len() {
            return false;
        }
        let a = self.refs();
        let b = other.refs();
        let n = a.len();
        for k in 0..n
            invariant
                n == a@.len(),
                n == b@.len(),
                n == self.items().len(),
                n == other.items().len(),
                forall|i: int| 0 <= i < a@.len() ==> *a@[i] == self.items()[i],
                forall|i: int| 0 <= i < b@.len() ==> *b@[i] == other.items()[i],
                T::obeys_eq_spec() ==> forall|i: int|
                    0 <= i < k ==> self.items()[i].eq_spec(&other.items()[i]),
        {
            if !(a[k] == b[k]) {
                return false;
            }
        }
        true
    }
}

impl<'a, T: PartialEq> vstd::std_specs::cmp::PartialEqSpecImpl for List<'a, T> {
    open spec fn obeys_eq_spec() -> bool {
        T::obeys_eq_spec()
    }

    open spec fn eq_spec(&self, other: &Self) -> bool {
        items_eq(self.items(), other.items())
    }
}

/// Two sequences are equal, item by item, under the items' own equality.
pub open spec fn items_eq<T: PartialEq>(a: Seq<T>, b: Seq<T>) -> bool {
    &&& a.len() == b.len()
    &&& forall|i: int| 0 <= i < a.len() ==> #[trigger] a[i].eq_spec(&b[i])
}

/// List equality compares the items in order, whichever form (borrowed or owned) each list has:
/// two lists are equal exactly when they are equally long and their items are pairwise equal.
pub proof fn law_list_eq_is_item_wise<'a, T: PartialEq>(a: List<'a, T>, b: List<'a, T>)
    ensures
        a.eq_spec(&b) == (a.items().len() == b.items().len() && forall|i: int|
            0 <= i < a.items().len() ==> #[trigger] a.items()[i].eq_spec(&b.items()[i])),
{
}

/// List equality is symmetric whenever the items' own equality is (which `PartialEq` asks of
/// every implementation): `a == b` holds exactly when `b == a` does, whichever form (borrowed or
/// owned) each list has.
pub proof fn law_list_eq_symmetric<'a, T: PartialEq>(a: List<'a, T>, b: List<'a, T>)
    requires
        forall|x: T, y: T| #[trigger] x.eq_spec(&y) == y.eq_spec(&x),
    ensures
        a.eq_spec(&b) == b.eq_spec(&a),
        a.eq_spec(&b) == items_eq(a.items(), b.items()),
{
    if a.eq_spec(&b) {
        assert forall|i: int| 0 <= i < b.items().len() implies #[trigger] b.items()[i].eq_spec(
            &a.items()[i],
        ) by {
            assert(a.items()[i].eq_spec(&b.items()[i]));
        }
    }
    if b.eq_spec(&a) {
        assert forall|i: int| 0 <= i < a.items().len() implies #[trigger] a.items()[i].eq_spec(
            &b.items()[i],
        ) by {
            assert(b.items()[i].eq_spec(&a.items()[i]));
        }
    }
}

/// Two lists that hold the same items in the same order are equal, whichever form each has,
/// as long as every item equals itself.
pub proof fn law_list_eq_by_items<'a, T: PartialEq>(a: List<'a, T>, b: List<'a, T>)
    requires
        forall|x: T| #[trigger] x.eq_spec(&x),
        a.items() == b.items(),
    ensures
        a.eq_spec(&b),
        b.eq_spec(&a),
{
    assert forall|i: int| 0 <= i < a.items().len() implies #[trigger] a.items()[i].eq_spec(
        &b.items()[i],
    ) by {
        assert(a.items()[i].eq_spec(&a.items()[i]));
    }
    assert forall|i: int| 0 <= i < b.items().len() implies #[trigger] b.items()[i].eq_spec(
        &a.items()[i],
    ) by {
        assert(b.items()[i].eq_spec(&b.items()[i]));
    }
}

} // verus!
