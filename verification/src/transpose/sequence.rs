//! Swapping a sequence with an optional or an outcome layer.

use vstd::prelude::*;
use crate::transpose::Transpose;

verus! {

/// Every element of `s` is present.
pub open spec fn all_present<T>(s: Seq<Option<T>>) -> bool {
    forall|i: int| 0 <= i < s.len() ==> s[i] is Some
}

/// Some element of `s` is absent.
pub open spec fn has_absent<T>(s: Seq<Option<T>>) -> bool {
    exists|i: int| 0 <= i < s.len() && s[i] is None
}

/// The values held by the elements of `s`, in order.
pub open spec fn unwrapped<T>(s: Seq<Option<T>>) -> Seq<T> {
    s.map_values(|o: Option<T>| o->0)
}

/// Every element of `s` is a success.
pub open spec fn all_ok<T, E>(s: Seq<Result<T, E>>) -> bool {
    forall|i: int| 0 <= i < s.len() ==> s[i] is Ok
}

/// The values held by the successes of `s`, in order.
pub open spec fn ok_values<T, E>(s: Seq<Result<T, E>>) -> Seq<T> {
    s.map_values(|r: Result<T, E>| r->Ok_0)
}

/// `i` is the position of the first failure of `s`.
pub open spec fn first_failure_at<T, E>(s: Seq<Result<T, E>>, i: int) -> bool {
    &&& 0 <= i < s.len()
    &&& s[i] is Err
    &&& forall|k: int| 0 <= k < i ==> s[k] is Ok
}

impl<T> Transpose for Vec<Option<T>> {
    type Output = Option<Vec<T>>;

    /// All or nothing: the values in order where every element is present,
    /// `None` as soon as one is absent.
    open spec fn transposes_to(&self, out: &Self::Output) -> bool {
        match out {
            Some(items) => all_present(self@) && items@ == unwrapped(self@),
            None => has_absent(self@),
        }
    }

    fn transpose(self) -> (out: Self::Output)
        ensures
            match out {
                Some(items) => all_present(self@) && items@ == unwrapped(self@),
                None => has_absent(self@),
            },
    {
        let mut items: Vec<T> = Vec::new();
        for element in it: self
            invariant
                it.seq() == self@,
                items.len() == it.index(),
                forall|k: int| 0 <= k < it.index() ==> #[trigger] self@[k] == Some(items[k]),
        {
            match element {
                Some(item) => items.push(item),
                None => return None,
            }
        }
        assert(items@ =~= unwrapped(self@));
        Some(items)
    }
}

impl<T> Transpose for Option<Vec<T>> {
    type Output = Vec<Option<T>>;

    /// A present sequence gives its elements, each present; an absent one
    /// gives a single absent element.
    open spec fn transposes_to(&self, out: &Self::Output) -> bool {
        out@ == match *self {
            Some(items) => items@.map_values(|item: T| Some(item)),
            None => seq![None],
        }
    }

    fn transpose(self) -> (out: Self::Output)
        ensures
            out@ == match self {
                Some(items) => items@.map_values(|item: T| Some(item)),
                None => seq![None],
            },
    {
        let mut out: Vec<Option<T>> = Vec::new();
        match self {
            Some(items) => {
                for item in it: items
                    invariant
                        it.seq() == items@,
                        out.len() == it.index(),
                        forall|k: int| 0 <= k < it.index() ==> out[k] == Some(items[k]),
                {
                    out.push(Some(item));
                }
                assert(out@ =~= items@.map_values(|item: T| Some(item)));
            },
            None => out.push(None),
        }
        out
    }
}

impl<T, E> Transpose for Vec<Result<T, E>> {
    type Output = Result<Vec<T>, E>;

    /// The values in order where every element succeeded; else the first
    /// failure of the sequence.
    open spec fn transposes_to(&self, out: &Self::Output) -> bool {
        match *out {
            Ok(items) => all_ok(self@) && items@ == ok_values(self@),
            Err(err) => exists|i: int| first_failure_at(self@, i) && self[i] == Err::<T, E>(err),
        }
    }

    fn transpose(self) -> (out: Self::Output)
        ensures
            match out {
                Ok(items) => all_ok(self@) && items@ == ok_values(self@),
                Err(err) => exists|i: int| first_failure_at(self@, i) && self[i] == Err::<T, E>(err),
            },
    {
        let mut items: Vec<T> = Vec::new();
        for element in it: self
            invariant
                it.seq() == self@,
                items.len() == it.index(),
                forall|k: int| 0 <= k < it.index() ==> #[trigger] self@[k] == Ok::<T, E>(items[k]),
        {
            match element {
                Ok(item) => items.push(item),
                Err(err) => return Err(err),
            }
        }
        assert(items@ =~= ok_values(self@));
        Ok(items)
    }
}

impl<T, E> Transpose for Result<Vec<T>, E> {
    type Output = Vec<Result<T, E>>;

    /// A successful sequence gives its elements, each a success; a failure
    /// gives a single element that holds it.
    open spec fn transposes_to(&self, out: &Self::Output) -> bool {
        out@ == match *self {
            Ok(items) => items@.map_values(|item: T| Ok::<T, E>(item)),
            Err(err) => seq![Err(err)],
        }
    }

    fn transpose(self) -> (out: Self::Output)
        ensures
            out@ == match self {
                Ok(items) => items@.map_values(|item: T| Ok::<T, E>(item)),
                Err(err) => seq![Err(err)],
            },
    {
        let mut out: Vec<Result<T, E>> = Vec::new();
        match self {
            Ok(items) => {
                for item in it: items
                    invariant
                        it.seq() == items@,
                        out.len() == it.index(),
                        forall|k: int| 0 <= k < it.index() ==> out[k] == Ok::<T, E>(items[k]),
                {
                    out.push(Ok(item));
                }
                assert(out@ =~= items@.map_values(|item: T| Ok::<T, E>(item)));
            },
            Err(err) => out.push(Err(err)),
        }
        out
    }
}

} // verus!
