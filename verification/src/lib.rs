//! A persistent, immutable singly-linked list.
//!
//! A list is either empty or a head element in front of a shared,
//! reference-counted tail. Pushing and popping never mutate an existing
//! node: they build a new head or hand back the existing tail, so any
//! number of list values may share a common suffix.

use vstd::prelude::*;

verus! {

use std::rc::Rc;

/// An immutable singly-linked list over elements of type `T`.
///
/// A `Cons` node owns its head element and a shared reference to its
/// tail, so several lists may share one suffix without copying it.
#[derive(PartialEq, Debug)]
pub enum LinkedList<T> {
    Nope,
    Cons(T, Rc<LinkedList<T>>),
}

impl<T> LinkedList<T> {
    /// The mathematical contents of the list, head first.
    pub open spec fn elems(self) -> Seq<T>
        decreases self,
    {
        match self {
            LinkedList::Nope => Seq::empty(),
            LinkedList::Cons(v, tail) => seq![v] + tail.elems(),
        }
    }
}

/// Holds when a fold over `elems` that starts from `init` can call `f`
/// at every step: `f` accepts the first element with the current
/// accumulator, and whatever accumulator `f` may hand back is again
/// acceptable for the rest of the elements.
pub open spec fn fold_ok<T, S, F: Fn(S, &T) -> S>(f: F, init: S, elems: Seq<T>) -> bool
    decreases elems.len(),
{
    elems.len() > 0 ==> {
        &&& f.requires((init, &elems[0]))
        &&& forall|mid: S|
            #[trigger] f.ensures((init, &elems[0]), mid) ==> fold_ok(f, mid, elems.drop_first())
    }
}

/// Holds when `r` is a possible result of folding `f` over `elems`,
/// head to tail, starting from `init`: there is a chain of accumulators,
/// one per element and each a possible output of `f` on the previous
/// one, that ends in `r`.
pub open spec fn folds_to<T, S, F: Fn(S, &T) -> S>(f: F, init: S, elems: Seq<T>, r: S) -> bool
    decreases elems.len(),
{
    if elems.len() == 0 {
        r == init
    } else {
        exists|mid: S|
            #[trigger] f.ensures((init, &elems[0]), mid) && folds_to(f, mid, elems.drop_first(), r)
    }
}

/// A fold with a combiner that only adds one to its accumulator is a
/// count: it can run on any list whose length keeps the accumulator
/// within `usize`, and its one possible result is `init` plus the
/// number of elements folded over.
proof fn lemma_counting_fold<T, F: Fn(usize, &T) -> usize>(f: F, init: usize, elems: Seq<T>)
    requires
        forall|agg: usize, t: &T| agg < usize::MAX ==> #[trigger] f.requires((agg, t)),
        forall|agg: usize, t: &T, res: usize|
            #[trigger] f.ensures((agg, t), res) ==> res == agg + 1,
        init + elems.len() <= usize::MAX,
    ensures
        fold_ok(f, init, elems),
        forall|res: usize| #[trigger] folds_to(f, init, elems, res) ==> res == init + elems.len(),
    decreases elems.len(),
{
    if elems.len() > 0 {
        assert forall|mid: usize| #[trigger] f.ensures((init, &elems[0]), mid) implies fold_ok(
            f,
            mid,
            elems.drop_first(),
        ) by {
            lemma_counting_fold(f, mid, elems.drop_first());
        }
        assert forall|res: usize| #[trigger] folds_to(f, init, elems, res) implies res == init
            + elems.len() by {
            let mid = choose|mid: usize|
                #[trigger] f.ensures((init, &elems[0]), mid) && folds_to(
                    f,
                    mid,
                    elems.drop_first(),
                    res,
                );
            lemma_counting_fold(f, mid, elems.drop_first());
        }
    }
}

impl<T> View for LinkedList<T> {
    type V = Seq<T>;

    open spec fn view(&self) -> Seq<T> {
        self.elems()
    }
}

impl<T> LinkedList<T> {
    /// Creates the empty list.
    pub fn new<S>() -> (r: LinkedList<S>)
        ensures
            r@ == Seq::<S>::empty(),
    {
        LinkedList::Nope
    }

    /// Reports whether the list holds no elements.
    pub fn is_empty(&self) -> (r: bool)
        ensures
            r == (self@.len() == 0),
    {
        match self {
            LinkedList::Nope => true,
            LinkedList::Cons(_, _) => false,
        }
    }

    /// Counts the elements of the list, by folding a counter over it.
    pub fn len(&self) -> (r: usize)
        requires
            self@.len() <= usize::MAX,
        ensures
            r == self@.len(),
    {
        let counted = |agg: usize, _elem: &T| -> (res: usize)
            requires
                agg < usize::MAX,
            ensures
                res == agg + 1,
            { agg + 1 };
        proof {
            lemma_counting_fold(counted, 0usize, self@);
        }
        self.fold_r(0, counted)
    }

    /// Folds `fun` over the list from the head to the tail: starting
    /// from `init_value`, the accumulator is passed through `fun` once
    /// per element, in list order, and the final accumulator is
    /// returned.
    pub fn fold_r<S, F: Fn(S, &T) -> S>(&self, init_value: S, fun: F) -> (r: S)
        requires
            fold_ok(fun, init_value, self@),
        ensures
            folds_to(fun, init_value, self@, r),
        decreases self,
    {
        match self {
            LinkedList::Nope => init_value,
            LinkedList::Cons(elem, tail) => {
                proof {
                    assert(self@.drop_first() =~= tail@);
                }
                let acc = fun(init_value, elem);
                tail.fold_r(acc, fun)
            },
        }
    }

    /// Puts `elem` in front of the list. The previous list becomes the
    /// shared tail of the result; it is wrapped, never copied or changed.
    pub fn push(self, elem: T) -> (r: LinkedList<T>)
        ensures
            r@ == seq![elem] + self@,
    {
        LinkedList::Cons(elem, Rc::new(self))
    }

    /// Splits the list into its head element and a shared reference to
    /// its tail. The empty list has no head, so it yields `None`; no
    /// other outcome exists.
    pub fn pop(self) -> (r: Option<(T, Rc<LinkedList<T>>)>)
        ensures
            self@.len() == 0 ==> r is None,
            self@.len() > 0 ==> (r matches Some(p) && p.0 == self@[0] && p.1@ == self@.drop_first()),
    {
        match self {
            LinkedList::Nope => None,
            LinkedList::Cons(elem, tail) => Some((elem, tail)),
        }
    }
}

/// The contents of the list obtained by pushing the elements of `vs`,
/// in order, onto the empty list: by the contract of `push`, each push
/// of `v` turns contents `s` into `seq![v] + s`.
pub open spec fn after_pushes<T>(vs: Seq<T>) -> Seq<T>
    decreases vs.len(),
{
    if vs.len() == 0 {
        Seq::empty()
    } else {
        seq![vs.last()] + after_pushes(vs.drop_last())
    }
}

/// Law: a freshly created list is empty. Its contents have length
/// zero, so by the contracts of `new`, `is_empty` and `pop`, `is_empty`
/// returns true on it and `pop` returns `None`.
pub proof fn lemma_new_list_is_empty<T>()
    ensures
        Seq::<T>::empty().len() == 0,
{
}

/// Law: pushing `v` onto a list with contents `s` and popping the
/// result yields `v` and a tail with contents `s`. The pushed list has
/// one more element than `s`, so it is never empty, `is_empty` returns
/// false on it, and `pop` returns `Some`.
pub proof fn lemma_push_then_pop<T>(s: Seq<T>, v: T)
    ensures
        (seq![v] + s).len() == s.len() + 1,
        (seq![v] + s)[0] == v,
        (seq![v] + s).drop_first() == s,
{
}

/// Law: pushing `v1, v2, ..., vn` in order onto the empty list builds a
/// list of length `n` whose contents are the pushed values reversed, so
/// popping repeatedly yields `vn, ..., v2, v1`: the element at position
/// `i`, the one handed out by the `i`-th pop, is `vs[n - 1 - i]`.
pub proof fn lemma_pushes_reverse<T>(vs: Seq<T>)
    ensures
        after_pushes(vs).len() == vs.len(),
        after_pushes(vs) == vs.reverse(),
        forall|i: int|
            0 <= i < vs.len() ==> #[trigger] after_pushes(vs)[i] == vs[vs.len() - 1 - i],
    decreases vs.len(),
{
    if vs.len() > 0 {
        lemma_pushes_reverse(vs.drop_last());
    }
    assert(after_pushes(vs) =~= vs.reverse());
}

} // verus!
