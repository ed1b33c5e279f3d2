//! A lexical environment: an ordered sequence of (name, value) bindings,
//! generic over the payload type. Extension appends and never mutates
//! earlier bindings; lookup scans from the most recently added binding
//! backward, so a re-declared name shadows the older binding while the
//! older one remains present for traversals.

use vstd::prelude::*;
use vstd::string::StringExecFns;

verus! {

/// Failure of a lookup: no binding in the environment carries the name.
#[derive(Debug)]
pub struct NotBoundError;

/// An ordered sequence of bindings from names to values of type `T`.
///
/// Viewed abstractly as a `Seq` of (name, value) pairs in insertion order.
#[derive(Debug)]
pub struct Environment<T: Clone> {
    records: Vec<(String, T)>,
}

impl<T: Clone> View for Environment<T> {
    type V = Seq<(Seq<char>, T)>;

    closed spec fn view(&self) -> Seq<(Seq<char>, T)> {
        self.records@.map(|i: int, r: (String, T)| (r.0@, r.1))
    }
}

/// The value bound to `x` in `s`, scanning from the most recently added
/// binding backward; `None` when no binding carries the name.
pub open spec fn lookup_spec<T>(s: Seq<(Seq<char>, T)>, x: Seq<char>) -> Option<T>
    decreases s.len(),
{
    if s.len() == 0 {
        None
    } else if s.last().0 == x {
        Some(s.last().1)
    } else {
        lookup_spec(s.drop_last(), x)
    }
}

/// A lookup misses exactly when no binding in the sequence carries the name.
pub proof fn lemma_lookup_spec_none<T>(s: Seq<(Seq<char>, T)>, x: Seq<char>)
    ensures
        (lookup_spec(s, x) is None) <==> (forall|i: int| 0 <= i < s.len() ==> s[i].0 != x),
    decreases s.len(),
{
    if s.len() > 0 {
        lemma_lookup_spec_none(s.drop_last(), x);
        assert(forall|i: int| 0 <= i < s.len() - 1 ==> s.drop_last()[i] == s[i]);
    }
}

/// Extending with a name and then looking that name up finds the new value,
/// whether or not the name was already bound (shadowing).
pub proof fn lemma_extend_lookup<T>(s: Seq<(Seq<char>, T)>, x: Seq<char>, v: T)
    ensures
        lookup_spec(s.push((x, v)), x) == Some(v),
{
    assert(s.push((x, v)).last() == (x, v));
}

/// Extending with one name leaves lookups of every other name unchanged.
pub proof fn lemma_extend_lookup_other<T>(s: Seq<(Seq<char>, T)>, x: Seq<char>, y: Seq<char>, v: T)
    requires
        y != x,
    ensures
        lookup_spec(s.push((y, v)), x) == lookup_spec(s, x),
{
    assert(s.push((y, v)).drop_last() =~= s);
}

impl<T: Clone> Environment<T> {
    /// The environment with no bindings.
    pub fn empty() -> (r: Self)
        ensures
            r@ == Seq::<(Seq<char>, T)>::empty(),
    {
        let r = Environment { records: Vec::new() };
        proof {
            assert(r@ =~= Seq::<(Seq<char>, T)>::empty());
        }
        r
    }

    /// Appends the binding `(x, v)`; every prior binding is kept in place.
    pub fn extend(&mut self, x: &str, v: T)
        ensures
            final(self)@ == old(self)@.push((x@, v)),
    {
        self.records.push((String::from_str(x), v));
        proof {
            assert(self@ =~= old(self)@.push((x@, v)));
        }
    }

    /// The value bound to `x`, resolving to the most recently added binding
    /// with that name; `NotBoundError` when the name is absent.
    pub fn lookup(&self, x: &str) -> (r: Result<&T, NotBoundError>)
        ensures
            match r {
                Ok(v) => lookup_spec(self@, x@) == Some(*v),
                Err(_) => lookup_spec(self@, x@) is None,
            },
    {
        let needle = String::from_str(x);
        let mut i: usize = self.records.len();
        proof {
            assert(self@.subrange(0, i as int) =~= self@);
        }
        while i > 0
            invariant
                i <= self.records.len(),
                self@.len() == self.records@.len(),
                needle@ == x@,
                lookup_spec(self@, x@) == lookup_spec(self@.subrange(0, i as int), x@),
            decreases i,
        {
            i = i - 1;
            if self.records[i].0 == needle {
                proof {
                    assert(self@.subrange(0, i as int + 1).last() == (x@, self@[i as int].1));
                }
                return Ok(&self.records[i].1);
            }
            proof {
                assert(self@.subrange(0, i as int + 1).drop_last() =~= self@.subrange(
                    0,
                    i as int,
                ));
            }
        }
        proof {
            assert(self@.subrange(0, 0) =~= Seq::<(Seq<char>, T)>::empty());
        }
        Err(NotBoundError)
    }
}

/// Whether `res` is a possible outcome of folding `f` over the values of
/// `s` from the most recently added binding back to the first, starting
/// from `init`: the last binding of `s` is combined first, the first
/// binding last.
pub open spec fn folds<T, U, F: Fn(U, &T) -> U>(
    f: F,
    s: Seq<(Seq<char>, T)>,
    init: U,
    res: U,
) -> bool
    decreases s.len(),
{
    if s.len() == 0 {
        res == init
    } else {
        exists|mid: U|
            #[trigger] f.ensures((init, &s.last().1), mid) && folds(f, s.drop_last(), mid, res)
    }
}

/// Folding over one more binding at the old end of the sequence combines
/// its value last.
proof fn lemma_folds_extend<T, U, F: Fn(U, &T) -> U>(
    f: F,
    s: Seq<(Seq<char>, T)>,
    head: (Seq<char>, T),
    init: U,
    mid: U,
    res: U,
)
    requires
        folds(f, s, init, mid),
        f.ensures((mid, &head.1), res),
    ensures
        folds(f, seq![head] + s, init, res),
    decreases s.len(),
{
    let w = seq![head] + s;
    if s.len() == 0 {
        assert(w.last() == head);
        assert(w.drop_last() =~= Seq::<(Seq<char>, T)>::empty());
        assert(mid == init);
        assert(f.ensures((init, &w.last().1), res) && folds(f, w.drop_last(), res, res));
    } else {
        let m1 = choose|m: U|
            #[trigger] f.ensures((init, &s.last().1), m) && folds(f, s.drop_last(), m, mid);
        lemma_folds_extend(f, s.drop_last(), head, m1, mid, res);
        assert(w.last() == s.last());
        assert(w.drop_last() =~= seq![head] + s.drop_last());
        assert(f.ensures((init, &w.last().1), m1) && folds(f, w.drop_last(), m1, res));
    }
}

impl<T: Clone> Environment<T> {
    /// A new environment with every value transformed by `f`; names,
    /// order, and the number of bindings are preserved, and the receiver
    /// is untouched.
    pub fn map<U: Clone, F: Fn(&T) -> U>(&self, f: F) -> (r: Environment<U>)
        requires
            forall|i: int| 0 <= i < self@.len() ==> f.requires((&self@[i].1,)),
        ensures
            r@.len() == self@.len(),
            forall|i: int|
                0 <= i < self@.len() ==> (#[trigger] r@[i]).0 == self@[i].0 && f.ensures(
                    (&self@[i].1,),
                    r@[i].1,
                ),
    {
        let mut records: Vec<(String, U)> = Vec::new();
        let mut i: usize = 0;
        while i < self.records.len()
            invariant
                i <= self.records.len(),
                self@.len() == self.records@.len(),
                records@.len() == i,
                forall|i0: int| 0 <= i0 < self@.len() ==> f.requires((&self@[i0].1,)),
                forall|j: int|
                    0 <= j < i ==> (#[trigger] records@[j]).0@ == self@[j].0 && f.ensures(
                        (&self@[j].1,),
                        records@[j].1,
                    ),
            decreases self.records.len() - i,
        {
            proof {
                assert(self@[i as int].1 == self.records@[i as int].1);
                assert(f.requires((&self@[i as int].1,)));
            }
            let u = f(&self.records[i].1);
            records.push((self.records[i].0.clone(), u));
            i = i + 1;
        }
        Environment { records }
    }

    /// Folds `f` over the values of every binding, most recently added
    /// first, starting from `a`; shadowed bindings are visited like any
    /// other.
    pub fn fold_right<U, F: Fn(U, &T) -> U>(&self, f: F, a: U) -> (res: U)
        requires
            forall|u: U, i: int| 0 <= i < self@.len() ==> f.requires((u, &self@[i].1)),
        ensures
            folds(f, self@, a, res),
    {
        let ghost init = a;
        let mut acc = a;
        let mut i: usize = self.records.len();
        proof {
            assert(self@.subrange(i as int, self@.len() as int) =~= Seq::<(
                Seq<char>,
                T,
            )>::empty());
        }
        while i > 0
            invariant
                i <= self.records.len(),
                self@.len() == self.records@.len(),
                forall|u: U, i0: int| 0 <= i0 < self@.len() ==> f.requires((u, &self@[i0].1)),
                folds(f, self@.subrange(i as int, self@.len() as int), init, acc),
            decreases i,
        {
            i = i - 1;
            let ghost prev = acc;
            proof {
                assert(self@[i as int].1 == self.records@[i as int].1);
                assert(f.requires((prev, &self@[i as int].1)));
            }
            let next = f(acc, &self.records[i].1);
            proof {
                lemma_folds_extend(
                    f,
                    self@.subrange(i as int + 1, self@.len() as int),
                    self@[i as int],
                    init,
                    prev,
                    next,
                );
                assert(seq![self@[i as int]] + self@.subrange(i as int + 1, self@.len() as int)
                    =~= self@.subrange(i as int, self@.len() as int));
            }
            acc = next;
        }
        proof {
            assert(self@.subrange(0, self@.len() as int) =~= self@);
        }
        acc
    }
}

impl<T: Clone + Copy> Environment<T> {
    /// An independent copy of the environment, available when the payloads
    /// are plain copyable values; the copy holds the same bindings in the
    /// same order.
    pub fn duplicate(&self) -> (r: Self)
        ensures
            r@ == self@,
    {
        let mut records: Vec<(String, T)> = Vec::new();
        let mut i: usize = 0;
        while i < self.records.len()
            invariant
                i <= self.records.len(),
                records@ == self.records@.subrange(0, i as int),
            decreases self.records.len() - i,
        {
            records.push((self.records[i].0.clone(), self.records[i].1));
            proof {
                assert(records@ =~= self.records@.subrange(0, i as int + 1));
            }
            i = i + 1;
        }
        proof {
            assert(self.records@.subrange(0, self.records@.len() as int) =~= self.records@);
        }
        let r = Environment { records };
        proof {
            assert(r@ =~= self@);
        }
        r
    }
}

} // verus!
