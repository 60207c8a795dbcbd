//! A dense array with tombstone deletion: elements are marked as holes in
//! place, keeping the other indices stable, and an explicit compaction pass
//! removes all holes at once.

use vstd::prelude::*;

verus! {

/// The occupied values of a slot sequence, in their original order.
pub open spec fn valid_values<T>(s: Seq<Option<T>>) -> Seq<T>
    decreases s.len(),
{
    if s.len() == 0 {
        Seq::empty()
    } else {
        let prefix = valid_values(s.drop_last());
        match s.last() {
            Option::Some(v) => prefix.push(v),
            Option::None => prefix,
        }
    }
}

/// The slot sequence after pushing `vals` and marking every index in
/// `holes`: a hole where the index was marked, the pushed value elsewhere.
pub open spec fn with_holes<T>(vals: Seq<T>, holes: Set<int>) -> Seq<Option<T>> {
    Seq::new(
        vals.len(),
        |i: int|
            if holes.contains(i) {
                None
            } else {
                Some(vals[i])
            },
    )
}

/// The values of `vals` whose indices are not in `holes`, in their original
/// relative order.
pub open spec fn values_outside<T>(vals: Seq<T>, holes: Set<int>) -> Seq<T>
    decreases vals.len(),
{
    if vals.len() == 0 {
        Seq::empty()
    } else {
        let prefix = values_outside(vals.drop_last(), holes);
        if holes.contains(vals.len() - 1) {
            prefix
        } else {
            prefix.push(vals.last())
        }
    }
}

/// After pushing `vals` and marking holes at the indices in `holes`, the
/// valid values are exactly the values at indices outside `holes`, in their
/// original relative order.
pub proof fn lemma_valid_values_with_holes<T>(vals: Seq<T>, holes: Set<int>)
    ensures
        valid_values(with_holes(vals, holes)) == values_outside(vals, holes),
    decreases vals.len(),
{
    if vals.len() == 0 {
        assert(with_holes(vals, holes) =~= Seq::<Option<T>>::empty());
    } else {
        assert(with_holes(vals, holes).drop_last() =~= with_holes(vals.drop_last(), holes));
        lemma_valid_values_with_holes(vals.drop_last(), holes);
    }
}

/// Taking one more slot either appends its occupied value to the valid
/// values or, at a hole, adds nothing.
pub proof fn lemma_valid_values_take_step<T>(s: Seq<Option<T>>, i: int)
    requires
        0 <= i < s.len(),
    ensures
        valid_values(s.take(i + 1)) == (match s[i] {
            Option::Some(v) => valid_values(s.take(i)).push(v),
            Option::None => valid_values(s.take(i)),
        }),
{
    assert(s.take(i + 1).drop_last() =~= s.take(i));
    assert(s.take(i + 1).last() == s[i]);
}

pub struct HoleArray<T> {
    data: Vec<Option<T>>,
}

impl<T> View for HoleArray<T> {
    type V = Seq<Option<T>>;

    /// The slot sequence: `Some` for an occupied slot, `None` for a hole.
    closed spec fn view(&self) -> Seq<Option<T>> {
        self.data@
    }
}

impl<T> HoleArray<T> {
    /// An empty array.
    pub fn new() -> (r: HoleArray<T>)
        ensures
            r@ == Seq::<Option<T>>::empty(),
    {
        HoleArray { data: Vec::new() }
    }

    /// Appends an occupied slot at the end.
    pub fn push(&mut self, value: T)
        ensures
            final(self)@ == old(self)@.push(Some(value)),
    {
        self.data.push(Some(value));
    }

    /// Turns the slot at `index` into a hole. An index at or past the end is
    /// tolerated and changes nothing: the caller need not track exact bounds.
    pub fn mark_hole(&mut self, index: usize)
        ensures
            index < old(self)@.len() ==> final(self)@ == old(self)@.update(index as int, None::<T>),
            index >= old(self)@.len() ==> *final(self) == *old(self),
    {
        if index < self.data.len() {
            self.data.set(index, None);
        }
    }

    /// Removes every hole, keeping the occupied values in their original
    /// relative order and renumbering them densely from zero. A single
    /// drain-and-refill pass: linear in the number of slots.
    pub fn compact(&mut self)
        ensures
            final(self)@ == valid_values(old(self)@).map_values(|v: T| Some(v)),
    {
        let ghost orig: Seq<Option<T>> = self.data@;
        // Drain from the back, keeping the occupied values; the scratch
        // vector holds them in reverse order.
        let mut scratch: Vec<T> = Vec::new();
        proof {
            assert(orig.take(orig.len() as int) =~= orig);
            assert(valid_values(orig) + Seq::<T>::empty() =~= valid_values(orig));
        }
        while self.data.len() > 0
            invariant
                self.data@.len() <= orig.len(),
                self.data@ == orig.take(self.data@.len() as int),
                valid_values(orig) == valid_values(self.data@) + scratch@.reverse(),
            decreases self.data@.len(),
        {
            let ghost pre: Seq<Option<T>> = self.data@;
            let ghost pres: Seq<T> = scratch@;
            let x: Option<T> = self.data.pop().unwrap();
            proof {
                assert(self.data@ =~= orig.take(self.data@.len() as int));
            }
            match x {
                Option::Some(v) => {
                    scratch.push(v);
                    proof {
                        assert(scratch@.reverse() =~= seq![v] + pres.reverse());
                        assert(valid_values(pre.drop_last()).push(v) + pres.reverse()
                            =~= valid_values(pre.drop_last()) + scratch@.reverse());
                    }
                },
                Option::None => {},
            }
        }
        // Refill from the scratch vector: popping it restores the original
        // relative order.
        let ghost vv: Seq<T> = valid_values(orig);
        proof {
            assert(scratch@.reverse() =~= vv.skip(0));
            assert(self.data@ =~= vv.take(0).map_values(|v: T| Some(v)));
        }
        while scratch.len() > 0
            invariant
                vv == valid_values(orig),
                self.data@.len() + scratch@.len() == vv.len(),
                self.data@ == vv.take(self.data@.len() as int).map_values(|v: T| Some(v)),
                scratch@.reverse() == vv.skip(self.data@.len() as int),
            decreases scratch@.len(),
        {
            let ghost k: int = self.data@.len() as int;
            let ghost pres: Seq<T> = scratch@;
            let v: T = scratch.pop().unwrap();
            proof {
                assert(v == pres.reverse()[0]);
                assert(v == vv[k]);
                assert(scratch@ =~= pres.drop_last());
                assert(scratch@.reverse() =~= pres.reverse().drop_first());
                assert(pres.reverse().drop_first() =~= vv.skip(k + 1));
            }
            self.data.push(Some(v));
            proof {
                assert(self.data@ =~= vv.take(k + 1).map_values(|v: T| Some(v)));
            }
        }
        proof {
            assert(vv.take(vv.len() as int) =~= vv);
        }
    }

    /// References to the occupied values, in current order; holes are
    /// skipped. Does not mutate; indices into the result are dense even
    /// while the array itself still has holes.
    pub fn iter_valid<'a>(&'a self) -> (r: Vec<&'a T>)
        ensures
            r@.len() == valid_values(self@).len(),
            forall|i: int| 0 <= i < r@.len() ==> *r@[i] == valid_values(self@)[i],
    {
        let mut out: Vec<&T> = Vec::new();
        let n: usize = self.data.len();
        let mut i: usize = 0;
        while i < n
            invariant
                n == self.data@.len(),
                i <= n,
                out@.len() == valid_values(self.data@.take(i as int)).len(),
                forall|j: int|
                    0 <= j < out@.len() ==> *out@[j] == valid_values(self.data@.take(i as int))[j],
            decreases n - i,
        {
            proof {
                lemma_valid_values_take_step(self.data@, i as int);
            }
            match &self.data[i] {
                Option::Some(v) => out.push(v),
                Option::None => {},
            }
            i = i + 1;
        }
        proof {
            assert(self.data@.take(n as int) =~= self.data@);
        }
        out
    }
}

} // verus!
