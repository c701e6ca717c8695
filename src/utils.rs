//! Functional utilities over sequences of results.
use vstd::prelude::*;

verus! {

/// `y` is what mapping `f` over the success of `x` gives: `f`'s result for a
/// success, the same error for an error.
pub open spec fn mapped<T, U, E, F: Fn(T) -> U>(x: Result<T, E>, y: Result<U, E>, f: F) -> bool {
    match x {
        Ok(t) => y matches Ok(u) && f.ensures((t,), u),
        Err(e) => y == Err::<U, E>(e),
    }
}

/// Maps and collects over sequences of results.
pub trait IteratorExt<T, E>: Sized {
    spec fn items(&self) -> Seq<Result<T, E>>;

    /// Applies `f` to each success, and leaves each error as it is.
    fn try_map<U, F: Fn(T) -> U>(self, f: F) -> (r: Vec<Result<U, E>>)
        requires
            forall|t: T| #[trigger] f.requires((t,)),
        ensures
            r@.len() == self.items().len(),
            forall|i: int| 0 <= i < r@.len() ==> mapped(self.items()[i], #[trigger] r@[i], f),
    ;

    /// All the successes in order, or else the first error.
    fn try_collect(self) -> (r: Result<Vec<T>, E>)
        ensures
            match r {
                Ok(v) => {
                    &&& v@.len() == self.items().len()
                    &&& forall|i: int| 0 <= i < v@.len() ==> self.items()[i] == Ok::<T, E>(#[trigger] v@[i])
                },
                Err(e) => exists|i: int|
                    0 <= i < self.items().len() && #[trigger] self.items()[i] == Err::<T, E>(e)
                        && forall|j: int| 0 <= j < i ==> self.items()[j] is Ok,
            },
    ;
}

impl<T, E> IteratorExt<T, E> for Vec<Result<T, E>> {
    open spec fn items(&self) -> Seq<Result<T, E>> {
        self@
    }

    fn try_map<U, F: Fn(T) -> U>(self, f: F) -> (r: Vec<Result<U, E>>) {
        let ghost orig = self@;
        let mut rest = self;
        let mut out: Vec<Result<U, E>> = Vec::new();
        while rest.len() > 0
            invariant
                forall|t: T| #[trigger] f.requires((t,)),
                out@.len() + rest@.len() == orig.len(),
                rest@ == orig.subrange(out@.len() as int, orig.len() as int),
                forall|i: int| 0 <= i < out@.len() ==> mapped(orig[i], #[trigger] out@[i], f),
            decreases rest.len(),
        {
            let ghost k = out@.len() as int;
            let x = rest.remove(0);
            assert(x == orig[k]);
            let y = match x {
                Ok(t) => Ok(f(t)),
                Err(e) => Err(e),
            };
            out.push(y);
            assert(rest@ =~= orig.subrange(out@.len() as int, orig.len() as int));
        }
        out
    }

    fn try_collect(self) -> (r: Result<Vec<T>, E>) {
        let ghost orig = self@;
        let mut rest = self;
        let mut out: Vec<T> = Vec::new();
        while rest.len() > 0
            invariant
                self@ == orig,
                out@.len() + rest@.len() == orig.len(),
                rest@ == orig.subrange(out@.len() as int, orig.len() as int),
                forall|i: int| 0 <= i < out@.len() ==> orig[i] == Ok::<T, E>(#[trigger] out@[i]),
            decreases rest.len(),
        {
            let ghost k = out@.len() as int;
            let x = rest.remove(0);
            assert(x == orig[k]);
            match x {
                Ok(t) => {
                    out.push(t);
                },
                Err(e) => {
                    assert forall|j: int| 0 <= j < k implies orig[j] is Ok by {
                        assert(orig[j] == Ok::<T, E>(out@[j]));
                    }
                    assert(orig[k] == Err::<T, E>(e));
                    return Err(e);
                },
            }
            assert(rest@ =~= orig.subrange(out@.len() as int, orig.len() as int));
        }
        Ok(out)
    }
}

} // verus!
