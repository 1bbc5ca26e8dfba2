//! Pairwise access to collections: two mutable references at distinct
//! indices, and iteration over all unordered pairs.
use vstd::prelude::*;

verus! {

/// Mutable access to two distinct elements at once.
pub trait GetMutPair<A>: Sized {
    spec fn items(&self) -> Seq<A>;

    /// References to the elements at `i` and `j`, which must differ.
    fn get_pair_mut(&mut self, i: usize, j: usize) -> (r: (&mut A, &mut A))
        requires
            i != j,
            i < old(self).items().len(),
            j < old(self).items().len(),
        ensures
            *r.0 == old(self).items()[i as int],
            *r.1 == old(self).items()[j as int],
            final(self).items() == old(self).items().update(i as int, *final(r.0)).update(
                j as int,
                *final(r.1),
            ),
    ;
}

fn split_two<A>(s: &mut [A], i: usize, j: usize) -> (r: (&mut A, &mut A))
    requires
        i < j < old(s)@.len(),
    ensures
        *r.0 == old(s)@[i as int],
        *r.1 == old(s)@[j as int],
        final(s)@ == old(s)@.update(i as int, *final(r.0)).update(j as int, *final(r.1)),
{
    let (left, right) = s.split_at_mut(j);
    let (_head, mid) = left.split_at_mut(i);
    let a = mid.first_mut().unwrap();
    let b = right.first_mut().unwrap();
    (a, b)
}

impl<A> GetMutPair<A> for Vec<A> {
    open spec fn items(&self) -> Seq<A> {
        self@
    }

    fn get_pair_mut(&mut self, i: usize, j: usize) -> (r: (&mut A, &mut A)) {
        let s = self.as_mut_slice();
        if i < j {
            split_two(s, i, j)
        } else {
            let (b, a) = split_two(s, j, i);
            (a, b)
        }
    }
}

/// Iterates over all pairs `(items[i], items[j])` with `i < j`, in
/// lexicographic order of `(i, j)`.
#[derive(Debug)]
pub struct CombinatePair<T> {
    pub items: Vec<T>,
    /// Index of the first element of the next pair.
    pub i: usize,
    /// Index of the second element of the next pair; `items.len()` once the
    /// row of `i` is used up.
    pub j: usize,
}

/// The index pair that follows the cursor `(i, j)` among `n` items.
pub open spec fn next_pair(n: int, i: int, j: int) -> Option<(int, int)> {
    if i < j < n {
        Some((i, j))
    } else if i + 2 < n {
        Some((i + 1, i + 2))
    } else {
        None
    }
}

impl<T: Copy> CombinatePair<T> {
    pub open spec fn wf(&self) -> bool {
        self.i < self.j <= self.items.len() || self.items.len() < 2
    }

    /// The pairs of `items`, starting with `(items[0], items[1])`.
    pub fn new(items: Vec<T>) -> (r: CombinatePair<T>)
        ensures
            r.items@ == items@,
            r.i == 0,
            r.j == 1,
            r.wf(),
    {
        CombinatePair { items, i: 0, j: 1 }
    }

    /// The next pair, or `None` once every pair has been returned.
    pub fn next(&mut self) -> (r: Option<(T, T)>)
        requires
            old(self).wf(),
        ensures
            final(self).wf(),
            final(self).items@ == old(self).items@,
            match next_pair(old(self).items.len() as int, old(self).i as int, old(self).j as int) {
                Some((a, b)) => r == Some((old(self).items@[a], old(self).items@[b])) && final(self).i
                    == a && final(self).j == b + 1,
                None => r is None && final(self).i == old(self).i && final(self).j == old(self).j,
            },
    {
        let n = self.items.len();
        if self.i < self.j && self.j < n {
            let r = (self.items[self.i], self.items[self.j]);
            self.j = self.j + 1;
            Some(r)
        } else if n >= 2 && self.i < n - 2 {
            self.i = self.i + 1;
            self.j = self.i + 1;
            let r = (self.items[self.i], self.items[self.j]);
            self.j = self.j + 1;
            Some(r)
        } else {
            None
        }
    }
}

/// Pairwise iteration over a collection.
pub trait Itertools<T>: Sized {
    spec fn elements(&self) -> Seq<T>;

    /// All unordered pairs of the elements.
    fn combinate_pair(self) -> (r: CombinatePair<T>)
        ensures
            r.items@ == self.elements(),
            r.i == 0,
            r.j == 1,
    ;
}

impl<T: Copy> Itertools<T> for Vec<T> {
    open spec fn elements(&self) -> Seq<T> {
        self@
    }

    fn combinate_pair(self) -> (r: CombinatePair<T>) {
        CombinatePair::new(self)
    }
}

} // verus!
