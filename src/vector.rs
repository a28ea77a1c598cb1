use vstd::prelude::*;
use crate::matrix::is_default;

verus! {

/// A dense vector of `n` entries.
#[derive(Debug)]
pub struct Vector<T> {
    pub n: usize,
    pub data: Vec<T>,
}

impl<T> View for Vector<T> {
    type V = Seq<T>;

    open spec fn view(&self) -> Seq<T> {
        self.data@
    }
}

impl<T> Vector<T> {
    /// The storage holds exactly `n` entries.
    pub open spec fn wf(&self) -> bool {
        self.data@.len() == self.n
    }
}

impl<T: Copy> Vector<T> {
    /// A vector of `n` entries, all equal to `v`.
    pub fn filled(n: usize, v: T) -> (r: Self)
        ensures
            r.wf(),
            r.n == n,
            forall|i: int| 0 <= i < n ==> #[trigger] r@[i] == v,
    {
        let mut data: Vec<T> = Vec::new();
        let mut k: usize = 0;
        while k < n
            invariant
                k <= n,
                data@.len() == k,
                forall|x: int| 0 <= x < k ==> #[trigger] data@[x] == v,
            decreases n - k,
        {
            data.push(v);
            k += 1;
        }
        Vector { n, data }
    }

    /// A vector whose entry `i` is `gen(i)`, evaluated in increasing `i`.
    pub fn from_gen<F: Fn(usize) -> T>(n: usize, gen: F) -> (r: Self)
        requires
            forall|i: usize| i < n ==> call_requires(gen, (i,)),
        ensures
            r.wf(),
            r.n == n,
            forall|i: int| 0 <= i < n ==> call_ensures(gen, (i as usize,), #[trigger] r@[i]),
    {
        let mut data: Vec<T> = Vec::new();
        let mut k: usize = 0;
        while k < n
            invariant
                k <= n,
                data@.len() == k,
                forall|i: usize| i < n ==> call_requires(gen, (i,)),
                forall|x: int| 0 <= x < k ==> call_ensures(gen, (x as usize,), #[trigger] data@[x]),
            decreases n - k,
        {
            let v = gen(k);
            data.push(v);
            k += 1;
        }
        Vector { n, data }
    }

    /// A vector holding a copy of `data`.
    pub fn from_vec(data: &Vec<T>) -> (r: Self)
        ensures
            r.wf(),
            r.n == data@.len(),
            r@ == data@,
    {
        let mut copy: Vec<T> = Vec::new();
        let mut k: usize = 0;
        while k < data.len()
            invariant
                k <= data@.len(),
                copy@ == data@.subrange(0, k as int),
            decreases data@.len() - k,
        {
            copy.push(data[k]);
            k += 1;
        }
        assert(copy@ =~= data@);
        Vector { n: data.len(), data: copy }
    }

    /// Entry `i`.
    pub fn at(&self, i: usize) -> (r: T)
        requires
            self.wf(),
            i < self.n,
        ensures
            r == self@[i as int],
    {
        self.data[i]
    }

    /// Overwrites entry `i`.
    pub fn set(&mut self, i: usize, v: T)
        requires
            old(self).wf(),
            i < old(self).n,
        ensures
            final(self).wf(),
            final(self).n == old(self).n,
            final(self)@ == old(self)@.update(i as int, v),
    {
        self.data.set(i, v);
    }
}

impl<T: Copy + Default> Vector<T> {
    /// A vector of `n` entries, all the default value of `T`.
    pub fn new(n: usize) -> (r: Self)
        ensures
            r.wf(),
            r.n == n,
            forall|i: int| 0 <= i < n ==> is_default(#[trigger] r@[i]),
    {
        let d = T::default();
        Self::filled(n, d)
    }
}

impl<T> vstd::std_specs::core::IndexSpecImpl<usize> for Vector<T> {
    open spec fn index_req(&self, index: &usize) -> bool {
        &&& self.wf()
        &&& *index < self.n
    }
}

/// `v[i]` reads entry `i`; the index must be in bounds.
impl<T> std::ops::Index<usize> for Vector<T> {
    type Output = T;

    fn index(&self, index: usize) -> (r: &T)
        ensures
            *r == self@[index as int],
    {
        &self.data[index]
    }
}

} // verus!
