//! A pool that hands out reusable objects and takes them back, so that
//! per-tick working state is allocated once rather than every tick.
use vstd::prelude::*;

verus! {

/// The free objects of a pool and the factory for new ones.
pub struct ObjectPoolInner<T, F> {
    pub objects: Vec<T>,
    pub generator: F,
}

impl<T, F: Fn() -> T> ObjectPoolInner<T, F> {
    /// Returns an object to the free list.
    pub fn push(&mut self, value: T)
        ensures
            final(self).objects@ == old(self).objects@.push(value),
            final(self).generator == old(self).generator,
    {
        self.objects.push(value);
    }

    /// The most recently returned free object, or a new one from the
    /// factory when none is free.
    pub fn new_data(&mut self) -> (r: T)
        requires
            old(self).generator.requires(()),
        ensures
            final(self).generator == old(self).generator,
            old(self).objects@.len() > 0 ==> r == old(self).objects@.last() && final(self).objects@
                == old(self).objects@.drop_last(),
            old(self).objects@.len() == 0 ==> old(self).generator.ensures((), r)
                && final(self).objects@ == old(self).objects@,
    {
        match self.objects.pop() {
            Some(v) => v,
            None => (self.generator)(),
        }
    }
}

/// An object taken from a pool; give it back with `ObjectPool::give_back`.
pub struct Reusable<T> {
    pub data: T,
}

impl<T> Reusable<T> {
    pub fn new(data: T) -> (r: Self)
        ensures
            r.data == data,
    {
        Reusable { data }
    }

    /// Swaps in a fresh object from `pool` and returns the one held so far.
    pub fn take_and_realloc<F: Fn() -> T>(&mut self, pool: &mut ObjectPool<T, F>) -> (r: Reusable<
        T,
    >)
        requires
            old(pool).inner.generator.requires(()),
        ensures
            r.data == old(self).data,
            final(pool).inner.generator == old(pool).inner.generator,
            old(pool).inner.objects@.len() > 0 ==> final(self).data == old(pool).inner.objects@.last()
                && final(pool).inner.objects@ == old(pool).inner.objects@.drop_last(),
            old(pool).inner.objects@.len() == 0 ==> old(pool).inner.generator.ensures(
                (),
                final(self).data,
            ) && final(pool).inner.objects@ == old(pool).inner.objects@,
    {
        let mut fresh = Reusable { data: pool.inner.new_data() };
        std::mem::swap(self, &mut fresh);
        fresh
    }
}

/// A pool of reusable objects.
pub struct ObjectPool<T, F> {
    pub inner: ObjectPoolInner<T, F>,
}

impl<T, F: Fn() -> T> ObjectPool<T, F> {
    /// A pool holding `size` objects made by `func`, which also makes any
    /// further ones.
    pub fn new(size: usize, func: F) -> (r: Self)
        requires
            func.requires(()),
        ensures
            r.inner.generator == func,
            r.inner.objects@.len() == size,
            forall|i: int| 0 <= i < size ==> func.ensures((), #[trigger] r.inner.objects@[i]),
    {
        let mut objects: Vec<T> = Vec::new();
        let mut k: usize = 0;
        while k < size
            invariant
                func.requires(()),
                k <= size,
                objects@.len() == k,
                forall|i: int| 0 <= i < k ==> func.ensures((), #[trigger] objects@[i]),
            decreases size - k,
        {
            objects.push(func());
            k = k + 1;
        }
        Self { inner: ObjectPoolInner { objects, generator: func } }
    }

    /// Takes an object: a free one if there is one, else a new one.
    pub fn pop(&mut self) -> (r: Reusable<T>)
        requires
            old(self).inner.generator.requires(()),
        ensures
            final(self).inner.generator == old(self).inner.generator,
            old(self).inner.objects@.len() > 0 ==> r.data == old(self).inner.objects@.last()
                && final(self).inner.objects@ == old(self).inner.objects@.drop_last(),
            old(self).inner.objects@.len() == 0 ==> old(self).inner.generator.ensures((), r.data)
                && final(self).inner.objects@ == old(self).inner.objects@,
    {
        Reusable::new(self.inner.new_data())
    }

    /// Puts an object back for later reuse.
    pub fn give_back(&mut self, r: Reusable<T>)
        ensures
            final(self).inner.objects@ == old(self).inner.objects@.push(r.data),
            final(self).inner.generator == old(self).inner.generator,
    {
        self.inner.push(r.data);
    }
}

} // verus!
