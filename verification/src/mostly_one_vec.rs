use vstd::prelude::*;

verus! {

/// A vector that keeps zero or one item inline and only allocates once it
/// holds two or more.
pub enum MostlyOneVec<T> {
    Zero,
    One(T),
    More(Vec<T>),
}

impl<T> View for MostlyOneVec<T> {
    type V = Seq<T>;

    open spec fn view(&self) -> Seq<T> {
        match self {
            MostlyOneVec::Zero => Seq::empty(),
            MostlyOneVec::One(i) => seq![*i],
            MostlyOneVec::More(v) => v@,
        }
    }
}

/// Moves the items of `v` into a new vector in reverse order.
fn reversed<T>(v: Vec<T>) -> (r: Vec<T>)
    ensures
        r@ == v@.reverse(),
{
    let mut v = v;
    let ghost orig = v@;
    let mut r: Vec<T> = Vec::new();
    while v.len() > 0
        invariant
            v@ == orig.take(v@.len() as int),
            r@ == orig.skip(v@.len() as int).reverse(),
            v@.len() <= orig.len(),
        decreases v@.len(),
    {
        let ghost before = v@.len() as int;
        let x = v.pop().unwrap();
        r.push(x);
        proof {
            assert(orig.skip(before - 1).reverse() =~= orig.skip(before).reverse().push(orig[before - 1]));
        }
    }
    assert(orig.skip(0) =~= orig);
    r
}

impl<T> MostlyOneVec<T> {
    pub fn len(&self) -> (r: usize)
        ensures
            r == self@.len(),
    {
        match self {
            MostlyOneVec::Zero => 0,
            MostlyOneVec::One(_) => 1,
            MostlyOneVec::More(vec) => vec.len(),
        }
    }

    pub fn is_empty(&self) -> (r: bool)
        ensures
            r <==> self@.len() == 0,
    {
        match self {
            MostlyOneVec::Zero => true,
            MostlyOneVec::One(_) => false,
            MostlyOneVec::More(v) => v.is_empty(),
        }
    }

    /// The item at `index`, which is within bounds.
    pub fn index(&self, index: usize) -> (r: &T)
        requires
            index < self@.len(),
        ensures
            *r == self@[index as int],
    {
        match self {
            MostlyOneVec::Zero => {
                vstd::pervasive::unreached()
            },
            MostlyOneVec::One(i) => i,
            MostlyOneVec::More(vec) => &vec[index],
        }
    }

    /// The item at `index`, for writing.
    pub fn index_mut(&mut self, index: usize) -> (r: &mut T)
        requires
            index < old(self)@.len(),
        ensures
            *r == old(self)@[index as int],
            final(self)@ == old(self)@.update(index as int, *final(r)),
    {
        match self {
            MostlyOneVec::Zero => vstd::pervasive::unreached(),
            MostlyOneVec::One(i) => i,
            MostlyOneVec::More(vec) => &mut vec[index],
        }
    }

    pub fn set(&mut self, index: usize, item: T)
        requires
            index < old(self)@.len(),
        ensures
            final(self)@ == old(self)@.update(index as int, item),
    {
        match self {
            MostlyOneVec::Zero => {},
            MostlyOneVec::One(i) => {
                *i = item;
                assert(seq![item] =~= old(self)@.update(0, item));
            },
            MostlyOneVec::More(vec) => {
                vec.set(index, item);
            },
        }
    }

    pub fn truncate(&mut self, len: usize)
        ensures
            len < old(self)@.len() ==> final(self)@ == old(self)@.take(len as int),
            len >= old(self)@.len() ==> final(self)@ == old(self)@,
            *old(self) is Zero ==> *final(self) is Zero,
            *old(self) is One && len == 0 ==> *final(self) is Zero,
            *old(self) is One && len > 0 ==> *final(self) is One,
            *old(self) is More ==> *final(self) is More,
    {
        match self {
            MostlyOneVec::One(_) => {
                if len == 0 {
                    *self = MostlyOneVec::Zero;
                }
            },
            MostlyOneVec::More(v) => {
                v.truncate(len);
            },
            MostlyOneVec::Zero => {},
        }
    }

    pub fn push(&mut self, item: T)
        ensures
            final(self)@ == old(self)@.push(item),
            *old(self) is Zero ==> *final(self) is One,
            *old(self) !is Zero ==> *final(self) is More,
    {
        let mut self_ = MostlyOneVec::Zero;
        std::mem::swap(self, &mut self_);
        match self_ {
            MostlyOneVec::Zero => *self = MostlyOneVec::One(item),
            MostlyOneVec::One(i) => {
                let mut v = Vec::new();
                v.push(i);
                v.push(item);
                *self = MostlyOneVec::More(v);
            },
            MostlyOneVec::More(mut v) => {
                v.push(item);
                *self = MostlyOneVec::More(v);
            },
        }
    }

    /// Inserts `item` before position `index`; `index` is not past the end.
    pub fn insert(&mut self, index: usize, item: T)
        requires
            index <= old(self)@.len(),
        ensures
            final(self)@ == old(self)@.insert(index as int, item),
            *old(self) is Zero ==> *final(self) is One,
            *old(self) !is Zero ==> *final(self) is More,
    {
        let mut self_ = MostlyOneVec::Zero;
        std::mem::swap(self, &mut self_);
        match self_ {
            MostlyOneVec::Zero => {
                *self = MostlyOneVec::One(item);
                assert(seq![item] =~= Seq::<T>::empty().insert(0, item));
            },
            MostlyOneVec::One(i) => {
                let mut v = Vec::new();
                if index == 0 {
                    v.push(item);
                    v.push(i);
                    assert(seq![item, i] =~= seq![i].insert(0, item));
                } else {
                    v.push(i);
                    v.push(item);
                    assert(seq![i, item] =~= seq![i].insert(1, item));
                }
                *self = MostlyOneVec::More(v);
            },
            MostlyOneVec::More(mut v) => {
                v.insert(index, item);
                *self = MostlyOneVec::More(v);
            },
        }
    }

    pub fn with_capacity(cap: usize) -> (r: Self)
        ensures
            r@ == Seq::<T>::empty(),
            cap < 2 ==> r is Zero,
            cap >= 2 ==> r is More,
    {
        if cap < 2 {
            MostlyOneVec::Zero
        } else {
            MostlyOneVec::More(Vec::with_capacity(cap))
        }
    }

    /// Removes the item at `index`, moving the last item into its place.
    pub fn swap_remove(&mut self, index: usize) -> (r: T)
        requires
            index < old(self)@.len(),
        ensures
            r == old(self)@[index as int],
            final(self)@ == old(self)@.update(index as int, old(self)@.last()).drop_last(),
            *old(self) is One ==> *final(self) is Zero,
            *old(self) is More ==> *final(self) is More,
    {
        let mut self_ = MostlyOneVec::Zero;
        std::mem::swap(self, &mut self_);
        match self_ {
            MostlyOneVec::One(i) => {
                assert(seq![i].update(0, i).drop_last() =~= Seq::<T>::empty());
                i
            },
            MostlyOneVec::Zero => {
                vstd::pervasive::unreached()
            },
            MostlyOneVec::More(mut v) => {
                let to_return = v.swap_remove(index);
                *self = MostlyOneVec::More(v);
                to_return
            },
        }
    }

    pub fn get(&self, index: usize) -> (r: Option<&T>)
        ensures
            index < self@.len() ==> r == Some(&self@[index as int]),
            index >= self@.len() ==> r is None,
    {
        match self {
            MostlyOneVec::One(i) => {
                if index == 0 {
                    Some(i)
                } else {
                    None
                }
            },
            MostlyOneVec::Zero => None,
            MostlyOneVec::More(v) => {
                if index < v.len() {
                    Some(&v[index])
                } else {
                    None
                }
            },
        }
    }

    pub fn last(&self) -> (r: Option<&T>)
        ensures
            self@.len() > 0 ==> r == Some(&self@.last()),
            self@.len() == 0 ==> r is None,
    {
        match self {
            MostlyOneVec::Zero => None,
            MostlyOneVec::One(i) => Some(i),
            MostlyOneVec::More(v) => {
                if v.len() > 0 {
                    Some(&v[v.len() - 1])
                } else {
                    None
                }
            },
        }
    }

    /// Makes room for `size` more items; the items are unchanged. No items
    /// and room for more than one, or one item and room for any more, turn
    /// into the `More` form; otherwise the form stays.
    pub fn reserve(&mut self, size: usize)
        ensures
            final(self)@ == old(self)@,
            *old(self) is Zero && size > 1 ==> *final(self) is More,
            *old(self) is Zero && size <= 1 ==> *final(self) is Zero,
            *old(self) is One && size > 0 ==> *final(self) is More,
            *old(self) is One && size == 0 ==> *final(self) is One,
            *old(self) is More ==> *final(self) is More,
    {
        let mut self_ = MostlyOneVec::Zero;
        std::mem::swap(self, &mut self_);
        match self_ {
            MostlyOneVec::Zero => {
                if size > 1 {
                    *self = MostlyOneVec::More(Vec::with_capacity(size));
                }
            },
            MostlyOneVec::One(i) => {
                if size > 0 {
                    let mut vec = Vec::with_capacity(if size < usize::MAX { size + 1 } else { size });
                    vec.push(i);
                    *self = MostlyOneVec::More(vec);
                } else {
                    *self = MostlyOneVec::One(i);
                }
            },
            MostlyOneVec::More(mut v) => {
                v.reserve(size);
                *self = MostlyOneVec::More(v);
            },
        }
    }

    /// The first item, after storing `value` as the only item where there was
    /// none.
    pub fn first_or_insert(&mut self, value: T) -> (r: &T)
        ensures
            old(self)@.len() == 0 ==> final(self)@ == seq![value],
            old(self)@.len() > 0 ==> final(self)@ == old(self)@,
            *r == final(self)@[0],
    {
        if self.is_empty() {
            *self = MostlyOneVec::One(value);
        }
        self.index(0)
    }
}


impl<T> MostlyOneVec<T> {
    pub fn last_mut(&mut self) -> (r: Option<&mut T>)
        ensures
            old(self)@.len() == 0 ==> r is None && final(self)@ == old(self)@,
            old(self)@.len() > 0 ==> r is Some && *r.unwrap() == old(self)@.last()
                && final(self)@ == old(self)@.update(old(self)@.len() - 1, *final(r.unwrap())),
    {
        match self {
            MostlyOneVec::Zero => None,
            MostlyOneVec::One(i) => Some(i),
            MostlyOneVec::More(v) => {
                let n = v.len();
                if n > 0 {
                    Some(&mut v[n - 1])
                } else {
                    None
                }
            },
        }
    }

    /// Like `first_or_insert`, handing out the first item for writing.
    pub fn first_or_insert_mut(&mut self, value: T) -> (r: &mut T)
        ensures
            old(self)@.len() == 0 ==> *r == value && final(self)@ == seq![*final(r)],
            old(self)@.len() > 0 ==> *r == old(self)@[0]
                && final(self)@ == old(self)@.update(0, *final(r)),
    {
        if self.is_empty() {
            *self = MostlyOneVec::One(value);
        }
        match self {
            MostlyOneVec::Zero => vstd::pervasive::unreached(),
            MostlyOneVec::One(i) => i,
            MostlyOneVec::More(v) => &mut v[0],
        }
    }

    /// A new vector holding `f` applied to each item, in order.
    pub fn map<U, F: Fn(&T) -> U>(&self, f: F) -> (r: MostlyOneVec<U>)
        requires
            forall|i: int| #![trigger self@[i]] 0 <= i < self@.len() ==> call_requires(f, (&self@[i],)),
        ensures
            r@.len() == self@.len(),
            forall|i: int| 0 <= i < self@.len() ==> call_ensures(f, (&self@[i],), #[trigger] r@[i]),
            self is Zero ==> r is Zero,
            self is One ==> r is One,
            self is More ==> r is More,
    {
        match self {
            MostlyOneVec::Zero => MostlyOneVec::Zero,
            MostlyOneVec::One(i) => {
                assert(self@[0] == *i);
                MostlyOneVec::One(f(i))
            },
            MostlyOneVec::More(v) => {
                assert(v@ == self@);
                let mut out: Vec<U> = Vec::with_capacity(v.len());
                let mut k: usize = 0;
                while k < v.len()
                    invariant
                        k <= v@.len(),
                        out@.len() == k,
                        forall|i: int| 0 <= i < v@.len() ==> call_requires(f, (&v@[i],)),
                        forall|i: int| 0 <= i < k ==> call_ensures(f, (&v@[i],), #[trigger] out@[i]),
                    decreases v@.len() - k,
                {
                    let u = f(&v[k]);
                    out.push(u);
                    k = k + 1;
                }
                MostlyOneVec::More(out)
            },
        }
    }

    /// Consumes the vector, applying `f` to each item in order.
    pub fn into_map<U, F: Fn(T) -> U>(self, f: F) -> (r: MostlyOneVec<U>)
        requires
            forall|i: int| #![trigger self@[i]] 0 <= i < self@.len() ==> call_requires(f, (self@[i],)),
        ensures
            r@.len() == self@.len(),
            forall|i: int| 0 <= i < self@.len() ==> call_ensures(f, (self@[i],), #[trigger] r@[i]),
            self is Zero ==> r is Zero,
            self is One ==> r is One,
            self is More ==> r is More,
    {
        let ghost s = self@;
        match self {
            MostlyOneVec::Zero => MostlyOneVec::Zero,
            MostlyOneVec::One(i) => {
                assert(s[0] == i);
                MostlyOneVec::One(f(i))
            },
            MostlyOneVec::More(v) => {
                let ghost orig = v@;
                assert(orig == s);
                let mut rest = reversed(v);
                let mut out: Vec<U> = Vec::new();
                while rest.len() > 0
                    invariant
                        out@.len() + rest@.len() == orig.len(),
                        rest@ == orig.skip(out@.len() as int).reverse(),
                        forall|i: int| 0 <= i < orig.len() ==> call_requires(f, (orig[i],)),
                        forall|i: int| 0 <= i < out@.len() ==> call_ensures(f, (orig[i],), #[trigger] out@[i]),
                    decreases rest@.len(),
                {
                    let ghost k = out@.len() as int;
                    let x = rest.pop().unwrap();
                    assert(x == orig[k]);
                    let u = f(x);
                    out.push(u);
                    assert(orig.skip(k + 1).reverse() =~= orig.skip(k).reverse().drop_last());
                }
                MostlyOneVec::More(out)
            },
        }
    }

    /// Consumes the vector, applying `f` to each item together with its
    /// position.
    pub fn into_map_enumerate<U, F: Fn((usize, T)) -> U>(self, f: F) -> (r: MostlyOneVec<U>)
        requires
            forall|i: int| #![trigger self@[i]] 0 <= i < self@.len() ==> call_requires(f, ((i as usize, self@[i]),)),
        ensures
            r@.len() == self@.len(),
            forall|i: int| #![trigger r@[i]] 0 <= i < self@.len() ==> call_ensures(f, ((i as usize, self@[i]),), r@[i]),
            self is Zero ==> r is Zero,
            self is One ==> r is One,
            self is More ==> r is More,
    {
        let ghost s = self@;
        match self {
            MostlyOneVec::Zero => MostlyOneVec::Zero,
            MostlyOneVec::One(i) => {
                assert(s[0] == i);
                MostlyOneVec::One(f((0, i)))
            },
            MostlyOneVec::More(v) => {
                let ghost orig = v@;
                assert(orig == s);
                let mut rest = reversed(v);
                let mut out: Vec<U> = Vec::new();
                while rest.len() > 0
                    invariant
                        out@.len() + rest@.len() == orig.len(),
                        rest@ == orig.skip(out@.len() as int).reverse(),
                        forall|i: int| #![trigger orig[i]] 0 <= i < orig.len() ==> call_requires(f, ((i as usize, orig[i]),)),
                        forall|i: int| #![trigger out@[i]] 0 <= i < out@.len() ==> call_ensures(f, ((i as usize, orig[i]),), out@[i]),
                    decreases rest@.len(),
                {
                    let ghost k = out@.len() as int;
                    let idx = out.len();
                    let x = rest.pop().unwrap();
                    assert(x == orig[k]);
                    let u = f((idx, x));
                    out.push(u);
                    assert(orig.skip(k + 1).reverse() =~= orig.skip(k).reverse().drop_last());
                }
                MostlyOneVec::More(out)
            },
        }
    }

    /// Grows or shrinks the vector to `new_len` items, filling with the results
    /// of `f`. The result is always the `More` form; a single item asked to
    /// shrink to nothing is kept.
    pub fn resize_with<F: Fn() -> T>(&mut self, new_len: usize, f: F)
        requires
            call_requires(f, ()),
        ensures
            *final(self) is More,
            final(self)@.len() == (if *old(self) is One && new_len == 0 { 1 } else { new_len as int }),
            forall|i: int| 0 <= i < final(self)@.len() && i < old(self)@.len() ==> #[trigger] final(self)@[i] == old(self)@[i],
            forall|i: int| old(self)@.len() <= i < final(self)@.len() ==> call_ensures(f, (), #[trigger] final(self)@[i]),
    {
        let mut self_ = MostlyOneVec::Zero;
        std::mem::swap(self, &mut self_);
        let ghost old_seq = self_@;
        let mut v: Vec<T> = match self_ {
            MostlyOneVec::Zero => Vec::with_capacity(new_len),
            MostlyOneVec::One(i) => {
                let mut v = Vec::with_capacity(new_len);
                v.push(i);
                v
            },
            MostlyOneVec::More(mut v) => {
                v.truncate(new_len);
                v
            },
        };
        let ghost start = v@.len();
        assert(forall|i: int| 0 <= i < start ==> v@[i] == old_seq[i]);
        while v.len() < new_len
            invariant
                start <= v@.len(),
                start <= old_seq.len(),
                start == old_seq.len() || start == new_len,
                v@.len() <= new_len || v@.len() == start,
                call_requires(f, ()),
                forall|i: int| 0 <= i < start ==> v@[i] == old_seq[i],
                forall|i: int| start <= i < v@.len() ==> call_ensures(f, (), #[trigger] v@[i]),
            decreases new_len - v@.len(),
        {
            let x = f();
            v.push(x);
        }
        *self = MostlyOneVec::More(v);
    }

    /// Consumes `self`, pairing its items with those of `other` and applying
    /// `f`; the two must have the same form (none, one, or many).
    pub fn zip_same_size_and_map<U, V, F: Fn((T, &U)) -> V>(self, other: &MostlyOneVec<U>, f: F) -> (r: MostlyOneVec<V>)
        requires
            (self is Zero && other is Zero) || (self is One && other is One) || (self is More && other is More),
            forall|i: int| #![trigger self@[i]] 0 <= i < self@.len() && i < other@.len() ==> call_requires(f, ((self@[i], &other@[i]),)),
        ensures
            r@.len() == if self@.len() < other@.len() { self@.len() } else { other@.len() },
            forall|i: int| 0 <= i < r@.len() ==> call_ensures(f, ((self@[i], &other@[i]),), #[trigger] r@[i]),
    {
        let ghost s = self@;
        match (self, other) {
            (MostlyOneVec::Zero, MostlyOneVec::Zero) => MostlyOneVec::Zero,
            (MostlyOneVec::One(i), MostlyOneVec::One(j)) => {
                assert(s[0] == i && other@[0] == *j);
                MostlyOneVec::One(f((i, j)))
            },
            (MostlyOneVec::More(v1), MostlyOneVec::More(v2)) => {
                let ghost orig = v1@;
                assert(orig == s && v2@ == other@);
                let mut rest = reversed(v1);
                let mut out: Vec<V> = Vec::new();
                while rest.len() > 0 && out.len() < v2.len()
                    invariant
                        out@.len() + rest@.len() == orig.len(),
                        out@.len() <= v2@.len(),
                        rest@ == orig.skip(out@.len() as int).reverse(),
                        forall|i: int| 0 <= i < orig.len() && i < v2@.len() ==> call_requires(f, ((orig[i], &v2@[i]),)),
                        forall|i: int| 0 <= i < out@.len() ==> call_ensures(f, ((orig[i], &v2@[i]),), #[trigger] out@[i]),
                    decreases rest@.len(),
                {
                    let ghost k = out@.len() as int;
                    let idx = out.len();
                    let x = rest.pop().unwrap();
                    assert(x == orig[k]);
                    let u = f((x, &v2[idx]));
                    out.push(u);
                    assert(orig.skip(k + 1).reverse() =~= orig.skip(k).reverse().drop_last());
                }
                MostlyOneVec::More(out)
            },
            _ => vstd::pervasive::unreached(),
        }
    }
}


/// A cursor over the items of a [`MostlyOneVec`], front to back.
pub enum Iter<'a, T> {
    Zero,
    One(&'a T),
    More(&'a [T]),
}

impl<'a, T> View for Iter<'a, T> {
    type V = Seq<T>;

    /// The items not yet handed out.
    open spec fn view(&self) -> Seq<T> {
        match self {
            Iter::Zero => Seq::empty(),
            Iter::One(i) => seq![**i],
            Iter::More(s) => s@,
        }
    }
}

impl<'a, T> Iter<'a, T> {
    pub fn next(&mut self) -> (r: Option<&'a T>)
        ensures
            old(self)@.len() == 0 ==> r is None && final(self)@.len() == 0,
            old(self)@.len() > 0 ==> r == Some(&old(self)@[0]) && final(self)@ == old(self)@.drop_first(),
    {
        let mut self_ = Iter::Zero;
        std::mem::swap(self, &mut self_);
        match self_ {
            Iter::Zero => None,
            Iter::One(i) => Some(i),
            Iter::More(s) => {
                if s.len() == 0 {
                    None
                } else {
                    let (head, tail) = s.split_at(1);
                    *self = Iter::More(tail);
                    assert(tail@ =~= old(self)@.drop_first());
                    Some(&head[0])
                }
            },
        }
    }

    pub fn next_back(&mut self) -> (r: Option<&'a T>)
        ensures
            old(self)@.len() == 0 ==> r is None && final(self)@.len() == 0,
            old(self)@.len() > 0 ==> r == Some(&old(self)@.last()) && final(self)@ == old(self)@.drop_last(),
    {
        let mut self_ = Iter::Zero;
        std::mem::swap(self, &mut self_);
        match self_ {
            Iter::Zero => None,
            Iter::One(i) => Some(i),
            Iter::More(s) => {
                let n = s.len();
                if n == 0 {
                    None
                } else {
                    let (head, tail) = s.split_at(n - 1);
                    *self = Iter::More(head);
                    assert(head@ =~= old(self)@.drop_last());
                    Some(&tail[0])
                }
            },
        }
    }

    /// The exact number of items left, as both bounds.
    pub fn size_hint(&self) -> (r: (usize, Option<usize>))
        ensures
            r.0 == self@.len(),
            r.1 == Some(r.0),
    {
        let len = match self {
            Iter::Zero => 0,
            Iter::One(_) => 1,
            Iter::More(s) => s.len(),
        };
        (len, Some(len))
    }
}

/// A cursor that hands out the items of a consumed [`MostlyOneVec`] in order;
/// the `More` form keeps the items left in reverse order.
pub enum IntoIter<T> {
    Zero,
    One(T),
    More(Vec<T>),
}

impl<T> View for IntoIter<T> {
    type V = Seq<T>;

    open spec fn view(&self) -> Seq<T> {
        match self {
            IntoIter::Zero => Seq::empty(),
            IntoIter::One(i) => seq![*i],
            IntoIter::More(v) => v@.reverse(),
        }
    }
}

impl<T> IntoIter<T> {
    pub fn next(&mut self) -> (r: Option<T>)
        ensures
            old(self)@.len() == 0 ==> r is None && final(self)@.len() == 0,
            old(self)@.len() > 0 ==> r == Some(old(self)@[0]) && final(self)@ == old(self)@.drop_first(),
    {
        let mut self_ = IntoIter::Zero;
        std::mem::swap(self, &mut self_);
        match self_ {
            IntoIter::Zero => None,
            IntoIter::One(i) => Some(i),
            IntoIter::More(mut v) => {
                let ghost before = v@;
                let r = v.pop();
                proof {
                    if before.len() > 0 {
                        assert(v@.reverse() =~= before.reverse().drop_first());
                        assert(before.reverse()[0] == before.last());
                    }
                }
                *self = IntoIter::More(v);
                r
            },
        }
    }

    /// The exact number of items left, as both bounds.
    pub fn size_hint(&self) -> (r: (usize, Option<usize>))
        ensures
            r.0 == self@.len(),
            r.1 == Some(r.0),
    {
        let len = match self {
            IntoIter::Zero => 0,
            IntoIter::One(_) => 1,
            IntoIter::More(v) => v.len(),
        };
        (len, Some(len))
    }
}

impl<T> MostlyOneVec<T> {
    pub fn iter(&self) -> (r: Iter<'_, T>)
        ensures
            r@ == self@,
    {
        match self {
            MostlyOneVec::Zero => Iter::Zero,
            MostlyOneVec::One(i) => Iter::One(i),
            MostlyOneVec::More(v) => Iter::More(v.as_slice()),
        }
    }

    pub fn into_iter(self) -> (r: IntoIter<T>)
        ensures
            r@ == self@,
    {
        match self {
            MostlyOneVec::Zero => IntoIter::Zero,
            MostlyOneVec::One(i) => IntoIter::One(i),
            MostlyOneVec::More(v) => {
                let r = reversed(v);
                assert(r@.reverse() =~= v@);
                IntoIter::More(r)
            },
        }
    }

    /// Collects the items of `v`: no item gives the `Zero` form, one the
    /// `One` form, more the `More` form.
    pub fn from_iter(v: Vec<T>) -> (r: Self)
        ensures
            r@ == v@,
            v@.len() == 0 ==> r is Zero,
            v@.len() == 1 ==> r is One,
            v@.len() >= 2 ==> r is More,
    {
        let mut v = v;
        if v.len() == 0 {
            MostlyOneVec::Zero
        } else if v.len() == 1 {
            let x = v.pop().unwrap();
            MostlyOneVec::One(x)
        } else {
            MostlyOneVec::More(v)
        }
    }

    /// Wraps a vector; it keeps the `More` form whatever its length.
    pub fn from(value: Vec<T>) -> (r: Self)
        ensures
            r@ == value@,
            r is More,
    {
        MostlyOneVec::More(value)
    }
}

} // verus!
