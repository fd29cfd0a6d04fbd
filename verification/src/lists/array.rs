use vstd::prelude::*;
use vstd::pervasive::VecAdditionalExecFns;
use vstd::std_specs::cmp::PartialEqSpec;
use crate::error::Error;

verus! {

/// Number of slots an array created by `Array::new` starts with.
pub const DEFAULT_CAP: usize = 5;

/// Capacity after one growth step: a buffer of no slots gains one,
/// any other buffer doubles.
pub open spec fn grow_cap(c: nat) -> nat {
    if c == 0 {
        1
    } else {
        2 * c
    }
}

/// The slot contents after moving `count` slots starting at `src` onto the
/// slots starting at `dest`, where a moved-from slot that was not moved onto
/// is left vacant.
spec fn copied<T>(s: Seq<Option<T>>, src: int, dest: int, count: int) -> Seq<Option<T>> {
    Seq::new(
        s.len(),
        |j: int|
            if dest <= j < dest + count {
                s[src + (j - dest)]
            } else if src <= j < src + count {
                None
            } else {
                s[j]
            },
    )
}

/// Backing buffer of an `Array`: it owns one slot per unit of capacity, each
/// slot either holding a live element (`Some`) or standing uninitialized
/// (`None`).
struct RawArray<T> {
    slots: Vec<Option<T>>,
}

impl<T> RawArray<T> {
    /// A buffer of capacity zero, owning no slots.
    #[allow(dead_code)]
    fn new() -> (r: Self)
        requires
            vstd::layout::size_of::<T>() != 0,
        ensures
            r.slots@.len() == 0,
    {
        RawArray { slots: Vec::new() }
    }

    /// A buffer of exactly `cap` slots, all uninitialized.
    fn with_capacity(cap: usize) -> (r: Self)
        ensures
            r.slots@.len() == cap,
            forall|i: int| 0 <= i < cap ==> r.slots@[i] is None,
    {
        let mut slots: Vec<Option<T>> = Vec::new();
        let mut i: usize = 0;
        while i < cap
            invariant
                i <= cap,
                slots@.len() == i,
                forall|j: int| 0 <= j < i ==> slots@[j] is None,
            decreases cap - i,
        {
            slots.push(None);
            i += 1;
        }
        RawArray { slots }
    }

    /// Number of slots currently allocated.
    fn capacity(&self) -> (r: usize)
        ensures
            r == self.slots@.len(),
    {
        self.slots.len()
    }

    /// One growth step: a buffer of no slots gains one, any other buffer
    /// doubles its slot count. Existing slots keep their contents and every
    /// new slot starts uninitialized.
    fn grow(&mut self)
        requires
            old(self).slots@.len() * 2 <= usize::MAX,
        ensures
            final(self).slots@.len() == grow_cap(old(self).slots@.len()),
            forall|i: int|
                0 <= i < old(self).slots@.len() ==> final(self).slots@[i] == old(self).slots@[i],
            forall|i: int|
                old(self).slots@.len() <= i < final(self).slots@.len()
                    ==> final(self).slots@[i] is None,
    {
        let cur: usize = self.slots.len();
        let target: usize = if cur == 0 {
            1
        } else {
            cur * 2
        };
        while self.slots.len() < target
            invariant
                old(self).slots@.len() <= self.slots@.len() <= target,
                target == grow_cap(old(self).slots@.len()),
                forall|i: int|
                    0 <= i < old(self).slots@.len()
                        ==> self.slots@[i] == old(self).slots@[i],
                forall|i: int|
                    old(self).slots@.len() <= i < self.slots@.len()
                        ==> self.slots@[i] is None,
            decreases target - self.slots@.len(),
        {
            self.slots.push(None);
        }
    }

    /// Moves the element out of slot `offset`, leaving the slot uninitialized.
    fn read(&mut self, offset: usize) -> (r: T)
        requires
            offset < old(self).slots@.len(),
            old(self).slots@[offset as int] is Some,
        ensures
            old(self).slots@[offset as int] == Some(r),
            final(self).slots@ == old(self).slots@.update(offset as int, None::<T>),
    {
        let mut taken: Option<T> = None;
        self.slots.set_and_swap(offset, &mut taken);
        taken.unwrap()
    }

    /// Moves `ele` into the uninitialized slot `offset`.
    fn write(&mut self, offset: usize, ele: T)
        requires
            offset < old(self).slots@.len(),
            old(self).slots@[offset as int] is None,
        ensures
            final(self).slots@ == old(self).slots@.update(offset as int, Some(ele)),
    {
        self.slots.set(offset, Some(ele));
    }

    /// Moves `count` slots starting at `src_offset` onto the slots starting
    /// at `dest_offset`; the two ranges may overlap.
    fn copy(&mut self, src_offset: usize, dest_offset: usize, count: usize)
        requires
            src_offset + count <= old(self).slots@.len(),
            dest_offset + count <= old(self).slots@.len(),
        ensures
            final(self).slots@ == copied(
                old(self).slots@,
                src_offset as int,
                dest_offset as int,
                count as int,
            ),
    {
        let ghost s0 = self.slots@;
        let len: usize = self.slots.len();
        if dest_offset <= src_offset {
            let mut k: usize = 0;
            while k < count
                invariant
                    k <= count,
                    dest_offset <= src_offset,
                    src_offset + count <= s0.len(),
                    dest_offset + count <= s0.len(),
                    s0.len() == len,
                    self.slots@ == Seq::new(
                        s0.len(),
                        |j: int|
                            if dest_offset <= j < dest_offset + k {
                                s0[src_offset + (j - dest_offset)]
                            } else if src_offset <= j < src_offset + k {
                                None::<T>
                            } else {
                                s0[j]
                            },
                    ),
                decreases count - k,
            {
                let mut taken: Option<T> = None;
                self.slots.set_and_swap(src_offset + k, &mut taken);
                self.slots.set(dest_offset + k, taken);
                proof {
                    let knext = k + 1;
                    assert(self.slots@ =~= Seq::new(
                        s0.len(),
                        |j: int|
                            if dest_offset <= j < dest_offset + knext {
                                s0[src_offset + (j - dest_offset)]
                            } else if src_offset <= j < src_offset + knext {
                                None::<T>
                            } else {
                                s0[j]
                            },
                    ));
                }
                k += 1;
            }
            proof {
                assert(self.slots@ =~= copied(
                    s0,
                    src_offset as int,
                    dest_offset as int,
                    count as int,
                ));
            }
        } else {
            let mut k: usize = count;
            while k > 0
                invariant
                    k <= count,
                    dest_offset > src_offset,
                    src_offset + count <= s0.len(),
                    dest_offset + count <= s0.len(),
                    s0.len() == len,
                    self.slots@ == Seq::new(
                        s0.len(),
                        |j: int|
                            if dest_offset + k <= j < dest_offset + count {
                                s0[src_offset + (j - dest_offset)]
                            } else if src_offset + k <= j < src_offset + count {
                                None::<T>
                            } else {
                                s0[j]
                            },
                    ),
                decreases k,
            {
                k -= 1;
                let mut taken: Option<T> = None;
                self.slots.set_and_swap(src_offset + k, &mut taken);
                self.slots.set(dest_offset + k, taken);
                proof {
                    assert(self.slots@ =~= Seq::new(
                        s0.len(),
                        |j: int|
                            if dest_offset + k <= j < dest_offset + count {
                                s0[src_offset + (j - dest_offset)]
                            } else if src_offset + k <= j < src_offset + count {
                                None::<T>
                            } else {
                                s0[j]
                            },
                    ));
                }
            }
            proof {
                assert(self.slots@ =~= copied(
                    s0,
                    src_offset as int,
                    dest_offset as int,
                    count as int,
                ));
            }
        }
    }
}

/// A growable, contiguous sequence container: one backing buffer of
/// `capacity` slots, of which the first `size` hold the live elements.
pub struct Array<T> {
    buf: RawArray<T>,
    size: usize,
}

impl<T> View for Array<T> {
    type V = Seq<T>;

    /// The logical contents: the live elements, in order.
    closed spec fn view(&self) -> Seq<T> {
        Seq::new(self.size as nat, |i: int| self.buf.slots@[i]->0)
    }
}

impl<T> Array<T> {
    /// Number of slots the backing buffer currently holds.
    pub closed spec fn spec_cap(&self) -> nat {
        self.buf.slots@.len()
    }

    /// Structural soundness: the live elements never outnumber the slots,
    /// the first `size` slots are initialized, and the remaining slots are
    /// uninitialized.
    pub closed spec fn wf(&self) -> bool {
        &&& self.size <= self.buf.slots@.len()
        &&& forall|i: int| 0 <= i < self.size ==> self.buf.slots@[i] is Some
        &&& forall|i: int|
            self.size <= i < self.buf.slots@.len() ==> self.buf.slots@[i] is None
    }

    /// An empty array backed by `DEFAULT_CAP` slots.
    pub fn new() -> (r: Self)
        ensures
            r.wf(),
            r@ == Seq::<T>::empty(),
            r.spec_cap() == DEFAULT_CAP,
    {
        let r = Array { buf: RawArray::with_capacity(DEFAULT_CAP), size: 0 };
        proof {
            assert(r@ =~= Seq::<T>::empty());
        }
        r
    }

    /// An empty array backed by exactly `cap` slots.
    pub fn with_capacity(cap: usize) -> (r: Self)
        ensures
            r.wf(),
            r@ == Seq::<T>::empty(),
            r.spec_cap() == cap,
    {
        let r = Array { buf: RawArray::with_capacity(cap), size: 0 };
        proof {
            assert(r@ =~= Seq::<T>::empty());
        }
        r
    }

    /// Whether no element is stored.
    pub fn is_empty(&self) -> (r: bool)
        ensures
            r == (self@.len() == 0),
    {
        self.size == 0
    }

    /// Number of live elements.
    pub fn len(&self) -> (r: usize)
        ensures
            r == self@.len(),
    {
        self.size
    }

    /// Number of slots currently allocated.
    pub fn cap(&self) -> (r: usize)
        ensures
            r == self.spec_cap(),
    {
        self.buf.capacity()
    }

    /// The element at `index`, or `None` for every index at or past the
    /// current length.
    pub fn get(&self, index: usize) -> (r: Option<&T>)
        requires
            self.wf(),
        ensures
            index < self@.len() ==> (r matches Some(v) && *v == self@[index as int]),
            index >= self@.len() ==> r is None,
    {
        if index >= self.size {
            return None;
        }
        self.buf.slots[index].as_ref()
    }

    /// An exclusive borrow of the element at `index`, or `None` for every
    /// index at or past the current length. The array afterwards holds
    /// whatever the caller left behind the borrow, at the same index.
    pub fn get_mut(&mut self, index: usize) -> (r: Option<&mut T>)
        requires
            old(self).wf(),
        ensures
            index >= old(self)@.len() ==> r is None && *final(self) == *old(self),
            index < old(self)@.len() ==> {
                &&& r is Some
                &&& *r.unwrap() == old(self)@[index as int]
                &&& final(self)@.len() == old(self)@.len()
                &&& final(self)@[index as int] == *final(r.unwrap())
                &&& forall|j: int|
                    0 <= j < old(self)@.len() && j != index ==> final(self)@[j] == old(self)@[j]
                &&& final(self).wf()
                &&& final(self).spec_cap() == old(self).spec_cap()
            },
    {
        if index >= self.size {
            return None;
        }
        let slot: &mut Option<T> = &mut self.buf.slots[index];
        slot.as_mut()
    }

    /// Appends `ele` after the last live element, first growing the buffer
    /// by one step when it is full.
    pub fn append(&mut self, ele: T)
        requires
            old(self).wf(),
            vstd::layout::size_of::<T>() != 0,
            old(self)@.len() == old(self).spec_cap() ==> old(self).spec_cap() * 2 <= usize::MAX,
        ensures
            final(self).wf(),
            final(self)@ == old(self)@.push(ele),
            final(self).spec_cap() == (if old(self)@.len() < old(self).spec_cap() {
                old(self).spec_cap()
            } else {
                grow_cap(old(self).spec_cap())
            }),
            old(self).spec_cap() <= final(self).spec_cap(),
    {
        if self.buf.capacity() == self.size {
            self.buf.grow();
        }
        self.buf.write(self.size, ele);
        self.size = self.size + 1;
        proof {
            assert(final(self)@ =~= old(self)@.push(ele));
        }
    }

    /// Removes and returns the last live element; `None` when the array is
    /// empty. The capacity never changes.
    pub fn pop(&mut self) -> (r: Option<T>)
        requires
            old(self).wf(),
        ensures
            final(self).wf(),
            final(self).spec_cap() == old(self).spec_cap(),
            old(self)@.len() == 0 ==> r is None && final(self)@ == old(self)@,
            old(self)@.len() > 0 ==> r == Some(old(self)@.last()) && final(self)@ == old(
                self,
            )@.drop_last(),
    {
        if self.size == 0 {
            return None;
        }
        self.size = self.size - 1;
        let ele = self.buf.read(self.size);
        proof {
            assert(final(self)@ =~= old(self)@.drop_last());
        }
        Some(ele)
    }

    /// Inserts `ele` at `index`, shifting the elements from `index` on one
    /// slot to the right; grows the buffer first when it is full. Accepted
    /// are `index == 0` on an empty array and every `index` strictly below
    /// the length; any other index is rejected with `IndexOfBounds`, so an
    /// append at the end must go through `append`.
    pub fn insert(&mut self, index: usize, ele: T) -> (r: Result<(), Error>)
        requires
            old(self).wf(),
            vstd::layout::size_of::<T>() != 0,
            old(self)@.len() == old(self).spec_cap() ==> old(self).spec_cap() * 2 <= usize::MAX,
        ensures
            final(self).wf(),
            old(self).spec_cap() <= final(self).spec_cap(),
            index == 0 && old(self)@.len() == 0 ==> r is Ok && final(self)@ == seq![ele],
            !(index == 0 && old(self)@.len() == 0) && index >= old(self)@.len() ==> {
                &&& r == Err::<(), Error>(Error::IndexOfBounds)
                &&& final(self)@ == old(self)@
                &&& final(self).spec_cap() == old(self).spec_cap()
            },
            index < old(self)@.len() ==> r is Ok && final(self)@ == old(self)@.insert(
                index as int,
                ele,
            ),
            r is Ok ==> final(self).spec_cap() == (if old(self)@.len() < old(self).spec_cap() {
                old(self).spec_cap()
            } else {
                grow_cap(old(self).spec_cap())
            }),
    {
        if index == 0 && self.size == 0 {
            if self.buf.capacity() == self.size {
                self.buf.grow();
            }
            self.buf.write(0, ele);
            self.size = 1;
            proof {
                assert(final(self)@ =~= seq![ele]);
            }
            return Ok(());
        }
        if index >= self.size {
            return Err(Error::IndexOfBounds);
        }
        if self.buf.capacity() == self.size {
            self.buf.grow();
        }
        self.buf.copy(index, index + 1, self.size - index);
        self.buf.write(index, ele);
        self.size = self.size + 1;
        proof {
            assert(final(self)@ =~= old(self)@.insert(index as int, ele));
        }
        Ok(())
    }

    /// Removes and returns the element at `index`, shifting the elements
    /// after it one slot to the left; every index at or past the length is
    /// rejected with `IndexOfBounds`. The capacity never changes.
    pub fn remove(&mut self, index: usize) -> (r: Result<T, Error>)
        requires
            old(self).wf(),
        ensures
            final(self).wf(),
            final(self).spec_cap() == old(self).spec_cap(),
            index >= old(self)@.len() ==> {
                &&& r == Err::<T, Error>(Error::IndexOfBounds)
                &&& final(self)@ == old(self)@
            },
            index < old(self)@.len() ==> {
                &&& r matches Ok(v) && v == old(self)@[index as int]
                &&& final(self)@ == old(self)@.remove(index as int)
            },
    {
        if index >= self.size {
            return Err(Error::IndexOfBounds);
        }
        self.size = self.size - 1;
        let ele = self.buf.read(index);
        self.buf.copy(index + 1, index, self.size - index);
        proof {
            assert(final(self)@ =~= old(self)@.remove(index as int));
        }
        Ok(ele)
    }
}

impl<T: Copy> Array<T> {
    /// The live elements `[0, len)` as one contiguous vector, for bulk
    /// iteration without touching the uninitialized slots.
    pub fn to_vec(&self) -> (r: Vec<T>)
        requires
            self.wf(),
        ensures
            r@ == self@,
    {
        let n: usize = self.len();
        let mut out: Vec<T> = Vec::new();
        let mut i: usize = 0;
        proof {
            assert(out@ =~= self@.take(0));
        }
        while i < n
            invariant
                i <= n,
                n == self@.len(),
                self.wf(),
                out@ == self@.take(i as int),
            decreases n - i,
        {
            if let Some(data) = self.get(i) {
                out.push(*data);
            }
            proof {
                assert(out@ =~= self@.take(i + 1));
            }
            i += 1;
        }
        proof {
            assert(out@ =~= self@);
        }
        out
    }
}

impl<T: Eq + PartialEq> Array<T> {
    /// The index of the first live element that compares equal to `ele`, or
    /// `None` when no element does. Whenever `T`'s equality obeys its
    /// specification this is the smallest matching index.
    pub fn find(&self, ele: &T) -> (r: Option<usize>)
        requires
            self.wf(),
        ensures
            T::obeys_eq_spec() ==> match r {
                Some(i) => {
                    &&& i < self@.len()
                    &&& ele.eq_spec(&self@[i as int])
                    &&& forall|j: int| 0 <= j < i ==> !ele.eq_spec(&self@[j])
                },
                None => forall|j: int| 0 <= j < self@.len() ==> !ele.eq_spec(&self@[j]),
            },
    {
        let n: usize = self.len();
        let mut i: usize = 0;
        while i < n
            invariant
                i <= n,
                n == self@.len(),
                self.wf(),
                T::obeys_eq_spec() ==> forall|j: int| 0 <= j < i ==> !ele.eq_spec(&self@[j]),
            decreases n - i,
        {
            if let Some(data) = self.get(i) {
                if ele == data {
                    return Some(i);
                }
            }
            i += 1;
        }
        None
    }

    /// Whether some live element compares equal to `ele`. Whenever `T`'s
    /// equality obeys its specification this is exact membership.
    pub fn contains(&self, ele: &T) -> (r: bool)
        requires
            self.wf(),
        ensures
            T::obeys_eq_spec() ==> r == exists|j: int|
                0 <= j < self@.len() && ele.eq_spec(&self@[j]),
    {
        let n: usize = self.len();
        let mut i: usize = 0;
        while i < n
            invariant
                i <= n,
                n == self@.len(),
                self.wf(),
                T::obeys_eq_spec() ==> forall|j: int| 0 <= j < i ==> !ele.eq_spec(&self@[j]),
            decreases n - i,
        {
            if let Some(data) = self.get(i) {
                if ele == data {
                    return true;
                }
            }
            i += 1;
        }
        false
    }
}

/// The logical contents after pushing the values of `vs`, in order, onto `s`.
pub open spec fn after_appends<T>(s: Seq<T>, vs: Seq<T>) -> Seq<T>
    decreases vs.len(),
{
    if vs.len() == 0 {
        s
    } else {
        after_appends(s.push(vs[0]), vs.skip(1))
    }
}

/// The logical contents after dropping the last element `j` times from `s`.
pub open spec fn after_pops<T>(s: Seq<T>, j: int) -> Seq<T>
    decreases j,
{
    if j <= 0 {
        s
    } else {
        after_pops(s, j - 1).drop_last()
    }
}

/// Law: appending the `k` values of `vs` to an empty array and then popping
/// `j <= k` times leaves exactly `k - j` elements, and the element at each
/// remaining index is still the value appended at that index. `append`
/// pushes onto the logical sequence and `pop` drops its last element, so
/// `after_appends` and `after_pops` are precisely the contents those
/// contracts produce.
pub proof fn lemma_append_then_pop<T>(vs: Seq<T>, j: int)
    requires
        0 <= j <= vs.len(),
    ensures
        after_pops(after_appends(Seq::<T>::empty(), vs), j).len() == vs.len() - j,
        forall|i: int|
            0 <= i < vs.len() - j ==> after_pops(after_appends(Seq::<T>::empty(), vs), j)[i]
                == vs[i],
{
    lemma_after_appends(Seq::<T>::empty(), vs);
    assert(after_appends(Seq::<T>::empty(), vs) =~= vs);
    lemma_after_pops(vs, j);
}

/// Pushing the values of `vs` onto `s` one at a time concatenates them.
pub proof fn lemma_after_appends<T>(s: Seq<T>, vs: Seq<T>)
    ensures
        after_appends(s, vs) == s + vs,
    decreases vs.len(),
{
    if vs.len() == 0 {
        assert(after_appends(s, vs) =~= s + vs);
    } else {
        lemma_after_appends(s.push(vs[0]), vs.skip(1));
        assert(s.push(vs[0]) + vs.skip(1) =~= s + vs);
    }
}

/// Dropping the last element `j` times truncates the last `j` elements.
pub proof fn lemma_after_pops<T>(s: Seq<T>, j: int)
    requires
        0 <= j <= s.len(),
    ensures
        after_pops(s, j).len() == s.len() - j,
        forall|i: int| 0 <= i < s.len() - j ==> after_pops(s, j)[i] == s[i],
    decreases j,
{
    if j > 0 {
        lemma_after_pops(s, j - 1);
    }
}

/// Law: inserting `v` at a position where `insert` succeeds and then
/// removing at that same position restores the logical sequence exactly.
/// `insert` turns the contents `s` into `s.insert(i, v)` (for the empty
/// case, into `seq![v]`, which equals `s.insert(0, v)`), and `remove` at
/// `i` then yields `s` again.
pub proof fn lemma_insert_then_remove<T>(s: Seq<T>, i: int, v: T)
    requires
        0 <= i <= s.len(),
    ensures
        s.insert(i, v).remove(i) == s,
{
    assert(s.insert(i, v).remove(i) =~= s);
}

/// Law: the capacity never falls below the number of live elements.
/// Together with the capacity clauses of `append`, `insert`, `remove`,
/// `pop` and `get_mut` — each of which ensures the new capacity is at
/// least the old one — the capacity is non-decreasing over an array's
/// lifetime and always at least its length.
pub proof fn lemma_len_le_cap<T>(arr: &Array<T>)
    requires
        arr.wf(),
    ensures
        arr@.len() <= arr.spec_cap(),
{
}

} // verus!
