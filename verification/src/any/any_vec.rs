use vstd::prelude::*;

use super::TypeInfo;

verus! {

proof fn lemma_row_bounds(i: int, n: int, size: int)
    requires
        0 <= i < n,
        0 <= size,
    ensures
        0 <= i * size,
        i * size + size <= n * size,
        (i + 1) * size == i * size + size,
{
    assert(0 <= i * size) by (nonlinear_arith)
        requires
            0 <= i,
            0 <= size,
    ;
    assert((i + 1) * size == i * size + size) by (nonlinear_arith);
    assert((i + 1) * size <= n * size) by (nonlinear_arith)
        requires
            i + 1 <= n,
            0 <= size,
    ;
}

/// The `i`th row of `size` bytes of `data`.
pub open spec fn row_of(data: Seq<u8>, size: nat, i: int) -> Seq<u8> {
    data.subrange(i * size, i * size + size)
}

/// The rows of `size` bytes that `data` holds, `n` of them.
pub open spec fn rows_of(data: Seq<u8>, size: nat, n: nat) -> Seq<Seq<u8>> {
    Seq::new(n, |i: int| row_of(data, size, i))
}

/// A vector of values of one type, each stored as the `size` bytes of its
/// representation, back to back in one buffer.
pub struct AnyVec {
    info: TypeInfo,
    len: usize,
    data: Vec<u8>,
}

impl View for AnyVec {
    type V = Seq<Seq<u8>>;

    closed spec fn view(&self) -> Seq<Seq<u8>> {
        rows_of(self.data@, self.info.spec_size() as nat, self.len as nat)
    }
}

impl AnyVec {
    /// The buffer holds exactly `len` rows.
    pub closed spec fn wf(&self) -> bool {
        &&& self.data@.len() == self.len * self.info.spec_size()
        &&& self.data@.len() <= usize::MAX
    }

    pub closed spec fn spec_info(&self) -> TypeInfo {
        self.info
    }

    /// Number of bytes the buffer holds.
    pub closed spec fn byte_len(&self) -> nat {
        self.data@.len()
    }

    /// Whether a vector of `info` can grow by one more row.
    pub open spec fn has_room(&self) -> bool {
        &&& self.byte_len() + self.spec_info().spec_size() <= usize::MAX
        &&& self@.len() < usize::MAX
    }

    /// An empty vector for values of type `T`.
    pub fn new<T: 'static>() -> (v: Self)
        ensures
            v.wf(),
            v@ == Seq::<Seq<u8>>::empty(),
            v.spec_info().spec_size() as nat == vstd::layout::size_of::<T>(),
            v.byte_len() == 0,
            v.has_room(),
    {
        Self::from_info(TypeInfo::of::<T>())
    }

    /// An empty vector for values described by `info`.
    pub fn from_info(info: TypeInfo) -> (v: Self)
        ensures
            v.wf(),
            v@ == Seq::<Seq<u8>>::empty(),
            v.spec_info() == info,
            v.byte_len() == 0,
    {
        let v = AnyVec { info, len: 0, data: Vec::new() };
        assert(v@ =~= Seq::<Seq<u8>>::empty());
        v
    }

    /// The type of the values.
    pub fn info(&self) -> (info: TypeInfo)
        ensures
            info == self.spec_info(),
    {
        self.info
    }

    /// Number of values held.
    pub fn len(&self) -> (n: usize)
        requires
            self.wf(),
        ensures
            n == self@.len(),
    {
        self.len
    }

    /// Whether values of `info` are the ones this vector holds.
    pub fn type_mismatch_check(&self, info: &TypeInfo) -> (matches: bool)
        ensures
            matches == (info.spec_id() == self.spec_info().spec_id()),
    {
        info.id() == self.info.id()
    }

    pub proof fn lemma_rows_len(&self)
        requires
            self.wf(),
        ensures
            forall|i: int| 0 <= i < self@.len() ==> #[trigger] self@[i].len() == self.spec_info().spec_size(),
    {
        assert forall|i: int| 0 <= i < self.len implies #[trigger] self@[i].len()
            == self.info.spec_size() by {
            lemma_row_bounds(i, self.len as int, self.info.spec_size() as int);
        }
    }

    /// Appends `value`, the bytes of one value of type `info`.
    pub fn push(&mut self, info: &TypeInfo, value: &[u8])
        requires
            old(self).wf(),
            info.spec_id() == old(self).spec_info().spec_id(),
            value@.len() == old(self).spec_info().spec_size(),
            old(self).has_room(),
        ensures
            final(self).wf(),
            final(self)@ == old(self)@.push(value@),
            final(self).spec_info() == old(self).spec_info(),
            final(self).byte_len() == old(self).byte_len() + old(self).spec_info().spec_size(),
    {
        self.push_data(value);
    }

    /// Appends the row `value` without a type check.
    pub fn push_data(&mut self, value: &[u8])
        requires
            old(self).wf(),
            value@.len() == old(self).spec_info().spec_size(),
            old(self).has_room(),
        ensures
            final(self).wf(),
            final(self)@ == old(self)@.push(value@),
            final(self).spec_info() == old(self).spec_info(),
            final(self).byte_len() == old(self).byte_len() + old(self).spec_info().spec_size(),
    {
        let ghost old_data = self.data@;
        let ghost size = self.info.spec_size() as int;
        let ghost n = self.len as int;
        let mut i: usize = 0;
        while i < value.len()
            invariant
                0 <= i <= value@.len(),
                self.data@ == old_data + value@.subrange(0, i as int),
                self.len == n,
                self.info == old(self).info,
                old_data.len() == n * size,
                value@.len() == size,
                old_data.len() + size <= usize::MAX,
            decreases value@.len() - i,
        {
            self.data.push(value[i]);
            i = i + 1;
        }
        assert(value@.subrange(0, i as int) =~= value@);
        proof {
            lemma_row_bounds(n, n + 1, size);
        }
        self.len = self.len + 1;
        assert(self@ =~= old(self)@.push(value@)) by {
            assert forall|j: int| 0 <= j < n + 1 implies #[trigger] self@[j] == old(self)@.push(
                value@,
            )[j] by {
                lemma_row_bounds(j, n + 1, size);
                if j < n {
                    lemma_row_bounds(j, n, size);
                    assert(self.data@.subrange(j * size, j * size + size) =~= old_data.subrange(
                        j * size,
                        j * size + size,
                    ));
                } else {
                    assert(self.data@.subrange(j * size, j * size + size) =~= value@);
                }
            }
        }
    }

    /// A copy of the bytes of the value at `index`, or `None` when `index`
    /// is out of bounds.
    pub fn get(&self, info: &TypeInfo, index: usize) -> (r: Option<Vec<u8>>)
        requires
            self.wf(),
            info.spec_id() == self.spec_info().spec_id(),
        ensures
            index < self@.len() ==> (r matches Some(bytes) && bytes@ == self@[index as int]),
            index >= self@.len() ==> r is None,
    {
        self.get_data(index)
    }

    /// `get` without a type check.
    pub fn get_data(&self, index: usize) -> (r: Option<Vec<u8>>)
        requires
            self.wf(),
        ensures
            index < self@.len() ==> (r matches Some(bytes) && bytes@ == self@[index as int]),
            index >= self@.len() ==> r is None,
    {
        if index >= self.len {
            return None;
        }
        proof {
            lemma_row_bounds(index as int, self.len as int, self.info.spec_size() as int);
        }
        let size = self.info.size();
        let start = index * size;
        let mut out: Vec<u8> = Vec::new();
        let mut i: usize = 0;
        while i < size
            invariant
                0 <= i <= size,
                start + size <= self.data@.len(),
                self.data@.len() <= usize::MAX,
                out@ == self.data@.subrange(start as int, start + i),
            decreases size - i,
        {
            out.push(self.data[start + i]);
            i = i + 1;
            assert(out@ =~= self.data@.subrange(start as int, start + i));
        }
        Some(out)
    }

    /// Replaces the bytes of the value at `index` by `value`.
    pub fn write_data(&mut self, index: usize, value: &[u8])
        requires
            old(self).wf(),
            index < old(self)@.len(),
            value@.len() == old(self).spec_info().spec_size(),
        ensures
            final(self).wf(),
            final(self)@ == old(self)@.update(index as int, value@),
            final(self).spec_info() == old(self).spec_info(),
            final(self).byte_len() == old(self).byte_len(),
    {
        let ghost size = self.info.spec_size() as int;
        let ghost n = self.len as int;
        let ghost old_data = self.data@;
        proof {
            lemma_row_bounds(index as int, n, size);
        }
        let start = index * self.info.size();
        let mut i: usize = 0;
        while i < value.len()
            invariant
                0 <= i <= value@.len(),
                value@.len() == size,
                start == index * size,
                start + size <= old_data.len(),
                old_data.len() <= usize::MAX,
                self.info == old(self).info,
                self.len == n,
                self.data@.len() == old_data.len(),
                forall|k: int|
                    0 <= k < old_data.len() ==> #[trigger] self.data@[k] == if start <= k < start
                        + i {
                        value@[k - start]
                    } else {
                        old_data[k]
                    },
            decreases value@.len() - i,
        {
            self.data.set(start + i, value[i]);
            i = i + 1;
        }
        assert(self@ =~= old(self)@.update(index as int, value@)) by {
            assert forall|j: int| 0 <= j < n implies #[trigger] self@[j] == old(self)@.update(
                index as int,
                value@,
            )[j] by {
                lemma_row_bounds(j, n, size);
                if j == index {
                    assert(self.data@.subrange(j * size, j * size + size) =~= value@);
                } else {
                    if j < index {
                        assert(j * size + size <= start) by (nonlinear_arith)
                            requires
                                j + 1 <= index,
                                start == index * size,
                                size >= 0,
                        ;
                    } else {
                        assert(start + size <= j * size) by (nonlinear_arith)
                            requires
                                index + 1 <= j,
                                start == index * size,
                                size >= 0,
                        ;
                    }
                    assert(self.data@.subrange(j * size, j * size + size) =~= old_data.subrange(
                        j * size,
                        j * size + size,
                    ));
                }
            }
        }
    }

    /// Appends a zeroed row and returns its index.
    pub fn allocate(&mut self) -> (index: usize)
        requires
            old(self).wf(),
            old(self).has_room(),
        ensures
            final(self).wf(),
            index == old(self)@.len(),
            final(self)@.len() == old(self)@.len() + 1,
            final(self)@.subrange(0, index as int) == old(self)@,
            final(self)@[index as int] == Seq::new(
                old(self).spec_info().spec_size() as nat,
                |k: int| 0u8,
            ),
            final(self).spec_info() == old(self).spec_info(),
            final(self).byte_len() == old(self).byte_len() + old(self).spec_info().spec_size(),
    {
        let mut zeroes: Vec<u8> = Vec::new();
        let mut i: usize = 0;
        while i < self.info.size()
            invariant
                0 <= i <= self.info.size(),
                zeroes@ == Seq::new(i as nat, |k: int| 0u8),
            decreases self.info.size() - i,
        {
            zeroes.push(0u8);
            i = i + 1;
            assert(zeroes@ =~= Seq::new(i as nat, |k: int| 0u8));
        }
        let index = self.len;
        self.push_data(zeroes.as_slice());
        assert(self@.subrange(0, index as int) =~= old(self)@);
        index
    }

    /// Inserts `value` at position `index`, shifting the values after it.
    pub fn insert(&mut self, info: &TypeInfo, index: usize, value: &[u8])
        requires
            old(self).wf(),
            info.spec_id() == old(self).spec_info().spec_id(),
            index <= old(self)@.len(),
            value@.len() == old(self).spec_info().spec_size(),
            old(self).has_room(),
        ensures
            final(self).wf(),
            final(self)@ == old(self)@.insert(index as int, value@),
            final(self).spec_info() == old(self).spec_info(),
            final(self).byte_len() == old(self).byte_len() + old(self).spec_info().spec_size(),
    {
        self.insert_data(index, value);
    }

    /// `insert` without a type check.
    pub fn insert_data(&mut self, index: usize, value: &[u8])
        requires
            old(self).wf(),
            index <= old(self)@.len(),
            value@.len() == old(self).spec_info().spec_size(),
            old(self).has_room(),
        ensures
            final(self).wf(),
            final(self)@ == old(self)@.insert(index as int, value@),
            final(self).spec_info() == old(self).spec_info(),
            final(self).byte_len() == old(self).byte_len() + old(self).spec_info().spec_size(),
    {
        let ghost size = self.info.spec_size() as int;
        let ghost n = self.len as int;
        let ghost old_data = self.data@;
        proof {
            if index < n {
                lemma_row_bounds(index as int, n, size);
            } else {
                lemma_row_bounds(0, 1, size);
            }
            assert(index * size <= n * size) by (nonlinear_arith)
                requires
                    index <= n,
                    size >= 0,
            ;
        }
        let start = index * self.info.size();
        let mut out: Vec<u8> = Vec::new();
        let mut i: usize = 0;
        while i < start
            invariant
                0 <= i <= start,
                start <= old_data.len(),
                self.data@ == old_data,
                out@ == old_data.subrange(0, i as int),
            decreases start - i,
        {
            out.push(self.data[i]);
            i = i + 1;
            assert(out@ =~= old_data.subrange(0, i as int));
        }
        let mut j: usize = 0;
        while j < value.len()
            invariant
                0 <= j <= value@.len(),
                start <= old_data.len(),
                out@ == old_data.subrange(0, start as int) + value@.subrange(0, j as int),
            decreases value@.len() - j,
        {
            out.push(value[j]);
            j = j + 1;
            assert(out@ =~= old_data.subrange(0, start as int) + value@.subrange(0, j as int));
        }
        assert(value@.subrange(0, j as int) =~= value@);
        let mut k: usize = start;
        while k < self.data.len()
            invariant
                start <= k <= old_data.len(),
                self.data@ == old_data,
                out@ == old_data.subrange(0, start as int) + value@ + old_data.subrange(
                    start as int,
                    k as int,
                ),
            decreases old_data.len() - k,
        {
            out.push(self.data[k]);
            k = k + 1;
            assert(out@ =~= old_data.subrange(0, start as int) + value@ + old_data.subrange(
                start as int,
                k as int,
            ));
        }
        self.data = out;
        self.len = self.len + 1;
        proof {
            let new_data = self.data@;
            assert(new_data =~= old_data.subrange(0, start as int) + value@ + old_data.subrange(
                start as int,
                old_data.len() as int,
            ));
            lemma_row_bounds(n, n + 1, size);
            assert(self@ =~= old(self)@.insert(index as int, value@)) by {
                assert forall|q: int| 0 <= q < n + 1 implies #[trigger] self@[q] == old(
                    self,
                )@.insert(index as int, value@)[q] by {
                    lemma_row_bounds(q, n + 1, size);
                    if q < index {
                        lemma_row_bounds(q, n, size);
                        assert(q * size + size <= start) by (nonlinear_arith)
                            requires
                                q + 1 <= index,
                                start == index * size,
                                size >= 0,
                        ;
                        assert(new_data.subrange(q * size, q * size + size) =~= old_data.subrange(
                            q * size,
                            q * size + size,
                        ));
                    } else if q == index {
                        assert(new_data.subrange(q * size, q * size + size) =~= value@);
                    } else {
                        lemma_row_bounds(q - 1, n, size);
                        assert((q - 1) * size == q * size - size) by (nonlinear_arith);
                        assert(start + size <= q * size) by (nonlinear_arith)
                            requires
                                index + 1 <= q,
                                start == index * size,
                                size >= 0,
                        ;
                        assert(new_data.subrange(q * size, q * size + size) =~= old_data.subrange(
                            (q - 1) * size,
                            (q - 1) * size + size,
                        ));
                    }
                }
            }
        }
    }

    /// Removes the value at `index`, shifting the values after it, and
    /// returns its bytes.
    pub fn remove(&mut self, info: &TypeInfo, index: usize) -> (removed: Vec<u8>)
        requires
            old(self).wf(),
            info.spec_id() == old(self).spec_info().spec_id(),
            index < old(self)@.len(),
        ensures
            final(self).wf(),
            removed@ == old(self)@[index as int],
            final(self)@ == old(self)@.remove(index as int),
            final(self).spec_info() == old(self).spec_info(),
            final(self).byte_len() == old(self).byte_len() - old(self).spec_info().spec_size(),
            final(self).has_room(),
    {
        self.remove_data(index)
    }

    /// `remove` without a type check.
    pub fn remove_data(&mut self, index: usize) -> (removed: Vec<u8>)
        requires
            old(self).wf(),
            index < old(self)@.len(),
        ensures
            final(self).wf(),
            removed@ == old(self)@[index as int],
            final(self)@ == old(self)@.remove(index as int),
            final(self).spec_info() == old(self).spec_info(),
            final(self).byte_len() == old(self).byte_len() - old(self).spec_info().spec_size(),
            final(self).has_room(),
    {
        let ghost size = self.info.spec_size() as int;
        let ghost n = self.len as int;
        let ghost old_data = self.data@;
        proof {
            lemma_row_bounds(index as int, n, size);
        }
        let start = index * self.info.size();
        let end = start + self.info.size();
        let mut kept: Vec<u8> = Vec::new();
        let mut removed: Vec<u8> = Vec::new();
        let mut i: usize = 0;
        while i < self.data.len()
            invariant
                0 <= i <= old_data.len(),
                start <= end <= old_data.len(),
                self.data@ == old_data,
                i <= start ==> kept@ == old_data.subrange(0, i as int) && removed@.len() == 0,
                start <= i <= end ==> kept@ == old_data.subrange(0, start as int) && removed@
                    == old_data.subrange(start as int, i as int),
                end <= i ==> kept@ == old_data.subrange(0, start as int) + old_data.subrange(
                    end as int,
                    i as int,
                ) && removed@ == old_data.subrange(start as int, end as int),
            decreases old_data.len() - i,
        {
            let b = self.data[i];
            if i < start || i >= end {
                kept.push(b);
            } else {
                removed.push(b);
            }
            i = i + 1;
            assert(i <= start ==> kept@ =~= old_data.subrange(0, i as int));
            assert(start <= i <= end ==> removed@ =~= old_data.subrange(start as int, i as int));
            assert(start <= i <= end ==> kept@ =~= old_data.subrange(0, start as int));
            assert(end <= i ==> kept@ =~= old_data.subrange(0, start as int) + old_data.subrange(
                end as int,
                i as int,
            ));
        }
        self.data = kept;
        self.len = self.len - 1;
        proof {
            let new_data = self.data@;
            assert(new_data.len() == old_data.len() - size);
            assert((n - 1) * size == n * size - size) by (nonlinear_arith);
            assert(removed@ =~= old(self)@[index as int]);
            assert(self@ =~= old(self)@.remove(index as int)) by {
                assert forall|q: int| 0 <= q < n - 1 implies #[trigger] self@[q] == old(
                    self,
                )@.remove(index as int)[q] by {
                    lemma_row_bounds(q, n - 1, size);
                    if q < index {
                        lemma_row_bounds(q, n, size);
                        assert(q * size + size <= start) by (nonlinear_arith)
                            requires
                                q + 1 <= index,
                                start == index * size,
                                size >= 0,
                        ;
                        assert(new_data.subrange(q * size, q * size + size) =~= old_data.subrange(
                            q * size,
                            q * size + size,
                        ));
                    } else {
                        lemma_row_bounds(q + 1, n, size);
                        assert((q + 1) * size == q * size + size) by (nonlinear_arith);
                        assert(start <= q * size) by (nonlinear_arith)
                            requires
                                index <= q,
                                start == index * size,
                                size >= 0,
                        ;
                        assert(new_data.subrange(q * size, q * size + size) =~= old_data.subrange(
                            (q + 1) * size,
                            (q + 1) * size + size,
                        ));
                    }
                }
            }
        }
        removed
    }
}


/// Reading at the end of a vector right after a push gives the pushed value,
/// and the values before it stay.
pub proof fn lemma_get_after_push(values: Seq<Seq<u8>>, value: Seq<u8>)
    ensures
        values.push(value)[values.len() as int] == value,
        values.push(value).subrange(0, values.len() as int) == values,
{
    assert(values.push(value).subrange(0, values.len() as int) =~= values);
}

/// Removing at the position just inserted at gives back the inserted value
/// and leaves the vector as it was.
pub proof fn lemma_remove_after_insert(values: Seq<Seq<u8>>, index: int, value: Seq<u8>)
    requires
        0 <= index <= values.len(),
    ensures
        values.insert(index, value)[index] == value,
        values.insert(index, value).remove(index) == values,
{
    assert(values.insert(index, value).remove(index) =~= values);
}

/// The kinds of change that `push`, `insert` and `remove` make.
pub enum VecEdit {
    Push,
    Insert,
    Remove,
}

/// Whether `after` is `before` changed as an edit of kind `edit` that
/// returned normally changes it: a value added at the end, a value added at
/// a position up to the length, or the value at a position below the length
/// taken away.
pub open spec fn edited(before: Seq<Seq<u8>>, after: Seq<Seq<u8>>, edit: VecEdit) -> bool {
    match edit {
        VecEdit::Push => exists|v: Seq<u8>| after == #[trigger] before.push(v),
        VecEdit::Insert => exists|i: int, v: Seq<u8>| 0 <= i <= before.len() && after == #[trigger] before.insert(i, v),
        VecEdit::Remove => exists|i: int| 0 <= i < before.len() && after == #[trigger] before.remove(i),
    }
}

/// How many of `edits` are of kind `kind`.
pub open spec fn edits_of(edits: Seq<VecEdit>, kind: VecEdit) -> nat
    decreases edits.len(),
{
    if edits.len() == 0 {
        0
    } else {
        edits_of(edits.drop_last(), kind) + if edits.last() == kind { 1nat } else { 0nat }
    }
}

/// A vector that starts empty and then goes through `edits`, each returning
/// normally, holds as many values as there were pushes and inserts, less
/// the removes.
pub proof fn lemma_len_history(views: Seq<Seq<Seq<u8>>>, edits: Seq<VecEdit>)
    requires
        views.len() == edits.len() + 1,
        views[0].len() == 0,
        forall|k: int| 0 <= k < edits.len() ==> edited(#[trigger] views[k], views[k + 1], edits[k]),
    ensures
        views[edits.len() as int].len() + edits_of(edits, VecEdit::Remove)
            == edits_of(edits, VecEdit::Push) + edits_of(edits, VecEdit::Insert),
    decreases edits.len(),
{
    if edits.len() > 0 {
        let n = edits.len() - 1;
        let v2 = views.drop_last();
        let e2 = edits.drop_last();
        assert forall|k: int| 0 <= k < e2.len() implies edited(#[trigger] v2[k], v2[k + 1], e2[k]) by {
            assert(edited(views[k], views[k + 1], edits[k]));
        }
        lemma_len_history(v2, e2);
        assert(edited(views[n], views[n + 1], edits[n]));
        assert(v2[n] == views[n]);
        match edits[n] {
            VecEdit::Push => {
                let v = choose|v: Seq<u8>| views[n + 1] == #[trigger] views[n].push(v);
            },
            VecEdit::Insert => {
                let (i, v) = choose|i: int, v: Seq<u8>| 0 <= i <= views[n].len() && views[n + 1] == #[trigger] views[n].insert(i, v);
            },
            VecEdit::Remove => {
                let i = choose|i: int| 0 <= i < views[n].len() && views[n + 1] == #[trigger] views[n].remove(i);
            },
        }
    }
}

} // verus!
