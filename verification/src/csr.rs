//! A sparse matrix in compressed sparse row form.
//!
//! The entries stand in row-major order in two vectors, one of values and one
//! of columns. A third vector says where each row starts: row `r` has the
//! entries from `rows[r]` up to `rows[r + 1]`. The model of a matrix is the
//! sequence of its entries, each a position with its value, in that order.

use vstd::prelude::*;

verus! {

/// Whether position `a` stands before position `b` in row-major order.
pub open spec fn precedes(a: (usize, usize), b: (usize, usize)) -> bool {
    a.0 < b.0 || (a.0 == b.0 && a.1 < b.1)
}

/// Whether the positions of `entries` rise strictly in row-major order.
pub open spec fn sorted<T>(entries: Seq<((usize, usize), T)>) -> bool {
    forall|i: int, j: int| 0 <= i < j < entries.len() ==> precedes(entries[i].0, entries[j].0)
}

/// The place of the entry at position `pos` in `entries`, if there is one.
pub open spec fn place_of<T>(entries: Seq<((usize, usize), T)>, pos: (usize, usize)) -> Option<
    int,
> {
    if exists|k: int| 0 <= k < entries.len() && entries[k].0 == pos {
        Some(choose|k: int| 0 <= k < entries.len() && entries[k].0 == pos)
    } else {
        None
    }
}

/// In sorted entries a position has one place at most.
pub proof fn lemma_place_of<T>(entries: Seq<((usize, usize), T)>, pos: (usize, usize), k: int)
    requires
        sorted(entries),
        0 <= k < entries.len(),
        entries[k].0 == pos,
    ensures
        place_of(entries, pos) == Some(k),
{
    assert(exists|w: int| 0 <= w < entries.len() && entries[w].0 == pos);
    assert(place_of(entries, pos) is Some);
    let w = place_of(entries, pos).unwrap();
    assert(0 <= w < entries.len() && entries[w].0 == pos);
    if w < k {
        assert(precedes(entries[w].0, entries[k].0));
    }
    if w > k {
        assert(precedes(entries[k].0, entries[w].0));
    }
}

/// The row starts rise, from 0 to `len`.
spec fn rows_ok(rows: Seq<usize>, len: int) -> bool {
    &&& 1 <= rows.len() <= usize::MAX
    &&& rows[0] == 0
    &&& rows[rows.len() - 1] == len
    &&& forall|r: int, s: int| 0 <= r <= s < rows.len() ==> rows[r] <= rows[s]
}

/// The columns rise strictly within each row.
spec fn cols_ok(rows: Seq<usize>, cols: Seq<usize>) -> bool {
    forall|r: int, i: int, j: int|
        #[trigger] in_row(rows, i, r) && #[trigger] in_row(rows, j, r) && i < j ==> cols[i]
            < cols[j]
}

/// Whether entry `k` stands in row `r`.
spec fn in_row(rows: Seq<usize>, k: int, r: int) -> bool {
    0 <= r < rows.len() - 1 && rows[r] <= k < rows[r + 1]
}

/// The row of entry `k`.
spec fn row_of(rows: Seq<usize>, k: int) -> int {
    choose|r: int| in_row(rows, k, r)
}

proof fn lemma_row_unique(rows: Seq<usize>, len: int, k: int, r: int)
    requires
        rows_ok(rows, len),
        in_row(rows, k, r),
    ensures
        row_of(rows, k) == r,
{
    let w = row_of(rows, k);
    assert(in_row(rows, k, w));
    if w < r {
        assert(rows[w + 1] <= rows[r]);
    }
    if w > r {
        assert(rows[r + 1] <= rows[w]);
    }
}

proof fn lemma_row_exists(rows: Seq<usize>, len: int, k: int, upto: int)
    requires
        rows_ok(rows, len),
        0 <= k,
        0 <= upto < rows.len(),
        k < rows[upto],
    ensures
        in_row(rows, k, row_of(rows, k)),
        row_of(rows, k) < upto,
    decreases upto,
{
    if rows[upto - 1] <= k {
        assert(in_row(rows, k, upto - 1));
        lemma_row_unique(rows, len, k, upto - 1);
    } else {
        lemma_row_exists(rows, len, k, upto - 1);
    }
}

/// A sparse matrix whose positions without an entry all read as `base`.
#[derive(Debug)]
pub struct CsrGraph<T> {
    /// The value of every position that has no entry.
    pub base: T,
    data: Vec<T>,
    cols: Vec<usize>,
    rows: Vec<usize>,
}

/// A cursor over all entries of a matrix.
pub struct CsrIter<'a, T>(usize, &'a CsrGraph<T>);

/// A cursor over the entries of one column of a matrix.
pub struct ColIter<'a, T>(usize, usize, &'a CsrGraph<T>);

/// A cursor over the entries of one row of a matrix.
pub struct RowIter<'a, T>(usize, usize, &'a CsrGraph<T>);

impl<T> CsrGraph<T> {
    /// The vectors fit together.
    pub closed spec fn wf(&self) -> bool {
        &&& rows_ok(self.rows@, self.cols@.len() as int)
        &&& cols_ok(self.rows@, self.cols@)
        &&& self.cols@.len() == self.data@.len()
    }

    /// The position of entry `k`.
    pub closed spec fn position(&self, k: int) -> (usize, usize) {
        (row_of(self.rows@, k) as usize, self.cols@[k])
    }

    /// The entries in row-major order, each a position with its value.
    pub closed spec fn entries(&self) -> Seq<((usize, usize), T)> {
        Seq::new(self.data@.len(), |k: int| (self.position(k), self.data@[k]))
    }

    /// The entries as a map from positions to values.
    pub open spec fn view(&self) -> Map<(usize, usize), T> {
        Map::new(
            |pos: (usize, usize)| place_of(self.entries(), pos) is Some,
            |pos: (usize, usize)| self.entries()[place_of(self.entries(), pos).unwrap()].1,
        )
    }

    /// The value at `pos`: that of its entry, or the base.
    pub open spec fn value_at(&self, pos: (usize, usize)) -> T {
        match place_of(self.entries(), pos) {
            Some(k) => self.entries()[k].1,
            None => self.base_value(),
        }
    }

    /// The value of every position that has no entry.
    pub closed spec fn base_value(&self) -> T {
        self.base
    }

    /// The places of the first entry of row `row` and of the first entry
    /// after that row.
    pub closed spec fn row_span(&self, row: usize) -> (int, int) {
        if row + 1 < self.rows@.len() {
            (self.rows@[row as int] as int, self.rows@[row + 1] as int)
        } else {
            (self.data@.len() as int, self.data@.len() as int)
        }
    }

    /// Whether place `k` lies in the span of row `row`.
    pub open spec fn in_row_span(&self, row: usize, k: int) -> bool {
        self.row_span(row).0 <= k < self.row_span(row).1
    }

    /// The entries of a matrix stand in row-major order, no position twice,
    /// and the entries of a row are those of its span.
    pub proof fn lemma_entries_sorted(&self)
        requires
            self.wf(),
        ensures
            sorted(self.entries()),
            forall|row: usize, k: int|
                0 <= k < self.entries().len() ==> (#[trigger] self.in_row_span(row, k)
                    <==> self.entries()[k].0.0 == row),
            forall|row: usize|
                0 <= (#[trigger] self.row_span(row)).0 <= self.row_span(row).1
                    <= self.entries().len(),
    {
        let rows = self.rows@;
        let len = self.cols@.len() as int;
        assert forall|i: int, j: int| 0 <= i < j < self.entries().len() implies precedes(
            self.entries()[i].0,
            self.entries()[j].0,
        ) by {
            lemma_row_exists(rows, len, i, rows.len() - 1);
            lemma_row_exists(rows, len, j, rows.len() - 1);
            let ri = row_of(rows, i);
            let rj = row_of(rows, j);
            if ri > rj {
                assert(rows[rj + 1] <= rows[ri]);
            }
        }
        assert forall|row: usize, k: int| 0 <= k < self.entries().len() implies (
        #[trigger] self.in_row_span(row, k) <==> self.entries()[k].0.0 == row) by {
            lemma_row_exists(rows, len, k, rows.len() - 1);
            if self.row_span(row).0 <= k < self.row_span(row).1 {
                assert(in_row(rows, k, row as int));
                lemma_row_unique(rows, len, k, row as int);
            }
        }
        assert forall|row: usize|
            0 <= (#[trigger] self.row_span(row)).0 <= self.row_span(row).1
                <= self.entries().len() by {
            if row + 1 < rows.len() {
                assert(rows[row as int] <= rows[row + 1]);
                assert(rows[row + 1] <= rows[rows.len() - 1]);
            }
        }
    }

    /// An empty matrix that reads as `base` everywhere.
    pub fn new(base: T) -> (g: Self)
        ensures
            g.wf(),
            g.base_value() == base,
            g.entries() == Seq::<((usize, usize), T)>::empty(),
    {
        let mut rows: Vec<usize> = Vec::new();
        rows.push(0);
        let g = CsrGraph { base, data: Vec::new(), cols: Vec::new(), rows };
        assert(g.entries() =~= Seq::<((usize, usize), T)>::empty());
        g
    }

    /// The number of entries.
    pub fn size(&self) -> (n: usize)
        requires
            self.wf(),
        ensures
            n == self.entries().len(),
    {
        self.rows[self.rows.len() - 1]
    }

    /// Searches the columns from `lo` up to `hi`, which rise strictly, for
    /// `col`: the place where it stands, or the place where it would go.
    fn search(&self, lo: usize, hi: usize, col: usize) -> (r: Result<usize, usize>)
        requires
            lo <= hi <= self.cols@.len(),
            forall|i: int, j: int| lo <= i < j < hi ==> self.cols@[i] < self.cols@[j],
        ensures
            match r {
                Ok(k) => lo <= k < hi && self.cols@[k as int] == col,
                Err(k) => {
                    &&& lo <= k <= hi
                    &&& forall|i: int| lo <= i < k ==> self.cols@[i] < col
                    &&& forall|i: int| k <= i < hi ==> self.cols@[i] > col
                },
            },
    {
        let mut a = lo;
        let mut b = hi;
        while a < b
            invariant
                lo <= a <= b <= hi <= self.cols@.len(),
                forall|i: int, j: int| lo <= i < j < hi ==> self.cols@[i] < self.cols@[j],
                forall|i: int| lo <= i < a ==> self.cols@[i] < col,
                forall|i: int| b <= i < hi ==> self.cols@[i] > col,
            decreases b - a,
        {
            let mid = a + (b - a) / 2;
            let c = self.cols[mid];
            if c == col {
                return Ok(mid);
            } else if c < col {
                assert forall|i: int| lo <= i < mid + 1 implies self.cols@[i] < col by {
                    if i < mid {
                        assert(self.cols@[i] < self.cols@[mid as int]);
                    }
                }
                a = mid + 1;
            } else {
                assert forall|i: int| mid <= i < hi implies self.cols@[i] > col by {
                    if i > mid {
                        assert(self.cols@[mid as int] < self.cols@[i]);
                    }
                }
                b = mid;
            }
        }
        Err(a)
    }

    /// The row in which entry `k` stands.
    fn row_at(&self, k: usize) -> (r: usize)
        requires
            self.wf(),
            k < self.cols@.len(),
        ensures
            in_row(self.rows@, k as int, r as int),
            r == self.position(k as int).0,
    {
        let mut a: usize = 0;
        let mut b: usize = self.rows.len() - 1;
        while b - a > 1
            invariant
                self.wf(),
                0 <= a < b < self.rows@.len(),
                self.rows@[a as int] <= k < self.rows@[b as int],
            decreases b - a,
        {
            let mid = a + (b - a) / 2;
            if self.rows[mid] <= k {
                a = mid;
            } else {
                b = mid;
            }
        }
        proof {
            assert(in_row(self.rows@, k as int, a as int));
            lemma_row_unique(self.rows@, self.cols@.len() as int, k as int, a as int);
        }
        a
    }

    /// The place of the entry at `pos`, if there is one.
    fn get_data_idx(&self, pos: (usize, usize)) -> (r: Option<usize>)
        requires
            self.wf(),
        ensures
            match r {
                Some(k) => k < self.entries().len() && self.entries()[k as int].0 == pos
                    && place_of(self.entries(), pos) == Some(k as int),
                None => place_of(self.entries(), pos) is None,
            },
    {
        proof {
            self.lemma_entries_sorted();
        }
        if pos.0 >= self.rows.len() - 1 {
            proof {
                assert forall|k: int| 0 <= k < self.entries().len() implies self.entries()[k].0
                    != pos by {
                    lemma_row_exists(
                        self.rows@,
                        self.cols@.len() as int,
                        k,
                        self.rows@.len() - 1,
                    );
                }
            }
            return None;
        }
        let lo = self.rows[pos.0];
        let hi = self.rows[pos.0 + 1];
        proof {
            assert(self.rows@[pos.0 as int] <= self.rows@[pos.0 + 1]);
            assert(self.rows@[pos.0 + 1] <= self.rows@[self.rows@.len() - 1]);
            assert forall|i: int, j: int| lo <= i < j < hi implies self.cols@[i] < self.cols@[j] by {
                assert(in_row(self.rows@, i, pos.0 as int));
                assert(in_row(self.rows@, j, pos.0 as int));
            }
        }
        match self.search(lo, hi, pos.1) {
            Ok(k) => {
                proof {
                    lemma_row_unique(self.rows@, self.cols@.len() as int, k as int, pos.0 as int);
                    assert(self.entries()[k as int].0 == pos);
                    lemma_place_of(self.entries(), pos, k as int);
                }
                Some(k)
            },
            Err(_) => {
                proof {
                    assert forall|k: int| 0 <= k < self.entries().len() implies self.entries()[k].0
                        != pos by {
                        if self.entries()[k].0.0 == pos.0 {
                            assert(self.in_row_span(pos.0, k));
                        }
                    }
                }
                None
            },
        }
    }

    /// Puts `data` at `pos` unless `pos` has an entry. `Ok` holds the place of
    /// the new entry, `Err` the place of the entry that is there.
    fn insert_idx(&mut self, data: T, pos: (usize, usize)) -> (r: Result<usize, usize>)
        requires
            old(self).wf(),
            pos.0 + 2 <= usize::MAX,
        ensures
            final(self).wf(),
            final(self).base_value() == old(self).base_value(),
            match r {
                Ok(k) => {
                    &&& place_of(old(self).entries(), pos) is None
                    &&& k <= old(self).entries().len()
                    &&& final(self).entries() == old(self).entries().insert(k as int, (pos, data))
                },
                Err(k) => {
                    &&& k < old(self).entries().len()
                    &&& place_of(old(self).entries(), pos) == Some(k as int)
                    &&& final(self).entries() == old(self).entries()
                },
            },
    {
        match self.get_data_idx(pos) {
            Some(k) => {
                return Err(k);
            },
            None => {},
        }
        let ghost len = self.cols@.len() as int;
        let last = self.rows[self.rows.len() - 1];
        while self.rows.len() < pos.0 + 2
            invariant
                pos.0 + 2 <= usize::MAX,
                self.wf(),
                self.base == old(self).base,
                self.data == old(self).data,
                self.cols == old(self).cols,
                last == len,
                len == self.cols@.len(),
                self.entries() == old(self).entries(),
            decreases pos.0 + 2 - self.rows.len(),
        {
            let ghost before = *self;
            self.rows.push(last);
            proof {
                let rows = self.rows@;
                assert(rows_ok(rows, len)) by {
                    assert forall|r: int, s: int| 0 <= r <= s < rows.len() implies rows[r]
                        <= rows[s] by {
                        if s == rows.len() - 1 {
                            if r < s {
                                assert(before.rows@[r] <= before.rows@[before.rows@.len() - 1]);
                            }
                        } else {
                            assert(before.rows@[r] <= before.rows@[s]);
                        }
                    }
                }
                assert(cols_ok(rows, self.cols@)) by {
                    assert forall|r: int, i: int, j: int|
                        #[trigger] in_row(rows, i, r) && #[trigger] in_row(rows, j, r) && i
                            < j implies self.cols@[i] < self.cols@[j] by {
                        if r < rows.len() - 2 {
                            assert(in_row(before.rows@, i, r));
                            assert(in_row(before.rows@, j, r));
                        }
                    }
                }
                assert forall|k: int| 0 <= k < len implies self.position(k) == before.position(
                    k,
                ) by {
                    lemma_row_exists(before.rows@, len, k, before.rows@.len() - 1);
                    let r = row_of(before.rows@, k);
                    assert(in_row(rows, k, r));
                    lemma_row_unique(rows, len, k, r);
                }
                assert(self.entries() =~= before.entries());
            }
        }
        let lo = self.rows[pos.0];
        let hi = self.rows[pos.0 + 1];
        proof {
            self.lemma_entries_sorted();
            assert(self.rows@[pos.0 as int] <= self.rows@[pos.0 + 1]);
            assert(self.rows@[pos.0 + 1] <= self.rows@[self.rows@.len() - 1]);
            assert forall|i: int, j: int| lo <= i < j < hi implies self.cols@[i] < self.cols@[j] by {
                assert(in_row(self.rows@, i, pos.0 as int));
                assert(in_row(self.rows@, j, pos.0 as int));
            }
        }
        let k = match self.search(lo, hi, pos.1) {
            Ok(k) => {
                proof {
                    lemma_row_unique(self.rows@, len, k as int, pos.0 as int);
                    assert(self.entries()[k as int].0 == pos);
                    lemma_place_of(self.entries(), pos, k as int);
                }
                return Err(k);
            },
            Err(k) => k,
        };
        let ghost before = *self;
        self.data.insert(k, data);
        self.cols.insert(k, pos.1);
        let grown = self.cols.len();
        let mut r: usize = pos.0 + 1;
        while r < self.rows.len()
            invariant
                pos.0 + 1 <= r <= self.rows@.len(),
                k <= len,
                grown == len + 1,
                self.rows@.len() == before.rows@.len(),
                self.base == before.base,
                self.data@ == before.data@.insert(k as int, data),
                self.cols@ == before.cols@.insert(k as int, pos.1),
                before.wf(),
                len == before.cols@.len(),
                forall|s: int| 0 <= s < self.rows@.len() ==> self.rows@[s] == (if pos.0 < s < r {
                    before.rows@[s] + 1
                } else {
                    before.rows@[s] as int
                }),
            decreases self.rows@.len() - r,
        {
            proof {
                assert(before.rows@[r as int] <= before.rows@[before.rows@.len() - 1]);
            }
            let v = self.rows[r];
            self.rows.set(r, v + 1);
            r = r + 1;
        }
        proof {
            let old_rows = before.rows@;
            let old_cols = before.cols@;
            let rows = self.rows@;
            let cols = self.cols@;
            let kk = k as int;
            let row = pos.0 as int;
            assert(rows_ok(rows, len + 1)) by {
                assert forall|a: int, b: int| 0 <= a <= b < rows.len() implies rows[a]
                    <= rows[b] by {
                    assert(old_rows[a] <= old_rows[b]);
                }
            }
            assert(cols_ok(rows, cols)) by {
                assert forall|a: int, i: int, j: int|
                    #[trigger] in_row(rows, i, a) && #[trigger] in_row(rows, j, a) && i
                        < j implies cols[i] < cols[j] by {
                    if a < row {
                        assert(old_rows[a + 1] <= old_rows[row]);
                        assert(in_row(old_rows, i, a));
                        assert(in_row(old_rows, j, a));
                        assert(old_cols[i] < old_cols[j]);
                    } else if a == row {
                        if j < kk {
                            assert(in_row(old_rows, i, a));
                            assert(in_row(old_rows, j, a));
                            assert(old_cols[i] < old_cols[j]);
                        } else if j == kk {
                            assert(old_cols[i] < pos.1);
                        } else if i < kk {
                            assert(old_cols[j - 1] > pos.1);
                            assert(old_cols[i] < pos.1);
                        } else if i == kk {
                            assert(old_cols[j - 1] > pos.1);
                        } else {
                            assert(in_row(old_rows, i - 1, a));
                            assert(in_row(old_rows, j - 1, a));
                            assert(old_cols[i - 1] < old_cols[j - 1]);
                        }
                    } else {
                        assert(old_rows[row + 1] <= old_rows[a]);
                        assert(in_row(old_rows, i - 1, a));
                        assert(in_row(old_rows, j - 1, a));
                        assert(old_cols[i - 1] < old_cols[j - 1]);
                    }
                }
            }
            assert forall|j: int| 0 <= j < len + 1 implies self.position(j) == (if j < kk {
                before.position(j)
            } else if j == kk {
                pos
            } else {
                before.position(j - 1)
            }) by {
                if j < kk {
                    lemma_row_exists(old_rows, len, j, old_rows.len() - 1);
                    let a = row_of(old_rows, j);
                    if a > row {
                        assert(old_rows[row + 1] <= old_rows[a]);
                    }
                    assert(in_row(rows, j, a));
                    lemma_row_unique(rows, len + 1, j, a);
                } else if j == kk {
                    assert(in_row(rows, j, row));
                    lemma_row_unique(rows, len + 1, j, row);
                } else {
                    lemma_row_exists(old_rows, len, j - 1, old_rows.len() - 1);
                    let a = row_of(old_rows, j - 1);
                    if a < row {
                        assert(old_rows[a + 1] <= old_rows[row]);
                    }
                    assert(in_row(rows, j, a));
                    lemma_row_unique(rows, len + 1, j, a);
                }
            }
            assert(self.entries() =~= before.entries().insert(kk, (pos, data)));
        }
        Ok(k)
    }

    /// Puts `data` at `pos` and returns `true`, unless `pos` has an entry:
    /// then nothing changes and `false` comes back.
    pub fn insert(&mut self, data: T, pos: (usize, usize)) -> (inserted: bool)
        requires
            old(self).wf(),
            pos.0 + 2 <= usize::MAX,
        ensures
            final(self).wf(),
            final(self).base_value() == old(self).base_value(),
            inserted == (place_of(old(self).entries(), pos) is None),
            !inserted ==> final(self).entries() == old(self).entries(),
            inserted ==> exists|k: int|
                0 <= k <= old(self).entries().len() && final(self).entries() == old(
                    self,
                ).entries().insert(k, (pos, data)),
    {
        match self.insert_idx(data, pos) {
            Ok(k) => {
                assert(final(self).entries() == old(self).entries().insert(k as int, (pos, data)));
                true
            },
            Err(_) => false,
        }
    }

    /// The value at `pos`: that of its entry, or the base.
    pub fn get(&self, pos: (usize, usize)) -> (r: &T)
        requires
            self.wf(),
        ensures
            *r == self.value_at(pos),
    {
        match self.get_data_idx(pos) {
            Some(k) => &self.data[k],
            None => &self.base,
        }
    }

    /// The value of the entry at `pos`, to be changed in place, if `pos` has
    /// an entry.
    pub fn get_mut(&mut self, pos: (usize, usize)) -> (r: Option<&mut T>)
        requires
            old(self).wf(),
        ensures
            final(self).wf(),
            final(self).base_value() == old(self).base_value(),
            match r {
                Some(v) => {
                    &&& place_of(old(self).entries(), pos) is Some
                    &&& *v == old(self).value_at(pos)
                    &&& final(self).entries() == old(self).entries().update(
                        place_of(old(self).entries(), pos).unwrap(),
                        (pos, *final(v)),
                    )
                },
                None => {
                    &&& place_of(old(self).entries(), pos) is None
                    &&& final(self).entries() == old(self).entries()
                },
            },
    {
        match self.get_data_idx(pos) {
            Some(k) => {
                Some(&mut self.data[k])
            },
            None => None,
        }
    }

    /// The value of the entry at `pos`, to be changed in place. Where `pos` has
    /// no entry, it gets one with the value `fill` first.
    pub fn index_mut(&mut self, pos: (usize, usize), fill: T) -> (r: &mut T)
        requires
            old(self).wf(),
            pos.0 + 2 <= usize::MAX,
        ensures
            final(self).wf(),
            final(self).base_value() == old(self).base_value(),
            match place_of(old(self).entries(), pos) {
                Some(k) => {
                    &&& *r == old(self).entries()[k].1
                    &&& final(self).entries() == old(self).entries().update(k, (pos, *final(r)))
                },
                None => {
                    &&& *r == fill
                    &&& exists|k: int|
                        0 <= k <= old(self).entries().len() && final(self).entries() == old(
                            self,
                        ).entries().insert(k, (pos, *final(r)))
                },
            },
    {
        let ghost before = old(self).entries();
        let had = self.insert_idx(fill, pos);
        proof {
            match had {
                Ok(k) => {
                    let mid = self.entries();
                    assert(mid[k as int] == (pos, fill));
                    self.lemma_entries_sorted();
                    lemma_place_of(mid, pos, k as int);
                    assert forall|v: T| #[trigger]
                        mid.update(k as int, (pos, v)) == before.insert(k as int, (pos, v)) by {
                        assert(mid.update(k as int, (pos, v)) =~= before.insert(
                            k as int,
                            (pos, v),
                        ));
                    }
                },
                Err(k) => {},
            }
        }
        self.get_mut(pos).unwrap()
    }

    /// A cursor at the first entry.
    pub fn iter(&self) -> (it: CsrIter<'_, T>)
        requires
            self.wf(),
        ensures
            it.wf(),
            it.graph() == self,
            it.cursor() == 0,
    {
        CsrIter(0, self)
    }

    /// A cursor at the first entry of row `row`.
    pub fn row_iter(&self, row: usize) -> (it: RowIter<'_, T>)
        requires
            self.wf(),
        ensures
            it.wf(),
            it.graph() == self,
            it.row() == row,
            it.taken() == 0,
    {
        RowIter(row, 0, self)
    }

    /// A cursor before the first entry of column `col`.
    pub fn col_iter(&self, col: usize) -> (it: ColIter<'_, T>)
        requires
            self.wf(),
        ensures
            it.wf(),
            it.graph() == self,
            it.col() == col,
            it.cursor() == 0,
    {
        ColIter(col, 0, self)
    }
}

impl<T: Default> Default for CsrGraph<T> {
    /// An empty matrix that reads as the default of `T` everywhere.
    fn default() -> (g: Self)
        ensures
            g.wf(),
            g.entries() == Seq::<((usize, usize), T)>::empty(),
    {
        Self::new(T::default())
    }
}

impl<'a, T> CsrIter<'a, T> {
    /// The matrix that the cursor walks.
    pub closed spec fn graph(&self) -> &'a CsrGraph<T> {
        self.1
    }

    /// The place of the entry that comes next.
    pub closed spec fn cursor(&self) -> int {
        self.0 as int
    }

    /// The matrix is well formed.
    pub closed spec fn wf(&self) -> bool {
        self.1.wf()
    }

    /// The entry at the cursor, and the cursor moves on; `None` at the end.
    pub fn next(&mut self) -> (r: Option<((usize, usize), &'a T)>)
        requires
            old(self).wf(),
        ensures
            final(self).wf(),
            final(self).graph() == old(self).graph(),
            match r {
                Some((pos, v)) => {
                    &&& old(self).cursor() < old(self).graph().entries().len()
                    &&& (pos, *v) == old(self).graph().entries()[old(self).cursor()]
                    &&& final(self).cursor() == old(self).cursor() + 1
                },
                None => {
                    &&& old(self).cursor() >= old(self).graph().entries().len()
                    &&& final(self).cursor() == old(self).cursor()
                },
            },
    {
        let g = self.1;
        if self.0 < g.data.len() {
            let k = self.0;
            let row = g.row_at(k);
            let col = g.cols[k];
            self.0 = k + 1;
            Some(((row, col), &g.data[k]))
        } else {
            None
        }
    }

    /// The number of entries from the cursor on.
    pub fn count(&self) -> (n: usize)
        requires
            self.wf(),
        ensures
            n == if self.cursor() < self.graph().entries().len() {
                self.graph().entries().len() - self.cursor()
            } else {
                0
            },
    {
        let g = self.1;
        if self.0 < g.data.len() {
            g.data.len() - self.0
        } else {
            0
        }
    }

    /// The bounds on the number of entries from the cursor on: both are that
    /// number.
    pub fn size_hint(&self) -> (r: (usize, Option<usize>))
        requires
            self.wf(),
        ensures
            r.1 == Some(r.0),
            r.0 == if self.cursor() < self.graph().entries().len() {
                self.graph().entries().len() - self.cursor()
            } else {
                0
            },
    {
        let n = self.count();
        (n, Some(n))
    }

    /// Passes over `n` entries and gives the one after them; `None`, with the
    /// cursor at the end, if fewer than `n + 1` entries are left.
    pub fn nth(&mut self, n: usize) -> (r: Option<((usize, usize), &'a T)>)
        requires
            old(self).wf(),
        ensures
            final(self).wf(),
            final(self).graph() == old(self).graph(),
            match r {
                Some((pos, v)) => {
                    &&& old(self).cursor() + n < old(self).graph().entries().len()
                    &&& (pos, *v) == old(self).graph().entries()[old(self).cursor() + n]
                    &&& final(self).cursor() == old(self).cursor() + n + 1
                },
                None => {
                    &&& old(self).cursor() + n >= old(self).graph().entries().len()
                    &&& final(self).cursor() >= old(self).graph().entries().len()
                },
            },
    {
        let len = self.1.data.len();
        if self.0 < len && n < len - self.0 {
            self.0 = self.0 + n;
        } else {
            self.0 = len;
        }
        self.next()
    }

    /// The last entry, if the cursor has not passed it. The cursor ends up
    /// behind the last entry.
    pub fn last(&mut self) -> (r: Option<((usize, usize), &'a T)>)
        requires
            old(self).wf(),
        ensures
            final(self).wf(),
            final(self).graph() == old(self).graph(),
            final(self).cursor() >= old(self).graph().entries().len(),
            match r {
                Some((pos, v)) => {
                    &&& old(self).cursor() < old(self).graph().entries().len()
                    &&& (pos, *v) == old(self).graph().entries().last()
                },
                None => old(self).cursor() >= old(self).graph().entries().len(),
            },
    {
        let len = self.1.data.len();
        if self.0 < len {
            self.0 = len - 1;
        } else {
            self.0 = len;
        }
        self.next()
    }
}

impl<'a, T> RowIter<'a, T> {
    /// The matrix that the cursor walks.
    pub closed spec fn graph(&self) -> &'a CsrGraph<T> {
        self.2
    }

    /// The row that the cursor walks.
    pub closed spec fn row(&self) -> usize {
        self.0
    }

    /// The number of entries of the row that the cursor has passed.
    pub closed spec fn taken(&self) -> int {
        self.1 as int
    }

    /// The matrix is well formed.
    pub closed spec fn wf(&self) -> bool {
        self.2.wf()
    }

    /// The place of the entry that comes next.
    pub open spec fn cursor(&self) -> int {
        self.graph().row_span(self.row()).0 + self.taken()
    }

    /// The next entry of the row, and the cursor moves on; `None` at the end
    /// of the row.
    pub fn next(&mut self) -> (r: Option<((usize, usize), &'a T)>)
        requires
            old(self).wf(),
        ensures
            final(self).wf(),
            final(self).graph() == old(self).graph(),
            final(self).row() == old(self).row(),
            match r {
                Some((pos, v)) => {
                    &&& old(self).cursor() < old(self).graph().row_span(old(self).row()).1
                    &&& (pos, *v) == old(self).graph().entries()[old(self).cursor()]
                    &&& pos.0 == old(self).row()
                    &&& final(self).taken() == old(self).taken() + 1
                },
                None => {
                    &&& old(self).cursor() >= old(self).graph().row_span(old(self).row()).1
                    &&& final(self).taken() == old(self).taken()
                },
            },
    {
        let g = self.2;
        let row = self.0;
        if row >= g.rows.len() - 1 {
            return None;
        }
        let lo = g.rows[row];
        let hi = g.rows[row + 1];
        proof {
            g.lemma_entries_sorted();
            assert(g.rows@[row as int] <= g.rows@[row + 1]);
            assert(g.rows@[row + 1] <= g.rows@[g.rows@.len() - 1]);
        }
        if self.1 < hi - lo {
            let k = lo + self.1;
            proof {
                assert(in_row(g.rows@, k as int, row as int));
                lemma_row_unique(g.rows@, g.cols@.len() as int, k as int, row as int);
            }
            let col = g.cols[k];
            self.1 = self.1 + 1;
            Some(((row, col), &g.data[k]))
        } else {
            None
        }
    }

    /// The number of entries of the row from the cursor on.
    pub fn count(&self) -> (n: usize)
        requires
            self.wf(),
        ensures
            n == if self.cursor() < self.graph().row_span(self.row()).1 {
                self.graph().row_span(self.row()).1 - self.cursor()
            } else {
                0
            },
    {
        let g = self.2;
        let row = self.0;
        if row >= g.rows.len() - 1 {
            return 0;
        }
        let lo = g.rows[row];
        let hi = g.rows[row + 1];
        proof {
            assert(g.rows@[row as int] <= g.rows@[row + 1]);
        }
        if self.1 < hi - lo {
            hi - lo - self.1
        } else {
            0
        }
    }

    /// The bounds on the number of entries from the cursor on: both are that
    /// number.
    pub fn size_hint(&self) -> (r: (usize, Option<usize>))
        requires
            self.wf(),
        ensures
            r.1 == Some(r.0),
            r.0 == if self.cursor() < self.graph().row_span(self.row()).1 {
                self.graph().row_span(self.row()).1 - self.cursor()
            } else {
                0
            },
    {
        let n = self.count();
        (n, Some(n))
    }

    /// Passes over `n` entries of the row and gives the one after them;
    /// `None`, with the cursor at the end of the row, if fewer than `n + 1`
    /// entries are left.
    pub fn nth(&mut self, n: usize) -> (r: Option<((usize, usize), &'a T)>)
        requires
            old(self).wf(),
        ensures
            final(self).wf(),
            final(self).graph() == old(self).graph(),
            final(self).row() == old(self).row(),
            match r {
                Some((pos, v)) => {
                    &&& old(self).cursor() + n < old(self).graph().row_span(old(self).row()).1
                    &&& (pos, *v) == old(self).graph().entries()[old(self).cursor() + n]
                    &&& pos.0 == old(self).row()
                    &&& final(self).taken() == old(self).taken() + n + 1
                },
                None => {
                    &&& old(self).cursor() + n >= old(self).graph().row_span(old(self).row()).1
                    &&& final(self).cursor() >= old(self).graph().row_span(old(self).row()).1
                },
            },
    {
        let left = self.count();
        if n < left {
            self.1 = self.1 + n;
        } else {
            self.1 = self.1 + left;
        }
        self.next()
    }

    /// The last entry of the row, if the cursor has not passed it. The cursor
    /// ends up behind the last entry of the row.
    pub fn last(&mut self) -> (r: Option<((usize, usize), &'a T)>)
        requires
            old(self).wf(),
        ensures
            final(self).wf(),
            final(self).graph() == old(self).graph(),
            final(self).row() == old(self).row(),
            final(self).cursor() >= old(self).graph().row_span(old(self).row()).1,
            match r {
                Some((pos, v)) => {
                    &&& old(self).cursor() < old(self).graph().row_span(old(self).row()).1
                    &&& (pos, *v) == old(self).graph().entries()[old(self).graph().row_span(
                        old(self).row(),
                    ).1 - 1]
                    &&& pos.0 == old(self).row()
                },
                None => old(self).cursor() >= old(self).graph().row_span(old(self).row()).1,
            },
    {
        let left = self.count();
        if left > 0 {
            self.1 = self.1 + (left - 1);
        }
        self.next()
    }
}

impl<'a, T> ColIter<'a, T> {
    /// The matrix that the cursor walks.
    pub closed spec fn graph(&self) -> &'a CsrGraph<T> {
        self.2
    }

    /// The column that the cursor walks.
    pub closed spec fn col(&self) -> usize {
        self.0
    }

    /// The place from which the next entry of the column is looked for.
    pub closed spec fn cursor(&self) -> int {
        self.1 as int
    }

    /// The matrix is well formed.
    pub closed spec fn wf(&self) -> bool {
        self.2.wf()
    }

    /// The next entry of the column, in the order of the rows, and the cursor
    /// moves past it; `None` when no row after the cursor has one.
    pub fn next(&mut self) -> (r: Option<((usize, usize), &'a T)>)
        requires
            old(self).wf(),
        ensures
            final(self).wf(),
            final(self).graph() == old(self).graph(),
            final(self).col() == old(self).col(),
            old(self).cursor() <= final(self).cursor(),
            forall|j: int|
                old(self).cursor() <= j < final(self).cursor() - (if r is Some {
                    1int
                } else {
                    0int
                }) && j < old(self).graph().entries().len() ==> old(self).graph().entries()[j].0.1
                    != old(self).col(),
            match r {
                Some((pos, v)) => {
                    &&& final(self).cursor() <= old(self).graph().entries().len()
                    &&& (pos, *v) == old(self).graph().entries()[final(self).cursor() - 1]
                    &&& pos.1 == old(self).col()
                },
                None => final(self).cursor() >= old(self).graph().entries().len(),
            },
    {
        let g = self.2;
        let col = self.0;
        while self.1 < g.cols.len()
            invariant
                g == old(self).2,
                g.wf(),
                self.2 == g,
                self.0 == col,
                col == old(self).0,
                old(self).1 <= self.1,
                forall|j: int|
                    old(self).1 <= j < self.1 && j < g.entries().len() ==> g.entries()[j].0.1
                        != col,
            decreases g.cols@.len() - self.1,
        {
            let k = self.1;
            self.1 = k + 1;
            if g.cols[k] == col {
                let row = g.row_at(k);
                return Some(((row, col), &g.data[k]));
            }
        }
        None
    }
}

} // verus!
