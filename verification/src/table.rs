//! Tables of rows with a primary key.
use vstd::prelude::*;

verus! {

/// A row of a table: its key is what it is found by.
pub trait Record: View {
    type Key;

    /// The key of a row.
    spec fn key(row: <Self as View>::V) -> Self::Key;
}

/// Rows of which no two have the same key.
#[derive(Debug)]
pub struct Table<R> {
    pub rows: Vec<R>,
}

/// Whether a row has the key.
pub open spec fn has_key<R: Record>(rows: Seq<R>, key: R::Key, i: int) -> bool {
    0 <= i < rows.len() && R::key(rows[i]@) == key
}

/// The rows by their keys.
pub open spec fn by_key<R: Record>(rows: Seq<R>) -> Map<R::Key, <R as View>::V> {
    Map::new(
        |k: R::Key| exists|i: int| has_key(rows, k, i),
        |k: R::Key| rows[choose|i: int| has_key(rows, k, i)]@,
    )
}

impl<R: Record> View for Table<R> {
    type V = Map<R::Key, <R as View>::V>;

    open spec fn view(&self) -> Map<R::Key, <R as View>::V> {
        by_key(self.rows@)
    }
}

impl<R: Record> Table<R> {
    /// No two rows have the same key.
    pub open spec fn wf(self) -> bool {
        forall|i: int, j: int|
            0 <= i < j < self.rows@.len() ==> R::key(#[trigger] self.rows@[i]@) != R::key(
                #[trigger] self.rows@[j]@,
            )
    }

    /// The row at an index is the one that its key names.
    pub proof fn lemma_row(self, i: int)
        requires
            self.wf(),
            0 <= i < self.rows@.len(),
        ensures
            self@.dom().contains(R::key(self.rows@[i]@)),
            self@[R::key(self.rows@[i]@)] == self.rows@[i]@,
    {
        let k = R::key(self.rows@[i]@);
        assert(has_key(self.rows@, k, i));
        let j = choose|j: int| has_key(self.rows@, k, j);
        assert(has_key(self.rows@, k, j));
        if i != j {
            if i < j {
                assert(R::key(self.rows@[i]@) != R::key(self.rows@[j]@));
            } else {
                assert(R::key(self.rows@[j]@) != R::key(self.rows@[i]@));
            }
        }
    }

    /// An empty table.
    pub fn new() -> (r: Table<R>)
        ensures
            r.wf(),
            r@ == Map::<R::Key, <R as View>::V>::empty(),
    {
        let r = Table { rows: Vec::new() };
        assert(r@ =~= Map::empty());
        r
    }

    /// Adds a row with a new key.
    pub fn insert(&mut self, row: R)
        requires
            old(self).wf(),
            !old(self)@.dom().contains(R::key(row@)),
        ensures
            final(self).wf(),
            final(self)@ == old(self)@.insert(R::key(row@), row@),
    {
        let ghost before = *self;
        let ghost n = self.rows@.len() as int;
        self.rows.push(row);
        proof {
            let after = *self;
            assert forall|i: int, j: int| 0 <= i < j < after.rows@.len() implies R::key(
                #[trigger] after.rows@[i]@,
            ) != R::key(#[trigger] after.rows@[j]@) by {
                assert(after.rows@[i] == before.rows@[i]);
                if j == n {
                    if R::key(before.rows@[i]@) == R::key(row@) {
                        assert(has_key(before.rows@, R::key(row@), i));
                    }
                } else {
                    assert(after.rows@[j] == before.rows@[j]);
                }
            }
            assert forall|k: R::Key| #[trigger] after@.dom().contains(k) == before@.insert(
                R::key(row@),
                row@,
            ).dom().contains(k) by {
                if k == R::key(row@) {
                    assert(has_key(after.rows@, k, n));
                }
                if before@.dom().contains(k) {
                    let i = choose|i: int| has_key(before.rows@, k, i);
                    assert(has_key(after.rows@, k, i));
                }
                if after@.dom().contains(k) && k != R::key(row@) {
                    let i = choose|i: int| has_key(after.rows@, k, i);
                    assert(has_key(before.rows@, k, i));
                }
            }
            assert forall|k: R::Key| #[trigger] after@.dom().contains(k) implies after@[k]
                == before@.insert(R::key(row@), row@)[k] by {
                let i = choose|i: int| has_key(after.rows@, k, i);
                after.lemma_row(i);
                if i < n {
                    before.lemma_row(i);
                }
            }
            assert(after@ =~= before@.insert(R::key(row@), row@));
        }
    }

    /// Replaces a row by one with the same key.
    pub fn replace(&mut self, i: usize, row: R)
        requires
            old(self).wf(),
            i < old(self).rows@.len(),
            R::key(old(self).rows@[i as int]@) == R::key(row@),
        ensures
            final(self).wf(),
            final(self)@ == old(self)@.insert(R::key(row@), row@),
            final(self)@.dom() == old(self)@.dom(),
            final(self).rows@ == old(self).rows@.update(i as int, row),
    {
        let ghost before = *self;
        self.rows.set(i, row);
        proof {
            let after = *self;
            assert forall|j: int| 0 <= j < after.rows@.len() implies R::key(
                #[trigger] after.rows@[j]@,
            ) == R::key(before.rows@[j]@) by {}
            assert forall|k: R::Key, j: int| #[trigger] has_key(after.rows@, k, j) == has_key(
                before.rows@,
                k,
                j,
            ) by {}
            before.lemma_row(i as int);
            assert forall|k: R::Key| #[trigger] after@.dom().contains(k) == before@.dom().contains(
                k,
            ) by {
                if before@.dom().contains(k) {
                    let j = choose|j: int| has_key(before.rows@, k, j);
                    assert(has_key(after.rows@, k, j));
                }
                if after@.dom().contains(k) {
                    let j = choose|j: int| has_key(after.rows@, k, j);
                    assert(has_key(before.rows@, k, j));
                }
            }
            assert forall|k: R::Key| #[trigger] after@.dom().contains(k) implies after@[k]
                == before@.insert(R::key(row@), row@)[k] by {
                let j = choose|j: int| has_key(after.rows@, k, j);
                after.lemma_row(j);
                before.lemma_row(j);
            }
            assert(after@ =~= before@.insert(R::key(row@), row@));
            assert(after@.dom() =~= before@.dom());
        }
    }

    /// Removes a row.
    pub fn remove(&mut self, i: usize)
        requires
            old(self).wf(),
            i < old(self).rows@.len(),
        ensures
            final(self).wf(),
            final(self)@ == old(self)@.remove(R::key(old(self).rows@[i as int]@)),
    {
        let ghost before = *self;
        let ghost key = R::key(self.rows@[i as int]@);
        self.rows.remove(i);
        proof {
            let after = *self;
            assert forall|j: int| 0 <= j < after.rows@.len() implies #[trigger] after.rows@[j]
                == before.rows@[if j < i {
                j
            } else {
                j + 1
            }] by {}
            assert forall|k: R::Key| #[trigger] after@.dom().contains(k) == before@.remove(
                key,
            ).dom().contains(k) by {
                if after@.dom().contains(k) {
                    let j = choose|j: int| has_key(after.rows@, k, j);
                    let b = if j < i {
                        j
                    } else {
                        j + 1
                    };
                    assert(after.rows@[j] == before.rows@[b]);
                    assert(has_key(before.rows@, k, b));
                    if k == key {
                        assert(R::key(before.rows@[i as int]@) == R::key(before.rows@[b]@));
                    }
                }
                if before@.dom().contains(k) && k != key {
                    let b = choose|b: int| has_key(before.rows@, k, b);
                    let j = if b < i {
                        b
                    } else {
                        b - 1
                    };
                    assert(after.rows@[j] == before.rows@[b]);
                    assert(has_key(after.rows@, k, j));
                }
            }
            assert forall|k: R::Key| #[trigger] after@.dom().contains(k) implies after@[k]
                == before@[k] by {
                let j = choose|j: int| has_key(after.rows@, k, j);
                let b = if j < i {
                    j
                } else {
                    j + 1
                };
                assert(after.rows@[j] == before.rows@[b]);
                after.lemma_row(j);
                before.lemma_row(b);
            }
            assert(after@ =~= before@.remove(key));
        }
    }

    /// There are as many keys as rows.
    pub proof fn lemma_count(self)
        requires
            self.wf(),
        ensures
            self@.dom().finite(),
            self@.dom().len() == self.rows@.len(),
    {
        let keys = Seq::new(self.rows@.len(), |i: int| R::key(self.rows@[i]@));
        assert(keys.no_duplicates());
        keys.unique_seq_to_set();
        assert forall|k: R::Key| self@.dom().contains(k) == #[trigger] keys.to_set().contains(
            k,
        ) by {
            if self@.dom().contains(k) {
                let i = choose|i: int| has_key(self.rows@, k, i);
                assert(keys[i] == k);
            }
            if keys.contains(k) {
                let i = choose|i: int| 0 <= i < keys.len() && keys[i] == k;
                assert(has_key(self.rows@, k, i));
            }
        }
        assert(self@.dom() =~= keys.to_set());
    }
}

/// Whether a list is in order.
pub open spec fn in_order<T>(list: Seq<T>, less: spec_fn(T, T) -> bool) -> bool {
    forall|i: int, j: int| 0 <= i < j < list.len() ==> #[trigger] less(list[i], list[j])
}

/// Things can be listed in order in one way only.
pub proof fn lemma_one_order<T>(a: Seq<T>, b: Seq<T>, less: spec_fn(T, T) -> bool)
    requires
        in_order(a, less),
        in_order(b, less),
        forall|x: T, y: T| #[trigger] less(x, y) ==> !less(y, x),
        forall|x: T| #[trigger] a.contains(x) <==> b.contains(x),
    ensures
        a == b,
    decreases a.len(),
{
    if a.len() == 0 {
        if b.len() > 0 {
            assert(b.contains(b[0]));
            assert(a.contains(b[0]));
        }
        assert(a =~= b);
    } else {
        assert(a.contains(a[0]));
        assert(b.contains(a[0]));
        let j = choose|j: int| 0 <= j < b.len() && b[j] == a[0];
        assert(b.contains(b[0]));
        assert(a.contains(b[0]));
        let i = choose|i: int| 0 <= i < a.len() && a[i] == b[0];
        if j > 0 {
            assert(less(b[0], b[j]));
            if i > 0 {
                assert(less(a[0], a[i]));
            }
        }
        assert(a[0] == b[0]);
        let x = a.skip(1);
        let y = b.skip(1);
        assert forall|m: int, n: int| 0 <= m < n < x.len() implies #[trigger] less(x[m], x[n]) by {
            assert(less(a[m + 1], a[n + 1]));
        }
        assert forall|m: int, n: int| 0 <= m < n < y.len() implies #[trigger] less(y[m], y[n]) by {
            assert(less(b[m + 1], b[n + 1]));
        }
        assert forall|v: T| #[trigger] x.contains(v) <==> y.contains(v) by {
            if x.contains(v) {
                let m = choose|m: int| 0 <= m < x.len() && x[m] == v;
                assert(a[m + 1] == v);
                assert(less(a[0], a[m + 1]));
                assert(a.contains(v));
                assert(b.contains(v));
                let n = choose|n: int| 0 <= n < b.len() && b[n] == v;
                assert(n > 0);
                assert(y[n - 1] == v);
            }
            if y.contains(v) {
                let m = choose|m: int| 0 <= m < y.len() && y[m] == v;
                assert(b[m + 1] == v);
                assert(less(b[0], b[m + 1]));
                assert(b.contains(v));
                assert(a.contains(v));
                let n = choose|n: int| 0 <= n < a.len() && a[n] == v;
                assert(n > 0);
                assert(x[n - 1] == v);
            }
        }
        lemma_one_order(x, y, less);
        assert(a =~= seq![a[0]] + x);
        assert(b =~= seq![b[0]] + y);
    }
}

} // verus!
