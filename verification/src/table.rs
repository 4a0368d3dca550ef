//! Rows kept under an id, in ascending id order.

use vstd::prelude::*;

verus! {

/// The rows of one kind that the pool keeps, each under its id.
#[derive(Debug)]
pub struct Table<T> {
    pub rows: Vec<(u64, T)>,
}

impl<T: View> View for Table<T> {
    type V = Seq<(u64, T::V)>;

    open spec fn view(&self) -> Seq<(u64, T::V)> {
        self.rows@.map_values(|row: (u64, T)| (row.0, row.1@))
    }
}

/// Ids grow strictly from row to row.
pub open spec fn ascending<V>(rows: Seq<(u64, V)>) -> bool {
    forall|i: int, j: int| 0 <= i < j < rows.len() ==> (#[trigger] rows[i]).0 < (#[trigger] rows[j]).0
}

/// The first place, counting from `i`, that does not hold an id below `id`.
pub open spec fn position_from<V>(rows: Seq<(u64, V)>, id: int, i: int) -> int
    decreases rows.len() - i,
{
    if i >= rows.len() || rows[i].0 >= id {
        i
    } else {
        position_from(rows, id, i + 1)
    }
}

/// How many leading rows have an id below `id`.
pub open spec fn position<V>(rows: Seq<(u64, V)>, id: int) -> int {
    position_from(rows, id, 0)
}

/// What is kept under `id`.
pub open spec fn find<V>(rows: Seq<(u64, V)>, id: u64) -> Option<V> {
    let p: int = position(rows, id as int);
    if p < rows.len() && rows[p].0 == id {
        Some(rows[p].1)
    } else {
        None
    }
}

/// The rows once `value` is kept under `id`, in place of whatever was there.
pub open spec fn put<V>(rows: Seq<(u64, V)>, id: u64, value: V) -> Seq<(u64, V)> {
    let p: int = position(rows, id as int);
    if p < rows.len() && rows[p].0 == id {
        rows.update(p, (id, value))
    } else {
        rows.insert(p, (id, value))
    }
}

/// The rows whose id is `lo` or more.
pub open spec fn rows_from<V>(rows: Seq<(u64, V)>, lo: int) -> Seq<(u64, V)> {
    rows.skip(position(rows, lo))
}

/// The rows whose id is `first` or more and `last` or less.
pub open spec fn rows_between<V>(rows: Seq<(u64, V)>, first: int, last: int) -> Seq<(u64, V)> {
    if first <= last {
        rows.subrange(position(rows, first), position(rows, last + 1))
    } else {
        Seq::empty()
    }
}

proof fn lemma_position_from<V>(rows: Seq<(u64, V)>, id: int, i: int)
    requires
        0 <= i <= rows.len(),
    ensures
        i <= position_from(rows, id, i) <= rows.len(),
        forall|j: int| i <= j < position_from(rows, id, i) ==> (#[trigger] rows[j]).0 < id,
        position_from(rows, id, i) < rows.len() ==> rows[position_from(rows, id, i)].0 >= id,
    decreases rows.len() - i,
{
    if !(i >= rows.len() || rows[i].0 >= id) {
        lemma_position_from(rows, id, i + 1);
    }
}

/// `position` splits the rows: smaller ids before it, `id` and above from it on.
pub proof fn lemma_position<V>(rows: Seq<(u64, V)>, id: int)
    requires
        ascending(rows),
    ensures
        0 <= position(rows, id) <= rows.len(),
        forall|j: int| 0 <= j < position(rows, id) ==> (#[trigger] rows[j]).0 < id,
        forall|j: int| position(rows, id) <= j < rows.len() ==> (#[trigger] rows[j]).0 >= id,
{
    lemma_position_from(rows, id, 0);
    let p: int = position(rows, id);
    assert forall|j: int| p <= j < rows.len() implies (#[trigger] rows[j]).0 >= id by {
        if j > p {
            assert(rows[p].0 < rows[j].0);
        }
    }
}

/// A place that splits the rows at `id` is `position`.
pub proof fn lemma_position_is<V>(rows: Seq<(u64, V)>, id: int, p: int)
    requires
        ascending(rows),
        0 <= p <= rows.len(),
        forall|j: int| 0 <= j < p ==> (#[trigger] rows[j]).0 < id,
        p < rows.len() ==> rows[p].0 >= id,
    ensures
        position(rows, id) == p,
{
    lemma_position(rows, id);
    let q: int = position(rows, id);
    if q < p {
        assert(rows[q].0 < id);
    }
    if p < q {
        assert(rows[p].0 < id);
    }
}

/// A later id never has an earlier place.
pub proof fn lemma_position_monotone<V>(rows: Seq<(u64, V)>, lo: int, hi: int)
    requires
        ascending(rows),
        lo <= hi,
    ensures
        0 <= position(rows, lo) <= position(rows, hi) <= rows.len(),
{
    lemma_position(rows, lo);
    lemma_position(rows, hi);
    let p: int = position(rows, lo);
    let q: int = position(rows, hi);
    if q < p {
        assert(rows[q].0 < lo);
    }
}

/// A row that is there is what `find` gives for its id.
pub proof fn lemma_find_row<V>(rows: Seq<(u64, V)>, i: int)
    requires
        ascending(rows),
        0 <= i < rows.len(),
    ensures
        find(rows, rows[i].0) == Some(rows[i].1),
{
    lemma_position_is(rows, rows[i].0 as int, i);
}

/// What `find` gives is a row that is there.
pub proof fn lemma_find_some<V>(rows: Seq<(u64, V)>, id: u64) -> (i: int)
    requires
        ascending(rows),
        find(rows, id) is Some,
    ensures
        0 <= i < rows.len(),
        rows[i] == (id, find(rows, id)->0),
{
    lemma_position(rows, id as int);
    position(rows, id as int)
}

/// Reading after `put` gives the value that was put, and leaves every other id
/// as it was.
pub proof fn lemma_put<V>(rows: Seq<(u64, V)>, id: u64, value: V)
    requires
        ascending(rows),
    ensures
        ascending(put(rows, id, value)),
        find(put(rows, id, value), id) == Some(value),
        forall|other: u64| other != id ==> #[trigger] find(put(rows, id, value), other) == find(rows, other),
        forall|i: int| 0 <= i < put(rows, id, value).len() ==> {
            ||| #[trigger] put(rows, id, value)[i] == (id, value)
            ||| rows.contains(put(rows, id, value)[i])
        },
{
    lemma_position(rows, id as int);
    let p: int = position(rows, id as int);
    let after: Seq<(u64, V)> = put(rows, id, value);
    let there: bool = p < rows.len() && rows[p].0 == id;
    assert(ascending(after)) by {
        assert forall|i: int, j: int| 0 <= i < j < after.len() implies (#[trigger] after[i]).0 < (
        #[trigger] after[j]).0 by {
            if there {
                if i != p && j != p {
                    assert(rows[i].0 < rows[j].0);
                } else if i == p {
                    assert(rows[p].0 < rows[j].0);
                } else {
                    assert(rows[i].0 < rows[p].0);
                }
            } else {
                if j < p {
                    assert(rows[i].0 < rows[j].0);
                } else if j == p {
                    assert(after[i] == rows[i]);
                } else if i > p {
                    assert(rows[i - 1].0 < rows[j - 1].0);
                } else if i == p {
                    assert(rows[j - 1].0 >= id);
                    assert(rows[p].0 != id);
                    if j - 1 > p {
                        assert(rows[p].0 < rows[j - 1].0);
                    }
                } else {
                    assert(rows[i].0 < rows[j - 1].0);
                }
            }
        }
    }
    assert(after[p] == (id, value));
    lemma_find_row(after, p);
    assert forall|other: u64| other != id implies #[trigger] find(after, other) == find(
        rows,
        other,
    ) by {
        if find(rows, other) is Some {
            let i: int = lemma_find_some(rows, other);
            let k: int = if there || i < p { i } else { i + 1 };
            assert(after[k] == rows[i]);
            lemma_find_row(after, k);
        } else if find(after, other) is Some {
            let k: int = lemma_find_some(after, other);
            let i: int = if there || k < p { k } else { k - 1 };
            assert(k != p);
            assert(after[k] == rows[i]);
            lemma_find_row(rows, i);
        }
    }
    assert forall|i: int| 0 <= i < after.len() implies {
        ||| #[trigger] after[i] == (id, value)
        ||| rows.contains(after[i])
    } by {
        if i != p {
            let k: int = if there || i < p { i } else { i - 1 };
            assert(after[i] == rows[k]);
        }
    }
}

/// An id above all others goes to the end.
pub proof fn lemma_put_last<V>(rows: Seq<(u64, V)>, id: u64, value: V)
    requires
        ascending(rows),
        forall|i: int| 0 <= i < rows.len() ==> (#[trigger] rows[i]).0 < id,
    ensures
        put(rows, id, value) == rows.push((id, value)),
{
    lemma_position_is(rows, id as int, rows.len() as int);
    assert(rows.insert(rows.len() as int, (id, value)) =~= rows.push((id, value)));
}

impl<T: View> Table<T> {
    /// A table with no rows.
    pub fn new() -> (table: Self)
        ensures
            table@ == Seq::<(u64, T::V)>::empty(),
    {
        let table: Table<T> = Table { rows: Vec::new() };
        assert(table@ =~= Seq::<(u64, T::V)>::empty());
        table
    }

    /// How many leading rows have an id below `id`.
    pub fn locate(&self, id: u64) -> (p: usize)
        ensures
            p == position(self@, id as int),
            p <= self.rows@.len(),
    {
        let mut i: usize = 0;
        while i < self.rows.len() && self.rows[i].0 < id
            invariant
                i <= self.rows@.len(),
                position(self@, id as int) == position_from(self@, id as int, i as int),
            decreases self.rows@.len() - i,
        {
            assert(self@[i as int].0 == self.rows@[i as int].0);
            i = i + 1;
        }
        if i < self.rows.len() {
            assert(self@[i as int].0 == self.rows@[i as int].0);
        }
        i
    }

    /// How many leading rows have `id` or an id below it.
    pub fn locate_after(&self, id: u64) -> (p: usize)
        ensures
            p == position(self@, id + 1),
            p <= self.rows@.len(),
    {
        let mut i: usize = 0;
        while i < self.rows.len() && self.rows[i].0 <= id
            invariant
                i <= self.rows@.len(),
                position(self@, id + 1) == position_from(self@, id + 1, i as int),
            decreases self.rows@.len() - i,
        {
            assert(self@[i as int].0 == self.rows@[i as int].0);
            i = i + 1;
        }
        if i < self.rows.len() {
            assert(self@[i as int].0 == self.rows@[i as int].0);
        }
        i
    }

    /// What is kept under `id`.
    pub fn get(&self, id: u64) -> (value: Option<&T>)
        ensures
            (match value {
                Some(v) => Some(v@),
                None => None,
            }) == find(self@, id),
    {
        let p: usize = self.locate(id);
        if p < self.rows.len() {
            assert(self@[p as int] == (self.rows@[p as int].0, self.rows@[p as int].1@));
            if self.rows[p].0 == id {
                return Some(&self.rows[p].1);
            }
        }
        None
    }

    /// Keeps `value` under `id`, in place of whatever was there.
    pub fn put(&mut self, id: u64, value: T)
        ensures
            final(self)@ == put(old(self)@, id, value@),
    {
        let p: usize = self.locate(id);
        let ghost before: Seq<(u64, T::V)> = self@;
        let ghost rows: Seq<(u64, T)> = self.rows@;
        if p < self.rows.len() && self.rows[p].0 == id {
            assert(before[p as int].0 == id);
            self.rows.set(p, (id, value));
            assert(self@ =~= before.update(p as int, (id, value@)));
        } else {
            assert(p < rows.len() ==> before[p as int].0 == rows[p as int].0);
            self.rows.insert(p, (id, value));
            assert(self@ =~= before.insert(p as int, (id, value@)));
        }
    }
}

} // verus!
