//! A table of rows, each found by its number.

use vstd::prelude::*;

verus! {

/// A row of a table.
pub trait Row: View {
    /// The number by which the row is found.
    spec fn key(&self) -> int;

    /// The number by which the row is found.
    fn id(&self) -> (r: i64)
        ensures
            r == self.key(),
    ;
}

/// Rows with different numbers.
pub struct Table<R: Row> {
    rows: Vec<R>,
}

/// Whether one of the rows has the number.
pub open spec fn has_row<R: Row>(rows: Seq<R>, id: int) -> bool {
    exists|i: int| 0 <= i < rows.len() && (#[trigger] rows[i]).key() == id
}

/// Where the row with the number stands.
pub open spec fn row_place<R: Row>(rows: Seq<R>, id: int) -> int {
    choose|i: int| 0 <= i < rows.len() && (#[trigger] rows[i]).key() == id
}

/// What the rows are, by number.
pub open spec fn rows_map<R: Row>(rows: Seq<R>) -> Map<int, R::V> {
    Map::new(|id: int| has_row(rows, id), |id: int| rows[row_place(rows, id)].view())
}

/// Whether no two rows have the same number.
pub open spec fn distinct<R: Row>(rows: Seq<R>) -> bool {
    forall|i: int, j: int|
        0 <= i < j < rows.len() ==> (#[trigger] rows[i]).key() != (#[trigger] rows[j]).key()
}

impl<R: Row> Table<R> {
    /// The rows in the order in which they are held.
    pub closed spec fn rows(&self) -> Seq<R> {
        self.rows@
    }

    /// Whether the rows have different numbers.
    pub open spec fn wf(&self) -> bool {
        distinct(self.rows())
    }

    /// What the rows are, by number.
    pub open spec fn view(&self) -> Map<int, R::V> {
        rows_map(self.rows())
    }

    /// A table without rows.
    pub fn new() -> (r: Self)
        ensures
            r.wf(),
            r@ == Map::<int, R::V>::empty(),
    {
        let r = Table { rows: Vec::new() };
        assert(r@ =~= Map::<int, R::V>::empty());
        r
    }

    /// How many rows there are.
    pub fn len(&self) -> (r: usize)
        ensures
            r == self.rows().len(),
    {
        self.rows.len()
    }

    /// The row that is held at place `i`.
    pub fn row(&self, i: usize) -> (r: &R)
        requires
            i < self.rows().len(),
        ensures
            *r == self.rows()[i as int],
    {
        &self.rows[i]
    }

    /// The rows themselves.
    pub fn into_rows(self) -> (r: Vec<R>)
        ensures
            r@ == self.rows(),
    {
        self.rows
    }

    /// Where the row with the number stands, if there is one.
    fn find(&self, id: i64) -> (r: Option<usize>)
        ensures
            match r {
                Some(i) => i < self.rows().len() && self.rows()[i as int].key() == id,
                None => !has_row(self.rows(), id as int),
            },
    {
        let mut i: usize = 0;
        while i < self.rows.len()
            invariant
                i <= self.rows@.len(),
                forall|j: int| 0 <= j < i ==> (#[trigger] self.rows@[j]).key() != id,
            decreases self.rows@.len() - i,
        {
            if self.rows[i].id() == id {
                return Some(i);
            }
            i += 1;
        }
        None
    }

    /// The row with the number.
    pub fn get(&self, id: i64) -> (r: Option<&R>)
        requires
            self.wf(),
        ensures
            match r {
                Some(row) => self@.contains_key(id as int) && self@[id as int] == row.view()
                    && row.key() == id && has_row(self.rows(), id as int),
                None => !self@.contains_key(id as int),
            },
    {
        match self.find(id) {
            Some(i) => {
                proof {
                    lemma_row_at(self.rows(), i as int);
                }
                Some(&self.rows[i])
            },
            None => None,
        }
    }

    /// Puts a row in, in place of the one with its number where there is one.
    pub fn put(&mut self, row: R)
        requires
            old(self).wf(),
        ensures
            final(self).wf(),
            final(self)@ == old(self)@.insert(row.key(), row.view()),
    {
        match self.find(row.id()) {
            Some(i) => {
                proof {
                    lemma_replace(self.rows@, i as int, row);
                }
                self.rows.set(i, row);
            },
            None => {
                proof {
                    lemma_add(self.rows@, row);
                }
                self.rows.push(row);
            },
        }
    }
}

/// The row at a place is the one that is found by its number.
pub proof fn lemma_row_at<R: Row>(rows: Seq<R>, i: int)
    requires
        distinct(rows),
        0 <= i < rows.len(),
    ensures
        rows_map(rows).contains_key(rows[i].key()),
        rows_map(rows)[rows[i].key()] == rows[i].view(),
{
    let id = rows[i].key();
    assert(has_row(rows, id));
    let k = row_place(rows, id);
    assert(k == i);
}

proof fn lemma_replace<R: Row>(rows: Seq<R>, i: int, row: R)
    requires
        distinct(rows),
        0 <= i < rows.len(),
        rows[i].key() == row.key(),
    ensures
        distinct(rows.update(i, row)),
        rows_map(rows.update(i, row)) == rows_map(rows).insert(row.key(), row.view()),
{
    let after = rows.update(i, row);
    assert(distinct(after));
    assert forall|id: int| has_row(after, id) == has_row(rows, id) by {
        if has_row(after, id) {
            let k = row_place(after, id);
            assert(rows[k].key() == id);
        }
        if has_row(rows, id) {
            let k = row_place(rows, id);
            assert(after[k].key() == id);
        }
    }
    assert(rows[i].key() == row.key());
    assert(has_row(rows, row.key()));
    assert forall|id: int| has_row(after, id) implies rows_map(after)[id] == rows_map(rows).insert(
        row.key(),
        row.view(),
    )[id] by {
        let k = row_place(after, id);
        lemma_row_at(after, k);
        lemma_row_at(rows, k);
    }
    assert(rows_map(after) =~= rows_map(rows).insert(row.key(), row.view()));
}

proof fn lemma_add<R: Row>(rows: Seq<R>, row: R)
    requires
        distinct(rows),
        !has_row(rows, row.key()),
    ensures
        distinct(rows.push(row)),
        rows_map(rows.push(row)) == rows_map(rows).insert(row.key(), row.view()),
{
    let after = rows.push(row);
    assert(distinct(after));
    assert(after[rows.len() as int].key() == row.key());
    assert forall|id: int| has_row(after, id) == (has_row(rows, id) || id == row.key()) by {
        if has_row(after, id) && id != row.key() {
            let k = row_place(after, id);
            assert(rows[k].key() == id);
        }
        if has_row(rows, id) {
            let k = row_place(rows, id);
            assert(after[k].key() == id);
        }
    }
    assert forall|id: int| has_row(after, id) implies rows_map(after)[id] == rows_map(rows).insert(
        row.key(),
        row.view(),
    )[id] by {
        let k = row_place(after, id);
        lemma_row_at(after, k);
        if k < rows.len() {
            lemma_row_at(rows, k);
        }
    }
    assert(rows_map(after) =~= rows_map(rows).insert(row.key(), row.view()));
}

} // verus!
