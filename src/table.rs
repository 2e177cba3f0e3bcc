//! Result rows as maps from column name to value, and the decoding of delimited
//! text into a `QueryResult`.
use vstd::prelude::*;
use crate::cell::{Cell, CellV, infer, infer_cell};

verus! {

/// The model of a list of `(name, value)` entries: later entries win.
pub open spec fn entries_map(s: Seq<(Seq<char>, CellV)>) -> Map<Seq<char>, CellV>
    decreases s.len(),
{
    if s.len() == 0 {
        Map::empty()
    } else {
        entries_map(s.drop_last()).insert(s.last().0, s.last().1)
    }
}

pub open spec fn keys_unique(s: Seq<(Seq<char>, CellV)>) -> bool {
    forall|i: int, j: int| 0 <= i < j < s.len() ==> #[trigger] s[i].0 != #[trigger] s[j].0
}

/// One result row: each column name at most once.
#[derive(Debug)]
pub struct Row {
    pub entries: Vec<(String, Cell)>,
}

impl Row {
    /// The entries as names and values.
    pub open spec fn entries_view(&self) -> Seq<(Seq<char>, CellV)> {
        Seq::new(self.entries@.len(), |i: int| (self.entries@[i].0@, self.entries@[i].1@))
    }

    /// No column name occurs twice.
    pub open spec fn wf(&self) -> bool {
        keys_unique(self.entries_view())
    }

    /// An empty row.
    pub fn new() -> (r: Row)
        ensures
            r.wf(),
            r@ == Map::<Seq<char>, CellV>::empty(),
    {
        let r = Row { entries: Vec::new() };
        assert(r.entries_view() =~= Seq::<(Seq<char>, CellV)>::empty());
        r
    }

    /// Position of `key` among the entries.
    fn find(&self, key: &String) -> (r: Option<usize>)
        ensures
            match r {
                Some(i) => i < self.entries@.len() && self.entries_view()[i as int].0 == key@,
                None => forall|i: int|
                    0 <= i < self.entries@.len() ==> #[trigger] self.entries_view()[i].0 != key@,
            },
    {
        let mut i: usize = 0;
        while i < self.entries.len()
            invariant
                i <= self.entries@.len(),
                forall|j: int| 0 <= j < i ==> #[trigger] self.entries_view()[j].0 != key@,
            decreases self.entries@.len() - i,
        {
            if self.entries[i].0 == *key {
                return Some(i);
            }
            i = i + 1;
        }
        None
    }

    /// The value under `key`, if the row has one.
    pub fn get(&self, key: &String) -> (r: Option<&Cell>)
        requires
            self.wf(),
        ensures
            match r {
                Some(c) => self@.contains_key(key@) && self@[key@] == c@,
                None => !self@.contains_key(key@),
            },
    {
        proof {
            lemma_entries_map_lookup(self.entries_view());
        }
        match self.find(key) {
            Some(i) => Some(&self.entries[i].1),
            None => None,
        }
    }

    /// Sets `key` to `value`, replacing what it held.
    pub fn set(&mut self, key: String, value: Cell)
        requires
            old(self).wf(),
        ensures
            final(self).wf(),
            final(self)@ == old(self)@.insert(key@, value@),
    {
        let ghost before = self.entries_view();
        match self.find(&key) {
            Some(i) => {
                let ghost kv = key@;
                let ghost vv = value@;
                self.entries.set(i, (key, value));
                assert(self.entries_view() =~= before.update(i as int, (kv, vv)));
                proof {
                    lemma_entries_map_update(before, i as int, kv, vv);
                }
            },
            None => {
                let ghost kv = key@;
                let ghost vv = value@;
                self.entries.push((key, value));
                assert(self.entries_view() =~= before.push((kv, vv)));
                assert(self.entries_view().drop_last() =~= before);
            },
        }
    }

    /// A copy of the row.
    pub fn copy(&self) -> (r: Row)
        requires
            self.wf(),
        ensures
            r.wf(),
            r@ == self@,
            r.entries_view() == self.entries_view(),
    {
        let mut entries: Vec<(String, Cell)> = Vec::new();
        let mut i: usize = 0;
        while i < self.entries.len()
            invariant
                i <= self.entries@.len(),
                entries@.len() == i,
                forall|j: int|
                    0 <= j < i ==> (#[trigger] entries@[j]).0@ == self.entries@[j].0@
                        && entries@[j].1@ == self.entries@[j].1@,
            decreases self.entries@.len() - i,
        {
            entries.push((self.entries[i].0.clone(), self.entries[i].1.copy()));
            i = i + 1;
        }
        let r = Row { entries };
        assert(r.entries_view() =~= self.entries_view());
        r
    }

    /// Column names of the row, in the order they were set.
    pub fn keys(&self) -> (r: Vec<String>)
        ensures
            r@.len() == self.entries@.len(),
            forall|i: int| 0 <= i < r@.len() ==> #[trigger] r@[i]@ == self.entries_view()[i].0,
    {
        let mut r: Vec<String> = Vec::new();
        let mut i: usize = 0;
        while i < self.entries.len()
            invariant
                i <= self.entries@.len(),
                r@.len() == i,
                forall|j: int| 0 <= j < i ==> #[trigger] r@[j]@ == self.entries_view()[j].0,
            decreases self.entries@.len() - i,
        {
            r.push(self.entries[i].0.clone());
            i = i + 1;
        }
        r
    }
}

impl View for Row {
    type V = Map<Seq<char>, CellV>;

    open spec fn view(&self) -> Map<Seq<char>, CellV> {
        entries_map(self.entries_view())
    }
}

/// A key is in the model exactly when some entry has it; with unique keys that
/// entry's value is the one the model holds.
pub proof fn lemma_entries_map_lookup(s: Seq<(Seq<char>, CellV)>)
    ensures
        forall|k: Seq<char>| #[trigger]
            entries_map(s).contains_key(k) <==> exists|i: int| 0 <= i < s.len() && s[i].0 == k,
        keys_unique(s) ==> forall|i: int|
            0 <= i < s.len() ==> #[trigger] entries_map(s)[s[i].0] == s[i].1,
    decreases s.len(),
{
    if s.len() > 0 {
        let t = s.drop_last();
        lemma_entries_map_lookup(t);
        assert forall|k: Seq<char>| #[trigger]
            entries_map(s).contains_key(k) <==> exists|i: int| 0 <= i < s.len() && s[i].0 == k by {
            assert(entries_map(t).contains_key(k) <==> exists|i: int|
                0 <= i < t.len() && t[i].0 == k);
            if k == s.last().0 {
                assert(s[s.len() - 1].0 == k);
            } else {
                if entries_map(s).contains_key(k) {
                    assert(entries_map(t).contains_key(k));
                    let i = choose|i: int| 0 <= i < t.len() && t[i].0 == k;
                    assert(s[i] == t[i]);
                }
                if exists|i: int| 0 <= i < s.len() && s[i].0 == k {
                    let i = choose|i: int| 0 <= i < s.len() && s[i].0 == k;
                    assert(i < t.len());
                    assert(t[i] == s[i]);
                    assert(entries_map(t).contains_key(k));
                }
            }
        }
        if keys_unique(s) {
            assert(keys_unique(t)) by {
                assert forall|a: int, b: int| 0 <= a < b < t.len() implies #[trigger] t[a].0
                    != #[trigger] t[b].0 by {
                    assert(s[a].0 != s[b].0);
                }
            }
            assert forall|i: int| 0 <= i < s.len() implies #[trigger] entries_map(s)[s[i].0]
                == s[i].1 by {
                if i < t.len() {
                    assert(t[i] == s[i]);
                    assert(s[i].0 != s[s.len() - 1].0);
                    assert(entries_map(t)[t[i].0] == t[i].1);
                }
            }
        }
    }
}

/// Replacing the value of an existing key acts on the model as an insert.
pub proof fn lemma_entries_map_update(s: Seq<(Seq<char>, CellV)>, i: int, k: Seq<char>, v: CellV)
    requires
        keys_unique(s),
        0 <= i < s.len(),
        s[i].0 == k,
    ensures
        entries_map(s.update(i, (k, v))) == entries_map(s).insert(k, v),
        keys_unique(s.update(i, (k, v))),
    decreases s.len(),
{
    let u = s.update(i, (k, v));
    assert(keys_unique(u)) by {
        assert forall|a: int, b: int| 0 <= a < b < u.len() implies #[trigger] u[a].0
            != #[trigger] u[b].0 by {
            assert(s[a].0 != s[b].0);
        }
    }
    if i == s.len() - 1 {
        assert(u.drop_last() =~= s.drop_last());
        assert(entries_map(u) =~= entries_map(s).insert(k, v));
    } else {
        let t = s.drop_last();
        assert(keys_unique(t));
        lemma_entries_map_update(t, i, k, v);
        assert(u.drop_last() =~= t.update(i, (k, v)));
        assert(s.last().0 != k);
        assert(entries_map(u) =~= entries_map(s).insert(k, v));
    }
}

/// The name of column `j` under `headers`: empty past the last header.
pub open spec fn header_at(headers: Seq<Seq<char>>, j: int) -> Seq<char> {
    if j < headers.len() {
        headers[j]
    } else {
        Seq::empty()
    }
}

/// The row that the first `n` fields of a record stand for under `headers`.
pub open spec fn record_row(headers: Seq<Seq<char>>, fields: Seq<Seq<char>>, n: int) -> Map<
    Seq<char>,
    CellV,
>
    decreases n,
{
    if n <= 0 {
        Map::empty()
    } else {
        record_row(headers, fields, n - 1).insert(header_at(headers, n - 1), infer(fields[n - 1]))
    }
}

pub open spec fn strings_view(v: Seq<String>) -> Seq<Seq<char>> {
    v.map_values(|s: String| s@)
}

pub open spec fn records_view(v: Seq<Vec<String>>) -> Seq<Seq<Seq<char>>> {
    v.map_values(|r: Vec<String>| strings_view(r@))
}

/// Columns, rows, and the number of rows of a query.
#[derive(Debug)]
pub struct QueryResult {
    pub columns: Vec<String>,
    pub rows: Vec<Row>,
    pub total_rows: usize,
}

impl QueryResult {
    /// Every row is well formed and the count matches the rows.
    pub open spec fn wf(&self) -> bool {
        &&& self.total_rows == self.rows@.len()
        &&& forall|i: int| 0 <= i < self.rows@.len() ==> #[trigger] self.rows@[i].wf()
    }

    /// A result without columns or rows.
    pub fn empty() -> (r: QueryResult)
        ensures
            r.wf(),
            r.columns@.len() == 0,
            r.rows@.len() == 0,
    {
        QueryResult { columns: Vec::new(), rows: Vec::new(), total_rows: 0 }
    }
}

/// The row that a record of text fields stands for under `headers`: each field
/// typed by `infer` and set under its header.
pub fn decode_record(headers: &Vec<String>, fields: &Vec<String>) -> (r: Row)
    ensures
        r.wf(),
        r@ == record_row(strings_view(headers@), strings_view(fields@), fields@.len() as int),
{
    let ghost hv = strings_view(headers@);
    let ghost fv = strings_view(fields@);
    let mut row = Row::new();
    let mut j: usize = 0;
    while j < fields.len()
        invariant
            j <= fields@.len(),
            hv == strings_view(headers@),
            fv == strings_view(fields@),
            row.wf(),
            row@ == record_row(hv, fv, j as int),
        decreases fields@.len() - j,
    {
        let name = if j < headers.len() {
            headers[j].clone()
        } else {
            String::new()
        };
        assert(name@ == header_at(hv, j as int));
        let value = infer_cell(fields[j].as_str());
        row.set(name, value);
        j = j + 1;
    }
    row
}

/// `r` holds, in order, the rows that `records` stand for under `headers`, with
/// the columns in header order.
pub open spec fn decodes_to(
    r: QueryResult,
    headers: Seq<Seq<char>>,
    records: Seq<Seq<Seq<char>>>,
) -> bool {
    &&& r.wf()
    &&& strings_view(r.columns@) == headers
    &&& r.rows@.len() == records.len()
    &&& forall|i: int|
        0 <= i < records.len() ==> #[trigger] r.rows@[i]@ == record_row(
            headers,
            records[i],
            records[i].len() as int,
        )
}

/// The rows that `records` stand for under `headers`, in order, with the columns
/// in header order.
pub fn decode_table(headers: &Vec<String>, records: &Vec<Vec<String>>) -> (r: QueryResult)
    ensures
        decodes_to(r, strings_view(headers@), records_view(records@)),
{
    let mut rows: Vec<Row> = Vec::new();
    let mut i: usize = 0;
    while i < records.len()
        invariant
            i <= records@.len(),
            rows@.len() == i,
            forall|k: int| 0 <= k < i ==> #[trigger] rows@[k].wf(),
            forall|k: int|
                0 <= k < i ==> #[trigger] rows@[k]@ == record_row(
                    strings_view(headers@),
                    strings_view(records@[k]@),
                    records@[k]@.len() as int,
                ),
        decreases records@.len() - i,
    {
        let row = decode_record(headers, &records[i]);
        rows.push(row);
        i = i + 1;
    }
    let mut columns: Vec<String> = Vec::new();
    let mut c: usize = 0;
    while c < headers.len()
        invariant
            c <= headers@.len(),
            columns@.len() == c,
            forall|k: int| 0 <= k < c ==> #[trigger] columns@[k]@ == headers@[k]@,
        decreases headers@.len() - c,
    {
        columns.push(headers[c].clone());
        c = c + 1;
    }
    assert(strings_view(columns@) =~= strings_view(headers@));
    assert forall|k: int| 0 <= k < records@.len() implies #[trigger] records_view(records@)[k]
        == strings_view(records@[k]@) by {}
    let n = rows.len();
    QueryResult { columns, rows, total_rows: n }
}

} // verus!
