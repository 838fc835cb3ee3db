//! The metadata store: an image of the persisted table of
//! (migration id, pending flag) rows.
//!
//! The binary reads the real table into a [`MetaTable`] and mirrors every
//! change the engine makes back to the database. `pending = true` means the
//! up script has not been applied (or has been reverted); `false` means
//! applied. The table is the single source of truth for "has this migration
//! run" — never for ordering.

use vstd::prelude::*;

use crate::error::MigrError;
use crate::text::str_eq;
use vstd::pervasive::VecAdditionalExecFns;

verus! {

/// One row of the metadata table.
#[derive(Debug, Clone)]
pub struct MetaRow {
    /// The migration id: the migration's directory name.
    pub id: String,
    /// Whether the up script still has to run.
    pub pending: bool,
}

/// The ids of a sequence of rows.
pub open spec fn row_ids(rows: Seq<MetaRow>) -> Seq<Seq<char>> {
    rows.map_values(|r: MetaRow| r.id@)
}

/// Index of the first row with the given id, or a negative value when no
/// row has it.
pub open spec fn row_index(rows: Seq<MetaRow>, id: Seq<char>) -> int
    decreases rows.len(),
{
    if rows.len() == 0 {
        -1
    } else if rows[0].id@ == id {
        0
    } else {
        let r = row_index(rows.drop_first(), id);
        if r < 0 {
            -1
        } else {
            r + 1
        }
    }
}

/// What a [`row_index`] result means, row by row.
pub proof fn lemma_row_index(rows: Seq<MetaRow>, id: Seq<char>)
    ensures
        row_index(rows, id) < 0 ==> forall|j: int|
            0 <= j < rows.len() ==> (#[trigger] rows[j]).id@ != id,
        row_index(rows, id) >= 0 ==> {
            &&& row_index(rows, id) < rows.len()
            &&& rows[row_index(rows, id)].id@ == id
            &&& forall|j: int| 0 <= j < row_index(rows, id) ==> (#[trigger] rows[j]).id@ != id
        },
    decreases rows.len(),
{
    if rows.len() == 0 {
    } else if rows[0].id@ == id {
    } else {
        lemma_row_index(rows.drop_first(), id);
        let t = rows.drop_first();
        let r = row_index(t, id);
        if r < 0 {
            assert forall|j: int| 0 <= j < rows.len() implies (#[trigger] rows[j]).id@ != id by {
                if j > 0 {
                    assert(rows[j] == t[j - 1]);
                }
            }
        } else {
            assert(rows[r + 1] == t[r]);
            assert forall|j: int| 0 <= j < r + 1 implies (#[trigger] rows[j]).id@ != id by {
                if j > 0 {
                    assert(rows[j] == t[j - 1]);
                }
            }
        }
    }
}

/// A row with the id exists exactly when [`row_index`] finds one.
pub proof fn lemma_row_index_exists(rows: Seq<MetaRow>, id: Seq<char>)
    ensures
        (row_index(rows, id) >= 0) <==> (exists|j: int|
            0 <= j < rows.len() && (#[trigger] rows[j]).id@ == id),
{
    lemma_row_index(rows, id);
    if row_index(rows, id) >= 0 {
        assert(rows[row_index(rows, id)].id@ == id);
    }
}

/// If `rows[i]` is the first row with `id`, [`row_index`] returns `i`.
pub proof fn lemma_row_index_at(rows: Seq<MetaRow>, id: Seq<char>, i: int)
    requires
        0 <= i < rows.len(),
        rows[i].id@ == id,
        forall|j: int| 0 <= j < i ==> (#[trigger] rows[j]).id@ != id,
    ensures
        row_index(rows, id) == i,
    decreases i,
{
    if i == 0 {
    } else {
        lemma_row_index_at(rows.drop_first(), id, i - 1);
    }
}

/// The rows left after deleting every row with the given id, in order.
pub open spec fn remove_rows(rows: Seq<MetaRow>, id: Seq<char>) -> Seq<MetaRow>
    decreases rows.len(),
{
    if rows.len() == 0 {
        rows
    } else {
        let rest = remove_rows(rows.drop_last(), id);
        if rows.last().id@ == id {
            rest
        } else {
            rest.push(rows.last())
        }
    }
}

/// Deleting an id keeps exactly the rows with other ids.
pub proof fn lemma_remove_rows(rows: Seq<MetaRow>, id: Seq<char>)
    ensures
        forall|r: MetaRow|
            remove_rows(rows, id).contains(r) <==> rows.contains(r) && r.id@ != id,
        row_index(remove_rows(rows, id), id) < 0,
        rows.len() >= remove_rows(rows, id).len(),
        row_index(rows, id) < 0 ==> remove_rows(rows, id) =~= rows,
    decreases rows.len(),
{
    lemma_row_index(rows, id);
    lemma_row_index(remove_rows(rows, id), id);
    if rows.len() == 0 {
    } else {
        let head = rows.drop_last();
        lemma_remove_rows(head, id);
        lemma_row_index(head, id);
        assert forall|r: MetaRow| rows.contains(r) implies r == rows.last() || head.contains(
            r,
        ) by {
            let w = choose|w: int| 0 <= w < rows.len() && rows[w] == r;
            if w < rows.len() - 1 {
                assert(head[w] == r);
            }
        }
        assert(forall|r: MetaRow| head.contains(r) ==> rows.contains(r));
        if rows.last().id@ == id {
            assert(rows.contains(rows.last()));
        } else {
            let rest = remove_rows(head, id);
            assert forall|r: MetaRow|
                #[trigger] remove_rows(rows, id).contains(r) implies rows.contains(r) && r.id@
                != id by {
                let w = choose|w: int| 0 <= w < rest.push(rows.last()).len() && rest.push(
                    rows.last(),
                )[w] == r;
                if w < rest.len() {
                    assert(rest.contains(r));
                }
            }
            assert forall|r: MetaRow| rows.contains(r) && r.id@ != id implies remove_rows(
                rows,
                id,
            ).contains(r) by {
                if head.contains(r) {
                    assert(rest.contains(r));
                    let w = choose|w: int| 0 <= w < rest.len() && rest[w] == r;
                    assert(rest.push(rows.last())[w] == r);
                } else {
                    assert(rest.push(rows.last()).last() == r);
                }
            }
            let out = remove_rows(rows, id);
            lemma_row_index(out, id);
            if row_index(out, id) >= 0 {
                assert(out.contains(out[row_index(out, id)]));
            }
        }
        if row_index(rows, id) < 0 {
            assert(rows.last().id@ != id) by {
                assert(rows[rows.len() - 1].id@ != id);
            }
            assert(row_index(head, id) < 0) by {
                if row_index(head, id) >= 0 {
                    let w = row_index(head, id);
                    assert(rows[w].id@ == id);
                }
            }
            assert(remove_rows(rows, id) =~= rows);
        }
    }
}

/// An in-memory image of the metadata table.
#[derive(Debug, Clone)]
pub struct MetaTable {
    rows: Vec<MetaRow>,
}

impl View for MetaTable {
    type V = Seq<MetaRow>;

    closed spec fn view(&self) -> Seq<MetaRow> {
        self.rows@
    }
}

impl MetaTable {
    /// The table is well formed: the primary key holds, no id twice.
    pub open spec fn wf(self) -> bool {
        row_ids(self@).no_duplicates()
    }

    /// Whether a row with this id exists.
    pub open spec fn spec_has(self, id: Seq<char>) -> bool {
        row_index(self@, id) >= 0
    }

    /// The pending flag of the first row with this id.
    pub open spec fn spec_pending(self, id: Seq<char>) -> bool {
        self@[row_index(self@, id)].pending
    }

    /// A table with no rows, as `sync` creates when none exists.
    pub fn new_empty() -> (t: MetaTable)
        ensures
            t@ =~= Seq::<MetaRow>::empty(),
            t.wf(),
    {
        let t = MetaTable { rows: Vec::new() };
        proof {
            assert(row_ids(t@) =~= Seq::<Seq<char>>::empty());
        }
        t
    }

    /// The table `setup` creates: one reserved bootstrap row, pending.
    pub fn new_initialized() -> (t: MetaTable)
        ensures
            t@.len() == 1,
            t@[0].id@ == initial_id_spec(),
            t@[0].pending == true,
            t.wf(),
    {
        let mut rows: Vec<MetaRow> = Vec::new();
        rows.push(MetaRow { id: initial_id().to_owned(), pending: true });
        let t = MetaTable { rows };
        proof {
            assert(row_ids(t@).no_duplicates());
        }
        t
    }

    /// The pending flag of the row with this id, if the row exists.
    pub fn pending_of(&self, id: &str) -> (r: Option<bool>)
        ensures
            match r {
                Some(p) => self.spec_has(id@) && p == self.spec_pending(id@),
                None => !self.spec_has(id@),
            },
    {
        proof {
            lemma_row_index(self@, id@);
        }
        let mut i: usize = 0;
        while i < self.rows.len()
            invariant
                i <= self@.len(),
                self@ == self.rows@,
                forall|j: int| 0 <= j < i ==> (#[trigger] self@[j]).id@ != id@,
            decreases self@.len() - i,
        {
            if str_eq(self.rows[i].id.as_str(), id) {
                proof {
                    lemma_row_index_at(self@, id@, i as int);
                }
                return Some(self.rows[i].pending);
            }
            i += 1;
        }
        None
    }

    /// Whether a row with this id exists.
    pub fn has(&self, id: &str) -> (b: bool)
        ensures
            b == self.spec_has(id@),
    {
        self.pending_of(id).is_some()
    }

    /// How many rows have this id: one or none, by the primary key.
    pub fn count(&self, id: &str) -> (n: usize)
        ensures
            n == (if self.spec_has(id@) {
                1int
            } else {
                0int
            }),
    {
        if self.has(id) {
            1
        } else {
            0
        }
    }

    /// Inserts a fresh pending row, or reports the id already present.
    pub fn insert(&mut self, id: String) -> (r: Result<(), MigrError>)
        ensures
            r is Ok <==> !old(self).spec_has(id@),
            match r {
                Ok(_) => final(self)@ =~= old(self)@.push(
                    (MetaRow { id: id, pending: true }),
                ),
                Err(e) => {
                    &&& final(self)@ =~= old(self)@
                    &&& e matches MigrError::DuplicateId { id: d } && d@ == id@
                },
            },
            old(self).wf() ==> final(self).wf(),
    {
        proof {
            lemma_row_index(self@, id@);
        }
        if self.has(id.as_str()) {
            return Err(MigrError::DuplicateId { id });
        }
        let ghost pre = self@;
        proof {
            assert(self@[row_index(self@, id@)].id@ != id@ ==> true);
        }
        self.rows.push(MetaRow { id, pending: true });
        proof {
            if row_ids(pre).no_duplicates() {
                assert(row_ids(self@) =~= row_ids(pre).push(self@.last().id@));
                assert forall|m: int, n: int|
                    0 <= m < n < row_ids(self@).len() implies row_ids(self@)[m] != row_ids(
                    self@,
                )[n] by {
                    lemma_row_index(pre, id@);
                    if n < row_ids(self@).len() - 1 {
                        assert(row_ids(pre)[m] != row_ids(pre)[n]);
                    } else {
                        assert(pre[m].id@ != id@);
                    }
                }
            }
        }
        Ok(())
    }

    /// Stores the flag for an id: every row with that id takes the value,
    /// every other row keeps what it had. Ids and order do not change.
    pub fn set_pending(&mut self, id: &str, value: bool)
        ensures
            final(self)@.len() == old(self)@.len(),
            forall|j: int|
                0 <= j < old(self)@.len() ==> (#[trigger] final(self)@[j]).id == old(
                    self,
                )@[j].id,
            forall|j: int|
                0 <= j < old(self)@.len() ==> (#[trigger] final(self)@[j]).pending == (if old(
                    self,
                )@[j].id@ == id@ {
                    value
                } else {
                    old(self)@[j].pending
                }),
            old(self).wf() ==> final(self).wf(),
    {
        let ghost pre = self@;
        let n = self.rows.len();
        let mut i: usize = 0;
        while i < n
            invariant
                n == self.rows@.len(),
                i <= n,
                self.rows@.len() == pre.len(),
                forall|j: int| 0 <= j < pre.len() ==> (#[trigger] self.rows@[j]).id == pre[j].id,
                forall|j: int|
                    0 <= j < i ==> (#[trigger] self.rows@[j]).pending == (if pre[j].id@ == id@ {
                        value
                    } else {
                        pre[j].pending
                    }),
                forall|j: int| i <= j < pre.len() ==> (#[trigger] self.rows@[j]) == pre[j],
            decreases n - i,
        {
            if str_eq(self.rows[i].id.as_str(), id) {
                let owned = self.rows[i].id.clone();
                self.rows.set(i, MetaRow { id: owned, pending: value });
            }
            i += 1;
        }
        proof {
            if row_ids(pre).no_duplicates() {
                assert(row_ids(self@) =~= row_ids(pre));
            }
        }
    }

    /// Deletes every row with this id, keeping the rest in order.
    pub fn delete(&mut self, id: &str)
        ensures
            final(self)@ =~= remove_rows(old(self)@, id@),
            old(self).wf() ==> final(self).wf(),
    {
        let ghost pre = self@;
        let mut kept: Vec<MetaRow> = Vec::new();
        let mut i: usize = 0;
        proof {
            assert(pre.take(0) =~= Seq::<MetaRow>::empty());
        }
        while i < self.rows.len()
            invariant
                i <= self.rows@.len(),
                self.rows@ == pre,
                kept@ =~= remove_rows(pre.take(i as int), id@),
            decreases self.rows@.len() - i,
        {
            let keep = !str_eq(self.rows[i].id.as_str(), id);
            if keep {
                kept.push(MetaRow { id: self.rows[i].id.clone(), pending: self.rows[i].pending });
                assert(kept@.last() == pre[i as int]);
            }
            proof {
                assert(pre.take(i + 1).drop_last() =~= pre.take(i as int));
                assert(pre.take(i + 1).last() == pre[i as int]);
            }
            i += 1;
        }
        proof {
            assert(pre.take(pre.len() as int) =~= pre);
        }
        self.rows = kept;
        proof {
            if row_ids(pre).no_duplicates() {
                lemma_remove_rows(pre, id@);
                let out = self@;
                assert forall|m: int, n: int| 0 <= m < n < out.len() implies row_ids(out)[m]
                    != row_ids(out)[n] by {
                    lemma_remove_rows_positions(pre, id@, m, n);
                }
            }
        }
    }

    /// The rows themselves, for the binary to display or mirror.
    pub fn rows_vec(&self) -> (r: &Vec<MetaRow>)
        ensures
            r@ == self@,
    {
        &self.rows
    }

    /// A table over the given rows; the caller shows the primary key holds.
    pub fn from_rows(rows: Vec<MetaRow>) -> (t: MetaTable)
        requires
            row_ids(rows@).no_duplicates(),
        ensures
            t@ == rows@,
            t.wf(),
    {
        MetaTable { rows }
    }
}

/// Kept rows descend from distinct positions of the original, in order.
proof fn lemma_remove_rows_positions(rows: Seq<MetaRow>, id: Seq<char>, m: int, n: int)
    requires
        row_ids(rows).no_duplicates(),
        0 <= m < n < remove_rows(rows, id).len(),
    ensures
        remove_rows(rows, id)[m].id@ != remove_rows(rows, id)[n].id@,
    decreases rows.len(),
{
    let out = remove_rows(rows, id);
    if rows.len() == 0 {
    } else {
        let head = rows.drop_last();
        assert(row_ids(head).no_duplicates()) by {
            assert forall|x: int, y: int|
                0 <= x < y < row_ids(head).len() implies row_ids(head)[x] != row_ids(
                head,
            )[y] by {
                assert(row_ids(rows)[x] != row_ids(rows)[y]);
                assert(head[x] == rows[x] && head[y] == rows[y]);
            }
        }
        if rows.last().id@ == id {
            lemma_remove_rows_positions(head, id, m, n);
        } else {
            let rest = remove_rows(head, id);
            if n < rest.len() {
                lemma_remove_rows_positions(head, id, m, n);
            } else {
                // the last kept row is rows.last(); the earlier one descends
                // from the head, whose ids all differ from the last row's
                assert(out[n] == rows.last());
                assert(rest.contains(out[m])) by {
                    assert(rest[m] == out[m]);
                }
                lemma_remove_rows(head, id);
                assert(head.contains(out[m]));
                let w = choose|w: int| 0 <= w < head.len() && head[w] == out[m];
                assert(row_ids(rows)[w] != row_ids(rows)[rows.len() - 1]);
                assert(rows[w] == head[w]);
            }
        }
    }
}

/// The reserved id of the bootstrap migration seeded by `setup`.
pub open spec fn initial_id_spec() -> Seq<char> {
    "0000000000_pg_migrator"@
}

/// The reserved id of the bootstrap migration seeded by `setup`.
pub fn initial_id() -> (r: &'static str)
    ensures
        r@ == initial_id_spec(),
{
    "0000000000_pg_migrator"
}

/// Creates the metadata table once: with a table already present the
/// operator is told to `sync` instead, and nothing changes.
pub fn setup(table: Option<&MetaTable>) -> (r: Result<MetaTable, MigrError>)
    ensures
        r is Ok <==> table is None,
        match r {
            Ok(t) => {
                &&& t@.len() == 1
                &&& t@[0].id@ == initial_id_spec()
                &&& t@[0].pending == true
                &&& t.wf()
            },
            Err(e) => e is AlreadyInitialized,
        },
{
    match table {
        None => Ok(MetaTable::new_initialized()),
        Some(_) => Err(MigrError::AlreadyInitialized),
    }
}

/// Loads the states of exactly the given ids, in the given order.
///
/// Succeeds exactly when every id has a row — divergence between disk and
/// metadata is reported as missing metadata, recovered by `sync`.
pub fn load_states(table: &MetaTable, ids: &Vec<String>) -> (r: Result<Vec<MetaRow>, MigrError>)
    ensures
        r is Ok <==> forall|j: int|
            0 <= j < ids@.len() ==> table.spec_has((#[trigger] ids@[j])@),
        match r {
            Ok(states) => {
                &&& states@.len() == ids@.len()
                &&& forall|j: int|
                    0 <= j < ids@.len() ==> (#[trigger] states@[j]).id@ == ids@[j]@
                &&& forall|j: int|
                    0 <= j < ids@.len() ==> (#[trigger] states@[j]).pending == table.spec_pending(
                        ids@[j]@,
                    )
            },
            Err(e) => e is MetadataMissing,
        },
{
    let mut states: Vec<MetaRow> = Vec::new();
    let mut i: usize = 0;
    while i < ids.len()
        invariant
            i <= ids@.len(),
            states@.len() == i,
            forall|j: int| 0 <= j < i ==> table.spec_has((#[trigger] ids@[j])@),
            forall|j: int| 0 <= j < i ==> (#[trigger] states@[j]).id@ == ids@[j]@,
            forall|j: int|
                0 <= j < i ==> (#[trigger] states@[j]).pending == table.spec_pending(ids@[j]@),
        decreases ids@.len() - i,
    {
        match table.pending_of(ids[i].as_str()) {
            Some(p) => {
                states.push(MetaRow { id: ids[i].clone(), pending: p });
            },
            None => {
                return Err(MigrError::MetadataMissing);
            },
        }
        i += 1;
    }
    Ok(states)
}

} // verus!
