//! The synchronizer: reconciling on-disk migrations with the metadata
//! table, without executing any SQL script.
//!
//! An operator may hand-edit the migrations directory — add, remove,
//! rename. `sync` makes the metadata agree again: every directory gets a
//! pending row if it has none; with `trim`, every row with no matching
//! directory is deleted. Existing rows keep their pending flag. When no
//! metadata table exists yet, `sync` creates an empty one rather than
//! failing: it is the recovery path.

use vstd::prelude::*;

use crate::meta::{
    lemma_row_index, lemma_row_index_at, lemma_row_index_exists, row_ids, row_index, MetaRow,
    MetaTable,
};
use crate::repo::{contains_str, lemma_sorted_ids_no_dup, sort_ids, sorted_ids, views};

verus! {

/// The rows kept by a sync pass: with `trim`, only those whose id names a
/// directory on disk; without, all of them. Order and flags are kept.
pub open spec fn kept_rows(rows: Seq<MetaRow>, names: Seq<Seq<char>>, trim: bool) -> Seq<MetaRow>
    decreases rows.len(),
{
    if rows.len() == 0 {
        rows
    } else {
        let rest = kept_rows(rows.drop_last(), names, trim);
        if !trim || names.contains(rows.last().id@) {
            rest.push(rows.last())
        } else {
            rest
        }
    }
}

/// The ids a sync pass inserts: those of `sorted` with no row yet, in
/// their canonical ascending order.
pub open spec fn missing_ids(sorted: Seq<Seq<char>>, rows: Seq<MetaRow>) -> Seq<Seq<char>>
    decreases sorted.len(),
{
    if sorted.len() == 0 {
        sorted
    } else {
        let rest = missing_ids(sorted.drop_last(), rows);
        if row_index(rows, sorted.last()) < 0 {
            rest.push(sorted.last())
        } else {
            rest
        }
    }
}

/// The ids a trimming sync deletes: those of rows naming no directory on
/// disk, in row order.
pub open spec fn orphan_ids(rows: Seq<MetaRow>, names: Seq<Seq<char>>) -> Seq<Seq<char>>
    decreases rows.len(),
{
    if rows.len() == 0 {
        Seq::empty()
    } else {
        let rest = orphan_ids(rows.drop_last(), names);
        if names.contains(rows.last().id@) {
            rest
        } else {
            rest.push(rows.last().id@)
        }
    }
}

/// How a sync result relates to the rows and directory names it saw: the
/// kept rows unchanged and in order, then one fresh pending row per
/// missing id, ascending.
pub open spec fn sync_shape(
    rows: Seq<MetaRow>,
    names: Seq<Seq<char>>,
    trim: bool,
    out: Seq<MetaRow>,
) -> bool {
    let kept = kept_rows(rows, names, trim);
    let miss = missing_ids(sorted_ids(names), rows);
    &&& out.len() == kept.len() + miss.len()
    &&& forall|j: int| 0 <= j < kept.len() ==> out[j] == kept[j]
    &&& forall|j: int|
        0 <= j < miss.len() ==> (#[trigger] out[kept.len() + j]).id@ == miss[j] && out[kept.len()
            + j].pending == true
}

/// The work a sync pass leaves the database layer: whether the table had
/// to be created, which ids to insert as pending, which rows to delete.
#[derive(Debug)]
pub struct SyncPlan {
    /// The metadata table did not exist and was created empty.
    pub created: bool,
    /// Ids to insert with `pending = true`, ascending; inserting an id
    /// that appeared meanwhile must stay a no-op.
    pub inserts: Vec<String>,
    /// Ids whose rows to delete, in row order; empty without `trim`.
    pub deletes: Vec<String>,
}

/// The rows of an optional table; none stands for an absent table.
pub open spec fn table_rows(table: Option<MetaTable>) -> Seq<MetaRow> {
    match table {
        Some(t) => t@,
        None => Seq::empty(),
    }
}

/// Membership in the kept rows.
proof fn lemma_kept_rows_set(rows: Seq<MetaRow>, names: Seq<Seq<char>>, trim: bool)
    ensures
        forall|r: MetaRow| #[trigger]
            kept_rows(rows, names, trim).contains(r) <==> rows.contains(r) && (!trim
                || names.contains(r.id@)),
        kept_rows(rows, names, trim).len() <= rows.len(),
        !trim ==> kept_rows(rows, names, trim) =~= rows,
    decreases rows.len(),
{
    if rows.len() == 0 {
    } else {
        let head = rows.drop_last();
        lemma_kept_rows_set(head, names, trim);
        let rest = kept_rows(head, names, trim);
        let out = kept_rows(rows, names, trim);
        assert forall|r: MetaRow| rows.contains(r) implies r == rows.last() || head.contains(
            r,
        ) by {
            let w = choose|w: int| 0 <= w < rows.len() && rows[w] == r;
            if w < rows.len() - 1 {
                assert(head[w] == r);
            }
        }
        assert(forall|r: MetaRow| head.contains(r) ==> rows.contains(r));
        if !trim || names.contains(rows.last().id@) {
            assert(out == rest.push(rows.last()));
            assert forall|r: MetaRow| #[trigger] out.contains(r) implies rows.contains(r) && (
            !trim || names.contains(r.id@)) by {
                let w = choose|w: int| 0 <= w < out.len() && out[w] == r;
                if w < rest.len() {
                    assert(rest.contains(r));
                } else {
                    assert(r == rows.last());
                    assert(rows.contains(rows.last()));
                }
            }
            assert forall|r: MetaRow| rows.contains(r) && (!trim || names.contains(r.id@))
                implies #[trigger] out.contains(r) by {
                if head.contains(r) {
                    assert(rest.contains(r));
                    let w = choose|w: int| 0 <= w < rest.len() && rest[w] == r;
                    assert(out[w] == r);
                } else {
                    assert(out.last() == r);
                }
            }
            if !trim {
                assert(out =~= rows);
            }
        } else {
            assert(rows.contains(rows.last()));
            assert forall|r: MetaRow| rows.contains(r) && (!trim || names.contains(r.id@))
                implies #[trigger] out.contains(r) by {
                assert(head.contains(r));
            }
        }
    }
}

/// Membership in the missing ids.
proof fn lemma_missing_ids_set(sorted: Seq<Seq<char>>, rows: Seq<MetaRow>)
    ensures
        forall|x: Seq<char>| #[trigger]
            missing_ids(sorted, rows).contains(x) <==> sorted.contains(x) && row_index(rows, x)
                < 0,
    decreases sorted.len(),
{
    if sorted.len() == 0 {
    } else {
        let head = sorted.drop_last();
        lemma_missing_ids_set(head, rows);
        let rest = missing_ids(head, rows);
        let out = missing_ids(sorted, rows);
        assert forall|x: Seq<char>| sorted.contains(x) implies x == sorted.last()
            || head.contains(x) by {
            let w = choose|w: int| 0 <= w < sorted.len() && sorted[w] == x;
            if w < sorted.len() - 1 {
                assert(head[w] == x);
            }
        }
        assert(forall|x: Seq<char>| head.contains(x) ==> sorted.contains(x));
        if row_index(rows, sorted.last()) < 0 {
            assert(out == rest.push(sorted.last()));
            assert forall|x: Seq<char>| #[trigger] out.contains(x) implies sorted.contains(x)
                && row_index(rows, x) < 0 by {
                let w = choose|w: int| 0 <= w < out.len() && out[w] == x;
                if w < rest.len() {
                    assert(rest.contains(x));
                } else {
                    assert(sorted.contains(sorted.last()));
                }
            }
            assert forall|x: Seq<char>| sorted.contains(x) && row_index(rows, x) < 0
                implies #[trigger] out.contains(x) by {
                if head.contains(x) {
                    assert(rest.contains(x));
                    let w = choose|w: int| 0 <= w < rest.len() && rest[w] == x;
                    assert(out[w] == x);
                } else {
                    assert(out.last() == x);
                }
            }
        } else {
            assert(sorted.contains(sorted.last()));
            assert forall|x: Seq<char>| sorted.contains(x) && row_index(rows, x) < 0
                implies #[trigger] out.contains(x) by {
                assert(head.contains(x));
            }
        }
    }
}

/// With distinct ids to scan, the missing ids stay distinct.
proof fn lemma_missing_ids_no_dup(sorted: Seq<Seq<char>>, rows: Seq<MetaRow>)
    requires
        sorted.no_duplicates(),
    ensures
        missing_ids(sorted, rows).no_duplicates(),
    decreases sorted.len(),
{
    if sorted.len() > 0 {
        let head = sorted.drop_last();
        assert(head.no_duplicates()) by {
            assert forall|x: int, y: int|
                0 <= x < y < head.len() implies head[x] != head[y] by {
                assert(sorted[x] != sorted[y]);
            }
        }
        lemma_missing_ids_no_dup(head, rows);
        lemma_missing_ids_set(head, rows);
        let rest = missing_ids(head, rows);
        if row_index(rows, sorted.last()) < 0 {
            assert(!rest.contains(sorted.last())) by {
                if rest.contains(sorted.last()) {
                    assert(head.contains(sorted.last()));
                    let w = choose|w: int| 0 <= w < head.len() && head[w] == sorted.last();
                    assert(sorted[w] == sorted[sorted.len() - 1]);
                }
            }
            assert forall|x: int, y: int|
                0 <= x < y < rest.push(sorted.last()).len() implies rest.push(sorted.last())[x]
                != rest.push(sorted.last())[y] by {
                if y < rest.len() {
                    assert(rest[x] != rest[y]);
                } else {
                    assert(rest.contains(rest[x]));
                }
            }
        }
    }
}

/// Kept rows descend from distinct positions of the original, in order.
proof fn lemma_kept_rows_positions(
    rows: Seq<MetaRow>,
    names: Seq<Seq<char>>,
    trim: bool,
    m: int,
    n: int,
)
    requires
        row_ids(rows).no_duplicates(),
        0 <= m < n < kept_rows(rows, names, trim).len(),
    ensures
        kept_rows(rows, names, trim)[m].id@ != kept_rows(rows, names, trim)[n].id@,
    decreases rows.len(),
{
    let out = kept_rows(rows, names, trim);
    if rows.len() == 0 {
    } else {
        let head = rows.drop_last();
        assert(row_ids(head).no_duplicates()) by {
            assert forall|x: int, y: int|
                0 <= x < y < row_ids(head).len() implies row_ids(head)[x] != row_ids(
                head,
            )[y] by {
                assert(row_ids(rows)[x] != row_ids(rows)[y]);
                assert(head[x] == rows[x] && head[y] == rows[y]);
            }
        }
        let rest = kept_rows(head, names, trim);
        if !trim || names.contains(rows.last().id@) {
            if n < rest.len() {
                lemma_kept_rows_positions(head, names, trim, m, n);
            } else {
                assert(out[n] == rows.last());
                assert(rest.contains(out[m])) by {
                    assert(rest[m] == out[m]);
                }
                lemma_kept_rows_set(head, names, trim);
                assert(head.contains(out[m]));
                let w = choose|w: int| 0 <= w < head.len() && head[w] == out[m];
                assert(rows[w] == head[w]);
                assert(row_ids(rows)[w] == rows[w].id@);
                assert(row_ids(rows)[rows.len() - 1] == rows[rows.len() - 1].id@);
                assert(row_ids(rows)[w] != row_ids(rows)[rows.len() - 1]);
            }
        } else {
            lemma_kept_rows_positions(head, names, trim, m, n);
        }
    }
}

/// A sync result keeps the primary key: no id twice.
pub proof fn lemma_sync_wf(
    rows: Seq<MetaRow>,
    names: Seq<Seq<char>>,
    trim: bool,
    out: Seq<MetaRow>,
)
    requires
        row_ids(rows).no_duplicates(),
        names.no_duplicates(),
        sync_shape(rows, names, trim, out),
    ensures
        row_ids(out).no_duplicates(),
{
    let kept = kept_rows(rows, names, trim);
    let miss = missing_ids(sorted_ids(names), rows);
    lemma_sorted_ids_no_dup(names);
    lemma_missing_ids_no_dup(sorted_ids(names), rows);
    lemma_missing_ids_set(sorted_ids(names), rows);
    lemma_kept_rows_set(rows, names, trim);
    assert forall|x: int, y: int|
        0 <= x < y < row_ids(out).len() implies row_ids(out)[x] != row_ids(out)[y] by {
        if y < kept.len() {
            lemma_kept_rows_positions(rows, names, trim, x, y);
        } else if x >= kept.len() {
            let a = x - kept.len();
            let b = y - kept.len();
            assert(miss[a] != miss[b]);
            assert(out[kept.len() + a].id@ == miss[a]);
            assert(out[kept.len() + b].id@ == miss[b]);
        } else {
            // a kept row against an inserted one: the kept id has a row in
            // the original, the inserted id has none
            assert(out[x] == kept[x]);
            assert(kept.contains(kept[x])) by {
                assert(kept[x] == kept[x]);
            }
            assert(rows.contains(kept[x]));
            let w = choose|w: int| 0 <= w < rows.len() && rows[w] == kept[x];
            lemma_row_index_exists(rows, kept[x].id@);
            assert(row_index(rows, kept[x].id@) >= 0);
            let b = y - kept.len();
            assert(out[kept.len() + b].id@ == miss[b]);
            assert(miss.contains(miss[b]));
            assert(row_index(rows, miss[b]) < 0);
        }
    }
}

/// Reconciles the metadata table with the migration directories on disk.
///
/// Keeps every row whose directory still exists — and, without `trim`,
/// every row at all — with its pending flag untouched; appends a pending
/// row for every directory that had none; with `trim`, drops the rows
/// whose directory is gone. The returned plan holds exactly the inserts
/// and deletes the database needs, and whether the table had to be
/// created.
pub fn sync(trim: bool, names: &Vec<String>, table: Option<MetaTable>) -> (r: (MetaTable, SyncPlan))
    requires
        views(names@).no_duplicates(),
        table matches Some(t) ==> t.wf(),
    ensures
        sync_shape(table_rows(table), views(names@), trim, r.0@),
        r.0.wf(),
        views(r.1.inserts@) =~= missing_ids(sorted_ids(views(names@)), table_rows(table)),
        views(r.1.deletes@) =~= (if trim {
            orphan_ids(table_rows(table), views(names@))
        } else {
            Seq::<Seq<char>>::empty()
        }),
        r.1.created == (table is None),
{
    let ghost nv = views(names@);
    let (t0, created) = match table {
        Some(t) => (t, false),
        None => (MetaTable::new_empty(), true),
    };
    let ghost rows0 = t0@;
    let rows = t0.rows_vec();
    let mut kept: Vec<MetaRow> = Vec::new();
    let mut deletes: Vec<String> = Vec::new();
    let mut i: usize = 0;
    proof {
        assert(rows0.take(0) =~= Seq::<MetaRow>::empty());
        assert(kept@ =~= kept_rows(rows0.take(0), nv, trim));
        assert(views(deletes@) =~= Seq::<Seq<char>>::empty());
    }
    while i < rows.len()
        invariant
            i <= rows@.len(),
            nv == views(names@),
            rows@ == rows0,
            kept@ =~= kept_rows(rows0.take(i as int), nv, trim),
            views(deletes@) =~= (if trim {
                orphan_ids(rows0.take(i as int), nv)
            } else {
                Seq::<Seq<char>>::empty()
            }),
        decreases rows@.len() - i,
    {
        let present = contains_str(names, rows[i].id.as_str());
        if !trim || present {
            kept.push(MetaRow { id: rows[i].id.clone(), pending: rows[i].pending });
            assert(kept@.last() == rows0[i as int]);
        } else {
            deletes.push(rows[i].id.clone());
        }
        proof {
            assert(rows0.take(i + 1).drop_last() =~= rows0.take(i as int));
            assert(rows0.take(i + 1).last() == rows0[i as int]);
            if trim && !present {
                assert(views(deletes@) =~= orphan_ids(rows0.take(i + 1), nv));
            }
        }
        i += 1;
    }
    proof {
        assert(rows0.take(rows0.len() as int) =~= rows0);
    }
    let sorted = sort_ids(names);
    let ghost kept_snap = kept@;
    let mut inserts: Vec<String> = Vec::new();
    let mut out_rows = kept;
    let mut k: usize = 0;
    proof {
        assert(views(sorted@).take(0) =~= Seq::<Seq<char>>::empty());
        assert(views(inserts@) =~= Seq::<Seq<char>>::empty());
    }
    while k < sorted.len()
        invariant
            k <= sorted@.len(),
            views(sorted@) == sorted_ids(nv),
            out_rows@.len() == kept_snap.len() + missing_ids(views(sorted@).take(k as int),
                rows0,
            ).len(),
            forall|j: int| 0 <= j < kept_snap.len() ==> out_rows@[j] == kept_snap[j],
            forall|j: int|
                0 <= j < missing_ids(views(sorted@).take(k as int), rows0).len() ==> {
                    &&& (#[trigger] out_rows@[kept_snap.len() + j]).id@ == missing_ids(
                        views(sorted@).take(k as int),
                        rows0,
                    )[j]
                    &&& out_rows@[kept_snap.len() + j].pending == true
                },
            views(inserts@) =~= missing_ids(views(sorted@).take(k as int), rows0),
            t0@ == rows0,
        decreases sorted@.len() - k,
    {
        let absent = !t0.has(sorted[k].as_str());
        proof {
            assert(views(sorted@).take(k + 1).drop_last() =~= views(sorted@).take(k as int));
            assert(views(sorted@).take(k + 1).last() == views(sorted@)[k as int]);
        }
        if absent {
            out_rows.push(MetaRow { id: sorted[k].clone(), pending: true });
            inserts.push(sorted[k].clone());
        }
        k += 1;
    }
    proof {
        assert(views(sorted@).take(sorted@.len() as int) =~= views(sorted@));
        assert(sync_shape(rows0, nv, trim, out_rows@));
        lemma_sync_wf(rows0, nv, trim, out_rows@);
    }
    let out = MetaTable::from_rows(out_rows);
    (out, SyncPlan { created, inserts, deletes })
}

/// Idempotence law: a second `sync(false)` over an unchanged directory set
/// finds nothing to keep back, nothing to insert, and leaves the table
/// exactly as the first pass left it.
pub proof fn lemma_sync_idempotent(
    rows: Seq<MetaRow>,
    names: Seq<Seq<char>>,
    t1: Seq<MetaRow>,
    t2: Seq<MetaRow>,
)
    requires
        sync_shape(rows, names, false, t1),
        sync_shape(t1, names, false, t2),
    ensures
        t2 =~= t1,
{
    let sorted = sorted_ids(names);
    let miss1 = missing_ids(sorted, rows);
    lemma_kept_rows_set(rows, names, false);
    lemma_kept_rows_set(t1, names, false);
    lemma_missing_ids_set(sorted, rows);
    assert(t1.len() == rows.len() + miss1.len());
    assert forall|x: int| 0 <= x < sorted.len() implies row_index(t1, #[trigger] sorted[x])
        >= 0 by {
        lemma_row_index_exists(rows, sorted[x]);
        lemma_row_index_exists(t1, sorted[x]);
        if row_index(rows, sorted[x]) >= 0 {
            let w = choose|w: int| 0 <= w < rows.len() && rows[w].id@ == sorted[x];
            assert(t1[w] == rows[w]);
        } else {
            assert(sorted.contains(sorted[x]));
            assert(miss1.contains(sorted[x]));
            let w = choose|w: int| 0 <= w < miss1.len() && miss1[w] == sorted[x];
            assert(t1[rows.len() + w].id@ == sorted[x]);
        }
    }
    lemma_missing_ids_all_present(sorted, t1);
    assert(missing_ids(sorted, t1).len() == 0);
    assert(t2.len() == t1.len());
    assert forall|j: int| 0 <= j < t1.len() implies t2[j] == t1[j] by {
        assert(kept_rows(t1, names, false) =~= t1);
    }
}

/// Ids all present leave nothing missing.
proof fn lemma_missing_ids_all_present(sorted: Seq<Seq<char>>, rows: Seq<MetaRow>)
    requires
        forall|x: int| 0 <= x < sorted.len() ==> row_index(rows, #[trigger] sorted[x]) >= 0,
    ensures
        missing_ids(sorted, rows).len() == 0,
    decreases sorted.len(),
{
    if sorted.len() > 0 {
        let head = sorted.drop_last();
        assert forall|x: int| 0 <= x < head.len() implies row_index(rows, #[trigger] head[x])
            >= 0 by {
            assert(head[x] == sorted[x]);
        }
        lemma_missing_ids_all_present(head, rows);
        assert(row_index(rows, sorted[sorted.len() - 1]) >= 0);
    }
}

/// Trim law: a directory gone from disk loses its metadata row under
/// `sync(true)`, and keeps it — flag untouched — under `sync(false)`.
pub proof fn lemma_sync_trim(
    rows: Seq<MetaRow>,
    names: Seq<Seq<char>>,
    trim: bool,
    out: Seq<MetaRow>,
    x: Seq<char>,
)
    requires
        sync_shape(rows, names, trim, out),
        row_index(rows, x) >= 0,
        !names.contains(x),
    ensures
        trim ==> row_index(out, x) < 0,
        !trim ==> {
            &&& row_index(out, x) >= 0
            &&& out[row_index(out, x)] == rows[row_index(rows, x)]
        },
{
    let kept = kept_rows(rows, names, trim);
    let miss = missing_ids(sorted_ids(names), rows);
    lemma_kept_rows_set(rows, names, trim);
    lemma_missing_ids_set(sorted_ids(names), rows);
    lemma_sorted_ids_no_dup_free(names);
    lemma_row_index(rows, x);
    if trim {
        lemma_row_index(out, x);
        if row_index(out, x) >= 0 {
            let w = row_index(out, x);
            assert(out[w].id@ == x);
            if w < kept.len() {
                assert(out[w] == kept[w]);
                assert(kept.contains(kept[w])) by {
                    assert(kept[w] == kept[w]);
                }
                assert(names.contains(kept[w].id@));
            } else {
                let j = w - kept.len();
                assert(0 <= j < miss.len());
                assert(out[kept.len() + j].id@ == miss[j]);
                assert(miss.contains(miss[j]));
                assert(sorted_ids(names).contains(x));
            }
        }
    } else {
        assert(kept =~= rows);
        let w = row_index(rows, x);
        assert(out[w] == rows[w]);
        lemma_row_index_at(out, x, w);
    }
}

/// The canonical order holds no id that the names do not.
proof fn lemma_sorted_ids_no_dup_free(names: Seq<Seq<char>>)
    ensures
        forall|x: Seq<char>| #[trigger]
            sorted_ids(names).contains(x) ==> names.contains(x),
{
    crate::repo::lemma_id_le_total();
    names.lemma_sort_by_ensures(crate::repo::id_le());
    assert forall|x: Seq<char>| #[trigger] sorted_ids(names).contains(x) implies names.contains(
        x,
    ) by {
        if !names.contains(x) {
            assert(!sorted_ids(names).contains(x));
        }
    }
}

} // verus!
