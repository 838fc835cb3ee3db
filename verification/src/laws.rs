//! Laws of the execution engine across whole operations: what a run
//! followed by its reverse leaves behind, what exact targeting bypasses,
//! and what a redo composes to.

use vstd::prelude::*;

use crate::engine::{
    all_true, apply_flag, due_ids, lemma_due_complete, lemma_due_single, lemma_due_sound,
    lemma_row_index_same_ids, lemma_run_all, lemma_run_effect, run_executed, run_rows,
    table_flags,
};
use crate::meta::{lemma_row_index, row_ids, row_index, MetaRow};
use crate::Direction;

verus! {

/// Up/down inverse law: take any migration the forward walk executes.
/// After running every due migration up and then every due migration down
/// — both walks unbounded and every script succeeding — its row holds its
/// original pending flag again (it was due, so that flag was pending).
pub proof fn lemma_up_down_inverse(
    rows: Seq<MetaRow>,
    ids_up: Seq<Seq<char>>,
    ids_down: Seq<Seq<char>>,
    x: Seq<char>,
)
    requires
        due_ids(ids_up, table_flags(rows, ids_up), Direction::Up, None).contains(x),
        ids_down.contains(x),
        row_index(rows, x) >= 0,
    ensures
        ({
            let up_plan = due_ids(ids_up, table_flags(rows, ids_up), Direction::Up, None);
            let t1 = run_rows(rows, up_plan, all_true(up_plan.len() as int), Direction::Up);
            let down_plan = due_ids(ids_down, table_flags(t1, ids_down), Direction::Down, None);
            let t2 = run_rows(t1, down_plan, all_true(down_plan.len() as int), Direction::Down);
            &&& rows[row_index(rows, x)].pending == true
            &&& row_index(t2, x) == row_index(rows, x)
            &&& t2[row_index(rows, x)].pending == rows[row_index(rows, x)].pending
        }),
{
    let fu = table_flags(rows, ids_up);
    let up_plan = due_ids(ids_up, fu, Direction::Up, None);
    let ou = all_true(up_plan.len() as int);
    let t1 = run_rows(rows, up_plan, ou, Direction::Up);
    let jx = row_index(rows, x);
    lemma_row_index(rows, x);
    assert(rows[jx].id@ == x);

    // the row was pending: it was due for the up walk
    lemma_due_sound(ids_up, fu, Direction::Up, None);
    assert(up_plan.contains(x));
    let j = choose|j: int|
        0 <= j < ids_up.len() && #[trigger] ids_up[j] == x && fu[j] == Direction::Up.due_pending();
    assert(fu[j] == rows[row_index(rows, ids_up[j])].pending);
    assert(rows[jx].pending == true);

    // the up walk executes its whole plan and flips the row to applied
    lemma_run_all(up_plan, ou);
    lemma_run_effect(rows, up_plan, ou, Direction::Up);
    assert(up_plan.take(up_plan.len() as int) =~= up_plan);
    assert(t1[jx].pending == Direction::Up.post_pending());
    assert(t1[jx].id == rows[jx].id);
    assert forall|w: int| 0 <= w < rows.len() implies (#[trigger] t1[w]).id@ == rows[w].id@ by {
        assert(t1[w].id == rows[w].id);
    }
    lemma_row_index_same_ids(t1, rows, x);
    assert(row_index(t1, x) == jx);

    // now applied, the row is due for the down walk
    let fd = table_flags(t1, ids_down);
    let down_plan = due_ids(ids_down, fd, Direction::Down, None);
    let i2 = choose|i2: int| 0 <= i2 < ids_down.len() && ids_down[i2] == x;
    assert(fd[i2] == t1[row_index(t1, ids_down[i2])].pending);
    assert(fd[i2] == Direction::Down.due_pending());
    lemma_due_complete(ids_down, fd, Direction::Down);
    assert(down_plan.contains(x));

    // the down walk flips it back to pending
    let od = all_true(down_plan.len() as int);
    let t2 = run_rows(t1, down_plan, od, Direction::Down);
    lemma_run_all(down_plan, od);
    lemma_run_effect(t1, down_plan, od, Direction::Down);
    assert(down_plan.take(down_plan.len() as int) =~= down_plan);
    assert(t2[jx].pending == Direction::Down.post_pending());
    assert forall|w: int| 0 <= w < t1.len() implies (#[trigger] t2[w]).id@ == t1[w].id@ by {
        assert(t2[w].id == t1[w].id);
    }
    lemma_row_index_same_ids(t2, t1, x);
}

/// Partial-failure durability law: when a walk fails at its `e`-th
/// planned migration, every migration before it keeps its flipped,
/// committed flag; the failing migration's own row is untouched; and so
/// is every row the executed prefix does not name — nothing after the
/// failure point was attempted.
pub proof fn lemma_partial_failure(
    rows: Seq<MetaRow>,
    plan: Seq<Seq<char>>,
    outcomes: Seq<bool>,
    dir: Direction,
    j: int,
)
    requires
        outcomes.len() >= plan.len(),
        plan.no_duplicates(),
        run_executed(plan, outcomes) < plan.len(),
        0 <= j < rows.len(),
    ensures
        ({
            let e = run_executed(plan, outcomes);
            let out = run_rows(rows, plan, outcomes, dir);
            &&& out.len() == rows.len()
            &&& out[j].id == rows[j].id
            &&& (plan.take(e).contains(rows[j].id@) ==> out[j].pending == dir.post_pending())
            &&& (!plan.take(e).contains(rows[j].id@) ==> out[j].pending == rows[j].pending)
            &&& (rows[j].id@ == plan[e] ==> out[j].pending == rows[j].pending)
        }),
{
    let e = run_executed(plan, outcomes);
    lemma_run_effect(rows, plan, outcomes, dir);
    if rows[j].id@ == plan[e] && plan.take(e).contains(plan[e]) {
        let w = choose|w: int| 0 <= w < e && #[trigger] plan.take(e)[w] == plan[e];
        assert(plan[w] == plan[e]);
    }
}

/// Exact targeting bypass law: an already-applied migration is skipped by
/// every ordinary up plan, whatever the budget — yet exact execution runs
/// it, and its flag correctly reads applied afterwards.
pub proof fn lemma_exact_bypass(
    rows: Seq<MetaRow>,
    ids: Seq<Seq<char>>,
    x: Seq<char>,
    budget: Option<usize>,
)
    requires
        row_index(rows, x) >= 0,
        rows[row_index(rows, x)].pending == false,
    ensures
        !due_ids(ids, table_flags(rows, ids), Direction::Up, budget).contains(x),
        apply_flag(rows, x, Direction::Up.post_pending()).len() == rows.len(),
        apply_flag(rows, x, Direction::Up.post_pending())[row_index(rows, x)].pending == false,
{
    let flags = table_flags(rows, ids);
    lemma_row_index(rows, x);
    lemma_due_sound(ids, flags, Direction::Up, budget);
    if due_ids(ids, flags, Direction::Up, budget).contains(x) {
        let j = choose|j: int|
            0 <= j < ids.len() && #[trigger] ids[j] == x && flags[j]
                == Direction::Up.due_pending();
        assert(flags[j] == rows[row_index(rows, ids[j])].pending);
    }
    assert(rows[row_index(rows, x)].id@ == x);
}

/// Redo composition law: redoing one applied migration — the first due in
/// the down order, with no pending migration before it in the up order —
/// plans exactly one revert, then exactly one reapply of the same id, and
/// leaves the metadata rows exactly as they were; in between, the row
/// reads pending.
pub proof fn lemma_redo_composition(
    rows: Seq<MetaRow>,
    ids_down: Seq<Seq<char>>,
    ids_up: Seq<Seq<char>>,
    j0: int,
    k0: int,
)
    requires
        row_ids(rows).no_duplicates(),
        0 <= j0 < ids_down.len(),
        row_index(rows, ids_down[j0]) >= 0,
        table_flags(rows, ids_down)[j0] == Direction::Down.due_pending(),
        forall|j: int|
            0 <= j < j0 ==> table_flags(rows, ids_down)[j] != Direction::Down.due_pending(),
        0 <= k0 < ids_up.len(),
        ids_up[k0] == ids_down[j0],
        ({
            let x = ids_down[j0];
            let t1 = run_rows(rows, seq![x], seq![true], Direction::Down);
            forall|k: int|
                0 <= k < k0 ==> table_flags(t1, ids_up)[k] != Direction::Up.due_pending()
        }),
    ensures
        ({
            let x = ids_down[j0];
            let t1 = run_rows(rows, seq![x], seq![true], Direction::Down);
            let t2 = run_rows(t1, seq![x], seq![true], Direction::Up);
            &&& due_ids(ids_down, table_flags(rows, ids_down), Direction::Down, Some(1usize))
                =~= seq![x]
            &&& t1[row_index(rows, x)].pending == true
            &&& due_ids(ids_up, table_flags(t1, ids_up), Direction::Up, Some(1usize)) =~= seq![x]
            &&& t2 =~= rows
        }),
{
    let x = ids_down[j0];
    let jx = row_index(rows, x);
    lemma_row_index(rows, x);
    assert(rows[jx].id@ == x);
    assert(rows[jx].pending == false) by {
        assert(table_flags(rows, ids_down)[j0] == rows[row_index(rows, ids_down[j0])].pending);
    }

    // one revert planned
    lemma_due_single(ids_down, table_flags(rows, ids_down), Direction::Down, j0);

    // the singleton down run is one flag store
    let t1 = run_rows(rows, seq![x], seq![true], Direction::Down);
    let applied = apply_flag(rows, x, true);
    assert(seq![x][0] == x);
    assert(seq![true][0] == true);
    assert(seq![x].drop_first() =~= Seq::<Seq<char>>::empty());
    assert(seq![true].drop_first() =~= Seq::<bool>::empty());
    assert(Direction::Down.post_pending() == true);
    assert(run_rows(applied, seq![x].drop_first(), seq![true].drop_first(), Direction::Down)
        == applied);
    assert(t1 == applied);
    assert(t1[jx].pending == true);

    // one reapply planned: the row now reads pending in the up order
    let fu = table_flags(t1, ids_up);
    assert forall|w: int| 0 <= w < rows.len() implies (#[trigger] t1[w]).id@ == rows[w].id@ by {
        assert(t1[w].id == rows[w].id);
    }
    lemma_row_index_same_ids(t1, rows, x);
    assert(fu[k0] == t1[row_index(t1, ids_up[k0])].pending);
    assert(fu[k0] == Direction::Up.due_pending());
    lemma_due_single(ids_up, fu, Direction::Up, k0);

    // the singleton up run restores every row
    let t2 = run_rows(t1, seq![x], seq![true], Direction::Up);
    let reapplied = apply_flag(t1, x, false);
    assert(Direction::Up.post_pending() == false);
    assert(run_rows(reapplied, seq![x].drop_first(), seq![true].drop_first(), Direction::Up)
        == reapplied);
    assert(t2 == reapplied);
    assert forall|w: int| 0 <= w < rows.len() implies t2[w] == rows[w] by {
        assert(t2[w].id == rows[w].id);
        if rows[w].id@ == x {
            assert(row_ids(rows)[w] == rows[w].id@);
            assert(row_ids(rows)[jx] == rows[jx].id@);
            if w != jx {
                assert(row_ids(rows)[w] != row_ids(rows)[jx]);
            }
            assert(w == jx);
            assert(t2[w].pending == false);
        } else {
            assert(t2[w].pending == t1[w].pending);
            assert(t1[w].pending == rows[w].pending);
        }
    }
    assert(t2 =~= rows);
}

} // verus!
