//! The execution engine: which migrations run, in what order, and what
//! each outcome does to the metadata table.
//!
//! The engine zips the ordered migration list with its metadata states,
//! skips the rows whose pending flag does not match the direction, and
//! stops once the requested count is satisfied. Each due migration runs in
//! a transaction of its own: the binary executes the script and reports
//! the outcome; success flips the row's flag, failure rolls that one
//! transaction back and aborts the walk, leaving earlier flips in place.

use vstd::prelude::*;

use crate::Direction;
use crate::error::MigrError;
use crate::meta::{load_states, row_index, MetaRow, MetaTable};
use crate::repo::{dir_names, entry_ok, first_bad, list, mig_ids, sorted_ids, views};

verus! {

/// One less of an execution budget; no budget stays no budget.
pub open spec fn dec_budget(b: Option<usize>) -> Option<usize> {
    match b {
        Some(n) => Some((n - 1) as usize),
        None => None,
    }
}

/// The ids due to execute: those whose pending flag matches the
/// direction, in list order, until the budget is spent.
pub open spec fn due_ids(
    ids: Seq<Seq<char>>,
    flags: Seq<bool>,
    dir: Direction,
    budget: Option<usize>,
) -> Seq<Seq<char>>
    decreases ids.len(),
{
    if ids.len() == 0 || budget == Some(0usize) {
        Seq::empty()
    } else if flags[0] == dir.due_pending() {
        seq![ids[0]] + due_ids(ids.drop_first(), flags.drop_first(), dir, dec_budget(budget))
    } else {
        due_ids(ids.drop_first(), flags.drop_first(), dir, budget)
    }
}

/// The rows after one flag store: the id's row takes the value, the rest
/// keep theirs.
pub open spec fn apply_flag(rows: Seq<MetaRow>, id: Seq<char>, value: bool) -> Seq<MetaRow> {
    Seq::new(
        rows.len(),
        |j: int|
            MetaRow {
                id: rows[j].id,
                pending: if rows[j].id@ == id {
                    value
                } else {
                    rows[j].pending
                },
            },
    )
}

/// The rows after a run: each planned id flips its flag in order while
/// the outcomes hold; the first failure stops everything after it.
pub open spec fn run_rows(
    rows: Seq<MetaRow>,
    plan: Seq<Seq<char>>,
    outcomes: Seq<bool>,
    dir: Direction,
) -> Seq<MetaRow>
    decreases plan.len(),
{
    if plan.len() == 0 {
        rows
    } else if outcomes[0] {
        run_rows(
            apply_flag(rows, plan[0], dir.post_pending()),
            plan.drop_first(),
            outcomes.drop_first(),
            dir,
        )
    } else {
        rows
    }
}

/// How many planned migrations a run executes before its first failure —
/// all of them when every outcome holds.
pub open spec fn run_executed(plan: Seq<Seq<char>>, outcomes: Seq<bool>) -> int
    decreases plan.len(),
{
    if plan.len() == 0 {
        0
    } else if outcomes[0] {
        1 + run_executed(plan.drop_first(), outcomes.drop_first())
    } else {
        0
    }
}

/// A sequence of successes.
pub open spec fn all_true(n: int) -> Seq<bool> {
    Seq::new(n as nat, |j: int| true)
}

/// The ids of metadata rows.
pub open spec fn row_ids_of(rows: Seq<MetaRow>) -> Seq<Seq<char>> {
    rows.map_values(|r: MetaRow| r.id@)
}

/// The pending flags of metadata rows.
pub open spec fn row_flags(rows: Seq<MetaRow>) -> Seq<bool> {
    rows.map_values(|r: MetaRow| r.pending)
}

/// The ordered ids an operation walks: ascending for up, descending for
/// down.
pub open spec fn listed_ids(entries: Seq<crate::repo::MigrationDir>, dir: Direction) -> Seq<
    Seq<char>,
> {
    if dir is Up {
        sorted_ids(dir_names(entries))
    } else {
        sorted_ids(dir_names(entries)).reverse()
    }
}

/// The pending flags the table holds for the given ids, in their order.
pub open spec fn table_flags(rows: Seq<MetaRow>, ids: Seq<Seq<char>>) -> Seq<bool> {
    Seq::new(ids.len(), |j: int| rows[row_index(rows, ids[j])].pending)
}

/// The plan of one operation: the due ids of the listed migrations under
/// the table's flags.
pub open spec fn op_plan(
    entries: Seq<crate::repo::MigrationDir>,
    rows: Seq<MetaRow>,
    dir: Direction,
    budget: Option<usize>,
) -> Seq<Seq<char>> {
    due_ids(listed_ids(entries, dir), table_flags(rows, listed_ids(entries, dir)), dir, budget)
}

/// A plan never exceeds the list it was drawn from.
pub proof fn lemma_due_len(
    ids: Seq<Seq<char>>,
    flags: Seq<bool>,
    dir: Direction,
    budget: Option<usize>,
)
    requires
        ids.len() == flags.len(),
    ensures
        due_ids(ids, flags, dir, budget).len() <= ids.len(),
    decreases ids.len(),
{
    if ids.len() == 0 || budget == Some(0usize) {
    } else if flags[0] == dir.due_pending() {
        lemma_due_len(ids.drop_first(), flags.drop_first(), dir, dec_budget(budget));
    } else {
        lemma_due_len(ids.drop_first(), flags.drop_first(), dir, budget);
    }
}

/// Every planned id stands in the list with the matching flag.
pub proof fn lemma_due_sound(
    ids: Seq<Seq<char>>,
    flags: Seq<bool>,
    dir: Direction,
    budget: Option<usize>,
)
    requires
        ids.len() == flags.len(),
    ensures
        forall|x: Seq<char>| #[trigger]
            due_ids(ids, flags, dir, budget).contains(x) ==> exists|j: int|
                0 <= j < ids.len() && #[trigger] ids[j] == x && flags[j] == dir.due_pending(),
    decreases ids.len(),
{
    if ids.len() == 0 || budget == Some(0usize) {
    } else {
        let ti = ids.drop_first();
        let tf = flags.drop_first();
        let due = due_ids(ids, flags, dir, budget);
        if flags[0] == dir.due_pending() {
            lemma_due_sound(ti, tf, dir, dec_budget(budget));
            let rest = due_ids(ti, tf, dir, dec_budget(budget));
            assert forall|x: Seq<char>| #[trigger] due.contains(x) implies exists|j: int|
                0 <= j < ids.len() && #[trigger] ids[j] == x && flags[j]
                == dir.due_pending() by {
                let w = choose|w: int| 0 <= w < due.len() && due[w] == x;
                if w == 0 {
                    assert(ids[0] == x);
                } else {
                    assert(rest[w - 1] == x);
                    assert(rest.contains(x));
                    let j = choose|j: int|
                        0 <= j < ti.len() && #[trigger] ti[j] == x && tf[j] == dir.due_pending();
                    assert(ids[j + 1] == ti[j]);
                    assert(flags[j + 1] == tf[j]);
                }
            }
        } else {
            lemma_due_sound(ti, tf, dir, budget);
            assert forall|x: Seq<char>| #[trigger] due.contains(x) implies exists|j: int|
                0 <= j < ids.len() && #[trigger] ids[j] == x && flags[j]
                == dir.due_pending() by {
                assert(due_ids(ti, tf, dir, budget).contains(x));
                let j = choose|j: int|
                    0 <= j < ti.len() && #[trigger] ti[j] == x && tf[j] == dir.due_pending();
                assert(ids[j + 1] == ti[j]);
                assert(flags[j + 1] == tf[j]);
            }
        }
    }
}

/// With no budget, every listed id with the matching flag is planned.
pub proof fn lemma_due_complete(ids: Seq<Seq<char>>, flags: Seq<bool>, dir: Direction)
    requires
        ids.len() == flags.len(),
    ensures
        forall|j: int|
            0 <= j < ids.len() && flags[j] == dir.due_pending() ==> due_ids(
                ids,
                flags,
                dir,
                None,
            ).contains(#[trigger] ids[j]),
    decreases ids.len(),
{
    if ids.len() == 0 {
    } else {
        let ti = ids.drop_first();
        let tf = flags.drop_first();
        lemma_due_complete(ti, tf, dir);
        let due = due_ids(ids, flags, dir, None);
        assert forall|j: int|
            0 <= j < ids.len() && flags[j] == dir.due_pending() implies due.contains(
            #[trigger] ids[j],
        ) by {
            if flags[0] == dir.due_pending() {
                let rest = due_ids(ti, tf, dir, None);
                if j == 0 {
                    assert(due[0] == ids[0]);
                } else {
                    assert(ti[j - 1] == ids[j] && tf[j - 1] == flags[j]);
                    assert(rest.contains(ids[j]));
                    let w = choose|w: int| 0 <= w < rest.len() && rest[w] == ids[j];
                    assert(due[w + 1] == rest[w]);
                }
            } else {
                assert(j != 0);
                assert(ti[j - 1] == ids[j] && tf[j - 1] == flags[j]);
                assert(due_ids(ti, tf, dir, None).contains(ids[j]));
            }
        }
    }
}

/// With a budget of one, the plan is exactly the first due id.
pub proof fn lemma_due_single(ids: Seq<Seq<char>>, flags: Seq<bool>, dir: Direction, j0: int)
    requires
        ids.len() == flags.len(),
        0 <= j0 < ids.len(),
        flags[j0] == dir.due_pending(),
        forall|j: int| 0 <= j < j0 ==> flags[j] != dir.due_pending(),
    ensures
        due_ids(ids, flags, dir, Some(1usize)) =~= seq![ids[j0]],
    decreases j0,
{
    if j0 == 0 {
        assert(due_ids(ids.drop_first(), flags.drop_first(), dir, Some(0usize)) =~= Seq::empty());
        assert(due_ids(ids, flags, dir, Some(1usize)) =~= seq![ids[0]] + Seq::empty());
    } else {
        let ti = ids.drop_first();
        let tf = flags.drop_first();
        assert forall|j: int| 0 <= j < j0 - 1 implies tf[j] != dir.due_pending() by {
            assert(tf[j] == flags[j + 1]);
        }
        assert(ti[j0 - 1] == ids[j0] && tf[j0 - 1] == flags[j0]);
        lemma_due_single(ti, tf, dir, j0 - 1);
        assert(flags[0] != dir.due_pending());
    }
}

/// What a run does to each row: the successfully executed prefix of the
/// plan flips its rows' flags, everything else is untouched. Ids, order
/// and length never change.
pub proof fn lemma_run_effect(
    rows: Seq<MetaRow>,
    plan: Seq<Seq<char>>,
    outcomes: Seq<bool>,
    dir: Direction,
)
    requires
        outcomes.len() >= plan.len(),
    ensures
        run_rows(rows, plan, outcomes, dir).len() == rows.len(),
        forall|j: int|
            0 <= j < rows.len() ==> (#[trigger] run_rows(rows, plan, outcomes, dir)[j]).id
                == rows[j].id,
        forall|j: int|
            0 <= j < rows.len() ==> (#[trigger] run_rows(rows, plan, outcomes, dir)[j]).pending
                == (if plan.take(run_executed(plan, outcomes)).contains(rows[j].id@) {
                dir.post_pending()
            } else {
                rows[j].pending
            }),
        0 <= run_executed(plan, outcomes) <= plan.len(),
    decreases plan.len(),
{
    let out = run_rows(rows, plan, outcomes, dir);
    let e = run_executed(plan, outcomes);
    if plan.len() == 0 || !outcomes[0] {
        assert(plan.take(0) =~= Seq::<Seq<char>>::empty());
        assert forall|j: int| 0 <= j < rows.len() implies (#[trigger] out[j]).pending == (
        if plan.take(e).contains(rows[j].id@) {
            dir.post_pending()
        } else {
            rows[j].pending
        }) by {
            assert(!plan.take(0).contains(rows[j].id@));
        }
    } else {
        let rows1 = apply_flag(rows, plan[0], dir.post_pending());
        lemma_run_effect(rows1, plan.drop_first(), outcomes.drop_first(), dir);
        let e1 = run_executed(plan.drop_first(), outcomes.drop_first());
        assert(e == 1 + e1);
        assert forall|j: int| 0 <= j < rows.len() implies (#[trigger] out[j]).pending == (
        if plan.take(e).contains(rows[j].id@) {
            dir.post_pending()
        } else {
            rows[j].pending
        }) by {
            assert(out[j].pending == (if plan.drop_first().take(e1).contains(rows1[j].id@) {
                dir.post_pending()
            } else {
                rows1[j].pending
            }));
            assert(rows1[j].id == rows[j].id);
            let x = rows[j].id@;
            assert(plan.take(e).contains(x) <==> (x == plan[0] || plan.drop_first().take(
                e1,
            ).contains(x))) by {
                if x == plan[0] {
                    assert(plan.take(e)[0] == plan[0]);
                }
                if plan.drop_first().take(e1).contains(x) {
                    let w = choose|w: int|
                        0 <= w < e1 && #[trigger] plan.drop_first().take(e1)[w] == x;
                    assert(plan.take(e)[w + 1] == plan.drop_first()[w]);
                }
                if plan.take(e).contains(x) {
                    let w = choose|w: int| 0 <= w < e && #[trigger] plan.take(e)[w] == x;
                    if w > 0 {
                        assert(plan.drop_first().take(e1)[w - 1] == plan[w]);
                    }
                }
            }
        }
    }
}

/// When every outcome holds, the whole plan executes.
pub proof fn lemma_run_all(plan: Seq<Seq<char>>, outcomes: Seq<bool>)
    requires
        outcomes.len() >= plan.len(),
        forall|j: int| 0 <= j < plan.len() ==> outcomes[j],
    ensures
        run_executed(plan, outcomes) == plan.len(),
    decreases plan.len(),
{
    if plan.len() > 0 {
        assert(outcomes[0]);
        assert forall|j: int| 0 <= j < plan.drop_first().len() implies outcomes.drop_first()[j] by {
            assert(outcomes.drop_first()[j] == outcomes[j + 1]);
        }
        lemma_run_all(plan.drop_first(), outcomes.drop_first());
    }
}

/// Rows with the same ids in the same places index the same.
pub proof fn lemma_row_index_same_ids(a: Seq<MetaRow>, b: Seq<MetaRow>, id: Seq<char>)
    requires
        a.len() == b.len(),
        forall|j: int| 0 <= j < a.len() ==> (#[trigger] a[j]).id@ == b[j].id@,
    ensures
        row_index(a, id) == row_index(b, id),
    decreases a.len(),
{
    if a.len() > 0 {
        assert(a[0].id@ == b[0].id@);
        assert forall|j: int|
            0 <= j < a.drop_first().len() implies (#[trigger] a.drop_first()[j]).id@
            == b.drop_first()[j].id@ by {
            assert(a.drop_first()[j] == a[j + 1]);
            assert(b.drop_first()[j] == b[j + 1]);
        }
        lemma_row_index_same_ids(a.drop_first(), b.drop_first(), id);
    }
}

/// Whether an execution budget is spent.
fn budget_done(b: Option<usize>) -> (r: bool)
    ensures
        r == (b == Some(0usize)),
{
    match b {
        Some(n) => n == 0,
        None => false,
    }
}

/// Computes the plan of one walk: the due ids in order, within budget.
pub fn execution_plan(states: &Vec<MetaRow>, dir: Direction, budget: Option<usize>) -> (plan: Vec<
    String,
>)
    ensures
        views(plan@) =~= due_ids(row_ids_of(states@), row_flags(states@), dir, budget),
{
    let ghost ids = row_ids_of(states@);
    let ghost flags = row_flags(states@);
    let mut plan: Vec<String> = Vec::new();
    let mut left = budget;
    let mut i: usize = 0;
    proof {
        assert(ids.skip(0) =~= ids);
        assert(flags.skip(0) =~= flags);
        assert(views(plan@) + due_ids(ids, flags, dir, budget) =~= due_ids(
            ids,
            flags,
            dir,
            budget,
        ));
    }
    while i < states.len() && !budget_done(left)
        invariant
            i <= states@.len(),
            ids == row_ids_of(states@),
            flags == row_flags(states@),
            due_ids(ids, flags, dir, budget) =~= views(plan@) + due_ids(
                ids.skip(i as int),
                flags.skip(i as int),
                dir,
                left,
            ),
        decreases states@.len() - i,
    {
        proof {
            assert(ids.skip(i as int)[0] == ids[i as int]);
            assert(flags.skip(i as int)[0] == flags[i as int]);
            assert(ids.skip(i as int).drop_first() =~= ids.skip(i + 1));
            assert(flags.skip(i as int).drop_first() =~= flags.skip(i + 1));
        }
        let due = match dir {
            Direction::Up => states[i].pending,
            Direction::Down => !states[i].pending,
        };
        if due {
            plan.push(states[i].id.clone());
            left = match left {
                Some(n) => Some(n - 1),
                None => None,
            };
            proof {
                assert(views(plan@) =~= views(plan@.drop_last()).push(ids[i as int]));
                assert(views(plan@.drop_last()) + (seq![ids[i as int]] + due_ids(
                    ids.skip(i + 1),
                    flags.skip(i + 1),
                    dir,
                    left,
                )) =~= views(plan@) + due_ids(ids.skip(i + 1), flags.skip(i + 1), dir, left));
            }
        }
        i += 1;
    }
    proof {
        if i == states@.len() {
            assert(ids.skip(i as int).len() == 0);
        }
        assert(due_ids(ids.skip(i as int), flags.skip(i as int), dir, left) =~= Seq::empty());
        assert(views(plan@) + Seq::<Seq<char>>::empty() =~= views(plan@));
    }
    plan
}

/// Walks a plan against the table: each success flips that id's flag, the
/// first failure stops the walk with everything before it kept.
pub fn run_migrations(
    table: &mut MetaTable,
    plan: &Vec<String>,
    outcomes: &Vec<bool>,
    dir: Direction,
) -> (r: Result<usize, MigrError>)
    requires
        old(table).wf(),
        outcomes@.len() >= plan@.len(),
    ensures
        final(table)@ =~= run_rows(old(table)@, views(plan@), outcomes@, dir),
        final(table).wf(),
        (r is Ok) <==> run_executed(views(plan@), outcomes@) == views(plan@).len(),
        match r {
            Ok(n) => n == plan@.len(),
            Err(e) => e matches MigrError::Execution { id } && id@ == views(plan@)[run_executed(
                views(plan@),
                outcomes@,
            )],
        },
{
    let ghost rows0 = table@;
    let ghost pv = views(plan@);
    let mut k: usize = 0;
    proof {
        assert(pv.skip(0) =~= pv);
        assert(outcomes@.skip(0) =~= outcomes@);
    }
    while k < plan.len()
        invariant
            k <= plan@.len(),
            pv == views(plan@),
            rows0 == old(table)@,
            outcomes@.len() >= plan@.len(),
            table.wf(),
            run_rows(rows0, pv, outcomes@, dir) =~= run_rows(
                table@,
                pv.skip(k as int),
                outcomes@.skip(k as int),
                dir,
            ),
            run_executed(pv, outcomes@) == k + run_executed(
                pv.skip(k as int),
                outcomes@.skip(k as int),
            ),
        decreases plan@.len() - k,
    {
        proof {
            assert(pv.skip(k as int)[0] == pv[k as int]);
            assert(outcomes@.skip(k as int)[0] == outcomes@[k as int]);
            assert(pv.skip(k as int).drop_first() =~= pv.skip(k + 1));
            assert(outcomes@.skip(k as int).drop_first() =~= outcomes@.skip(k + 1));
        }
        if outcomes[k] {
            let flag = dir.post_flag();
            let ghost pre = table@;
            table.set_pending(plan[k].as_str(), flag);
            proof {
                assert(table@ =~= apply_flag(pre, pv[k as int], dir.post_pending()));
            }
            k += 1;
        } else {
            proof {
                assert(run_rows(rows0, pv, outcomes@, dir) =~= table@);
                assert(run_executed(pv, outcomes@) == k);
            }
            return Err(MigrError::Execution { id: plan[k].clone() });
        }
    }
    proof {
        assert(pv.skip(pv.len() as int).len() == 0);
        assert(run_executed(pv, outcomes@) == k);
    }
    Ok(plan.len())
}

/// Executes one migration by id regardless of its pending flag, flipping
/// the flag on success. This is the exact-targeting path: it never skips.
pub fn execute_exact(table: &mut MetaTable, id: &str, dir: Direction, outcome: bool) -> (r: Result<
    (),
    MigrError,
>)
    requires
        old(table).wf(),
    ensures
        final(table).wf(),
        (r is Ok) <==> outcome,
        outcome ==> final(table)@ =~= apply_flag(old(table)@, id@, dir.post_pending()),
        !outcome ==> final(table)@ =~= old(table)@ && (match r {
            Err(e) => e matches MigrError::Execution { id: eid } && eid@ == id@,
            Ok(_) => false,
        }),
{
    if outcome {
        let flag = dir.post_flag();
        let ghost pre = table@;
        table.set_pending(id, flag);
        proof {
            assert(table@ =~= apply_flag(pre, id@, dir.post_pending()));
        }
        Ok(())
    } else {
        Err(MigrError::Execution { id: id.to_owned() })
    }
}

/// Confirms the metadata table exists before a state-changing operation;
/// absent, the operator is pointed at `sync`.
pub fn check_table(table: Option<&MetaTable>) -> (r: Result<(), MigrError>)
    ensures
        (r is Ok) <==> (table is Some),
        r matches Err(e) ==> e is MetadataMissing,
{
    match table {
        Some(_) => Ok(()),
        None => Err(MigrError::MetadataMissing),
    }
}

/// What one directional walk does: how the rows after it and its result
/// relate to the rows before it, the disk entries, the budget and the
/// outcomes.
pub open spec fn direction_result(
    entries: Seq<crate::repo::MigrationDir>,
    rows0: Seq<MetaRow>,
    rows1: Seq<MetaRow>,
    dir: Direction,
    budget: Option<usize>,
    outcomes: Seq<bool>,
    r: Result<usize, MigrError>,
) -> bool {
    &&& ((forall|j: int| 0 <= j < entries.len() ==> entry_ok(#[trigger] entries[j])) ==> ((forall|
        x: int,
    |
        0 <= x < listed_ids(entries, dir).len() ==> row_index(
            rows0,
            #[trigger] listed_ids(entries, dir)[x],
        ) >= 0) ==> {
        let plan = op_plan(entries, rows0, dir, budget);
        &&& rows1 =~= run_rows(rows0, plan, outcomes, dir)
        &&& ((r is Ok) <==> run_executed(plan, outcomes) == plan.len())
        &&& (match r {
            Ok(n) => n == plan.len(),
            Err(e) => e matches MigrError::Execution { id } && id@ == plan[run_executed(
                plan,
                outcomes,
            )],
        })
    }))
    &&& ((forall|j: int| 0 <= j < entries.len() ==> entry_ok(#[trigger] entries[j])) ==> ((exists|
        x: int,
    |
        0 <= x < listed_ids(entries, dir).len() && row_index(
            rows0,
            #[trigger] listed_ids(entries, dir)[x],
        ) < 0) ==> rows1 =~= rows0 && (r matches Err(e) && e is MetadataMissing)))
    &&& ((exists|k: int| #[trigger] first_bad(entries, k)) ==> rows1 =~= rows0 && (match r {
        Ok(_) => false,
        Err(e) => e is MalformedName || e is MissingScript,
    }))
    &&& ((r is Ok) ==> forall|j: int| 0 <= j < entries.len() ==> entry_ok(#[trigger] entries[j]))
}

/// Discovers, loads, plans and runs one walk in the given direction.
pub fn run_direction(
    entries: &Vec<crate::repo::MigrationDir>,
    table: &mut MetaTable,
    dir: Direction,
    budget: Option<usize>,
    outcomes: &Vec<bool>,
) -> (r: Result<usize, MigrError>)
    requires
        old(table).wf(),
        outcomes@.len() >= entries@.len(),
    ensures
        final(table).wf(),
        direction_result(entries@, old(table)@, final(table)@, dir, budget, outcomes@, r),
{
    let migs = match list(entries, dir) {
        Ok(ms) => ms,
        Err(e) => {
            proof {
                let k = choose|k: int| #[trigger] first_bad(entries@, k);
            }
            return Err(e);
        },
    };
    let mut ids: Vec<String> = Vec::new();
    let mut i: usize = 0;
    while i < migs.len()
        invariant
            i <= migs@.len(),
            views(ids@) =~= mig_ids(migs@).take(i as int),
        decreases migs@.len() - i,
    {
        ids.push(migs[i].id.clone());
        proof {
            assert(views(ids@) =~= mig_ids(migs@).take(i + 1)) by {
                assert(mig_ids(migs@).take(i + 1) =~= mig_ids(migs@).take(i as int).push(
                    mig_ids(migs@)[i as int],
                ));
            }
        }
        i += 1;
    }
    proof {
        assert(mig_ids(migs@).take(migs@.len() as int) =~= mig_ids(migs@));
        assert(views(ids@) =~= listed_ids(entries@, dir));
    }
    let states = match load_states(table, &ids) {
        Ok(s) => s,
        Err(e) => {
            proof {
                let j = choose|j: int|
                    0 <= j < ids@.len() && !table.spec_has((#[trigger] ids@[j])@);
                assert(views(ids@)[j] == ids@[j]@);
            }
            return Err(e);
        },
    };
    proof {
        assert(row_ids_of(states@) =~= listed_ids(entries@, dir)) by {
            assert forall|j: int|
                0 <= j < states@.len() implies row_ids_of(states@)[j] == listed_ids(
                entries@,
                dir,
            )[j] by {
                assert(states@[j].id@ == ids@[j]@);
                assert(views(ids@)[j] == ids@[j]@);
            }
        }
        assert(row_flags(states@) =~= table_flags(table@, listed_ids(entries@, dir))) by {
            assert forall|j: int|
                0 <= j < states@.len() implies row_flags(states@)[j] == table_flags(
                table@,
                listed_ids(entries@, dir),
            )[j] by {
                assert(states@[j].pending == table.spec_pending(ids@[j]@));
                assert(views(ids@)[j] == ids@[j]@);
            }
        }
    }
    let plan = execution_plan(&states, dir, budget);
    proof {
        lemma_due_len(row_ids_of(states@), row_flags(states@), dir, budget);
        assert(views(plan@).len() == plan@.len());
        assert(row_ids_of(states@).len() == states@.len());
        crate::repo::lemma_sorted_ids_len(dir_names(entries@));
        assert(listed_ids(entries@, dir).len() == entries@.len());
        assert(states@.len() == entries@.len());
    }
    run_migrations(table, &plan, outcomes, dir)
}

} // verus!
