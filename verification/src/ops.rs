//! The operations the command line reaches: run, revert and redo, each in
//! its ordinary, counted form and its exact-targeting form.

use vstd::prelude::*;

use crate::cli::{revert_budget, RunRevMigration};
use crate::engine::{
    apply_flag, direction_result, execute_exact, op_plan, run_direction, run_executed, run_rows,
};
use crate::error::MigrError;
use crate::meta::MetaTable;
use crate::repo::{entry_ok, first_bad, MigrationDir};
use crate::resolver::{find_exact, first_match, lemma_first_match};
use crate::Direction;

verus! {

/// The execution budget a revert or redo runs under.
pub open spec fn spec_revert_budget(args: RunRevMigration) -> Option<usize> {
    if args.count is Some {
        args.count
    } else if !args.all {
        Some(1usize)
    } else {
        None
    }
}

/// What an exact-targeted execution does: resolve the name, then run that
/// one migration regardless of its flag, flipping it on success.
pub open spec fn exact_result(
    entries: Seq<MigrationDir>,
    rows0: Seq<crate::meta::MetaRow>,
    rows1: Seq<crate::meta::MetaRow>,
    name: Seq<char>,
    dir: Direction,
    outcome: bool,
    r_ok: bool,
    e: Option<MigrError>,
) -> bool {
    let fm = first_match(entries, name);
    &&& (fm < 0 ==> rows1 =~= rows0 && !r_ok && (e matches Some(
        MigrError::TargetNotFound { name: n },
    ) && n@ == name))
    &&& (fm >= 0 && crate::meta::row_index(rows0, entries[fm].name@) < 0 ==> rows1 =~= rows0
        && !r_ok && (e matches Some(MigrError::TargetNotSynced { id }) && id@
        == entries[fm].name@))
    &&& (fm >= 0 && crate::meta::row_index(rows0, entries[fm].name@) >= 0 ==> {
        &&& (outcome ==> rows1 =~= apply_flag(rows0, entries[fm].name@, dir.post_pending())
            && r_ok)
        &&& (!outcome ==> rows1 =~= rows0 && !r_ok && (e matches Some(
            MigrError::Execution { id },
        ) && id@ == entries[fm].name@))
    })
}

/// Runs the exact-targeted form of an operation in one direction.
fn run_exact(
    entries: &Vec<MigrationDir>,
    table: &mut MetaTable,
    name: &str,
    dir: Direction,
    outcome: bool,
) -> (r: Result<(), MigrError>)
    requires
        old(table).wf(),
    ensures
        final(table).wf(),
        exact_result(
            entries@,
            old(table)@,
            final(table)@,
            name@,
            dir,
            outcome,
            r is Ok,
            match r {
                Ok(_) => None,
                Err(e) => Some(e),
            },
        ),
{
    proof {
        lemma_first_match(entries@, name@);
    }
    let target = match find_exact(entries, name, table) {
        Ok(m) => m,
        Err(e) => {
            return Err(e);
        },
    };
    execute_exact(table, target.id.as_str(), dir, outcome)
}

/// Runs pending migrations: every one that is due in ascending order up
/// to the requested count, or — with an exact name — that one migration
/// whatever its flag.
pub fn migration_run(
    args: &RunRevMigration,
    entries: &Vec<MigrationDir>,
    table: &mut MetaTable,
    outcomes: &Vec<bool>,
) -> (r: Result<usize, MigrError>)
    requires
        old(table).wf(),
        outcomes@.len() >= entries@.len(),
        args.exact is Some ==> outcomes@.len() >= 1,
    ensures
        final(table).wf(),
        match args.exact {
            Some(name) => exact_result(
                entries@,
                old(table)@,
                final(table)@,
                name@,
                Direction::Up,
                outcomes@[0],
                r is Ok,
                match r {
                    Ok(_) => None,
                    Err(e) => Some(e),
                },
            ) && (r matches Ok(n) ==> n == 1),
            None => direction_result(
                entries@,
                old(table)@,
                final(table)@,
                Direction::Up,
                args.count,
                outcomes@,
                r,
            ),
        },
{
    match &args.exact {
        Some(name) => {
            match run_exact(entries, table, name.as_str(), Direction::Up, outcomes[0]) {
                Ok(_) => Ok(1),
                Err(e) => Err(e),
            }
        },
        None => run_direction(entries, table, Direction::Up, args.count, outcomes),
    }
}

/// Reverts applied migrations: every one that is due in descending order
/// up to the requested count — one, without a count or `all` — or, with
/// an exact name, that one migration whatever its flag.
pub fn migration_rev(
    args: &RunRevMigration,
    entries: &Vec<MigrationDir>,
    table: &mut MetaTable,
    outcomes: &Vec<bool>,
) -> (r: Result<usize, MigrError>)
    requires
        old(table).wf(),
        outcomes@.len() >= entries@.len(),
        args.exact is Some ==> outcomes@.len() >= 1,
    ensures
        final(table).wf(),
        match args.exact {
            Some(name) => exact_result(
                entries@,
                old(table)@,
                final(table)@,
                name@,
                Direction::Down,
                outcomes@[0],
                r is Ok,
                match r {
                    Ok(_) => None,
                    Err(e) => Some(e),
                },
            ) && (r matches Ok(n) ==> n == 1),
            None => direction_result(
                entries@,
                old(table)@,
                final(table)@,
                Direction::Down,
                spec_revert_budget(*args),
                outcomes@,
                r,
            ),
        },
{
    match &args.exact {
        Some(name) => {
            match run_exact(entries, table, name.as_str(), Direction::Down, outcomes[0]) {
                Ok(_) => Ok(1),
                Err(e) => Err(e),
            }
        },
        None => {
            let budget = revert_budget(args);
            run_direction(entries, table, Direction::Down, budget, outcomes)
        },
    }
}

/// Reverts, then reapplies: two independent walks with the same budget —
/// a failure in between leaves the reverted state behind, which is the
/// documented partial outcome. With an exact name, one revert and one
/// reapply of that migration.
pub fn migration_redo(
    args: &RunRevMigration,
    entries: &Vec<MigrationDir>,
    table: &mut MetaTable,
    down_outcomes: &Vec<bool>,
    up_outcomes: &Vec<bool>,
) -> (r: Result<(usize, usize), MigrError>)
    requires
        old(table).wf(),
        down_outcomes@.len() >= entries@.len(),
        up_outcomes@.len() >= entries@.len(),
        args.exact is Some ==> down_outcomes@.len() >= 1 && up_outcomes@.len() >= 1,
    ensures
        final(table).wf(),
        match args.exact {
            Some(name) => {
                let fm = first_match(entries@, name@);
                &&& (fm < 0 ==> final(table)@ =~= old(table)@ && (r matches Err(e) && e matches
                    MigrError::TargetNotFound { name: n } && n@ == name@))
                &&& (fm >= 0 && crate::meta::row_index(old(table)@, entries@[fm].name@) < 0
                    ==> final(table)@ =~= old(table)@ && (r matches Err(e) && e matches
                    MigrError::TargetNotSynced { id } && id@ == entries@[fm].name@))
                &&& (fm >= 0 && crate::meta::row_index(old(table)@, entries@[fm].name@) >= 0
                    ==> {
                    let id = entries@[fm].name@;
                    let mid = apply_flag(old(table)@, id, true);
                    &&& (!down_outcomes@[0] ==> final(table)@ =~= old(table)@ && (r matches Err(
                        e,
                    ) && e matches MigrError::Execution { id: eid } && eid@ == id))
                    &&& (down_outcomes@[0] && !up_outcomes@[0] ==> final(table)@ =~= mid && (
                    r matches Err(e) && e matches MigrError::Execution { id: eid } && eid@ == id))
                    &&& (down_outcomes@[0] && up_outcomes@[0] ==> final(table)@ =~= apply_flag(
                        mid,
                        id,
                        false,
                    ) && (r matches Ok(n) && n == (1usize, 1usize)))
                })
            },
            None => {
                let b = spec_revert_budget(*args);
                let dplan = op_plan(entries@, old(table)@, Direction::Down, b);
                let mid = run_rows(old(table)@, dplan, down_outcomes@, Direction::Down);
                &&& ((exists|k: int| #[trigger] first_bad(entries@, k)) ==> final(table)@ =~= old(
                    table,
                )@ && r is Err)
                &&& ((forall|j: int| 0 <= j < entries@.len() ==> entry_ok(#[trigger] entries@[j]))
                    ==> {
                    &&& ((exists|x: int|
                        0 <= x < crate::engine::listed_ids(entries@, Direction::Down).len()
                            && crate::meta::row_index(
                            old(table)@,
                            #[trigger] crate::engine::listed_ids(entries@, Direction::Down)[x],
                        ) < 0) ==> final(table)@ =~= old(table)@ && r is Err)
                    &&& ((forall|x: int|
                        0 <= x < crate::engine::listed_ids(entries@, Direction::Down).len()
                            ==> crate::meta::row_index(
                            old(table)@,
                            #[trigger] crate::engine::listed_ids(entries@, Direction::Down)[x],
                        ) >= 0) ==> {
                        &&& (run_executed(dplan, down_outcomes@) < dplan.len() ==> final(table)@
                            =~= mid && (r matches Err(e) && e matches MigrError::Execution {
                            id,
                        } && id@ == dplan[run_executed(dplan, down_outcomes@)]))
                        &&& (run_executed(dplan, down_outcomes@) == dplan.len() ==> {
                            let uplan = op_plan(entries@, mid, Direction::Up, b);
                            &&& ((exists|x: int|
                                0 <= x < crate::engine::listed_ids(entries@, Direction::Up).len()
                                    && crate::meta::row_index(
                                    mid,
                                    #[trigger] crate::engine::listed_ids(
                                        entries@,
                                        Direction::Up,
                                    )[x],
                                ) < 0) ==> final(table)@ =~= mid && r is Err)
                            &&& ((forall|x: int|
                                0 <= x < crate::engine::listed_ids(entries@, Direction::Up).len()
                                    ==> crate::meta::row_index(
                                    mid,
                                    #[trigger] crate::engine::listed_ids(
                                        entries@,
                                        Direction::Up,
                                    )[x],
                                ) >= 0) ==> {
                                &&& final(table)@ =~= run_rows(
                                    mid,
                                    uplan,
                                    up_outcomes@,
                                    Direction::Up,
                                )
                                &&& ((r is Ok) <==> run_executed(uplan, up_outcomes@) == uplan.len())
                                &&& (r matches Ok(n) ==> n == (
                                    dplan.len() as usize,
                                    uplan.len() as usize,
                                ))
                                &&& (run_executed(uplan, up_outcomes@) < uplan.len() ==> (
                                r matches Err(e) && e matches MigrError::Execution { id } && id@
                                    == uplan[run_executed(uplan, up_outcomes@)]))
                            })
                        })
                    })
                })
            },
        },
{
    match &args.exact {
        Some(name) => {
            let ghost rows0 = table@;
            match run_exact(entries, table, name.as_str(), Direction::Down, down_outcomes[0]) {
                Ok(_) => {},
                Err(e) => {
                    return Err(e);
                },
            }
            proof {
                lemma_first_match(entries@, name@);
                let fm = first_match(entries@, name@);
                assert(fm >= 0 && crate::meta::row_index(rows0, entries@[fm].name@) >= 0);
                let id = entries@[fm].name@;
                assert(Direction::Down.post_pending() == true);
                assert(table@ =~= apply_flag(rows0, id, true));
                assert forall|w: int| 0 <= w < rows0.len() implies (#[trigger] table@[w]).id@
                    == rows0[w].id@ by {
                    assert(table@[w].id == rows0[w].id);
                }
                crate::engine::lemma_row_index_same_ids(table@, rows0, id);
                assert(Direction::Up.post_pending() == false);
            }
            match run_exact(entries, table, name.as_str(), Direction::Up, up_outcomes[0]) {
                Ok(_) => Ok((1, 1)),
                Err(e) => Err(e),
            }
        },
        None => {
            let budget = revert_budget(args);
            let dn = match run_direction(entries, table, Direction::Down, budget, down_outcomes) {
                Ok(n) => n,
                Err(e) => {
                    return Err(e);
                },
            };
            match run_direction(entries, table, Direction::Up, budget, up_outcomes) {
                Ok(un) => Ok((dn, un)),
                Err(e) => Err(e),
            }
        },
    }
}

} // verus!
