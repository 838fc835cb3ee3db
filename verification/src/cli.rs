//! The operation surface the binary parses from its command line, as plain
//! values. The binary's own argument types carry the parser attributes and
//! convert into these.

use vstd::prelude::*;

verus! {

/// A full invocation: one subcommand and the global switches.
#[derive(Debug, Clone)]
pub struct Migr {
    /// What to do.
    pub command: MigrationSubcommand,
    /// Where the migrations live; searched for when absent.
    pub path: Option<String>,
    /// How deep to search for a `migrations` directory when no path is
    /// given.
    pub depth: usize,
    /// Chattier output.
    pub verbose: bool,
}

/// The operations an invocation chooses from.
#[derive(Debug, Clone)]
pub enum MigrationSubcommand {
    /// Show the state of migrations in the metadata table.
    Status,
    /// Create the metadata table and the initial migration directory.
    Setup,
    /// Reconcile existing or edited migrations with the metadata table.
    Sync(SyncArgs),
    /// Generate a new migration directory.
    Gen(GenMigration),
    /// Run pending migrations.
    Run(RunRevMigration),
    /// Revert applied migrations.
    Rev(RunRevMigration),
    /// Revert and reapply migrations.
    Redo(RunRevMigration),
}

/// Switches of the sync operation.
#[derive(Debug, Clone)]
pub struct SyncArgs {
    /// Also delete metadata rows whose directory is gone from disk.
    pub trim: bool,
}

/// Arguments of the generate operation.
#[derive(Debug, Clone)]
pub struct GenMigration {
    /// The human-readable part of the new migration's name.
    pub name: String,
}

/// Arguments shared by run, revert and redo.
#[derive(Debug, Clone)]
pub struct RunRevMigration {
    /// A migration to act on by exact name, bypassing the pending flag.
    pub exact: Option<String>,
    /// How many migrations to act on.
    pub count: Option<usize>,
    /// Act on all migrations; reverting and redoing default to one
    /// without it.
    pub all: bool,
}

/// The execution budget of a revert or redo: the count asked for, else one
/// unless `all` was given, else no bound.
pub fn revert_budget(args: &RunRevMigration) -> (r: Option<usize>)
    ensures
        r == (if args.count is Some {
            args.count
        } else if !args.all {
            Some(1usize)
        } else {
            None::<usize>
        }),
{
    match args.count {
        Some(c) => Some(c),
        None => {
            if !args.all {
                Some(1)
            } else {
                None
            }
        },
    }
}

} // verus!
