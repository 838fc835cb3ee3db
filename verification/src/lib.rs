//! A verified model of a directory-based SQL schema-migration runner.
//!
//! Migrations live on disk as directories named `<sortable-prefix>_<name>`,
//! each holding an `up.sql` and a `down.sql` script. A metadata table maps
//! each migration id to a `pending` flag. This crate holds the engine that
//! decides everything: discovery and ordering of migrations, reconciliation
//! of disk state with the metadata table, and the apply/revert/redo
//! algorithm with its partial-failure behaviour. The surrounding binary
//! performs the filesystem reads and the database round-trips and hands the
//! engine plain values.

use vstd::prelude::*;

pub mod cli;
pub mod digits;
pub mod engine;
pub mod error;
pub mod gen;
pub mod pg;
pub mod laws;
pub mod meta;
pub mod ops;
pub mod resolver;
pub mod repo;
pub mod sync;
pub mod text;

verus! {

/// Whether migrations are being applied or reverted.
#[derive(Debug, Clone, Copy, PartialEq, Eq, Structural)]
pub enum Direction {
    /// Apply forward scripts.
    Up,
    /// Apply reverse scripts.
    Down,
}

impl Direction {
    /// The `pending` value of a row that is due in this direction: applying
    /// takes pending rows, reverting takes applied ones.
    pub open spec fn due_pending(self) -> bool {
        self is Up
    }

    /// The `pending` value a row is left with after a script ran in this
    /// direction.
    pub open spec fn post_pending(self) -> bool {
        self is Down
    }

    /// The flag value to store after executing in this direction.
    pub fn post_flag(self) -> (b: bool)
        ensures
            b == self.post_pending(),
    {
        match self {
            Direction::Up => false,
            Direction::Down => true,
        }
    }

    /// The script file this direction executes.
    pub fn script_name(self) -> (r: &'static str)
        ensures
            self is Up ==> r@ == "up.sql"@,
            self is Down ==> r@ == "down.sql"@,
    {
        match self {
            Direction::Up => "up.sql",
            Direction::Down => "down.sql",
        }
    }
}

} // verus!
