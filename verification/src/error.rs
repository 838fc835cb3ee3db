//! Failure conditions of the migration engine.
//!
//! Every engine operation returns one of these instead of panicking. Each
//! carries what the operator needs: the offending migration or directory,
//! and — where recovery is possible — which command recovers.

use vstd::prelude::*;

verus! {

/// Why an engine operation stopped.
#[derive(Debug, Clone)]
pub enum MigrError {
    /// A migration directory whose name does not parse as
    /// `<sortable-prefix>_<name>`.
    MalformedName { name: String },
    /// A migration directory without the named script file.
    MissingScript { dir: String, script: String },
    /// The metadata needed for the operation is absent: the table does not
    /// exist, or a listed migration has no row. Running `sync` recovers.
    MetadataMissing,
    /// A script batch or its flag update failed inside that migration's
    /// transaction; carries the migration's id.
    Execution { id: String },
    /// No migration directory's name ends in the requested name.
    TargetNotFound { name: String },
    /// The named migration exists on disk but has no metadata row yet.
    TargetNotSynced { id: String },
    /// `setup` found the metadata table already present.
    AlreadyInitialized,
    /// An insert hit a row that already exists.
    DuplicateId { id: String },
    /// A value that does not read as a port number.
    InvalidPort,
}

/// The operator-facing description of an error.
pub open spec fn spec_message(e: MigrError) -> Seq<char> {
    match e {
        MigrError::MalformedName { name } => "Invalid migration directory name: "@ + name@,
        MigrError::MissingScript { dir, script } => dir@ + " does not contain the necessary `"@
            + script@ + "` file."@,
        MigrError::MetadataMissing =>
        "The metadata table does not exist.\nHint: Run `migr sync` to create it with existing migrations."@,
        MigrError::Execution { id } => "while executing migration "@ + id@,
        MigrError::TargetNotFound { name } => "No migration found for name '"@ + name@ + "'"@,
        MigrError::TargetNotSynced { id } => "No entry found in metadata for "@ + id@
            + "\nHint: Run `migr sync` to sync the metadata table"@,
        MigrError::AlreadyInitialized =>
        "The migr metadata table already exists. Run `migr sync` if you need to sync it with existing migrations."@,
        MigrError::DuplicateId { id } => "Could not insert into __migr_meta__: "@ + id@,
        MigrError::InvalidPort => "Invalid port"@,
    }
}

impl MigrError {
    /// Renders the error for the operator.
    pub fn message(&self) -> (r: String)
        ensures
            r@ == spec_message(*self),
    {
        match self {
            MigrError::MalformedName { name } => {
                let mut s = "Invalid migration directory name: ".to_owned();
                s.append(name.as_str());
                s
            },
            MigrError::MissingScript { dir, script } => {
                let mut s = dir.clone();
                s.append(" does not contain the necessary `");
                s.append(script.as_str());
                s.append("` file.");
                s
            },
            MigrError::MetadataMissing => {
                "The metadata table does not exist.\nHint: Run `migr sync` to create it with existing migrations.".to_owned()
            },
            MigrError::Execution { id } => {
                let mut s = "while executing migration ".to_owned();
                s.append(id.as_str());
                s
            },
            MigrError::TargetNotFound { name } => {
                let mut s = "No migration found for name '".to_owned();
                s.append(name.as_str());
                s.append("'");
                s
            },
            MigrError::TargetNotSynced { id } => {
                let mut s = "No entry found in metadata for ".to_owned();
                s.append(id.as_str());
                s.append("\nHint: Run `migr sync` to sync the metadata table");
                s
            },
            MigrError::AlreadyInitialized => {
                "The migr metadata table already exists. Run `migr sync` if you need to sync it with existing migrations.".to_owned()
            },
            MigrError::DuplicateId { id } => {
                let mut s = "Could not insert into __migr_meta__: ".to_owned();
                s.append(id.as_str());
                s
            },
            MigrError::InvalidPort => { "Invalid port".to_owned() },
        }
    }
}

} // verus!
