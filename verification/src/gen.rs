//! Generating a new migration: the timestamped id, and the pending row it
//! contributes to the metadata table. The binary creates the directory and
//! the two empty scripts; the clock values come from it as plain numbers.

use vstd::prelude::*;

use crate::cli::GenMigration;
use crate::digits::{dec2_rep, dec4_rep, u16_to_dec4, u8_to_dec2};
use crate::error::MigrError;
use crate::meta::{MetaRow, MetaTable};

verus! {

/// The id of a generated migration:
/// `<year>-<month>-<day>-<hour><minute><second>_<name>`, each part
/// zero-padded so the ids sort chronologically.
pub open spec fn generated_id_rep(
    year: nat,
    month: nat,
    day: nat,
    hour: nat,
    minute: nat,
    second: nat,
    name: Seq<char>,
) -> Seq<char> {
    dec4_rep(year) + "-"@ + dec2_rep(month) + "-"@ + dec2_rep(day) + "-"@ + dec2_rep(hour)
        + dec2_rep(minute) + dec2_rep(second) + "_"@ + name
}

/// Renders the id of a migration generated at the given clock reading.
pub fn generated_id(
    year: u16,
    month: u8,
    day: u8,
    hour: u8,
    minute: u8,
    second: u8,
    name: &str,
) -> (r: String)
    requires
        year < 10000,
        month < 100,
        day < 100,
        hour < 100,
        minute < 100,
        second < 100,
    ensures
        r@ =~= generated_id_rep(
            year as nat,
            month as nat,
            day as nat,
            hour as nat,
            minute as nat,
            second as nat,
            name@,
        ),
{
    let mut s = u16_to_dec4(year);
    s.append("-");
    s.append(u8_to_dec2(month).as_str());
    s.append("-");
    s.append(u8_to_dec2(day).as_str());
    s.append("-");
    s.append(u8_to_dec2(hour).as_str());
    s.append(u8_to_dec2(minute).as_str());
    s.append(u8_to_dec2(second).as_str());
    s.append("_");
    s.append(name);
    s
}

/// Registers a freshly generated migration: builds its id from the clock
/// reading and inserts its pending row. Fails only when a row with that
/// id already exists, leaving the table untouched.
pub fn migration_generate(
    args: &GenMigration,
    year: u16,
    month: u8,
    day: u8,
    hour: u8,
    minute: u8,
    second: u8,
    table: &mut MetaTable,
) -> (r: Result<String, MigrError>)
    requires
        old(table).wf(),
        year < 10000,
        month < 100,
        day < 100,
        hour < 100,
        minute < 100,
        second < 100,
    ensures
        final(table).wf(),
        ({
            let id = generated_id_rep(
                year as nat,
                month as nat,
                day as nat,
                hour as nat,
                minute as nat,
                second as nat,
                args.name@,
            );
            &&& ((r is Ok) <==> !old(table).spec_has(id))
            &&& (match r {
                Ok(full) => {
                    &&& full@ == id
                    &&& final(table)@.len() == old(table)@.len() + 1
                    &&& final(table)@.last().id@ == id
                    &&& final(table)@.last().pending == true
                    &&& forall|j: int|
                        0 <= j < old(table)@.len() ==> #[trigger] final(table)@[j] == old(
                            table,
                        )@[j]
                },
                Err(e) => {
                    &&& final(table)@ =~= old(table)@
                    &&& e matches MigrError::DuplicateId { id: d } && d@ == id
                },
            })
        }),
{
    let full = generated_id(year, month, day, hour, minute, second, args.name.as_str());
    let copy = full.clone();
    match table.insert(copy) {
        Ok(_) => Ok(full),
        Err(e) => Err(e),
    }
}

/// What a generated up script holds at first: nothing.
pub fn fresh_up_script() -> (r: &'static str)
    ensures
        r@ == ""@,
{
    ""
}

/// What a generated down script holds at first.
pub fn fresh_down_script() -> (r: &'static str)
    ensures
        r@ == "-- Revert everything from up.sql"@,
{
    "-- Revert everything from up.sql"
}

} // verus!
