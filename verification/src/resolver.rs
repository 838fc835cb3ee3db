//! The target resolver: locating one migration by its name without the
//! timestamp prefix, for exact and redo operations.
//!
//! An operator writes `add_users`; the resolver scans the disk entries for
//! the first directory whose suffix after the first underscore is exactly
//! that, then confirms the metadata row exists — exact targeting never
//! creates metadata silently.

use vstd::prelude::*;

use crate::error::MigrError;
use crate::meta::MetaTable;
use crate::repo::{Migration, MigrationDir};
use crate::text::{find_char, str_eq, str_find_char};

verus! {

/// Whether a directory name carries the requested name after its first
/// underscore.
pub open spec fn name_matches(dirname: Seq<char>, name: Seq<char>) -> bool {
    find_char(dirname, '_') >= 0 && dirname.skip(find_char(dirname, '_') + 1) == name
}

/// Index of the first entry matching the name, or a negative value.
pub open spec fn first_match(entries: Seq<MigrationDir>, name: Seq<char>) -> int
    decreases entries.len(),
{
    if entries.len() == 0 {
        -1
    } else if name_matches(entries[0].name@, name) {
        0
    } else {
        let r = first_match(entries.drop_first(), name);
        if r < 0 {
            -1
        } else {
            r + 1
        }
    }
}

/// What a [`first_match`] result means, entry by entry.
pub proof fn lemma_first_match(entries: Seq<MigrationDir>, name: Seq<char>)
    ensures
        first_match(entries, name) < 0 ==> forall|j: int|
            0 <= j < entries.len() ==> !name_matches((#[trigger] entries[j]).name@, name),
        first_match(entries, name) >= 0 ==> {
            &&& first_match(entries, name) < entries.len()
            &&& name_matches(entries[first_match(entries, name)].name@, name)
            &&& forall|j: int|
                0 <= j < first_match(entries, name) ==> !name_matches(
                    (#[trigger] entries[j]).name@,
                    name,
                )
        },
    decreases entries.len(),
{
    if entries.len() == 0 {
    } else if name_matches(entries[0].name@, name) {
    } else {
        lemma_first_match(entries.drop_first(), name);
        let t = entries.drop_first();
        let r = first_match(t, name);
        if r < 0 {
            assert forall|j: int|
                0 <= j < entries.len() implies !name_matches(
                (#[trigger] entries[j]).name@,
                name,
            ) by {
                if j > 0 {
                    assert(entries[j] == t[j - 1]);
                }
            }
        } else {
            assert(entries[r + 1] == t[r]);
            assert forall|j: int| 0 <= j < r + 1 implies !name_matches(
                (#[trigger] entries[j]).name@,
                name,
            ) by {
                if j > 0 {
                    assert(entries[j] == t[j - 1]);
                }
            }
        }
    }
}

/// If `entries[i]` is the first match, [`first_match`] returns `i`.
proof fn lemma_first_match_at(entries: Seq<MigrationDir>, name: Seq<char>, i: int)
    requires
        0 <= i < entries.len(),
        name_matches(entries[i].name@, name),
        forall|j: int| 0 <= j < i ==> !name_matches((#[trigger] entries[j]).name@, name),
    ensures
        first_match(entries, name) == i,
    decreases i,
{
    if i == 0 {
    } else {
        lemma_first_match_at(entries.drop_first(), name, i - 1);
    }
}

/// Resolves an exact target: the first directory whose suffix after the
/// first underscore equals `name`, provided its metadata row exists.
///
/// Fails when no directory matches, and when one matches but has no row —
/// exact targeting never creates metadata; `sync` does.
pub fn find_exact(entries: &Vec<MigrationDir>, name: &str, table: &MetaTable) -> (r: Result<
    Migration,
    MigrError,
>)
    ensures
        (r is Ok) <==> (first_match(entries@, name@) >= 0 && table.spec_has(
            entries@[first_match(entries@, name@)].name@,
        )),
        match r {
            Ok(m) => {
                &&& first_match(entries@, name@) >= 0
                &&& m.id@ == entries@[first_match(entries@, name@)].name@
                &&& table.spec_has(m.id@)
            },
            Err(e) => match e {
                MigrError::TargetNotFound { name: n } => n@ == name@ && first_match(
                    entries@,
                    name@,
                ) < 0,
                MigrError::TargetNotSynced { id } => {
                    &&& first_match(entries@, name@) >= 0
                    &&& id@ == entries@[first_match(entries@, name@)].name@
                    &&& !table.spec_has(id@)
                },
                _ => false,
            },
        },
{
    proof {
        lemma_first_match(entries@, name@);
    }
    let mut i: usize = 0;
    while i < entries.len()
        invariant
            i <= entries@.len(),
            forall|j: int| 0 <= j < i ==> !name_matches((#[trigger] entries@[j]).name@, name@),
        decreases entries@.len() - i,
    {
        let dn = entries[i].name.as_str();
        match str_find_char(dn, '_') {
            Some(p) => {
                let dn_len = dn.unicode_len();
                let suffix = dn.substring_char(p + 1, dn_len);
                proof {
                    assert(suffix@ =~= dn@.skip(p + 1));
                }
                if str_eq(suffix, name) {
                    proof {
                        assert(name_matches(entries@[i as int].name@, name@));
                        lemma_first_match_at(entries@, name@, i as int);
                    }
                    if table.has(dn) {
                        return Ok(Migration { id: entries[i].name.clone() });
                    } else {
                        return Err(
                            MigrError::TargetNotSynced { id: entries[i].name.clone() },
                        );
                    }
                }
            },
            None => {},
        }
        proof {
            assert(!name_matches(entries@[i as int].name@, name@));
        }
        i += 1;
    }
    Err(MigrError::TargetNotFound { name: name.to_owned() })
}

} // verus!
