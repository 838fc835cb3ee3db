//! The migration repository: discovery and ordering of on-disk migrations.
//!
//! The binary enumerates the immediate subdirectories of the migrations
//! root and hands each one over as a [`MigrationDir`]: its name and the
//! file names it holds. Discovery validates every entry and orders the
//! result: ascending by id for the up direction, the exact reverse for
//! down. The filesystem is the single source of truth for ordering — ids
//! are never ordered by the database.

use vstd::prelude::*;
use vstd::relations::{sorted_by, total_ordering};
use vstd::seq_lib::lemma_multiset_commutative;

use crate::Direction;
use crate::error::MigrError;
use crate::text::{
    find_char, lemma_lex_le_trans, lemma_lex_trichotomy, lex_le, lex_lt, str_eq, str_find_char,
    str_lex_lt,
};

verus! {

/// One immediate subdirectory of the migrations root, as found on disk:
/// its name and the names of the files inside it.
#[derive(Debug, Clone)]
pub struct MigrationDir {
    /// The directory's name, which doubles as the migration id.
    pub name: String,
    /// The names of the files the directory holds.
    pub files: Vec<String>,
}

/// A discovered migration, identified by its directory name.
#[derive(Debug, Clone)]
pub struct Migration {
    /// The migration id: the directory name, `<sortable-prefix>_<name>`.
    pub id: String,
}

/// The views of a sequence of strings.
pub open spec fn views(s: Seq<String>) -> Seq<Seq<char>> {
    s.map_values(|x: String| x@)
}

/// The directory names of a sequence of disk entries.
pub open spec fn dir_names(s: Seq<MigrationDir>) -> Seq<Seq<char>> {
    s.map_values(|d: MigrationDir| d.name@)
}

/// The ids of a sequence of migrations.
pub open spec fn mig_ids(s: Seq<Migration>) -> Seq<Seq<char>> {
    s.map_values(|m: Migration| m.id@)
}

/// The id ordering: lexicographic by code point.
pub open spec fn id_le() -> spec_fn(Seq<char>, Seq<char>) -> bool {
    |a: Seq<char>, b: Seq<char>| lex_le(a, b)
}

/// The canonical ascending order of a set of migration ids.
pub open spec fn sorted_ids(names: Seq<Seq<char>>) -> Seq<Seq<char>> {
    names.sort_by(id_le())
}

/// A migration id parses as `<sortable-prefix>_<name>`: it holds an
/// underscore with at least one character on either side of the first one.
pub open spec fn valid_id(s: Seq<char>) -> bool {
    1 <= find_char(s, '_') && find_char(s, '_') + 1 < s.len()
}

/// A disk entry is complete: a well-formed name, an up script and a down
/// script.
pub open spec fn entry_ok(d: MigrationDir) -> bool {
    &&& valid_id(d.name@)
    &&& views(d.files@).contains("up.sql"@)
    &&& views(d.files@).contains("down.sql"@)
}

/// `k` is the first position in `entries` holding an incomplete entry.
pub open spec fn first_bad(entries: Seq<MigrationDir>, k: int) -> bool {
    &&& 0 <= k < entries.len()
    &&& !entry_ok(entries[k])
    &&& forall|j: int| 0 <= j < k ==> entry_ok(#[trigger] entries[j])
}

/// The id ordering is a total ordering.
pub proof fn lemma_id_le_total()
    ensures
        total_ordering(id_le()),
{
    let le = id_le();
    assert forall|a: Seq<char>| #[trigger] le(a, a) by {}
    assert forall|a: Seq<char>, b: Seq<char>| #[trigger] le(a, b) && le(b, a) implies a == b by {
        lemma_lex_trichotomy(a, b);
    }
    assert forall|a: Seq<char>, b: Seq<char>, c: Seq<char>|
        #[trigger] le(a, b) && #[trigger] le(b, c) implies le(a, c) by {
        lemma_lex_le_trans(a, b, c);
    }
    assert forall|a: Seq<char>, b: Seq<char>| #[trigger] le(a, b) || #[trigger] le(b, a) by {
        lemma_lex_trichotomy(a, b);
    }
}

/// Two id sequences sorted the same way with the same contents are the
/// same sequence.
pub proof fn lemma_sorted_unique(a: Seq<Seq<char>>, b: Seq<Seq<char>>)
    requires
        sorted_by(a, id_le()),
        sorted_by(b, id_le()),
        a.to_multiset() =~= b.to_multiset(),
    ensures
        a =~= b,
    decreases a.len(),
{
    broadcast use vstd::seq_lib::group_to_multiset_ensures;

    let le = id_le();
    if a.len() == 0 {
        assert(b.to_multiset().len() == 0);
        assert(a =~= b);
    } else {
        assert(a.to_multiset().len() == a.len());
        assert(b.to_multiset().len() == b.len());
        assert(a.contains(a[0]));
        assert(a.to_multiset().count(a[0]) > 0);
        assert(b.to_multiset().count(a[0]) > 0);
        assert(b.contains(a[0]));
        let j = choose|j: int| 0 <= j < b.len() && b[j] == a[0];
        assert(j == 0 || le(b[0], b[j]));
        assert(b.contains(b[0]));
        assert(b.to_multiset().count(b[0]) > 0);
        assert(a.to_multiset().count(b[0]) > 0);
        assert(a.contains(b[0]));
        let i = choose|i: int| 0 <= i < a.len() && a[i] == b[0];
        assert(i == 0 || le(a[0], a[i]));
        assert(lex_le(a[0], b[0]) && lex_le(b[0], a[0]));
        lemma_lex_trichotomy(a[0], b[0]);
        assert(a[0] == b[0]);

        let at = a.drop_first();
        let bt = b.drop_first();
        assert(at =~= a.remove(0));
        assert(bt =~= b.remove(0));
        assert(a.remove(0).to_multiset() =~= a.to_multiset().remove(a[0]));
        assert(b.remove(0).to_multiset() =~= b.to_multiset().remove(b[0]));
        assert(at.to_multiset() =~= bt.to_multiset());
        assert(sorted_by(at, le)) by {
            assert forall|x: int, y: int| 0 <= x < y < at.len() implies le(at[x], at[y]) by {
                assert(at[x] == a[x + 1]);
                assert(at[y] == a[y + 1]);
            }
        }
        assert(sorted_by(bt, le)) by {
            assert forall|x: int, y: int| 0 <= x < y < bt.len() implies le(bt[x], bt[y]) by {
                assert(bt[x] == b[x + 1]);
                assert(bt[y] == b[y + 1]);
            }
        }
        lemma_sorted_unique(at, bt);
        assert forall|k: int| 0 <= k < a.len() implies a[k] == b[k] by {
            if k > 0 {
                assert(at[k - 1] == bt[k - 1]);
            }
        }
        assert(a =~= b);
    }
}

/// Inserting into an id sequence inserts into its contents.
proof fn lemma_insert_to_multiset(s: Seq<Seq<char>>, p: int, x: Seq<char>)
    requires
        0 <= p <= s.len(),
    ensures
        s.insert(p, x).to_multiset() =~= s.to_multiset().insert(x),
{
    broadcast use vstd::seq_lib::group_to_multiset_ensures;
    broadcast use vstd::multiset::group_multiset_axioms;

    let l = s.subrange(0, p);
    let r = s.subrange(p, s.len() as int);
    assert(s.insert(p, x) == l.push(x) + r);
    lemma_multiset_commutative(l.push(x), r);
    lemma_multiset_commutative(l, r);
    assert(l + r =~= s);
    assert(l.push(x).to_multiset() =~= l.to_multiset().insert(x));
}

/// Sorts a collection of migration ids into their canonical ascending
/// order.
pub fn sort_ids(v: &Vec<String>) -> (r: Vec<String>)
    ensures
        views(r@) =~= sorted_ids(views(v@)),
{
    let ghost le = id_le();
    let mut r: Vec<String> = Vec::new();
    let mut i: usize = 0;
    proof {
        broadcast use vstd::seq_lib::group_to_multiset_ensures;

        assert(views(r@) =~= views(v@.take(0)));
    }
    while i < v.len()
        invariant
            i <= v@.len(),
            sorted_by(views(r@), id_le()),
            views(r@).to_multiset() =~= views(v@.take(i as int)).to_multiset(),
        decreases v@.len() - i,
    {
        broadcast use vstd::seq_lib::group_to_multiset_ensures;

        let x = v[i].clone();
        let ghost pre = views(r@);
        let mut p: usize = 0;
        while p < r.len() && str_lex_lt(r[p].as_str(), x.as_str())
            invariant
                p <= r@.len(),
                i < v@.len(),
                x@ == views(v@)[i as int],
                forall|q: int| 0 <= q < p ==> lex_lt(#[trigger] views(r@)[q], x@),
            decreases r@.len() - p,
        {
            p += 1;
        }
        proof {
            r@.insert_ensures(p as int, x);
        }
        r.insert(p, x);
        proof {
            let post = views(r@);
            assert(post.len() == pre.len() + 1);
            assert forall|k: int| 0 <= k < post.len() implies post[k] == (if k < p {
                pre[k]
            } else if k == p {
                x@
            } else {
                pre[k - 1]
            }) by {}
            assert(sorted_by(post, id_le())) by {
                let le2 = id_le();
                assert forall|m: int, n: int| 0 <= m < n < post.len() implies le2(
                    post[m],
                    post[n],
                ) by {
                    let pm = post[m];
                    let pn = post[n];
                    if m == p {
                        // pm is x; n > p, so pn is an old element not below x
                        assert(pn == pre[n - 1]);
                        if p < pre.len() {
                            lemma_lex_trichotomy(pre[p as int], x@);
                            if n - 1 > p {
                                assert(le2(pre[p as int], pre[n - 1]));
                            }
                            lemma_lex_le_trans(x@, pre[p as int], pre[n - 1]);
                        }
                    } else if n == p {
                        // pn is x; m < p, so pm sorts below x
                        assert(pm == pre[m]);
                        assert(lex_lt(pre[m], x@));
                    } else if m < p && n > p {
                        assert(pm == pre[m] && pn == pre[n - 1]);
                        assert(lex_lt(pre[m], x@));
                        if n - 1 == m {
                            assert(lex_le(pm, pn)) by {
                                lemma_lex_trichotomy(pm, pn);
                            }
                        } else {
                            assert(le2(pre[m], pre[n - 1]));
                        }
                    } else if n < p {
                        assert(pm == pre[m] && pn == pre[n]);
                        assert(le2(pre[m], pre[n]));
                    } else {
                        assert(pm == pre[m - 1] && pn == pre[n - 1]);
                        assert(le2(pre[m - 1], pre[n - 1]));
                    }
                }
            }
            assert(views(r@) =~= pre.insert(p as int, x@)) by {
                pre.insert_ensures(p as int, x@);
            }
            lemma_insert_to_multiset(pre, p as int, x@);
            assert(views(v@.take(i + 1)) =~= views(v@.take(i as int)).push(views(v@)[i as int]));
        }
        i += 1;
    }
    proof {
        assert(v@.take(v@.len() as int) =~= v@);
        lemma_id_le_total();
        views(v@).lemma_sort_by_ensures(id_le());
        lemma_sorted_unique(views(r@), sorted_ids(views(v@)));
    }
    r
}

/// What one entry means to the walk that locates the migrations root.
#[derive(Debug, Clone, Copy, PartialEq, Eq, Structural)]
pub enum SearchStep {
    /// The migrations root itself.
    Found,
    /// Not a directory, a build directory, or hidden: passed over.
    Skip,
    /// An ordinary directory: searched inside.
    Descend,
}

/// Classifies one entry of the walk that locates the migrations root:
/// files, `target` and hidden directories are passed over, a directory
/// named `migrations` ends the search, anything else is searched inside.
pub fn classify_search_entry(is_dir: bool, name: &str) -> (s: SearchStep)
    ensures
        (s is Skip) <==> (!is_dir || name@ == "target"@ || (name@.len() > 0 && name@[0] == '.')),
        (s is Found) <==> (!(s is Skip) && name@ == "migrations"@),
        (s is Descend) <==> (!(s is Skip) && name@ != "migrations"@),
{
    if !is_dir || str_eq(name, "target") {
        return SearchStep::Skip;
    }
    if name.unicode_len() > 0 && name.get_char(0) == '.' {
        return SearchStep::Skip;
    }
    if str_eq(name, "migrations") {
        SearchStep::Found
    } else {
        SearchStep::Descend
    }
}

/// Whether any of `items` holds exactly the characters of `target`.
pub fn contains_str(items: &Vec<String>, target: &str) -> (b: bool)
    ensures
        b == views(items@).contains(target@),
{
    let mut i: usize = 0;
    while i < items.len()
        invariant
            i <= items@.len(),
            forall|j: int| 0 <= j < i ==> views(items@)[j] != target@,
        decreases items@.len() - i,
    {
        if str_eq(items[i].as_str(), target) {
            assert(views(items@)[i as int] == target@);
            return true;
        }
        i += 1;
    }
    false
}

/// Validates one disk entry: a parseable name, an up script and a down
/// script.
fn check_entry(d: &MigrationDir) -> (r: Result<(), MigrError>)
    ensures
        r is Ok <==> entry_ok(*d),
        match r {
            Ok(_) => true,
            Err(e) => match e {
                MigrError::MalformedName { name } => name@ == d.name@ && !valid_id(d.name@),
                MigrError::MissingScript { dir, script } => {
                    &&& dir@ == d.name@
                    &&& valid_id(d.name@)
                    &&& script@ == (if !views(d.files@).contains("up.sql"@) {
                        "up.sql"@
                    } else {
                        "down.sql"@
                    })
                    &&& !views(d.files@).contains(script@)
                },
                _ => false,
            },
        },
{
    let name_len = d.name.as_str().unicode_len();
    let underscore = str_find_char(d.name.as_str(), '_');
    let name_ok = match underscore {
        Some(p) => 1 <= p && p + 1 < name_len,
        None => false,
    };
    if !name_ok {
        return Err(MigrError::MalformedName { name: d.name.clone() });
    }
    if !contains_str(&d.files, "up.sql") {
        return Err(
            MigrError::MissingScript { dir: d.name.clone(), script: "up.sql".to_owned() },
        );
    }
    if !contains_str(&d.files, "down.sql") {
        return Err(
            MigrError::MissingScript { dir: d.name.clone(), script: "down.sql".to_owned() },
        );
    }
    Ok(())
}

/// Discovers the ordered migration list for one direction.
///
/// Succeeds exactly when every entry is complete; the result then holds one
/// migration per entry, ascending by id for up and in the exact reverse
/// order for down. Fails on the first incomplete entry, naming it.
pub fn list(entries: &Vec<MigrationDir>, dir: Direction) -> (r: Result<Vec<Migration>, MigrError>)
    ensures
        r is Ok <==> forall|j: int| 0 <= j < entries@.len() ==> entry_ok(#[trigger] entries@[j]),
        match r {
            Ok(ms) => mig_ids(ms@) =~= (if dir is Up {
                sorted_ids(dir_names(entries@))
            } else {
                sorted_ids(dir_names(entries@)).reverse()
            }),
            Err(e) => exists|k: int|
                #[trigger] first_bad(entries@, k) && (match e {
                    MigrError::MalformedName { name } => name@ == entries@[k].name@ && !valid_id(
                        entries@[k].name@,
                    ),
                    MigrError::MissingScript { dir, script } => {
                        &&& dir@ == entries@[k].name@
                        &&& valid_id(entries@[k].name@)
                        &&& !views(entries@[k].files@).contains(script@)
                    },
                    _ => false,
                }),
        },
{
    let mut names: Vec<String> = Vec::new();
    let mut i: usize = 0;
    while i < entries.len()
        invariant
            i <= entries@.len(),
            forall|j: int| 0 <= j < i ==> entry_ok(#[trigger] entries@[j]),
            views(names@) =~= dir_names(entries@.take(i as int)),
        decreases entries@.len() - i,
    {
        match check_entry(&entries[i]) {
            Ok(_) => {},
            Err(e) => {
                proof {
                    assert(first_bad(entries@, i as int));
                }
                return Err(e);
            },
        }
        names.push(entries[i].name.clone());
        proof {
            assert(views(names@) =~= dir_names(entries@.take(i + 1))) by {
                assert(dir_names(entries@.take(i + 1)) =~= dir_names(entries@.take(i as int)).push(
                    entries@[i as int].name@,
                ));
            }
        }
        i += 1;
    }
    proof {
        assert(entries@.take(entries@.len() as int) =~= entries@);
    }
    let sorted = sort_ids(&names);
    let mut out: Vec<Migration> = Vec::new();
    match dir {
        Direction::Up => {
            let mut k: usize = 0;
            while k < sorted.len()
                invariant
                    k <= sorted@.len(),
                    mig_ids(out@) =~= views(sorted@).take(k as int),
                decreases sorted@.len() - k,
            {
                out.push(Migration { id: sorted[k].clone() });
                proof {
                    assert(mig_ids(out@) =~= views(sorted@).take(k + 1)) by {
                        assert(views(sorted@).take(k + 1) =~= views(sorted@).take(k as int).push(
                            views(sorted@)[k as int],
                        ));
                    }
                }
                k += 1;
            }
            proof {
                assert(views(sorted@).take(sorted@.len() as int) =~= views(sorted@));
            }
        },
        Direction::Down => {
            let mut k: usize = sorted.len();
            while k > 0
                invariant
                    k <= sorted@.len(),
                    mig_ids(out@).len() == sorted@.len() - k,
                    forall|q: int| 0 <= q < sorted@.len() - k ==> #[trigger] mig_ids(out@)[q]
                        == views(sorted@)[sorted@.len() - 1 - q],
                decreases k,
            {
                k -= 1;
                let ghost prev = out@;
                out.push(Migration { id: sorted[k].clone() });
                proof {
                    assert(mig_ids(out@) =~= mig_ids(prev).push(views(sorted@)[k as int]));
                    assert forall|q: int| 0 <= q < sorted@.len() - k implies #[trigger] mig_ids(
                        out@,
                    )[q] == views(sorted@)[sorted@.len() - 1 - q] by {
                        if q < sorted@.len() - k - 1 {
                            assert(mig_ids(out@)[q] == mig_ids(prev)[q]);
                        } else {
                            assert(mig_ids(out@)[q] == views(sorted@)[k as int]);
                        }
                    }
                }
            }
            proof {
                assert(mig_ids(out@) =~= views(sorted@).reverse());
            }
        },
    }
    Ok(out)
}

/// The canonical order is a permutation: the length is kept.
pub proof fn lemma_sorted_ids_len(names: Seq<Seq<char>>)
    ensures
        sorted_ids(names).len() == names.len(),
{
    broadcast use vstd::seq_lib::group_to_multiset_ensures;

    lemma_id_le_total();
    names.lemma_sort_by_ensures(id_le());
    assert(names.to_multiset().len() == names.len());
    assert(sorted_ids(names).to_multiset().len() == sorted_ids(names).len());
}

/// With distinct names, the canonical order keeps them distinct and holds
/// exactly them.
pub proof fn lemma_sorted_ids_no_dup(names: Seq<Seq<char>>)
    requires
        names.no_duplicates(),
    ensures
        sorted_ids(names).no_duplicates(),
        forall|x: Seq<char>| #[trigger]
            sorted_ids(names).contains(x) <==> names.contains(x),
{
    broadcast use vstd::seq_lib::group_to_multiset_ensures;

    let s = sorted_ids(names);
    lemma_id_le_total();
    names.lemma_sort_by_ensures(id_le());
    names.lemma_multiset_has_no_duplicates();
    assert forall|x: Seq<char>| s.to_multiset().contains(x) implies s.to_multiset().count(x)
        == 1 by {
        assert(names.to_multiset().count(x) == s.to_multiset().count(x));
    }
    s.lemma_multiset_has_no_duplicates_conv();
    assert forall|x: Seq<char>| #[trigger] s.contains(x) <==> names.contains(x) by {
        assert(s.contains(x) <==> s.to_multiset().count(x) > 0);
        assert(names.contains(x) <==> names.to_multiset().count(x) > 0);
    }
}

/// Strict ordering law: with distinct directory names, the canonical up
/// list ascends strictly, and the down list — its exact reverse — descends
/// strictly.
pub proof fn lemma_list_ordering(names: Seq<Seq<char>>)
    requires
        names.no_duplicates(),
    ensures
        forall|i: int, j: int|
            0 <= i < j < sorted_ids(names).len() ==> lex_lt(
                #[trigger] sorted_ids(names)[i],
                #[trigger] sorted_ids(names)[j],
            ),
        forall|i: int, j: int|
            0 <= i < j < sorted_ids(names).reverse().len() ==> lex_lt(
                #[trigger] sorted_ids(names).reverse()[j],
                #[trigger] sorted_ids(names).reverse()[i],
            ),
{
    broadcast use vstd::seq_lib::group_to_multiset_ensures;

    let le = id_le();
    let s = sorted_ids(names);
    lemma_id_le_total();
    names.lemma_sort_by_ensures(le);
    names.lemma_multiset_has_no_duplicates();
    assert(s.no_duplicates()) by {
        assert forall|x: Seq<char>| s.to_multiset().contains(x) implies s.to_multiset().count(x)
            == 1 by {
            assert(names.to_multiset().count(x) == s.to_multiset().count(x));
        }
        s.lemma_multiset_has_no_duplicates_conv();
    }
    assert forall|i: int, j: int| 0 <= i < j < s.len() implies lex_lt(s[i], s[j]) by {
        assert(le(s[i], s[j]));
        lemma_lex_trichotomy(s[i], s[j]);
    }
    assert forall|i: int, j: int| 0 <= i < j < s.reverse().len() implies lex_lt(
        s.reverse()[j],
        s.reverse()[i],
    ) by {
        assert(s.reverse()[j] == s[s.len() - 1 - j]);
        assert(s.reverse()[i] == s[s.len() - 1 - i]);
    }
}

} // verus!
