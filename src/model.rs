//! The mathematical model of a store and the facts about it that the
//! store's operations rely on.

use crate::table::{Record, Table};
use vstd::prelude::*;

verus! {

/// What a store holds: for each table name, the records of that table by id.
pub type TablesModel = Map<Seq<char>, Map<u64, Record>>;

/// The mapping that results from putting the tables of `s` into `m` one after
/// another, each under its own name; a later table replaces an earlier one of
/// the same name, and names that `s` does not use are left as they were.
pub open spec fn merged(m: TablesModel, s: Seq<Table>) -> TablesModel
    decreases s.len(),
{
    if s.len() == 0 {
        m
    } else {
        merged(m, s.drop_last()).insert(s.last().name@, s.last().records@)
    }
}

/// No two tables of `s` share a name.
pub open spec fn names_distinct(s: Seq<Table>) -> bool {
    forall|i: int, j: int|
        0 <= i < s.len() && 0 <= j < s.len() && i != j ==> s[i].name@ != s[j].name@
}

/// Some table of `s` is named `k`.
pub open spec fn names_table(s: Seq<Table>, k: Seq<char>) -> bool {
    exists|i: int| 0 <= i < s.len() && s[i].name@ == k
}

/// The effect of creating table `name`: an empty table under that name,
/// whatever was held under it before.
pub open spec fn created(m: TablesModel, name: Seq<char>) -> TablesModel {
    m.insert(name, Map::empty())
}

/// The effect of inserting `r` into table `table`: it is stored under its id,
/// replacing any record of that id; where no such table exists nothing changes.
pub open spec fn inserted(m: TablesModel, table: Seq<char>, r: Record) -> TablesModel {
    if m.contains_key(table) {
        m.insert(table, m[table].insert(r.id, r))
    } else {
        m
    }
}

/// Putting tables into a mapping leaves every name they do not use as it was.
pub proof fn lemma_merged_other(m: TablesModel, s: Seq<Table>, k: Seq<char>)
    requires
        !names_table(s, k),
    ensures
        merged(m, s).contains_key(k) == m.contains_key(k),
        m.contains_key(k) ==> merged(m, s)[k] == m[k],
    decreases s.len(),
{
    if s.len() > 0 {
        let p = s.drop_last();
        assert(!names_table(p, k)) by {
            if names_table(p, k) {
                let i = choose|i: int| 0 <= i < p.len() && p[i].name@ == k;
                assert(s[i].name@ == k);
            }
        }
        assert(s.last().name@ != k) by {
            assert(s[s.len() - 1].name@ == s.last().name@);
        }
        lemma_merged_other(m, p, k);
    }
}

/// After putting tables into a mapping, every table's name is present.
pub proof fn lemma_merged_has(m: TablesModel, s: Seq<Table>, i: int)
    requires
        0 <= i < s.len(),
    ensures
        merged(m, s).contains_key(s[i].name@),
    decreases s.len(),
{
    if i < s.len() - 1 {
        lemma_merged_has(m, s.drop_last(), i);
    }
}

/// With distinct names, each name is mapped to the records of its table.
pub proof fn lemma_merged_at(m: TablesModel, s: Seq<Table>, i: int)
    requires
        names_distinct(s),
        0 <= i < s.len(),
    ensures
        merged(m, s).contains_key(s[i].name@),
        merged(m, s)[s[i].name@] == s[i].records@,
    decreases s.len(),
{
    if i < s.len() - 1 {
        let p = s.drop_last();
        assert(p[i] == s[i]);
        assert(s[s.len() - 1].name@ != s[i].name@);
        lemma_merged_at(m, p, i);
    }
}

/// Both facts above, for every name at once.
pub proof fn lemma_merged_distinct(m: TablesModel, s: Seq<Table>)
    requires
        names_distinct(s),
    ensures
        forall|i: int|
            0 <= i < s.len() ==> #[trigger] merged(m, s).contains_key(s[i].name@) && merged(
                m,
                s,
            )[s[i].name@] == s[i].records@,
        forall|k: Seq<char>|
            !names_table(s, k) ==> (#[trigger] merged(m, s).contains_key(k) == m.contains_key(k)
                && (m.contains_key(k) ==> merged(m, s)[k] == m[k])),
{
    assert forall|i: int| 0 <= i < s.len() implies #[trigger] merged(m, s).contains_key(
        s[i].name@,
    ) && merged(m, s)[s[i].name@] == s[i].records@ by {
        lemma_merged_at(m, s, i);
    }
    assert forall|k: Seq<char>| !names_table(s, k) implies (#[trigger] merged(m, s).contains_key(
        k,
    ) == m.contains_key(k) && (m.contains_key(k) ==> merged(m, s)[k] == m[k])) by {
        lemma_merged_other(m, s, k);
    }
}

/// Putting one more table at the end is inserting it under its name.
pub proof fn lemma_merged_take(m: TablesModel, s: Seq<Table>, k: int)
    requires
        0 <= k < s.len(),
    ensures
        merged(m, s.take(k + 1)) == merged(m, s.take(k)).insert(s[k].name@, s[k].records@),
{
    assert(s.take(k + 1).drop_last() =~= s.take(k));
}

/// Replacing the table of a name in a sequence of distinctly named tables
/// replaces that name's records in the mapping.
pub proof fn lemma_merged_update(s: Seq<Table>, i: int, t: Table)
    requires
        names_distinct(s),
        0 <= i < s.len(),
        s[i].name@ == t.name@,
    ensures
        names_distinct(s.update(i, t)),
        merged(Map::empty(), s.update(i, t)) == merged(Map::empty(), s).insert(
            t.name@,
            t.records@,
        ),
{
    let u = s.update(i, t);
    let e = Map::<Seq<char>, Map<u64, Record>>::empty();
    assert(names_distinct(u)) by {
        assert forall|a: int, b: int|
            0 <= a < u.len() && 0 <= b < u.len() && a != b implies u[a].name@ != u[b].name@ by {
            assert(u[a].name@ == s[a].name@);
            assert(u[b].name@ == s[b].name@);
        }
    }
    lemma_merged_distinct(e, s);
    lemma_merged_distinct(e, u);
    let lhs = merged(e, u);
    let rhs = merged(e, s).insert(t.name@, t.records@);
    assert forall|k: Seq<char>| #[trigger] lhs.contains_key(k) == rhs.contains_key(k) && (
    lhs.contains_key(k) ==> lhs[k] == rhs[k]) by {
        if k == t.name@ {
            assert(u[i] == t);
            assert(lhs.contains_key(u[i].name@));
        } else if names_table(s, k) {
            let j = choose|j: int| 0 <= j < s.len() && s[j].name@ == k;
            assert(u[j] == s[j]);
            assert(lhs.contains_key(u[j].name@));
            assert(merged(e, s).contains_key(s[j].name@));
        } else {
            assert(!names_table(u, k)) by {
                if names_table(u, k) {
                    let j = choose|j: int| 0 <= j < u.len() && u[j].name@ == k;
                    assert(j != i);
                    assert(u[j] == s[j]);
                }
            }
        }
    }
    assert(lhs =~= rhs);
}

/// Adding a table under a name that no table of the sequence has inserts it
/// under that name.
pub proof fn lemma_merged_push(s: Seq<Table>, t: Table)
    requires
        names_distinct(s),
        !names_table(s, t.name@),
    ensures
        names_distinct(s.push(t)),
        merged(Map::empty(), s.push(t)) == merged(Map::empty(), s).insert(t.name@, t.records@),
{
    let u = s.push(t);
    assert(u.drop_last() =~= s);
    assert forall|a: int, b: int|
        0 <= a < u.len() && 0 <= b < u.len() && a != b implies u[a].name@ != u[b].name@ by {
        if a == s.len() {
            assert(s[b].name@ != t.name@);
        } else if b == s.len() {
            assert(s[a].name@ != t.name@);
        }
    }
}

} // verus!
