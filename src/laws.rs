//! Laws that relate several operations of the store.

use crate::files::{file_name_of, is_table_file_name, lemma_file_name_is_table_file};
use crate::model::{
    created, inserted, lemma_merged_at, lemma_merged_distinct, lemma_merged_has, lemma_merged_other, merged,
    names_distinct, names_table, TablesModel,
};
use crate::table::{Record, Table};
use vstd::prelude::*;

verus! {

/// Re-creating a table discards the records put into it since it was
/// created: the store is as it was right after the first creation, and the
/// table is empty.
pub proof fn lemma_recreate_discards(m: TablesModel, name: Seq<char>, r: Record)
    ensures
        created(inserted(created(m, name), name, r), name) == created(m, name),
        created(inserted(created(m, name), name, r), name)[name].is_empty(),
{
    assert(created(inserted(created(m, name), name, r), name) =~= created(m, name));
}

/// Loading merges: a table held in memory whose name no loaded table has is
/// kept as it was, and every loaded table is held afterwards; where the loaded
/// tables have distinct names, each is held with exactly its records.
pub proof fn lemma_load_merges(m: TablesModel, loaded: Seq<Table>)
    ensures
        forall|k: Seq<char>|
            m.contains_key(k) && !names_table(loaded, k) ==> #[trigger] merged(
                m,
                loaded,
            ).contains_key(k) && merged(m, loaded)[k] == m[k],
        forall|i: int|
            0 <= i < loaded.len() ==> #[trigger] merged(m, loaded).contains_key(loaded[i].name@),
        names_distinct(loaded) ==> forall|i: int|
            0 <= i < loaded.len() ==> #[trigger] merged(m, loaded)[loaded[i].name@]
                == loaded[i].records@,
{
    assert forall|k: Seq<char>| m.contains_key(k) && !names_table(loaded, k) implies #[trigger] merged(
        m,
        loaded,
    ).contains_key(k) && merged(m, loaded)[k] == m[k] by {
        lemma_merged_other(m, loaded, k);
    }
    assert forall|i: int| 0 <= i < loaded.len() implies #[trigger] merged(m, loaded).contains_key(
        loaded[i].name@,
    ) by {
        lemma_merged_has(m, loaded, i);
    }
    if names_distinct(loaded) {
        assert forall|i: int| 0 <= i < loaded.len() implies #[trigger] merged(m, loaded)[loaded[i].name@]
            == loaded[i].records@ by {
            lemma_merged_at(m, loaded, i);
        }
    }
}

/// A saved store comes back whole: the files of a save are found again when
/// the directory is read (each table with a non-empty name; `.json` alone
/// names a hidden file without extension), and loading the tables read from
/// them, in any order, into an empty store gives exactly what was saved.
pub proof fn lemma_save_then_load(before: TablesModel, saved: Seq<Table>, loaded: Seq<Table>)
    requires
        names_distinct(saved),
        merged(TablesModel::empty(), saved) == before,
        names_distinct(loaded),
        forall|t: Table| saved.contains(t) <==> loaded.contains(t),
    ensures
        forall|i: int|
            0 <= i < saved.len() && saved[i].name@.len() > 0 ==> is_table_file_name(
                #[trigger] file_name_of(saved[i].name@),
            ),
        merged(TablesModel::empty(), loaded) == before,
{
    assert forall|i: int| 0 <= i < saved.len() && saved[i].name@.len() > 0 implies is_table_file_name(
        #[trigger] file_name_of(saved[i].name@),
    ) by {
        lemma_file_name_is_table_file(saved[i].name@);
    }
    let e = TablesModel::empty();
    lemma_merged_distinct(e, saved);
    lemma_merged_distinct(e, loaded);
    let a = merged(e, loaded);
    assert forall|k: Seq<char>| #[trigger] a.contains_key(k) == before.contains_key(k) && (
    a.contains_key(k) ==> a[k] == before[k]) by {
        if names_table(loaded, k) {
            let j = choose|j: int| 0 <= j < loaded.len() && loaded[j].name@ == k;
            assert(loaded.contains(loaded[j]));
            let i = choose|i: int| 0 <= i < saved.len() && saved[i] == loaded[j];
            assert(a.contains_key(loaded[j].name@));
            assert(before.contains_key(saved[i].name@));
        } else if names_table(saved, k) {
            let i = choose|i: int| 0 <= i < saved.len() && saved[i].name@ == k;
            assert(saved.contains(saved[i]));
            let j = choose|j: int| 0 <= j < loaded.len() && loaded[j] == saved[i];
            assert(names_table(loaded, k));
        }
    }
    assert(a =~= before);
}

/// Saving twice with nothing changed in between writes the same files: each
/// table of one save is written by the other under the same name with the same
/// records.
pub proof fn lemma_save_repeatable(held: TablesModel, first: Seq<Table>, second: Seq<Table>)
    requires
        names_distinct(first),
        names_distinct(second),
        merged(TablesModel::empty(), first) == held,
        merged(TablesModel::empty(), second) == held,
    ensures
        forall|i: int|
            0 <= i < first.len() ==> exists|j: int|
                0 <= j < second.len() && #[trigger] second[j].name@ == #[trigger] first[i].name@
                    && second[j].records@ == first[i].records@,
        forall|j: int|
            0 <= j < second.len() ==> exists|i: int|
                0 <= i < first.len() && #[trigger] first[i].name@ == #[trigger] second[j].name@
                    && first[i].records@ == second[j].records@,
{
    let e = TablesModel::empty();
    lemma_merged_distinct(e, first);
    lemma_merged_distinct(e, second);
    assert forall|i: int| 0 <= i < first.len() implies exists|j: int|
        0 <= j < second.len() && #[trigger] second[j].name@ == #[trigger] first[i].name@
            && second[j].records@ == first[i].records@ by {
        assert(held.contains_key(first[i].name@));
        assert(names_table(second, first[i].name@));
        let j = choose|j: int| 0 <= j < second.len() && second[j].name@ == first[i].name@;
        assert(held.contains_key(second[j].name@));
    }
    assert forall|j: int| 0 <= j < second.len() implies exists|i: int|
        0 <= i < first.len() && #[trigger] first[i].name@ == #[trigger] second[j].name@
            && first[i].records@ == second[j].records@ by {
        assert(held.contains_key(second[j].name@));
        assert(names_table(first, second[j].name@));
        let i = choose|i: int| 0 <= i < first.len() && first[i].name@ == second[j].name@;
        assert(held.contains_key(first[i].name@));
    }
}

} // verus!
