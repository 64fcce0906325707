//! The store: a directory and the tables held in memory for it.

use crate::files::{file_name_of, table_file_name};
use crate::model::{
    created, inserted, lemma_merged_distinct, lemma_merged_push, lemma_merged_take,
    lemma_merged_update, merged, names_distinct, names_table, TablesModel,
};
use crate::table::{Record, Table};
use vstd::prelude::*;
use vstd::string::*;

verus! {

/// A record store bound to one directory. Tables are kept in the order they
/// were first created or loaded, each under a name that no other table has.
pub struct MiniDB {
    path: String,
    tables: Vec<Table>,
}

impl View for MiniDB {
    type V = TablesModel;

    closed spec fn view(&self) -> TablesModel {
        merged(Map::empty(), self.tables@)
    }
}

/// The tables handed out by a save, without their file names.
pub open spec fn saved_tables<'a>(files: Seq<(String, &'a Table)>) -> Seq<Table> {
    files.map_values(|e: (String, &'a Table)| *e.1)
}

impl MiniDB {
    /// No two tables share a name.
    pub closed spec fn wf(&self) -> bool {
        names_distinct(self.tables@)
    }

    /// The directory that the store's files live in.
    pub closed spec fn directory(&self) -> Seq<char> {
        self.path@
    }

    /// A store over `path` that holds no table yet.
    pub fn new(path: &str) -> (db: MiniDB)
        ensures
            db.wf(),
            db@ == TablesModel::empty(),
            db.directory() == path@,
    {
        MiniDB { path: String::from_str(path), tables: Vec::new() }
    }

    /// The directory that the store's files live in.
    pub fn path(&self) -> (r: &str)
        ensures
            r@ == self.directory(),
    {
        self.path.as_str()
    }

    /// The position of the table named `name`, if there is one.
    fn find(&self, name: &String) -> (r: Option<usize>)
        ensures
            match r {
                Some(i) => i < self.tables@.len() && self.tables@[i as int].name@ == name@,
                None => !names_table(self.tables@, name@),
            },
    {
        let mut i: usize = 0;
        while i < self.tables.len()
            invariant
                i <= self.tables@.len(),
                forall|j: int| 0 <= j < i ==> self.tables@[j].name@ != name@,
            decreases self.tables@.len() - i,
        {
            if self.tables[i].name == *name {
                return Some(i);
            }
            i = i + 1;
        }
        None
    }

    /// Puts `t` under its own name, replacing any table of that name.
    fn put_table(&mut self, t: Table)
        requires
            old(self).wf(),
        ensures
            final(self).wf(),
            final(self)@ == old(self)@.insert(t.name@, t.records@),
            final(self).directory() == old(self).directory(),
    {
        match self.find(&t.name) {
            Some(i) => {
                proof {
                    lemma_merged_update(self.tables@, i as int, t);
                }
                self.tables.set(i, t);
            },
            None => {
                proof {
                    lemma_merged_push(self.tables@, t);
                }
                self.tables.push(t);
            },
        }
    }

    /// Creates an empty table `name`, discarding any table held under that
    /// name before.
    pub fn create_table(&mut self, name: &str)
        requires
            old(self).wf(),
        ensures
            final(self).wf(),
            final(self)@ == created(old(self)@, name@),
            final(self)@[name@].is_empty(),
            final(self).directory() == old(self).directory(),
    {
        self.put_table(Table::empty(String::from_str(name)));
    }

    /// Stores `record` under its id in table `table`, replacing any record of
    /// that id. Where no table of that name exists the record is dropped and
    /// the store is left as it was.
    pub fn insert(&mut self, table: &str, record: Record)
        requires
            old(self).wf(),
        ensures
            final(self).wf(),
            final(self)@ == inserted(old(self)@, table@, record),
            !old(self)@.contains_key(table@) ==> final(self)@ == old(self)@,
            final(self).directory() == old(self).directory(),
    {
        let key = String::from_str(table);
        match self.find(&key) {
            Some(i) => {
                let ghost before = self.tables@;
                proof {
                    lemma_merged_distinct(Map::empty(), before);
                }
                let t = &mut self.tables[i];
                t.records.insert(record.id, record);
                proof {
                    lemma_merged_update(before, i as int, self.tables@[i as int]);
                    assert(self.tables@ =~= before.update(i as int, self.tables@[i as int]));
                }
            },
            None => {
                proof {
                    lemma_merged_distinct(Map::empty(), self.tables@);
                }
            },
        }
    }

    /// The table held under `name`, if any.
    pub fn table(&self, name: &str) -> (r: Option<&Table>)
        requires
            self.wf(),
        ensures
            r.is_some() == self@.contains_key(name@),
            r matches Some(t) ==> t.name@ == name@ && t.records@ == self@[name@],
    {
        let key = String::from_str(name);
        proof {
            lemma_merged_distinct(Map::empty(), self.tables@);
        }
        match self.find(&key) {
            Some(i) => {
                assert(self@.contains_key(self.tables@[i as int].name@));
                Some(&self.tables[i])
            },
            None => None,
        }
    }

    /// Puts each of `loaded` into the store under the table's own name, in
    /// order, replacing a table held under that name; tables of other names
    /// stay as they were.
    pub fn load(&mut self, loaded: Vec<Table>)
        requires
            old(self).wf(),
        ensures
            final(self).wf(),
            final(self)@ == merged(old(self)@, loaded@),
            final(self).directory() == old(self).directory(),
    {
        let ghost start = self@;
        let ghost all = loaded@;
        let n = loaded.len();
        let mut rest = loaded;
        let mut k: usize = 0;
        while rest.len() > 0
            invariant
                self.wf(),
                self.directory() == old(self).directory(),
                start == old(self)@,
                n == all.len(),
                k + rest@.len() == all.len(),
                rest@ == all.subrange(k as int, all.len() as int),
                self@ == merged(start, all.take(k as int)),
            decreases rest@.len(),
        {
            let t = rest.remove(0);
            proof {
                lemma_merged_take(start, all, k as int);
            }
            self.put_table(t);
            k = k + 1;
            assert(rest@ =~= all.subrange(k as int, all.len() as int));
        }
        assert(all.take(k as int) =~= all);
    }

    /// The file name and the table for each file that a save writes: one per
    /// table held, named after the table, holding exactly what the store holds.
    pub fn save(&self) -> (files: Vec<(String, &Table)>)
        requires
            self.wf(),
        ensures
            forall|i: int|
                0 <= i < files@.len() ==> #[trigger] files@[i].0@ == file_name_of(files@[i].1.name@),
            names_distinct(saved_tables(files@)),
            merged(TablesModel::empty(), saved_tables(files@)) == self@,
    {
        let mut files: Vec<(String, &Table)> = Vec::new();
        let mut i: usize = 0;
        while i < self.tables.len()
            invariant
                i <= self.tables@.len(),
                files@.len() == i,
                forall|j: int| 0 <= j < i ==> *(#[trigger] files@[j]).1 == self.tables@[j],
                forall|j: int|
                    0 <= j < i ==> #[trigger] files@[j].0@ == file_name_of(files@[j].1.name@),
            decreases self.tables@.len() - i,
        {
            let t = &self.tables[i];
            files.push((table_file_name(t.name.as_str()), t));
            i = i + 1;
        }
        assert(saved_tables(files@) =~= self.tables@) by {
            assert forall|j: int| 0 <= j < i implies saved_tables(files@)[j] == self.tables@[j] by {
                assert(*files@[j].1 == self.tables@[j]);
            }
        }
        files
    }
}

} // verus!
