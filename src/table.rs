use std::collections::HashMap;
use vstd::prelude::*;

verus! {

/// One entry of a table: a caller-chosen id and an open set of string fields.
#[derive(Clone)]
pub struct Record {
    pub id: u64,
    pub data: HashMap<String, String>,
}

/// A named collection of records, keyed by record id.
pub struct Table {
    pub name: String,
    pub records: HashMap<u64, Record>,
}

impl Table {
    /// A table with the given name and no records.
    pub fn empty(name: String) -> (t: Table)
        ensures
            t.name@ == name@,
            t.records@ == Map::<u64, Record>::empty(),
    {
        Table { name, records: HashMap::new() }
    }
}

impl Default for Table {
    fn default() -> (t: Table)
        ensures
            t.name@ == Seq::<char>::empty(),
            t.records@ == Map::<u64, Record>::empty(),
    {
        Table::empty(String::new())
    }
}

} // verus!
