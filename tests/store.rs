use minidb::{is_table_file, table_file_name, MiniDB, Record, Table};
use std::collections::HashMap;

fn record(id: u64, fields: &[(&str, &str)]) -> Record {
    let mut r = Record { id, data: HashMap::new() };
    for (k, v) in fields {
        r.data.insert(k.to_string(), v.to_string());
    }
    r
}

fn copy_of(t: &Table) -> Table {
    Table { name: t.name.clone(), records: t.records.clone() }
}

/// What a save hands out, as owned tables with their file names.
fn saved_copies(db: &MiniDB) -> Vec<(String, Table)> {
    db.save().into_iter().map(|(f, t)| (f, copy_of(t))).collect()
}

#[test]
fn test_create_table_and_insert_record() {
    let test_path = "./test_data_2";
    let mut db = MiniDB::new(test_path);
    db.create_table("users");

    let mut record = Record { id: 1, data: HashMap::new() };
    record.data.insert("name".into(), "Stan".into());
    record.data.insert("role".into(), "Admin".into());

    db.insert("users", record.clone());

    assert!(db.table("users").is_some());
    assert_eq!(db.table("users").unwrap().records.len(), 1);
    assert_eq!(db.table("users").unwrap().records.get(&1).unwrap().data["name"], "Stan");
}

#[test]
fn test_save_and_load_database() {
    let test_path = "./test_data_3";
    let mut db = MiniDB::new(test_path);
    db.create_table("products");

    let mut rec1 = Record { id: 10, data: HashMap::new() };
    rec1.data.insert("name".into(), "Laptop".into());
    rec1.data.insert("price".into(), "999".into());

    db.insert("products", rec1);
    let files = saved_copies(&db);

    let file_names: Vec<&str> = files.iter().map(|(f, _)| f.as_str()).collect();
    assert_eq!(file_names, vec!["products.json"], "Table file should be written to disk");

    let mut db2 = MiniDB::new(test_path);
    db2.load(files.into_iter().map(|(_, t)| t).collect());

    let table = db2.table("products").expect("Table 'products' should exist after load");
    let record = table.records.get(&10).expect("Record should exist after load");
    assert_eq!(record.data["name"], "Laptop");
    assert_eq!(record.data["price"], "999");
}

#[test]
fn new_store_is_empty_and_keeps_its_path() {
    let db = MiniDB::new("some/dir");
    assert_eq!(db.path(), "some/dir");
    assert!(db.table("anything").is_none());
    assert!(db.save().is_empty());
}

#[test]
fn insert_into_one_table_holds_one_record() {
    let mut db = MiniDB::new("d");
    db.create_table("t");
    db.insert("t", record(1, &[("name", "Stan"), ("role", "Admin")]));
    let t = db.table("t").unwrap();
    assert_eq!(t.name, "t");
    assert_eq!(t.records.len(), 1);
    assert_eq!(t.records[&1].data["name"], "Stan");
    assert_eq!(t.records[&1].data["role"], "Admin");
}

#[test]
fn insert_into_missing_table_is_dropped() {
    let mut db = MiniDB::new("d");
    db.create_table("a");
    db.insert("missing", record(5, &[("k", "v")]));
    assert!(db.table("missing").is_none());
    assert_eq!(db.table("a").unwrap().records.len(), 0);
    assert_eq!(db.save().len(), 1);
}

#[test]
fn insert_same_id_overwrites() {
    let mut db = MiniDB::new("d");
    db.create_table("t");
    db.insert("t", record(3, &[("v", "old")]));
    db.insert("t", record(3, &[("v", "new")]));
    db.insert("t", record(4, &[("v", "other")]));
    let t = db.table("t").unwrap();
    assert_eq!(t.records.len(), 2);
    assert_eq!(t.records[&3].data["v"], "new");
    assert_eq!(t.records[&4].data["v"], "other");
}

#[test]
fn recreate_table_discards_records() {
    let mut db = MiniDB::new("d");
    db.create_table("t");
    db.insert("t", record(1, &[("a", "b")]));
    db.create_table("t");
    assert_eq!(db.table("t").unwrap().records.len(), 0);
    assert_eq!(db.save().len(), 1);
}

#[test]
fn save_names_one_file_per_table() {
    let mut db = MiniDB::new("d");
    db.create_table("users");
    db.create_table("orders");
    db.create_table("users");
    let mut names: Vec<String> = db.save().into_iter().map(|(f, _)| f).collect();
    names.sort();
    assert_eq!(names, vec!["orders.json".to_string(), "users.json".to_string()]);
}

#[test]
fn save_twice_hands_out_the_same_tables() {
    let mut db = MiniDB::new("d");
    db.create_table("x");
    db.create_table("y");
    db.insert("x", record(1, &[("f", "1")]));
    db.insert("y", record(2, &[("g", "2")]));
    let first = saved_copies(&db);
    let second = saved_copies(&db);
    assert_eq!(first.len(), second.len());
    for ((f1, t1), (f2, t2)) in first.iter().zip(second.iter()) {
        assert_eq!(f1, f2);
        assert_eq!(t1.name, t2.name);
        assert_eq!(t1.records.len(), t2.records.len());
        for (id, r) in &t1.records {
            assert_eq!(r.data, t2.records[id].data);
        }
    }
}

#[test]
fn load_merges_with_tables_in_memory() {
    let mut db = MiniDB::new("d");
    db.create_table("a");
    db.insert("a", record(1, &[("in", "memory")]));

    let mut disk = MiniDB::new("d");
    disk.create_table("b");
    disk.insert("b", record(2, &[("on", "disk")]));

    db.load(saved_copies(&disk).into_iter().map(|(_, t)| t).collect());
    assert_eq!(db.table("a").unwrap().records[&1].data["in"], "memory");
    assert_eq!(db.table("b").unwrap().records[&2].data["on"], "disk");
}

#[test]
fn load_replaces_table_of_same_name_by_its_own_name() {
    let mut db = MiniDB::new("d");
    db.create_table("t");
    db.insert("t", record(1, &[("v", "memory")]));
    let mut loaded = Table { name: "t".to_string(), records: HashMap::new() };
    loaded.records.insert(7, record(7, &[("v", "disk")]));
    db.load(vec![loaded]);
    let t = db.table("t").unwrap();
    assert_eq!(t.records.len(), 1);
    assert_eq!(t.records[&7].data["v"], "disk");
}

#[test]
fn load_later_table_of_a_name_wins() {
    let mut db = MiniDB::new("d");
    let mut first = Table { name: "t".to_string(), records: HashMap::new() };
    first.records.insert(1, record(1, &[]));
    let second = Table { name: "t".to_string(), records: HashMap::new() };
    db.load(vec![first, second]);
    assert_eq!(db.table("t").unwrap().records.len(), 0);
    assert_eq!(db.save().len(), 1);
}

#[test]
fn default_table_is_empty() {
    let t = Table::default();
    assert_eq!(t.name, "");
    assert!(t.records.is_empty());
}

#[test]
fn table_file_names() {
    assert_eq!(table_file_name("products"), "products.json");
    assert_eq!(table_file_name(""), ".json");
    assert_eq!(table_file_name("a.b"), "a.b.json");
}

#[test]
fn table_file_recognition() {
    assert!(is_table_file("products.json"));
    assert!(is_table_file("a.json"));
    assert!(is_table_file("x..json"));
    assert!(!is_table_file(".json"));
    assert!(!is_table_file("json"));
    assert!(!is_table_file("a.txt"));
    assert!(!is_table_file("a.json.bak"));
    assert!(!is_table_file("a.JSON"));
    assert!(!is_table_file("ajson"));
    assert!(is_table_file("ü.json"));
}
