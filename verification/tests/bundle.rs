use afdb_core::bundle::{create_database_plan, database_meta_json, join_path};
use afdb_core::timestamp::format_utc_timestamp;

#[test]
fn join_path_inserts_one_separator() {
    assert_eq!(join_path("/tmp/x", "foo"), "/tmp/x/foo");
}

#[test]
fn database_plan_layout() {
    let created = format_utc_timestamp(1_709_208_000, 500);
    let plan = create_database_plan("/tmp/x", "foo", 3, &created);
    assert_eq!(plan.db_path, "/tmp/x/foo");
    assert_eq!(plan.stores_dir, "/tmp/x/foo/stores");
    assert_eq!(plan.personal_dir, "/tmp/x/foo/personal");
    assert_eq!(plan.meta_file, "/tmp/x/foo/foo.afdb");
    assert_eq!(plan.ignore_file, "/tmp/x/foo/.gitignore");
    assert_eq!(plan.ignore_contents, "personal/\n");

    let v: serde_json::Value = serde_json::from_str(&plan.meta_contents).unwrap();
    assert_eq!(v["name"].as_str().unwrap(), "foo");
    assert_eq!(v["version"].as_u64().unwrap(), 3);
    assert_eq!(v["createdAt"].as_str().unwrap(), "2024-02-29T12:00:00.500Z");
}

#[test]
fn database_plan_is_deterministic() {
    // Creating the same bundle twice plans the same directories and
    // overwrites the same files with the same contents.
    let created = format_utc_timestamp(0, 0);
    let a = create_database_plan("/tmp/x", "foo", 3, &created);
    let b = create_database_plan("/tmp/x", "foo", 3, &created);
    assert_eq!(a.db_path, b.db_path);
    assert_eq!(a.stores_dir, b.stores_dir);
    assert_eq!(a.personal_dir, b.personal_dir);
    assert_eq!(a.meta_file, b.meta_file);
    assert_eq!(a.meta_contents, b.meta_contents);
    assert_eq!(a.ignore_file, b.ignore_file);
    assert_eq!(a.ignore_contents, b.ignore_contents);
}

#[test]
fn meta_json_escapes_the_name() {
    let text = database_meta_json("we\"ird", 7, "1970-01-01T00:00:00.000Z");
    let v: serde_json::Value = serde_json::from_str(&text).unwrap();
    assert_eq!(v["name"].as_str().unwrap(), "we\"ird");
    assert_eq!(v["version"].as_u64().unwrap(), 7);
}
