//! Planning of an on-disk database bundle: every path and every byte
//! of content the bundle's creation writes, computed and pinned down
//! here; performing the directory creation and the writes is the
//! caller's (unverified, I/O-side) job.

use vstd::prelude::*;
use crate::json::{json_quoted, push_json_quoted};
use crate::strings::{dec_digits, push_dec_u64};

verus! {

/// `dir/leaf`.
pub open spec fn joined_path(dir: Seq<char>, leaf: Seq<char>) -> Seq<char> {
    dir + seq!['/'] + leaf
}

/// The exact text of a bundle's `<name>.afdb` metadata descriptor.
pub open spec fn afdb_json(name: Seq<char>, version: int, created_at: Seq<char>) -> Seq<char> {
    "{\"name\":"@ + json_quoted(name) + ",\"version\":"@ + dec_digits(version)
        + ",\"createdAt\":"@ + json_quoted(created_at) + "}"@
}

/// Joins a directory and a leaf name with a single separator.
pub fn join_path(dir: &str, leaf: &str) -> (r: String)
    ensures
        r@ == joined_path(dir@, leaf@),
{
    proof {
        reveal_strlit("/");
    }
    let mut out = String::new();
    out.append(dir);
    out.append("/");
    out.append(leaf);
    assert(out@ =~= joined_path(dir@, leaf@));
    out
}

/// The metadata descriptor text for a bundle.
pub fn database_meta_json(name: &str, version: u32, created_at: &str) -> (r: String)
    ensures
        r@ == afdb_json(name@, version as int, created_at@),
{
    let mut out = String::new();
    out.append("{\"name\":");
    push_json_quoted(&mut out, name);
    out.append(",\"version\":");
    push_dec_u64(&mut out, version as u64);
    out.append(",\"createdAt\":");
    push_json_quoted(&mut out, created_at);
    out.append("}");
    assert(out@ =~= afdb_json(name@, version as int, created_at@));
    out
}

/// Everything the creation of one database bundle touches on disk: the
/// bundle directory, its two subdirectories, and the two files with
/// their exact contents.
pub struct DatabasePlan {
    pub db_path: String,
    pub stores_dir: String,
    pub personal_dir: String,
    pub meta_file: String,
    pub meta_contents: String,
    pub ignore_file: String,
    pub ignore_contents: String,
}

/// Lays out a new database bundle `parent_dir/name`: subdirectories
/// `stores` and `personal`, a `<name>.afdb` descriptor holding the
/// name, schema version and creation timestamp, and an ignore file
/// excluding `personal/` from version control.
pub fn create_database_plan(parent_dir: &str, name: &str, version: u32, created_at: &str) -> (r:
    DatabasePlan)
    ensures
        r.db_path@ == joined_path(parent_dir@, name@),
        r.stores_dir@ == joined_path(r.db_path@, "stores"@),
        r.personal_dir@ == joined_path(r.db_path@, "personal"@),
        r.meta_file@ == joined_path(r.db_path@, name@ + ".afdb"@),
        r.meta_contents@ == afdb_json(name@, version as int, created_at@),
        r.ignore_file@ == joined_path(r.db_path@, ".gitignore"@),
        r.ignore_contents@ == "personal/\n"@,
{
    let db_path = join_path(parent_dir, name);
    let stores_dir = join_path(db_path.as_str(), "stores");
    let personal_dir = join_path(db_path.as_str(), "personal");
    let mut meta_name = String::new();
    meta_name.append(name);
    meta_name.append(".afdb");
    let meta_file = join_path(db_path.as_str(), meta_name.as_str());
    let meta_contents = database_meta_json(name, version, created_at);
    let ignore_file = join_path(db_path.as_str(), ".gitignore");
    let mut ignore_contents = String::new();
    ignore_contents.append("personal/\n");
    DatabasePlan {
        db_path,
        stores_dir,
        personal_dir,
        meta_file,
        meta_contents,
        ignore_file,
        ignore_contents,
    }
}

} // verus!
