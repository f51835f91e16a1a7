//! Connection settings for the backing store, and its label-to-table
//! mappings; the values callers hand to whatever performs the reads.

use vstd::prelude::*;

verus! {

/// How to reach the backing store, and its name mappings.
#[derive(Debug)]
pub struct TiDBService {
    pub host: String,
    pub port: String,
    pub username: String,
    pub password: String,
    pub database: String,
    pub label_table_map: Vec<(String, String)>,
    pub table_id_map: Vec<(String, String)>,
}

/// Everything an execution environment carries.
#[derive(Debug)]
pub struct Context {
    pub tidb_service: TiDBService,
}

impl Context {
    /// The default environment: a local store, no mappings.
    pub fn new() -> (r: Context)
        ensures
            r.tidb_service.host@ == "localhost"@,
            r.tidb_service.port@ == "4000"@,
            r.tidb_service.username@ == "root"@,
            r.tidb_service.password@ == ""@,
            r.tidb_service.database@ == "test"@,
            r.tidb_service.label_table_map@.len() == 0,
            r.tidb_service.table_id_map@.len() == 0,
    {
        Context {
            tidb_service: TiDBService {
                host: String::from_str("localhost"),
                port: String::from_str("4000"),
                username: String::from_str("root"),
                password: String::from_str(""),
                database: String::from_str("test"),
                label_table_map: Vec::new(),
                table_id_map: Vec::new(),
            },
        }
    }
}

} // verus!
