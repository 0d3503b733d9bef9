//! The server's configuration.

use crate::json::{json_string, value_as_string};
use serde_json::Value;
use vstd::prelude::*;

verus! {

/// Where the server keeps its data, relative to the configuration file.
pub struct Configuration {
    pub data_path: String,
}

impl Default for Configuration {
    /// The data is kept in `data.json`.
    fn default() -> (config: Self)
        ensures
            config.data_path@ == "data.json"@,
    {
        Configuration { data_path: "data.json".to_owned() }
    }
}

/// The data file that a configuration store names under `data_path_abs`:
/// the text of that setting where it is a JSON string, else the default
/// `data/data.json`.
pub open spec fn spec_data_path(setting: Option<Value>) -> Seq<char> {
    match setting {
        Some(v) => match json_string(v) {
            Some(path) => path,
            None => "data/data.json"@,
        },
        None => "data/data.json"@,
    }
}

/// The data file that the configuration names (see `spec_data_path`).
pub fn data_path_from_setting(setting: &Option<Value>) -> (path: String)
    ensures
        path@ == spec_data_path(*setting),
{
    match setting {
        Some(v) => match value_as_string(v) {
            Some(path) => path,
            None => "data/data.json".to_owned(),
        },
        None => "data/data.json".to_owned(),
    }
}

} // verus!
