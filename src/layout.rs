//! The names of the files and directories an experiment root holds.
use vstd::prelude::*;

use crate::hashing::is_content_hash;

verus! {

/// The environment snapshot, directly under the experiment root.
pub const ENVIRONMENT_FILE: &'static str = "environment.json";

/// The configuration, inside its run directory.
pub const CONFIGURATION_FILE: &'static str = "configuration.json";

/// The container engine's version and information, inside `CONFIG_DIR`.
pub const ENGINE_VERSION_FILE: &'static str = "engine-version.json";

pub const ENGINE_INFO_FILE: &'static str = "engine-info.json";

/// The sub-directories of one execution's directory.
pub const CONFIG_DIR: &'static str = "config";

pub const LOGS_DIR: &'static str = "logs";

pub const METRICS_DIR: &'static str = "metrics";

pub open spec fn container_file(name: Seq<char>, extension: Seq<char>) -> Seq<char> {
    "container-"@ + name + extension
}

fn container_file_name(name: &String, extension: &str) -> (r: String)
    ensures
        r@ == container_file(name@, extension@),
{
    String::from_str("container-").concat(name.as_str()).concat(extension)
}

/// The resolved creation parameters of a container, under `CONFIG_DIR`.
pub fn container_config_file(name: &String) -> (r: String)
    ensures
        r@ == container_file(name@, ".json"@),
{
    container_file_name(name, ".json")
}

/// A container's log, under `LOGS_DIR`.
pub fn container_log_file(name: &String) -> (r: String)
    ensures
        r@ == container_file(name@, ".log"@),
{
    container_file_name(name, ".log")
}

/// A container's resource-usage samples, under `METRICS_DIR`.
pub fn container_stats_file(name: &String) -> (r: String)
    ensures
        r@ == container_file(name@, ".stats"@),
{
    container_file_name(name, ".stats")
}

/// A container's process-table snapshots, under `METRICS_DIR`.
pub fn container_top_file(name: &String) -> (r: String)
    ensures
        r@ == container_file(name@, ".top"@),
{
    container_file_name(name, ".top")
}

/// Whether an entry of the experiment root names completed work: a bare
/// content hash, not a running marker nor a failed run.
pub fn is_completed_dir_name(name: &String) -> (r: bool)
    ensures
        r == is_content_hash(name@),
{
    let n = name.as_str().unicode_len();
    if n != 64 {
        return false;
    }
    let mut i: usize = 0;
    while i < n
        invariant
            n == name@.len(),
            i <= n,
            forall|k: int| 0 <= k < i ==> crate::hashing::is_lower_hex_digit(#[trigger] name@[k]),
        decreases n - i,
    {
        let c = name.as_str().get_char(i);
        if !(('0' <= c && c <= '9') || ('a' <= c && c <= 'f')) {
            assert(!crate::hashing::is_lower_hex_digit(name@[i as int]));
            return false;
        }
        i = i + 1;
    }
    true
}

/// The entries of the experiment root that hold completed work, in the
/// given order.
pub fn completed_dirs(entries: &Vec<String>) -> (r: Vec<String>)
    ensures
        r@.map_values(|s: String| s@) == entries@.map_values(|s: String| s@).filter(
            |n: Seq<char>| is_content_hash(n),
        ),
{
    let ghost views = entries@.map_values(|s: String| s@);
    let mut r: Vec<String> = Vec::new();
    let mut i: usize = 0;
    while i < entries.len()
        invariant
            i <= entries@.len(),
            views == entries@.map_values(|s: String| s@),
            r@.map_values(|s: String| s@) == views.subrange(0, i as int).filter(
                |n: Seq<char>| is_content_hash(n),
            ),
        decreases entries@.len() - i,
    {
        let ghost before = r@;
        proof {
            let f = |n: Seq<char>| is_content_hash(n);
            assert(views.subrange(0, i + 1) =~= views.subrange(0, i as int).push(views[i as int]));
            views.subrange(0, i as int).lemma_filter_push(views[i as int], f);
        }
        if is_completed_dir_name(&entries[i]) {
            r.push(entries[i].clone());
            assert(r@.map_values(|s: String| s@) =~= before.map_values(|s: String| s@).push(
                entries@[i as int]@,
            ));
        }
        i = i + 1;
    }
    assert(views.subrange(0, entries@.len() as int) =~= views);
    r
}

} // verus!
