//! Where the configuration, the indexes and the script bodies live.
use vstd::prelude::*;
use vstd::string::StrSliceExecFns;
use vstd::string::StringExecFns;

verus! {

/// The path of `name` inside the directory `dir`: a separator is put
/// between them unless `dir` is empty or already ends in one.
pub open spec fn child_path(dir: Seq<char>, name: Seq<char>) -> Seq<char> {
    if dir.len() == 0 || dir.last() == '/' {
        dir + name
    } else {
        dir + seq!['/'] + name
    }
}

/// Joins `name` onto the directory `dir`.
pub fn join_path(dir: &str, name: &str) -> (r: String)
    ensures
        r@ == child_path(dir@, name@),
{
    let mut r = String::from_str(dir);
    let n: usize = dir.unicode_len();
    if n > 0 && dir.get_char(n - 1) != '/' {
        let sep = "/";
        proof {
            reveal_strlit("/");
        }
        r.append(sep);
    }
    r.append(name);
    r
}

/// The directory of this tool inside the user's configuration directory.
pub open spec fn conf_dir_of(base: Seq<char>) -> Seq<char> {
    child_path(base, "super_pipe"@)
}

/// The directory that holds the script bodies, one file per checksum.
pub open spec fn pipes_dir_of(conf: Seq<char>) -> Seq<char> {
    child_path(conf, "pipes"@)
}

/// The index file that maps watched paths to pipeline names.
pub open spec fn pipe_map_path_of(conf: Seq<char>) -> Seq<char> {
    child_path(conf, "files.toml"@)
}

/// The index file that maps pipeline names to checksums.
pub open spec fn pipe_idx_path_of(conf: Seq<char>) -> Seq<char> {
    child_path(conf, "pipelines.toml"@)
}

/// Relies on dirs::config_dir: the user's configuration directory, when the
/// platform and the environment name one. Nothing is known of its value.
#[verifier::external_body]
fn user_config_dir() -> (r: Option<String>) {
    match dirs::config_dir() {
        Some(p) => Some(p.to_string_lossy().into_owned()),
        None => None,
    }
}

/// The directory of this tool under the configuration directory `base`.
pub fn conf_dir_in(base: &str) -> (r: String)
    ensures
        r@ == conf_dir_of(base@),
{
    join_path(base, "super_pipe")
}

/// The directory of this tool under the user's configuration directory, or
/// `None` where the platform names no such directory.
pub fn conf_dir() -> (r: Option<String>)
    ensures
        r matches Some(d) ==> exists|base: Seq<char>| d@ == conf_dir_of(base),
{
    match user_config_dir() {
        Some(base) => Some(conf_dir_in(base.as_str())),
        None => None,
    }
}

/// The directory where the script bodies are stored, under `conf`.
pub fn pipes_dir(conf: &str) -> (r: String)
    ensures
        r@ == pipes_dir_of(conf@),
{
    join_path(conf, "pipes")
}

/// The file that maps watched paths to their pipelines, under `conf`.
pub fn pipe_map_path(conf: &str) -> (r: String)
    ensures
        r@ == pipe_map_path_of(conf@),
{
    join_path(conf, "files.toml")
}

/// The file that keeps track of all the pipelines, under `conf`.
pub fn pipe_idx_path(conf: &str) -> (r: String)
    ensures
        r@ == pipe_idx_path_of(conf@),
{
    join_path(conf, "pipelines.toml")
}

} // verus!
