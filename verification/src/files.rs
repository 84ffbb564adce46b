//! Where the tool keeps its own files: a `cf-tool` directory inside the
//! system's configuration directory.
use vstd::prelude::*;
use crate::path::{FsPath, config_directory};

verus! {

/// The tool's directory inside the configuration directory `base`.
pub fn tool_dir_in(base: &FsPath) -> (r: FsPath)
    ensures
        r@ == base@.push("cf-tool"@),
{
    base.join("cf-tool")
}

/// The configuration file inside the configuration directory `base`.
pub fn config_file_in(base: &FsPath) -> (r: FsPath)
    ensures
        r@ == base@.push("cf-tool"@).push("config.json"@),
{
    tool_dir_in(base).join("config.json")
}

/// The session file inside the configuration directory `base`.
pub fn session_file_in(base: &FsPath) -> (r: FsPath)
    ensures
        r@ == base@.push("cf-tool"@).push("session.json"@),
{
    tool_dir_in(base).join("session.json")
}

/// The tool's directory: `<config dir>/cf-tool`. `None` where the system has
/// no configuration directory.
pub fn config_dir_path() -> (r: Option<FsPath>)
    ensures
        exists|d: Option<FsPath>|
            call_ensures(config_directory, (), d) && match d {
                Some(base) => r matches Some(p) && p@ == base@.push("cf-tool"@),
                None => r is None,
            },
{
    let d = config_directory();
    let r = match &d {
        Some(base) => Some(tool_dir_in(base)),
        None => None,
    };
    assert(call_ensures(config_directory, (), d));
    r
}

/// The configuration file: `<config dir>/cf-tool/config.json`.
pub fn config_file_path() -> (r: Option<FsPath>)
    ensures
        exists|d: Option<FsPath>|
            call_ensures(config_directory, (), d) && match d {
                Some(base) => r matches Some(p) && p@ == base@.push("cf-tool"@).push("config.json"@),
                None => r is None,
            },
{
    let d = config_directory();
    let r = match &d {
        Some(base) => Some(config_file_in(base)),
        None => None,
    };
    assert(call_ensures(config_directory, (), d));
    r
}

/// The session file: `<config dir>/cf-tool/session.json`.
pub fn session_file_path() -> (r: Option<FsPath>)
    ensures
        exists|d: Option<FsPath>|
            call_ensures(config_directory, (), d) && match d {
                Some(base) => r matches Some(p) && p@ == base@.push("cf-tool"@).push("session.json"@),
                None => r is None,
            },
{
    let d = config_directory();
    let r = match &d {
        Some(base) => Some(session_file_in(base)),
        None => None,
    };
    assert(call_ensures(config_directory, (), d));
    r
}

} // verus!
