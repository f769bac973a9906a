//! Where the supervisor keeps its files, below a working directory:
//!
//! ```text
//! <workdir>/data/approved.json            approval marker
//! <workdir>/data/ddbot/application.yaml   the bot's configuration
//! <workdir>/data/ddbot/backups/           configuration backups
//! <workdir>/data/ddbot/logs/latest.log    the bot's log
//! <workdir>/data/ddbot/.lsp.db            the bot's data store
//! <workdir>/binary/DDBOT[.exe]            the managed binary
//! <workdir>/installed.json                what was installed
//! ```

use vstd::prelude::*;

verus! {

/// `base` and `name` joined by a path separator.
pub open spec fn joined(base: Seq<char>, name: Seq<char>) -> Seq<char> {
    base + seq!['/'] + name
}

/// Joins a path and a name below it.
pub fn join_path(base: &str, name: &str) -> (r: String)
    ensures
        r@ == joined(base@, name@),
{
    let mut r = String::from_str(base);
    r.append("/");
    r.append(name);
    proof {
        reveal_strlit("/");
    }
    r
}

pub open spec fn data_dir_of(workdir: Seq<char>) -> Seq<char> {
    joined(workdir, "data"@)
}

pub open spec fn managed_dir_of(workdir: Seq<char>) -> Seq<char> {
    joined(data_dir_of(workdir), "ddbot"@)
}

/// The name of the application's directory below the user's data directory.
pub const APP_DIR_NAME: &'static str = "DDBOT-WSa-Desktop";

/// The working directory below the user's data directory.
pub fn workdir_under(data_home: &str) -> (r: String)
    ensures
        r@ == joined(data_home@, APP_DIR_NAME@),
{
    join_path(data_home, APP_DIR_NAME)
}

pub fn data_dir(workdir: &str) -> (r: String)
    ensures
        r@ == data_dir_of(workdir@),
{
    join_path(workdir, "data")
}

/// Everything the bot reads and writes lives here.
pub fn managed_ddbot_dir(workdir: &str) -> (r: String)
    ensures
        r@ == managed_dir_of(workdir@),
{
    let d = data_dir(workdir);
    join_path(d.as_str(), "ddbot")
}

pub fn config_path(workdir: &str) -> (r: String)
    ensures
        r@ == joined(managed_dir_of(workdir@), "application.yaml"@),
{
    let d = managed_ddbot_dir(workdir);
    join_path(d.as_str(), "application.yaml")
}

/// The marker whose existence records that the user approved managed edits
/// of the bot's configuration.
pub fn approval_marker_path(workdir: &str) -> (r: String)
    ensures
        r@ == joined(data_dir_of(workdir@), "approved.json"@),
{
    let d = data_dir(workdir);
    join_path(d.as_str(), "approved.json")
}

pub fn binary_dir(workdir: &str) -> (r: String)
    ensures
        r@ == joined(workdir@, "binary"@),
{
    join_path(workdir, "binary")
}

pub open spec fn executable_name_of(windows: bool) -> Seq<char> {
    if windows {
        "DDBOT.exe"@
    } else {
        "DDBOT"@
    }
}

/// The managed binary's path; its name carries `.exe` on Windows.
pub fn binary_path(workdir: &str, windows: bool) -> (r: String)
    ensures
        r@ == joined(joined(workdir@, "binary"@), executable_name_of(windows)),
{
    let d = binary_dir(workdir);
    if windows {
        join_path(d.as_str(), "DDBOT.exe")
    } else {
        join_path(d.as_str(), "DDBOT")
    }
}

pub fn lsp_db_path(workdir: &str) -> (r: String)
    ensures
        r@ == joined(managed_dir_of(workdir@), ".lsp.db"@),
{
    let d = managed_ddbot_dir(workdir);
    join_path(d.as_str(), ".lsp.db")
}

pub fn lsp_db_lock_path(workdir: &str) -> (r: String)
    ensures
        r@ == joined(managed_dir_of(workdir@), ".lsp.db.lock"@),
{
    let d = managed_ddbot_dir(workdir);
    join_path(d.as_str(), ".lsp.db.lock")
}

pub fn ext_db_lock_path(workdir: &str) -> (r: String)
    ensures
        r@ == joined(managed_dir_of(workdir@), ".lsp_ext.db.lock"@),
{
    let d = managed_ddbot_dir(workdir);
    join_path(d.as_str(), ".lsp_ext.db.lock")
}

pub fn installed_info_path(workdir: &str) -> (r: String)
    ensures
        r@ == joined(workdir@, "installed.json"@),
{
    join_path(workdir, "installed.json")
}

pub fn backups_dir(workdir: &str) -> (r: String)
    ensures
        r@ == joined(managed_dir_of(workdir@), "backups"@),
{
    let d = managed_ddbot_dir(workdir);
    join_path(d.as_str(), "backups")
}

/// The bot's log, which the supervisor tails.
pub fn latest_log_path(workdir: &str) -> (r: String)
    ensures
        r@ == joined(joined(managed_dir_of(workdir@), "logs"@), "latest.log"@),
{
    let d = managed_ddbot_dir(workdir);
    let l = join_path(d.as_str(), "logs");
    join_path(l.as_str(), "latest.log")
}

} // verus!
