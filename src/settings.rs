//! Configuration: the recognised settings with their defaults, the settings
//! of local mode, and the paths derived from them.
use vstd::prelude::*;
use vstd::string::*;

use crate::crawler::{expand_home, expanded};

verus! {

/// The configuration of a running server.
pub struct Settings {
    /// Roots to scan.
    pub files: Vec<String>,
    /// How deep below a root the crawler looks.
    pub max_scan_depth: u32,
    /// Directory of the catalog store.
    pub db_dir: String,
    /// File that records the last scan time.
    pub scan_status_file: String,
    /// File of the vector index.
    pub index_location: String,
}

impl Default for Settings {
    fn default() -> (r: Settings)
        ensures
            r.files@.len() == 0,
            r.max_scan_depth == 2,
            r.db_dir@ == "~/.local/share/semdesk/db"@,
            r.scan_status_file@ == "~/.local/share/semdesk/scan_status.txt"@,
            r.index_location@ == "~/.cache/semdesk/.index"@,
    {
        Settings {
            files: Vec::new(),
            max_scan_depth: 2,
            db_dir: String::from_str("~/.local/share/semdesk/db"),
            scan_status_file: String::from_str("~/.local/share/semdesk/scan_status.txt"),
            index_location: String::from_str("~/.cache/semdesk/.index"),
        }
    }
}

/// What the command line gives in local mode: one directory that is both
/// the scan root and the home of the server's files.
pub struct LocalModeSettings {
    db_dir: String,
    local_mode: bool,
    verbose: bool,
    max_scan_depth: u32,
}

impl View for LocalModeSettings {
    type V = (Seq<char>, bool, bool, u32);

    closed spec fn view(&self) -> (Seq<char>, bool, bool, u32) {
        (self.db_dir@, self.local_mode, self.verbose, self.max_scan_depth)
    }
}

impl LocalModeSettings {
    pub fn new(db_dir: String, local_mode: bool, verbose: bool, max_scan_depth: u32) -> (r:
        LocalModeSettings)
        ensures
            r@ == (db_dir@, local_mode, verbose, max_scan_depth),
    {
        LocalModeSettings { db_dir, local_mode, verbose, max_scan_depth }
    }
}

/// `name` placed in the directory `dir`.
pub open spec fn joined(dir: Seq<char>, name: Seq<char>) -> Seq<char> {
    if dir.len() == 0 || dir.last() == '/' {
        dir + name
    } else {
        dir + seq!['/'] + name
    }
}

/// Places a relative `name` in the directory `dir`.
pub fn join_path(dir: &str, name: &str) -> (r: String)
    ensures
        r@ == joined(dir@, name@),
{
    proof {
        reveal_strlit("/");
    }
    let n = dir.unicode_len();
    let mut r = String::from_str(dir);
    if n > 0 && dir.get_char(n - 1) != '/' {
        r.append("/");
    }
    r.append(name);
    r
}

impl Settings {
    /// The settings of local mode: the directory is the only scan root and
    /// holds the catalog, the status file and the index.
    pub fn local(local: &LocalModeSettings) -> (r: Settings)
        ensures
            r.files@.len() == 1,
            r.files@[0]@ == local@.0,
            r.max_scan_depth == local@.3,
            r.db_dir@ == joined(local@.0, ".semdesk_db"@),
            r.scan_status_file@ == joined(local@.0, ".semdesk_scan_status.txt"@),
            r.index_location@ == joined(local@.0, ".semdesk_index"@),
    {
        let dir = local.db_dir.as_str();
        let mut files: Vec<String> = Vec::new();
        files.push(local.db_dir.clone());
        Settings {
            files,
            max_scan_depth: local.max_scan_depth,
            db_dir: join_path(dir, ".semdesk_db"),
            scan_status_file: join_path(dir, ".semdesk_scan_status.txt"),
            index_location: join_path(dir, ".semdesk_index"),
        }
    }
}

/// The directory of the configuration file, under the home directory.
pub fn get_config_dir(home: &str) -> (r: String)
    ensures
        r@ == joined(home@, ".config/semdesk"@),
{
    join_path(home, ".config/semdesk")
}

/// The catalog store's directory, with a leading `~` expanded.
pub fn get_db_dir(conf: &Settings, home: &str) -> (r: String)
    ensures
        r@ == expanded(conf.db_dir@, home@),
{
    expand_home(conf.db_dir.as_str(), home)
}

/// The scan status file, with a leading `~` expanded.
pub fn get_scan_status_file(conf: &Settings, home: &str) -> (r: String)
    ensures
        r@ == expanded(conf.scan_status_file@, home@),
{
    expand_home(conf.scan_status_file.as_str(), home)
}

/// The index file, with a leading `~` expanded.
pub fn get_index_location(conf: &Settings, home: &str) -> (r: String)
    ensures
        r@ == expanded(conf.index_location@, home@),
{
    expand_home(conf.index_location.as_str(), home)
}

/// The query socket, under the home directory.
pub fn get_socket_path(home: &str) -> (r: String)
    ensures
        r@ == joined(home@, ".local/share/semdesk.sock"@),
{
    join_path(home, ".local/share/semdesk.sock")
}

} // verus!
