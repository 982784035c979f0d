//! The crawler's own rules: what to do with each path met while walking the
//! scan roots, how a root is expanded, and when the daily scan runs.
use vstd::prelude::*;
use vstd::string::*;

use crate::catalog::{file_key, with_entry, Catalog};
use crate::error::CatalogError;
use crate::text::texts;

verus! {

/// Files larger than this many bytes are not indexed.
pub const MAX_FILE_BYTES: u64 = 10485760;

/// Seconds in a day.
pub const DAY_SECONDS: i64 = 86400;

/// Seconds in an hour.
pub const HOUR_SECONDS: i64 = 3600;

/// What the file system says of a path.
#[derive(Debug, PartialEq, Eq)]
pub enum PathKind {
    /// A regular file of `size` bytes whose last path component is `name`.
    File { size: u64, name: String },
    Directory,
    /// Neither a regular file nor a directory, or gone.
    Other,
}

/// What the crawler does with a path.
#[derive(Debug, Clone, Copy, PartialEq, Eq)]
pub enum ScanAction {
    /// Deeper than the configured depth: nothing below is looked at.
    TooDeep,
    /// Already in the catalog.
    AlreadyIndexed,
    /// A file over `MAX_FILE_BYTES`.
    TooLarge,
    /// A file whose name begins with `.`.
    Hidden,
    /// A file to parse and send to the indexer.
    Index,
    /// A directory whose children are scanned one level deeper.
    Descend,
    /// Anything else.
    Ignore,
}

/// Whether a file name begins with `.`.
pub open spec fn hidden_name(name: Seq<char>) -> bool {
    name.len() > 0 && name[0] == '.'
}

/// The action for a path at `depth`, given whether it is in the catalog.
pub open spec fn action_for(depth: u32, max_depth: u32, indexed: bool, kind: PathKind) -> ScanAction {
    if depth > max_depth {
        ScanAction::TooDeep
    } else if indexed {
        ScanAction::AlreadyIndexed
    } else {
        match kind {
            PathKind::File { size, name } => if size > MAX_FILE_BYTES {
                ScanAction::TooLarge
            } else if hidden_name(name@) {
                ScanAction::Hidden
            } else {
                ScanAction::Index
            },
            PathKind::Directory => ScanAction::Descend,
            PathKind::Other => ScanAction::Ignore,
        }
    }
}

/// The action for a path at `depth`, given whether it is in the catalog.
pub fn scan_action(depth: u32, max_depth: u32, indexed: bool, kind: &PathKind) -> (r: ScanAction)
    ensures
        r == action_for(depth, max_depth, indexed, *kind),
{
    if depth > max_depth {
        ScanAction::TooDeep
    } else if indexed {
        ScanAction::AlreadyIndexed
    } else {
        match kind {
            PathKind::File { size, name } => {
                if *size > MAX_FILE_BYTES {
                    ScanAction::TooLarge
                } else if name.as_str().unicode_len() > 0 && name.as_str().get_char(0) == '.' {
                    ScanAction::Hidden
                } else {
                    ScanAction::Index
                }
            },
            PathKind::Directory => ScanAction::Descend,
            PathKind::Other => ScanAction::Ignore,
        }
    }
}

/// The action for a path met at `depth`, consulting the catalog; a path in
/// the catalog is never indexed again.
pub fn check_path(catalog: &Catalog, path: String, depth: u32, max_depth: u32, kind: &PathKind) -> (r:
    Result<ScanAction, CatalogError>)
    ensures
        r matches Ok(a) ==> a == action_for(
            depth,
            max_depth,
            catalog.contents().contains_key(file_key(path@)),
            *kind,
        ),
        depth > max_depth ==> r == Ok::<ScanAction, CatalogError>(ScanAction::TooDeep),
        r matches Err(e) ==> e == CatalogError::Store,
{
    if depth > max_depth {
        return Ok(ScanAction::TooDeep);
    }
    match catalog.is_file_in_catalog(path) {
        Ok(indexed) => Ok(scan_action(depth, max_depth, indexed, kind)),
        Err(e) => Err(e),
    }
}

/// Once a file's entry is in the catalog, a later scan does not send that
/// file to the indexer again, whatever the file system says of it.
pub proof fn lemma_indexed_file_is_not_sent_again(
    m: Map<Seq<u8>, Seq<u8>>,
    e: (Seq<char>, Seq<u64>),
    depth: u32,
    max_depth: u32,
    kind: PathKind,
)
    requires
        e.1.len() <= u64::MAX,
    ensures
        with_entry(m, e).contains_key(file_key(e.0)),
        action_for(depth, max_depth, with_entry(m, e).contains_key(file_key(e.0)), kind)
            != ScanAction::Index,
{
    crate::catalog::lemma_add_then_lookup(m, e);
}

/// The paths of `paths`, last first, each at `depth`: pushed on a stack,
/// they come off in their own order.
pub open spec fn stacked(paths: Seq<Seq<char>>, depth: u32) -> Seq<(Seq<char>, u32)> {
    Seq::new(paths.len(), |i: int| (paths[paths.len() - 1 - i], depth))
}

/// The depth of the children of a directory at `depth`.
pub open spec fn child_depth(depth: u32) -> u32 {
    if depth < u32::MAX {
        (depth + 1) as u32
    } else {
        depth
    }
}

/// The paths still to visit in a scan, with their depths. The walk is depth
/// first: the next path is the one pushed last.
pub struct ScanWork {
    pending: Vec<(String, u32)>,
}

impl View for ScanWork {
    type V = Seq<(Seq<char>, u32)>;

    closed spec fn view(&self) -> Seq<(Seq<char>, u32)> {
        self.pending@.map_values(|e: (String, u32)| (e.0@, e.1))
    }
}

impl ScanWork {
    /// A scan of `paths`, in order, each at depth 0.
    pub fn new(paths: Vec<String>) -> (r: ScanWork)
        ensures
            r@ == stacked(texts(paths@), 0),
    {
        let mut r = ScanWork { pending: Vec::new() };
        r.push_all(paths, 0);
        assert(r@ =~= stacked(texts(paths@), 0));
        r
    }

    fn push_all(&mut self, paths: Vec<String>, depth: u32)
        ensures
            final(self)@ == old(self)@ + stacked(texts(paths@), depth),
    {
        let ghost start = self@;
        let n = paths.len();
        let mut k: usize = n;
        while k > 0
            invariant
                0 <= k <= n,
                n == paths@.len(),
                self@ == start + stacked(texts(paths@.subrange(k as int, n as int)), depth),
            decreases k,
        {
            k -= 1;
            let p = paths[k].clone();
            let ghost before = self@;
            self.pending.push((p, depth));
            proof {
                assert(self@ =~= before.push((paths@[k as int]@, depth)));
                assert(stacked(texts(paths@.subrange(k as int, n as int)), depth) =~= stacked(
                    texts(paths@.subrange(k + 1, n as int)),
                    depth,
                ).push((paths@[k as int]@, depth)));
            }
        }
        assert(paths@.subrange(0, n as int) =~= paths@);
    }

    /// Queues the children of a directory met at `depth`, one level deeper,
    /// to be visited in their own order before anything queued earlier.
    pub fn descend(&mut self, children: Vec<String>, depth: u32)
        ensures
            final(self)@ == old(self)@ + stacked(texts(children@), child_depth(depth)),
    {
        let d = if depth < u32::MAX {
            depth + 1
        } else {
            depth
        };
        self.push_all(children, d);
    }

    /// The next path to visit, with its depth; `None` once the scan is done.
    pub fn next(&mut self) -> (r: Option<(String, u32)>)
        ensures
            old(self)@.len() == 0 ==> r is None && final(self)@ == old(self)@,
            old(self)@.len() > 0 ==> (r matches Some(e) && (e.0@, e.1) == old(self)@.last()
                && final(self)@ == old(self)@.drop_last()),
    {
        let r = self.pending.pop();
        proof {
            if old(self)@.len() > 0 {
                assert(self@ =~= old(self)@.drop_last());
            }
        }
        r
    }
}

/// A path with a leading `~` replaced by the home directory.
pub open spec fn expanded(path: Seq<char>, home: Seq<char>) -> Seq<char> {
    if path.len() > 0 && path[0] == '~' {
        home + path.drop_first()
    } else {
        path
    }
}

/// Replaces a leading `~` of a path by the home directory.
pub fn expand_home(path: &str, home: &str) -> (r: String)
    ensures
        r@ == expanded(path@, home@),
{
    let n = path.unicode_len();
    if n > 0 && path.get_char(0) == '~' {
        let r = String::from_str(home);
        r.concat(path.substring_char(1, n))
    } else {
        String::from_str(path)
    }
}

/// The instant, in seconds, that an RFC 3339 text denotes, if it is one.
pub uninterp spec fn rfc3339_seconds(s: Seq<char>) -> Option<i64>;

/// Relies on `chrono::DateTime::parse_from_rfc3339` and `DateTime::timestamp`:
/// the instant of the text, in seconds since the Unix epoch.
#[verifier::external_body]
fn parse_rfc3339(s: &str) -> (r: Option<i64>)
    ensures
        r == rfc3339_seconds(s@),
{
    match chrono::DateTime::parse_from_rfc3339(s) {
        Ok(t) => Some(t.timestamp()),
        Err(_) => None,
    }
}

/// The last scan time: the recorded instant, or two days before `now` where
/// none could be read.
pub open spec fn last_scan_or_default(recorded: Option<i64>, now: i64) -> i64 {
    match recorded {
        Some(t) => t,
        None => (now - 2 * DAY_SECONDS) as i64,
    }
}

/// The last scan time from what the status file held, read as RFC 3339.
pub fn last_scan_time(recorded: Option<i64>, now: i64) -> (r: i64)
    requires
        now >= i64::MIN + 2 * DAY_SECONDS,
    ensures
        r == last_scan_or_default(recorded, now),
{
    match recorded {
        Some(t) => t,
        None => now - 2 * DAY_SECONDS,
    }
}

/// The last scan time from the text of the status file (`None` where the
/// file could not be read).
pub fn read_last_scan(status: Option<&str>, now: i64) -> (r: i64)
    requires
        now >= i64::MIN + 2 * DAY_SECONDS,
    ensures
        r == last_scan_or_default(
            match status {
                Some(s) => rfc3339_seconds(s@),
                None => None,
            },
            now,
        ),
{
    let recorded = match status {
        Some(s) => parse_rfc3339(s),
        None => None,
    };
    last_scan_time(recorded, now)
}

/// Whether the crawler scans at start-up, and the next scheduled scan: a scan
/// runs at once between 02:00 and 04:00 local time, after which the next one
/// is a day later; otherwise the next is the following midnight.
pub open spec fn startup_schedule(now: i64, midnight: i64) -> (bool, i64) {
    if midnight + 2 * HOUR_SECONDS < now && now < midnight + 4 * HOUR_SECONDS {
        (true, (now + DAY_SECONDS) as i64)
    } else {
        (false, (midnight + DAY_SECONDS) as i64)
    }
}

/// Whether to scan at start-up, and when the next scan is due; `midnight` is
/// the start of the local day of `now`.
pub fn plan_startup(now: i64, midnight: i64) -> (r: (bool, i64))
    requires
        now <= i64::MAX - DAY_SECONDS,
        midnight <= i64::MAX - DAY_SECONDS,
    ensures
        r == startup_schedule(now, midnight),
{
    if midnight + 2 * HOUR_SECONDS < now && now < midnight + 4 * HOUR_SECONDS {
        (true, now + DAY_SECONDS)
    } else {
        (false, midnight + DAY_SECONDS)
    }
}

/// Whether a scan is due: the scheduled instant has passed, or a day has
/// passed since the last scan.
pub fn scan_due(now: i64, next_scan: i64, last_scan: i64) -> (r: bool)
    ensures
        r == (now > next_scan || now > last_scan + DAY_SECONDS),
{
    now > next_scan || (now as i128) > (last_scan as i128) + (DAY_SECONDS as i128)
}

/// The next scheduled scan after one that ran at `now`.
pub fn next_scan_after(now: i64) -> (r: i64)
    requires
        now <= i64::MAX - DAY_SECONDS,
    ensures
        r == now + DAY_SECONDS,
{
    now + DAY_SECONDS
}

} // verus!
