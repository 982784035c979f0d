//! The indexer's own rules: how a document is cut into chunks before they
//! are embedded, which search hits are kept, when the index is written out,
//! and how a write is ordered so that a crash never loses the last written
//! index.
use vstd::prelude::*;
use vstd::slice::*;
use vstd::utf8::*;

use crate::catalog::{fresh_ids, Catalog};
use crate::error::CatalogError;
use crate::text::{string_from_utf8, texts};

verus! {

broadcast use vstd::seq::group_seq_axioms;

/// Bytes per chunk, which is also the dimension of an embedding.
pub const CHUNK_BYTES: usize = 384;

/// The most chunks of one document that are embedded.
pub const MAX_CHUNKS: usize = 50;

/// What `str::trim` makes of a text.
pub uninterp spec fn trim_of(s: Seq<char>) -> Seq<char>;

/// Relies on `str::trim`: the text without leading and trailing white space.
#[verifier::external_body]
fn trim_text(s: &str) -> (r: String)
    ensures
        r@ == trim_of(s@),
        s@.len() == 0 ==> r@.len() == 0,
{
    s.trim().to_string()
}

/// The number of chunks of a text of `n` bytes.
pub open spec fn chunk_count(n: nat) -> nat {
    ((n + 383) / 384) as nat
}

/// The bytes of chunk `k`.
pub open spec fn raw_chunk(b: Seq<u8>, k: int) -> Seq<u8> {
    if 384 * k + 384 <= b.len() {
        b.subrange(384 * k, 384 * k + 384)
    } else {
        b.subrange(384 * k, b.len() as int)
    }
}

/// The text of a chunk; empty where its bytes are not valid UTF-8 (a chunk
/// boundary that cuts a character).
pub open spec fn chunk_text(c: Seq<u8>) -> Seq<char> {
    if valid_utf8(c) {
        decode_utf8(c)
    } else {
        Seq::empty()
    }
}

/// Every chunk of a text, trimmed.
pub open spec fn trimmed_chunks(text: Seq<char>) -> Seq<Seq<char>> {
    let b = encode_utf8(text);
    Seq::new(chunk_count(b.len()), |k: int| trim_of(chunk_text(raw_chunk(b, k))))
}

/// The non-empty pieces, in order.
pub open spec fn non_empty(pieces: Seq<Seq<char>>) -> Seq<Seq<char>>
    decreases pieces.len(),
{
    if pieces.len() == 0 {
        Seq::empty()
    } else if pieces.last().len() > 0 {
        non_empty(pieces.drop_last()).push(pieces.last())
    } else {
        non_empty(pieces.drop_last())
    }
}

/// The first `MAX_CHUNKS` non-empty pieces.
pub open spec fn kept_chunks(pieces: Seq<Seq<char>>) -> Seq<Seq<char>> {
    let f = non_empty(pieces);
    if f.len() > 50 {
        f.take(50)
    } else {
        f
    }
}

proof fn lemma_non_empty_len(pieces: Seq<Seq<char>>)
    ensures
        non_empty(pieces).len() <= pieces.len(),
    decreases pieces.len(),
{
    if pieces.len() > 0 {
        lemma_non_empty_len(pieces.drop_last());
    }
}

/// Keeps the non-empty pieces, in order, and of those the first `MAX_CHUNKS`.
pub fn select_chunks(pieces: Vec<String>) -> (r: Vec<String>)
    ensures
        texts(r@) == kept_chunks(texts(pieces@)),
        r@.len() <= MAX_CHUNKS,
{
    let mut out: Vec<String> = Vec::new();
    let mut i: usize = 0;
    while i < pieces.len()
        invariant
            0 <= i <= pieces@.len(),
            texts(out@) == non_empty(texts(pieces@.subrange(0, i as int))),
        decreases pieces@.len() - i,
    {
        proof {
            assert(texts(pieces@.subrange(0, i + 1)).drop_last() =~= texts(pieces@.subrange(0, i as int)));
        }
        if !pieces[i].as_str().is_empty() {
            let p = pieces[i].clone();
            out.push(p);
            proof {
                assert(texts(out@) =~= texts(out@.drop_last()).push(out@.last()@));
            }
        }
        i += 1;
    }
    assert(pieces@.subrange(0, pieces@.len() as int) =~= pieces@);
    proof {
        lemma_non_empty_len(texts(pieces@));
    }
    if out.len() > MAX_CHUNKS {
        out.truncate(MAX_CHUNKS);
        assert(texts(out@) =~= non_empty(texts(pieces@)).take(50));
    }
    out
}

/// The chunks of a document that are embedded: its bytes cut every
/// `CHUNK_BYTES`, each piece read as UTF-8 (empty where it is not valid) and
/// trimmed, the empty ones dropped, and of the rest the first `MAX_CHUNKS`.
pub fn chunk_document(text: &str) -> (r: Vec<String>)
    ensures
        texts(r@) == kept_chunks(trimmed_chunks(text@)),
        r@.len() <= MAX_CHUNKS,
{
    let bytes = text.as_bytes();
    let ghost b = encode_utf8(text@);
    let n = bytes.len();
    let count = n / CHUNK_BYTES + if n % CHUNK_BYTES == 0 {
        0
    } else {
        1
    };
    proof {
        assert(count == chunk_count(n as nat)) by (nonlinear_arith)
            requires
                count == n / 384 + if n % 384 == 0 {
                    0int
                } else {
                    1int
                },
        ;
    }
    let mut pieces: Vec<String> = Vec::new();
    let mut k: usize = 0;
    while k < count
        invariant
            0 <= k <= count,
            count == chunk_count(n as nat),
            n == b.len(),
            bytes@ == b,
            pieces@.len() == k,
            forall|j: int| 0 <= j < k ==> #[trigger] pieces@[j]@ == trim_of(chunk_text(raw_chunk(b, j))),
        decreases count - k,
    {
        proof {
            assert(384 * k < n) by (nonlinear_arith)
                requires
                    k < count,
                    count == (n + 383) / 384,
            ;
        }
        let start = CHUNK_BYTES * k;
        let end = if n - start >= CHUNK_BYTES {
            start + CHUNK_BYTES
        } else {
            n
        };
        let c = slice_to_vec(slice_subrange(bytes, start, end));
        assert(c@ == raw_chunk(b, k as int));
        let piece = match string_from_utf8(c) {
            Some(s) => s,
            None => String::new(),
        };
        let t = trim_text(piece.as_str());
        pieces.push(t);
        k += 1;
    }
    assert(texts(pieces@) =~= trimmed_chunks(text@));
    select_chunks(pieces)
}

/// The chunks of a document to embed and a fresh id for each, in order.
pub struct DocumentPlan {
    pub chunks: Vec<String>,
    pub ids: Vec<u64>,
}

/// Cuts a document into the chunks to embed and draws a fresh id for each
/// from the catalog.
pub fn plan_document(catalog: &mut Catalog, text: &str) -> (r: Result<DocumentPlan, CatalogError>)
    ensures
        r matches Ok(p) ==> texts(p.chunks@) == kept_chunks(trimmed_chunks(text@))
            && p.ids@.len() == p.chunks@.len() && p.ids@.len() <= MAX_CHUNKS && fresh_ids(
            p.ids@,
            old(catalog).id_floor(),
            final(catalog).id_floor(),
        ),
        r is Ok ==> final(catalog).contents() == old(catalog).contents(),
        kept_chunks(trimmed_chunks(text@)).len() == 0 ==> (r matches Ok(p) && p.ids@.len() == 0)
            && final(catalog).id_floor() == old(catalog).id_floor() && final(catalog).contents() == old(
            catalog,
        ).contents(),
        r matches Err(e) ==> e == CatalogError::Store,
{
    let chunks = chunk_document(text);
    match catalog.gen_ids(chunks.len()) {
        Ok(ids) => Ok(DocumentPlan { chunks, ids }),
        Err(e) => Err(e),
    }
}

/// Passes (polls) of the indexer loop between two writes of the index.
pub const PERSIST_PERIOD: u64 = 2000;

/// What one pass of the loop adds to its count: each pass is one poll.
pub const POLL_STEP: u64 = 1;

/// Decides, pass by pass, when the indexer loop writes its index: on a pass
/// whose count is a multiple of `PERSIST_PERIOD`, if vectors were added
/// since the last write.
pub struct PersistClock {
    counter: u64,
    dirty: bool,
}

impl PersistClock {
    /// The pass count, kept modulo `PERSIST_PERIOD` at the start of a pass.
    pub closed spec fn counter(&self) -> u64 {
        self.counter
    }

    /// Whether vectors were added since the last write.
    pub closed spec fn dirty(&self) -> bool {
        self.dirty
    }

    pub fn new() -> (r: PersistClock)
        ensures
            r.counter() == 0,
            !r.dirty(),
    {
        PersistClock { counter: 0, dirty: false }
    }

    /// Records that vectors were added to the index.
    pub fn note_added(&mut self)
        ensures
            final(self).dirty(),
            final(self).counter() == old(self).counter(),
    {
        self.dirty = true;
    }

    /// One pass of the loop; returns whether the index is to be written now.
    pub fn tick(&mut self) -> (persist: bool)
        ensures
            persist == (old(self).counter() % PERSIST_PERIOD == 0 && old(self).dirty()),
            persist ==> final(self).counter() == POLL_STEP && !final(self).dirty(),
            !persist ==> final(self).counter() == old(self).counter() % PERSIST_PERIOD + POLL_STEP
                && final(self).dirty() == old(self).dirty(),
    {
        let persist = self.counter % PERSIST_PERIOD == 0 && self.dirty;
        if persist {
            self.counter = POLL_STEP;
            self.dirty = false;
        } else {
            self.counter = self.counter % PERSIST_PERIOD + POLL_STEP;
        }
        persist
    }
}

/// One file operation of a write of the index.
#[derive(Debug, Clone, Copy, PartialEq, Eq)]
pub enum PersistStep {
    /// Delete `<index>.bak`.
    RemoveBackup,
    /// Rename `<index>` to `<index>.bak`.
    MovePrimaryToBackup,
    /// Write the index to `<index>`.
    WritePrimary,
}

/// The operations of a write, given which of the two files exist.
pub open spec fn plan_steps(primary_exists: bool, backup_exists: bool) -> Seq<PersistStep> {
    if primary_exists {
        if backup_exists {
            seq![PersistStep::RemoveBackup, PersistStep::MovePrimaryToBackup, PersistStep::WritePrimary]
        } else {
            seq![PersistStep::MovePrimaryToBackup, PersistStep::WritePrimary]
        }
    } else {
        seq![PersistStep::WritePrimary]
    }
}

/// The operations of a write: the current index becomes the backup (any older
/// backup is deleted first), then the new index is written.
pub fn persist_plan(primary_exists: bool, backup_exists: bool) -> (r: Vec<PersistStep>)
    ensures
        r@ == plan_steps(primary_exists, backup_exists),
{
    let mut r: Vec<PersistStep> = Vec::new();
    if primary_exists {
        if backup_exists {
            r.push(PersistStep::RemoveBackup);
        }
        r.push(PersistStep::MovePrimaryToBackup);
    }
    r.push(PersistStep::WritePrimary);
    assert(r@ =~= plan_steps(primary_exists, backup_exists));
    r
}

/// What an index file on disk holds.
pub enum IndexFile {
    Missing,
    /// A write that was cut short.
    Torn,
    /// A complete index of this many vectors.
    Written(nat),
}

/// The primary index file and its backup.
pub struct IndexFiles {
    pub primary: IndexFile,
    pub backup: IndexFile,
}

/// The files after one operation, where the new index holds `n` vectors.
pub open spec fn after_step(fs: IndexFiles, step: PersistStep, n: nat) -> IndexFiles {
    match step {
        PersistStep::RemoveBackup => IndexFiles { primary: fs.primary, backup: IndexFile::Missing },
        PersistStep::MovePrimaryToBackup => IndexFiles { primary: IndexFile::Missing, backup: fs.primary },
        PersistStep::WritePrimary => IndexFiles { primary: IndexFile::Written(n), backup: fs.backup },
    }
}

/// The files when the process dies during an operation: a removal or a rename
/// happens whole or not at all; a write leaves a partial file.
pub open spec fn during_step(fs: IndexFiles, step: PersistStep) -> IndexFiles {
    match step {
        PersistStep::WritePrimary => IndexFiles { primary: IndexFile::Torn, backup: fs.backup },
        _ => fs,
    }
}

/// The files after the operations of `steps`, in order.
pub open spec fn after_steps(fs: IndexFiles, steps: Seq<PersistStep>, n: nat) -> IndexFiles
    decreases steps.len(),
{
    if steps.len() == 0 {
        fs
    } else {
        after_step(after_steps(fs, steps.drop_last(), n), steps.last(), n)
    }
}

/// The vector count of the index loaded at start-up: the primary file if it
/// is complete, else the backup if that is complete.
pub open spec fn recovered(fs: IndexFiles) -> Option<nat> {
    match fs.primary {
        IndexFile::Written(c) => Some(c),
        _ => match fs.backup {
            IndexFile::Written(c) => Some(c),
            _ => None,
        },
    }
}

/// Whether a file exists on disk.
pub open spec fn on_disk(f: IndexFile) -> bool {
    !(f is Missing)
}

/// A write of the index never loses the last completed one: if the process
/// dies before or during any operation of the write, start-up loads the index
/// of the last completed write; once the write is done, it loads the new one.
pub proof fn lemma_persist_is_crash_safe(fs: IndexFiles, last: nat, n: nat, k: int)
    requires
        fs.primary == IndexFile::Written(last),
        0 <= k < plan_steps(true, on_disk(fs.backup)).len(),
    ensures
        recovered(after_steps(fs, plan_steps(true, on_disk(fs.backup)).take(k), n)) == Some(last),
        recovered(
            during_step(
                after_steps(fs, plan_steps(true, on_disk(fs.backup)).take(k), n),
                plan_steps(true, on_disk(fs.backup))[k],
            ),
        ) == Some(last),
        recovered(after_steps(fs, plan_steps(true, on_disk(fs.backup)), n)) == Some(n),
{
    let plan = plan_steps(true, on_disk(fs.backup));
    reveal_with_fuel(after_steps, 4);
    assert(plan.take(0) =~= Seq::<PersistStep>::empty());
    assert(plan.take(1).drop_last() =~= plan.take(0));
    assert(plan.take(2).drop_last() =~= plan.take(1));
    assert(plan.drop_last() =~= plan.take(plan.len() - 1));
    if on_disk(fs.backup) {
        assert(plan.take(2) =~= plan.take(3).drop_last());
    }
}

/// Which file the index is loaded from at start-up.
#[derive(Debug, Clone, Copy, PartialEq, Eq)]
pub enum IndexSource {
    Primary,
    Backup,
    /// Neither file could be read: start with an empty index.
    Empty,
}

/// Picks the file to load the index from, given which could be read whole.
pub fn choose_source(primary_readable: bool, backup_readable: bool) -> (r: IndexSource)
    ensures
        r == (if primary_readable {
            IndexSource::Primary
        } else if backup_readable {
            IndexSource::Backup
        } else {
            IndexSource::Empty
        }),
{
    if primary_readable {
        IndexSource::Primary
    } else if backup_readable {
        IndexSource::Backup
    } else {
        IndexSource::Empty
    }
}

/// Hits returned by a search of the index.
pub const SEARCH_HITS: usize = 6;

/// The hits kept from a search, as (position, id): those with a label whose
/// score reached the threshold (`scored`), in the order of the search.
pub open spec fn kept_hits(labels: Seq<Option<u64>>, scored: Seq<bool>) -> Seq<(usize, u64)>
    decreases labels.len(),
{
    if labels.len() == 0 {
        Seq::empty()
    } else {
        let i = labels.len() - 1;
        let rest = kept_hits(labels.drop_last(), scored);
        if i < scored.len() && scored[i] && labels[i] is Some {
            rest.push((i as usize, labels[i]->0))
        } else {
            rest
        }
    }
}

/// Picks the hits of a search to answer with: a hit is kept where its score
/// reached the threshold and it carries a label.
pub fn select_hits(labels: &Vec<Option<u64>>, scored: &Vec<bool>) -> (r: Vec<(usize, u64)>)
    ensures
        r@ == kept_hits(labels@, scored@),
{
    let mut out: Vec<(usize, u64)> = Vec::new();
    let mut i: usize = 0;
    while i < labels.len()
        invariant
            0 <= i <= labels@.len(),
            out@ == kept_hits(labels@.subrange(0, i as int), scored@),
        decreases labels@.len() - i,
    {
        proof {
            assert(labels@.subrange(0, i + 1).drop_last() =~= labels@.subrange(0, i as int));
        }
        if i < scored.len() && scored[i] {
            match labels[i] {
                Some(id) => {
                    out.push((i, id));
                },
                None => {},
            }
        }
        i += 1;
    }
    assert(labels@.subrange(0, labels@.len() as int) =~= labels@);
    out
}

} // verus!
