//! File transfer engine: the server-side table of open file sessions with
//! streaming per-chunk integrity, the path-traversal guard, and the client
//! side's streaming-hash upload and download state.

use vstd::prelude::*;

use crate::crypto::{blake3_of, hasher_bytes, hasher_finalize, hasher_new, hasher_update};
use crate::error::Error;
use crate::util::bytes_eq;
use vstd::string::StringSliceAdditionalSpecFns;

verus! {

/// Cap on open file sessions per connection.
pub const MAX_CONCURRENT_FILE_SESSIONS: usize = 100;

/// Byte value of the path separator `/`.
pub const PATH_SEPARATOR: u8 = 47;

/// Byte value of `.`.
pub const PATH_DOT: u8 = 46;

/// How one path segment moves the depth below the root: `..` steps up,
/// empty and `.` stay, anything else steps down.
pub open spec fn seg_delta(s: Seq<u8>, start: int, end: int) -> int {
    let n = end - start;
    if n == 0 {
        0
    } else if n == 1 && s[start] == PATH_DOT {
        0
    } else if n == 2 && s[start] == PATH_DOT && s[start + 1] == PATH_DOT {
        -1
    } else {
        1
    }
}

/// Whether scanning the path bytes from position `i`, with the current
/// segment begun at `start` and `depth` directories below the root, ever
/// steps above the root.
pub open spec fn spec_escapes_from(s: Seq<u8>, i: int, start: int, depth: int) -> bool
    decreases s.len() - i,
{
    if i >= s.len() {
        depth + seg_delta(s, start, s.len() as int) < 0
    } else if s[i] == PATH_SEPARATOR {
        let d = depth + seg_delta(s, start, i);
        if d < 0 {
            true
        } else {
            spec_escapes_from(s, i + 1, i + 1, d)
        }
    } else {
        spec_escapes_from(s, i + 1, start, depth)
    }
}

/// Whether a relative path resolves outside the directory it is joined to:
/// it is absolute, or some prefix of its `..` steps climbs above the root.
pub open spec fn spec_path_escapes(s: Seq<u8>) -> bool {
    (s.len() > 0 && s[0] == PATH_SEPARATOR) || spec_escapes_from(s, 0, 0, 0)
}

/// The path-traversal guard: whether a requested remote path would resolve
/// outside the configured root. An absolute path, or one whose `..`
/// segments at any point climb above the root, escapes; `.` and empty
/// segments are neutral.
pub fn path_escapes_root(path: &str) -> (r: bool)
    ensures
        r == spec_path_escapes(path.spec_bytes()),
{
    let b = path.as_bytes();
    let ghost s = path.spec_bytes();
    let n = b.len();
    if n > 0 && b[0] == PATH_SEPARATOR {
        return true;
    }
    let mut i: usize = 0;
    let mut start: usize = 0;
    let mut depth: usize = 0;
    while i < n
        invariant
            b@ == s,
            s == path.spec_bytes(),
            n == s.len(),
            start <= i <= n,
            depth <= i,
            spec_escapes_from(s, 0, 0, 0) == spec_escapes_from(
                s,
                i as int,
                start as int,
                depth as int,
            ),
        decreases n - i,
    {
        if b[i] == PATH_SEPARATOR {
            let seg_len = i - start;
            let step_up: bool = seg_len == 2 && b[start] == PATH_DOT && b[start + 1] == PATH_DOT;
            let neutral: bool = seg_len == 0 || (seg_len == 1 && b[start] == PATH_DOT);
            proof {
                assert(seg_delta(s, start as int, i as int) == (if step_up {
                    -1
                } else if neutral {
                    0
                } else {
                    1
                }));
            }
            if step_up {
                if depth == 0 {
                    proof {
                        assert(spec_escapes_from(s, i as int, start as int, depth as int));
                    }
                    return true;
                }
                depth = depth - 1;
            } else if !neutral {
                depth = depth + 1;
            }
            start = i + 1;
        }
        i = i + 1;
    }
    let seg_len = n - start;
    let step_up: bool = seg_len == 2 && b[start] == PATH_DOT && b[start + 1] == PATH_DOT;
    proof {
        assert(seg_delta(s, start as int, n as int) == (if step_up {
            -1
        } else if seg_len == 0 || (seg_len == 1 && s[start as int] == PATH_DOT) {
            0
        } else {
            1
        }));
        assert(spec_escapes_from(s, n as int, start as int, depth as int) == (depth as int
            + seg_delta(s, start as int, n as int) < 0));
    }
    if step_up && depth == 0 {
        return true;
    }
    false
}

/// Whether a session with this file identity stands in a row sequence.
pub open spec fn seq_has_id(s: Seq<FileSession>, id: u128) -> bool {
    exists|i: int| 0 <= i < s.len() && s[i].file_id == id
}

/// Uniqueness of file identities within a row sequence.
pub open spec fn seq_ids_unique(s: Seq<FileSession>) -> bool {
    forall|i: int, j: int| 0 <= i < j < s.len() ==> s[i].file_id != s[j].file_id
}

/// Well-formedness of every row of a sequence.
pub open spec fn seq_all_wf(s: Seq<FileSession>) -> bool {
    forall|i: int| 0 <= i < s.len() ==> (#[trigger] s[i]).wf()
}

/// The position of the row with this file identity.
pub open spec fn seq_index_of(s: Seq<FileSession>, id: u128) -> int {
    choose|i: int| 0 <= i < s.len() && s[i].file_id == id
}

/// The row with this file identity.
pub open spec fn seq_row(s: Seq<FileSession>, id: u128) -> FileSession {
    s[seq_index_of(s, id)]
}

/// Under unique identities, every row that carries an identity is the row
/// the lookup names.
proof fn lemma_row_unique(s: Seq<FileSession>, id: u128, i: int)
    requires
        seq_ids_unique(s),
        0 <= i < s.len(),
        s[i].file_id == id,
    ensures
        seq_index_of(s, id) == i,
        seq_row(s, id) == s[i],
{
    assert(seq_has_id(s, id));
    let j = seq_index_of(s, id);
    assert(0 <= j < s.len() && s[j].file_id == id);
    if i < j {
        assert(s[i].file_id != s[j].file_id);
    }
    if j < i {
        assert(s[j].file_id != s[i].file_id);
    }
}

/// Removing one row keeps the others, their uniqueness and their
/// well-formedness, and drops exactly the removed identity.
proof fn lemma_table_remove(s: Seq<FileSession>, idx: int)
    requires
        0 <= idx < s.len(),
        seq_ids_unique(s),
        seq_all_wf(s),
    ensures
        s.remove(idx).len() == s.len() - 1,
        forall|k: int| 0 <= k < idx ==> s.remove(idx)[k] == s[k],
        forall|k: int| idx <= k < s.len() - 1 ==> s.remove(idx)[k] == s[k + 1],
        seq_ids_unique(s.remove(idx)),
        seq_all_wf(s.remove(idx)),
        !seq_has_id(s.remove(idx), s[idx].file_id),
        forall|id: u128|
            id != s[idx].file_id ==> seq_has_id(s.remove(idx), id) == seq_has_id(s, id),
        forall|id: u128|
            id != s[idx].file_id && seq_has_id(s, id) ==> seq_row(s.remove(idx), id) == seq_row(
                s,
                id,
            ),
    {
    s.remove_ensures(idx);
    let m = s.remove(idx);
    assert forall|k: int| 0 <= k < m.len() implies (#[trigger] m[k]).wf() && m[k].file_id
        != s[idx].file_id by {
        if k < idx {
            assert(m[k] == s[k]);
        } else {
            assert(m[k] == s[k + 1]);
        }
    }
    assert forall|i: int, j: int| 0 <= i < j < m.len() implies m[i].file_id != m[j].file_id by {
        if j < idx {
        } else if i < idx {
            assert(m[i] == s[i]);
            assert(m[j] == s[j + 1]);
        } else {
            assert(m[i] == s[i + 1]);
            assert(m[j] == s[j + 1]);
        }
    }
    assert forall|id: u128| id != s[idx].file_id && seq_has_id(s, id) implies seq_row(m, id)
        == seq_row(s, id) by {
        let k = seq_index_of(s, id);
        assert(0 <= k < s.len() && s[k].file_id == id);
        lemma_row_unique(s, id, k);
        if k < idx {
            assert(m[k] == s[k]);
            lemma_row_unique(m, id, k);
        } else {
            assert(k > idx);
            assert(m[k - 1] == s[k]);
            lemma_row_unique(m, id, k - 1);
        }
    }
    assert forall|id: u128| id != s[idx].file_id implies seq_has_id(m, id) == seq_has_id(
        s,
        id,
    ) by {
        if seq_has_id(s, id) {
            let k = choose|i: int| 0 <= i < s.len() && s[i].file_id == id;
            if k < idx {
                assert(m[k].file_id == id);
            } else {
                assert(k > idx);
                assert(m[k - 1].file_id == id);
            }
        }
        if seq_has_id(m, id) {
            let k = choose|i: int| 0 <= i < m.len() && m[i].file_id == id;
            if k < idx {
                assert(s[k].file_id == id);
            } else {
                assert(s[k + 1].file_id == id);
            }
        }
    }
}

/// Pushing a fresh well-formed row whose identity is absent keeps
/// uniqueness and well-formedness, records exactly that identity at the
/// last position, and leaves every other identity as it was.
proof fn lemma_table_push(m: Seq<FileSession>, fs: FileSession)
    requires
        seq_ids_unique(m),
        seq_all_wf(m),
        fs.wf(),
        !seq_has_id(m, fs.file_id),
    ensures
        seq_ids_unique(m.push(fs)),
        seq_all_wf(m.push(fs)),
        seq_has_id(m.push(fs), fs.file_id),
        forall|k: int|
            0 <= k < m.push(fs).len() && m.push(fs)[k].file_id == fs.file_id ==> k == m.len(),
        forall|id: u128| id != fs.file_id ==> seq_has_id(m.push(fs), id) == seq_has_id(m, id),
        forall|id: u128|
            id != fs.file_id && seq_has_id(m, id) ==> seq_row(m.push(fs), id) == seq_row(m, id),
        seq_row(m.push(fs), fs.file_id) == fs,
{
    let f = m.push(fs);
    assert(f[m.len() as int] == fs);
    assert forall|k: int| 0 <= k < f.len() && f[k].file_id == fs.file_id implies k
        == m.len() by {
        if k < m.len() {
            assert(m[k].file_id == fs.file_id);
        }
    }
    assert forall|i: int, j: int| 0 <= i < j < f.len() implies f[i].file_id != f[j].file_id by {
        if j < m.len() {
        } else {
            assert(f[j] == fs);
            if f[i].file_id == fs.file_id {
                assert(m[i].file_id == fs.file_id);
            }
        }
    }
    assert forall|i: int| 0 <= i < f.len() implies (#[trigger] f[i]).wf() by {
        if i < m.len() {
            assert(f[i] == m[i]);
        }
    }
    assert forall|id: u128| id != fs.file_id implies seq_has_id(f, id) == seq_has_id(m, id) by {
        if seq_has_id(m, id) {
            let k = choose|i: int| 0 <= i < m.len() && m[i].file_id == id;
            assert(f[k].file_id == id);
        }
        if seq_has_id(f, id) {
            let k = choose|i: int| 0 <= i < f.len() && f[i].file_id == id;
            assert(k < m.len());
            assert(m[k].file_id == id);
        }
    }
    assert forall|id: u128| id != fs.file_id && seq_has_id(m, id) implies seq_row(f, id)
        == seq_row(m, id) by {
        let k = seq_index_of(m, id);
        assert(0 <= k < m.len() && m[k].file_id == id);
        lemma_row_unique(m, id, k);
        assert(f[k] == m[k]);
        lemma_row_unique(f, id, k);
    }
    lemma_row_unique(f, fs.file_id, m.len() as int);
}

/// One open server-side file session: identity, destination, declared size,
/// progress counters and the streaming hasher over every byte received.
pub struct FileSession {
    /// File transfer identity, unique within the table.
    pub file_id: u128,
    /// Requested path relative to the configured root.
    pub remote_path: String,
    /// Size the client declared at open.
    pub declared_size: u64,
    /// Chunks accepted so far.
    pub chunks_received: u32,
    /// Bytes accepted so far.
    pub bytes_written: u64,
    /// Streaming hash over every byte accepted, in order.
    pub hasher: blake3::Hasher,
    /// Whether the sink behind this session has been opened.
    pub sink_open: bool,
}

impl FileSession {
    /// The hasher has absorbed exactly the bytes counted as written.
    pub open spec fn wf(self) -> bool {
        hasher_bytes(self.hasher).len() == self.bytes_written
    }
}

/// What a successful close reports: how much arrived and in how many
/// chunks.
#[derive(Debug, Clone, Copy, PartialEq, Eq, Structural)]
pub struct TransferOutcome {
    /// Bytes received over the whole transfer.
    pub bytes_written: u64,
    /// Chunks received over the whole transfer.
    pub chunks_received: u32,
}

/// The server's table of open file sessions for one connection: at any
/// moment at most one session per file identity, each with its streaming
/// hash, capped in number and in declared file size.
pub struct FileTransferTable {
    /// The open sessions.
    pub sessions: Vec<FileSession>,
    /// Cap on concurrently open sessions.
    pub max_sessions: usize,
    /// Cap on a declared file size.
    pub max_file_size: u64,
}

impl FileTransferTable {
    /// File identities are unique and every session's hasher matches its
    /// byte count.
    pub open spec fn wf(self) -> bool {
        &&& forall|i: int, j: int|
            0 <= i < j < self.sessions@.len() ==> self.sessions@[i].file_id
                != self.sessions@[j].file_id
        &&& forall|i: int| 0 <= i < self.sessions@.len() ==> (#[trigger] self.sessions@[i]).wf()
    }

    /// Whether a session with this file identity is open.
    pub open spec fn spec_has(self, file_id: u128) -> bool {
        seq_has_id(self.sessions@, file_id)
    }

    /// The position of the session with this file identity.
    pub open spec fn spec_index_of(self, file_id: u128) -> int {
        seq_index_of(self.sessions@, file_id)
    }

    /// The open session with this file identity.
    pub open spec fn spec_session(self, file_id: u128) -> FileSession {
        seq_row(self.sessions@, file_id)
    }

    /// An empty table with the given caps.
    pub fn new(max_sessions: usize, max_file_size: u64) -> (r: Self)
        ensures
            r.wf(),
            r.sessions@.len() == 0,
            r.max_sessions == max_sessions,
            r.max_file_size == max_file_size,
            forall|id: u128| !r.spec_has(id),
    {
        FileTransferTable { sessions: Vec::new(), max_sessions, max_file_size }
    }

    /// Find the position of a session by file identity.
    fn index_of(&self, file_id: u128) -> (r: Option<usize>)
        ensures
            r matches Some(i) ==> i < self.sessions@.len() && self.sessions@[i as int].file_id
                == file_id,
            r is Some <==> self.spec_has(file_id),
    {
        let mut i: usize = 0;
        while i < self.sessions.len()
            invariant
                i <= self.sessions@.len(),
                forall|k: int| 0 <= k < i ==> self.sessions@[k].file_id != file_id,
            decreases self.sessions@.len() - i,
        {
            if self.sessions[i].file_id == file_id {
                return Some(i);
            }
            i = i + 1;
        }
        None
    }

    /// Open a file session. Succeeds exactly when the declared size is
    /// within the configured cap, the path does not resolve outside the
    /// root, no session with this file identity is open, and the table has
    /// room; each violation is a file error and leaves the table unchanged.
    pub fn open_file(&mut self, file_id: u128, path: String, declared_size: u64) -> (r: Result<
        (),
        Error,
    >)
        requires
            old(self).wf(),
        ensures
            final(self).wf(),
            final(self).max_sessions == old(self).max_sessions,
            final(self).max_file_size == old(self).max_file_size,
            (r is Ok <==> declared_size <= old(self).max_file_size && !spec_path_escapes(
                vstd::utf8::encode_utf8(path@),
            ) && !old(self).spec_has(file_id) && old(self).sessions@.len() < old(self).max_sessions),
            r matches Err(e) ==> e is File && final(self).sessions@ == old(self).sessions@,
            r is Ok ==> {
                &&& final(self).spec_has(file_id)
                &&& forall|id: u128|
                    id != file_id ==> final(self).spec_has(id) == old(self).spec_has(id)
                &&& final(self).sessions@.len() == old(self).sessions@.len() + 1
                &&& final(self).spec_session(file_id).file_id == file_id
                &&& final(self).spec_session(file_id).remote_path@ == path@
                &&& final(self).spec_session(file_id).declared_size == declared_size
                &&& final(self).spec_session(file_id).chunks_received == 0
                &&& final(self).spec_session(file_id).bytes_written == 0
                &&& hasher_bytes(final(self).spec_session(file_id).hasher) == Seq::<u8>::empty()
            },
            forall|id: u128|
                id != file_id && old(self).spec_has(id) ==> final(self).spec_session(id) == old(self).spec_session(id),
    {
        if declared_size > self.max_file_size {
            return Err(Error::File(String::from_str("declared size exceeds the limit")));
        }
        if path_escapes_root(path.as_str()) {
            return Err(Error::File(String::from_str("path resolves outside the root")));
        }
        if self.index_of(file_id).is_some() {
            return Err(Error::File(String::from_str("file session already open")));
        }
        if self.sessions.len() >= self.max_sessions {
            return Err(Error::File(String::from_str("too many open file sessions")));
        }
        let fs = FileSession {
            file_id,
            remote_path: path,
            declared_size,
            chunks_received: 0,
            bytes_written: 0,
            hasher: hasher_new(),
            sink_open: false,
        };
        proof {
            assert(!seq_has_id(self.sessions@, fs.file_id));
            lemma_table_push(self.sessions@, fs);
        }
        self.sessions.push(fs);
        proof {
            let n = self.sessions@.len() - 1;
            assert(self.sessions@[n].file_id == file_id);
            assert(self.spec_has(file_id));
            let i = self.spec_index_of(file_id);
            assert(0 <= i <= n);
            assert(i == n) by {
                if i < n {
                    assert(old(self).sessions@[i].file_id == file_id);
                    assert(old(self).spec_has(file_id));
                }
            }
            assert forall|id: u128| id != file_id implies final(self).spec_has(id) == old(self).spec_has(id) by {
                if old(self).spec_has(id) {
                    let k = old(self).spec_index_of(id);
                    assert(self.sessions@[k].file_id == id);
                }
                if self.spec_has(id) {
                    let k = self.spec_index_of(id);
                    assert(k < n + 1);
                    assert(k != n);
                    assert(old(self).sessions@[k].file_id == id);
                }
            }
        }
        Ok(())
    }

    /// Accept one data chunk for an open file session: absorb the bytes
    /// into the streaming hash, count them, and check the reported chunk
    /// hash against the hash of everything received so far. A missing
    /// session is a file error and leaves the table unchanged. A chunk-hash
    /// mismatch (or a counter past its range) aborts and removes the
    /// session. On success the chunk's index is returned.
    pub fn handle_chunk(&mut self, file_id: u128, data: &[u8], chunk_hash: &[u8]) -> (r: Result<
        u32,
        Error,
    >)
        requires
            old(self).wf(),
        ensures
            final(self).wf(),
            final(self).max_sessions == old(self).max_sessions,
            final(self).max_file_size == old(self).max_file_size,
            !old(self).spec_has(file_id) ==> (r matches Err(e) && e is File) && final(self).sessions@ == old(self).sessions@,
            forall|id: u128| id != file_id ==> final(self).spec_has(id) == old(self).spec_has(id),
            old(self).spec_has(file_id) ==> {
                let fs = old(self).spec_session(file_id);
                let received = hasher_bytes(fs.hasher) + data@;
                if chunk_hash@ == blake3_of(received) && fs.bytes_written + data@.len() <= u64::MAX
                    && fs.chunks_received < u32::MAX {
                    &&& r == Ok::<u32, Error>(fs.chunks_received)
                    &&& final(self).spec_has(file_id)
                    &&& final(self).spec_session(file_id).file_id == file_id
                    &&& final(self).spec_session(file_id).remote_path@ == fs.remote_path@
                    &&& final(self).spec_session(file_id).declared_size == fs.declared_size
                    &&& final(self).spec_session(file_id).chunks_received == fs.chunks_received + 1
                    &&& final(self).spec_session(file_id).bytes_written == fs.bytes_written
                        + data@.len()
                    &&& hasher_bytes(final(self).spec_session(file_id).hasher) == received
                } else {
                    &&& (r matches Err(e) && e is File)
                    &&& !final(self).spec_has(file_id)
                }
            },
            forall|id: u128|
                id != file_id && old(self).spec_has(id) ==> final(self).spec_session(id) == old(self).spec_session(id),
    {
        let idx = match self.index_of(file_id) {
            Some(i) => i,
            None => {
                return Err(Error::File(String::from_str("file session not found")));
            },
        };
        let ghost before = old(self).sessions@;
        let ghost oldfs = old(self).spec_session(file_id);
        let mut fs = self.sessions.remove(idx);
        let ghost mid = self.sessions@;
        proof {
            assert(old(self).spec_index_of(file_id) == idx as int) by {
                let j = old(self).spec_index_of(file_id);
                assert(before[j].file_id == file_id);
                assert(before[idx as int].file_id == file_id);
            }
            assert(oldfs == before[idx as int]);
            assert(before[idx as int].wf());
            lemma_table_remove(before, idx as int);
        }
        hasher_update(&mut fs.hasher, data);
        let expected = hasher_finalize(&fs.hasher);
        let hash_ok = bytes_eq(expected.as_slice(), chunk_hash);
        let room = (data.len() as u64) <= u64::MAX - fs.bytes_written && fs.chunks_received
            < u32::MAX;
        if !(hash_ok && room) {
            proof {
                assert(!seq_has_id(mid, file_id));
                assert forall|id: u128| id != file_id implies final(self).spec_has(id) == old(self).spec_has(id) by {
                    assert(seq_has_id(mid, id) == seq_has_id(before, id));
                }
                assert forall|id: u128| id != file_id && old(self).spec_has(id) implies final(self).spec_session(id) == old(self).spec_session(id) by {
                    assert(seq_row(mid, id) == seq_row(before, id));
                }
            }
            return Err(Error::File(String::from_str("chunk_integrity")));
        }
        let index = fs.chunks_received;
        fs.bytes_written = fs.bytes_written + data.len() as u64;
        fs.chunks_received = fs.chunks_received + 1;
        fs.sink_open = true;
        proof {
            assert(fs.wf());
            assert(!seq_has_id(mid, fs.file_id));
            lemma_table_push(mid, fs);
        }
        self.sessions.push(fs);
        proof {
            let fin = self.sessions@;
            assert(fin == mid.push(fin.last()));
            assert(self.spec_has(file_id));
            let i = self.spec_index_of(file_id);
            assert(fin[i].file_id == file_id);
            assert(i == mid.len());
            assert forall|id: u128| id != file_id implies final(self).spec_has(id) == old(self).spec_has(id) by {
                assert(seq_has_id(fin, id) == seq_has_id(mid, id));
                assert(seq_has_id(mid, id) == seq_has_id(before, id));
            }
            assert forall|id: u128| id != file_id && old(self).spec_has(id) implies final(self).spec_session(id) == old(self).spec_session(id) by {
                assert(seq_has_id(mid, id));
                assert(seq_row(fin, id) == seq_row(mid, id));
                assert(seq_row(mid, id) == seq_row(before, id));
            }
        }
        Ok(index)
    }

    /// Look up the open session with a file identity, by value for
    /// inspection.
    pub fn has_session(&self, file_id: u128) -> (r: bool)
        ensures
            r == self.spec_has(file_id),
    {
        self.index_of(file_id).is_some()
    }

    /// Close a file session: the session leaves the table either way, and
    /// the close succeeds exactly when every declared byte arrived and the
    /// reported final hash equals the hash of everything received. On
    /// success the transfer's byte and chunk counts are returned; a
    /// mismatch is a file error, after which the caller deletes the partial
    /// file.
    pub fn close_file(&mut self, file_id: u128, final_hash: &[u8]) -> (r: Result<
        TransferOutcome,
        Error,
    >)
        requires
            old(self).wf(),
        ensures
            final(self).wf(),
            final(self).max_sessions == old(self).max_sessions,
            final(self).max_file_size == old(self).max_file_size,
            !old(self).spec_has(file_id) ==> (r matches Err(e) && e is File) && final(self).sessions@ == old(self).sessions@,
            !final(self).spec_has(file_id),
            forall|id: u128| id != file_id ==> final(self).spec_has(id) == old(self).spec_has(id),
            old(self).spec_has(file_id) ==> {
                let fs = old(self).spec_session(file_id);
                if fs.bytes_written == fs.declared_size && final_hash@ == blake3_of(
                    hasher_bytes(fs.hasher),
                ) {
                    r == Ok::<TransferOutcome, Error>(
                        TransferOutcome {
                            bytes_written: fs.bytes_written,
                            chunks_received: fs.chunks_received,
                        },
                    )
                } else {
                    r matches Err(e) && e is File
                }
            },
            forall|id: u128|
                id != file_id && old(self).spec_has(id) ==> final(self).spec_session(id) == old(self).spec_session(id),
    {
        let idx = match self.index_of(file_id) {
            Some(i) => i,
            None => {
                return Err(Error::File(String::from_str("file session not found")));
            },
        };
        let fs = self.sessions.remove(idx);
        proof {
            assert(old(self).spec_index_of(file_id) == idx as int) by {
                let j = old(self).spec_index_of(file_id);
                assert(old(self).sessions@[j].file_id == file_id);
                assert(old(self).sessions@[idx as int].file_id == file_id);
            }
            assert forall|id: u128| final(self).spec_has(id) implies id != file_id && old(self).spec_has(id) by {
                let k = final(self).spec_index_of(id);
                assert(final(self).sessions@[k].file_id == id);
                if k < idx as int {
                    assert(old(self).sessions@[k].file_id == id);
                } else {
                    assert(old(self).sessions@[k + 1].file_id == id);
                }
            }
            assert forall|id: u128| id != file_id && old(self).spec_has(id) implies final(self).spec_has(id) by {
                let k = old(self).spec_index_of(id);
                assert(old(self).sessions@[k].file_id == id);
                if k < idx as int {
                    assert(final(self).sessions@[k].file_id == id);
                } else {
                    assert(k > idx as int);
                    assert(final(self).sessions@[k - 1].file_id == id);
                }
            }
            lemma_table_remove(old(self).sessions@, idx as int);
            assert forall|id: u128| id != file_id && old(self).spec_has(id) implies final(self).spec_session(id) == old(self).spec_session(id) by {
                assert(final(self).sessions@ == old(self).sessions@.remove(idx as int));
                assert(seq_row(old(self).sessions@.remove(idx as int), id) == seq_row(
                    old(self).sessions@,
                    id,
                ));
            }
        }
        let digest = hasher_finalize(&fs.hasher);
        let size_ok = fs.bytes_written == fs.declared_size;
        let hash_ok = bytes_eq(digest.as_slice(), final_hash);
        if size_ok && hash_ok {
            Ok(
                TransferOutcome {
                    bytes_written: fs.bytes_written,
                    chunks_received: fs.chunks_received,
                },
            )
        } else {
            Err(Error::File(String::from_str("file integrity check failed")))
        }
    }

    /// Abort every open file session, as an emergency stop demands, and
    /// hand back the requested paths of the aborted transfers so that their
    /// partial files can be deleted.
    pub fn abort_all(&mut self) -> (r: Vec<String>)
        requires
            old(self).wf(),
        ensures
            final(self).wf(),
            final(self).sessions@.len() == 0,
            final(self).max_sessions == old(self).max_sessions,
            final(self).max_file_size == old(self).max_file_size,
            r@.len() == old(self).sessions@.len(),
            forall|i: int| 0 <= i < r@.len() ==> r@[i]@ == old(self).sessions@[i].remote_path@,
    {
        let mut paths: Vec<String> = Vec::new();
        let n = self.sessions.len();
        let mut i: usize = 0;
        while i < n
            invariant
                i <= n,
                n == self.sessions@.len(),
                self.sessions@ == old(self).sessions@,
                paths@.len() == i,
                forall|k: int| 0 <= k < i ==> paths@[k]@ == self.sessions@[k].remote_path@,
            decreases n - i,
    {
            let p = clone_string(&self.sessions[i].remote_path);
            paths.push(p);
            i = i + 1;
        }
        self.sessions.clear();
        paths
    }
}

/// Relies on `String::clone`: the copy holds the same characters.
#[verifier::external_body]
fn clone_string(s: &String) -> (r: String)
    ensures
        r@ == s@,
{
    s.clone()
}

/// The client side of an upload: a streaming hash over everything sent, so
/// that each chunk can carry the hash of the cumulative bytes and the close
/// can carry the hash of the whole file.
pub struct UploadState {
    /// File transfer identity.
    pub file_id: u128,
    /// Chunks emitted so far; the next chunk carries this index.
    pub chunks_sent: u32,
    /// Bytes emitted so far.
    pub bytes_sent: u64,
    /// Streaming hash over every byte emitted, in order.
    pub hasher: blake3::Hasher,
}

impl UploadState {
    /// The hasher has absorbed exactly the bytes counted as sent.
    pub open spec fn wf(self) -> bool {
        hasher_bytes(self.hasher).len() == self.bytes_sent
    }

    /// Start an upload: nothing sent, nothing hashed.
    pub fn begin(file_id: u128) -> (r: Self)
        ensures
            r.wf(),
            r.file_id == file_id,
            r.chunks_sent == 0,
            r.bytes_sent == 0,
            hasher_bytes(r.hasher) == Seq::<u8>::empty(),
    {
        UploadState { file_id, chunks_sent: 0, bytes_sent: 0, hasher: hasher_new() }
    }

    /// Absorb the next chunk and produce what its message must carry: the
    /// chunk's index and the hash of all bytes sent up to and including this
    /// chunk.
    pub fn next_chunk(&mut self, data: &[u8]) -> (r: (u32, Vec<u8>))
        requires
            old(self).wf(),
            old(self).bytes_sent + data@.len() <= u64::MAX,
            old(self).chunks_sent < u32::MAX,
        ensures
            final(self).wf(),
            final(self).file_id == old(self).file_id,
            final(self).chunks_sent == old(self).chunks_sent + 1,
            final(self).bytes_sent == old(self).bytes_sent + data@.len(),
            hasher_bytes(final(self).hasher) == hasher_bytes(old(self).hasher) + data@,
            r.0 == old(self).chunks_sent,
            r.1@ == blake3_of(hasher_bytes(old(self).hasher) + data@),
            r.1@.len() == 32,
    {
        let index = self.chunks_sent;
        hasher_update(&mut self.hasher, data);
        let chunk_hash = hasher_finalize(&self.hasher);
        self.chunks_sent = self.chunks_sent + 1;
        self.bytes_sent = self.bytes_sent + data.len() as u64;
        (index, chunk_hash)
    }

    /// The hash of the entire file, for the closing message.
    pub fn final_hash(&self) -> (r: Vec<u8>)
        ensures
            r@ == blake3_of(hasher_bytes(self.hasher)),
            r@.len() == 32,
    {
        hasher_finalize(&self.hasher)
    }
}

/// The client side of a download: a running hash over everything received,
/// checked against each chunk's reported hash and against the final hash at
/// close.
pub struct DownloadState {
    /// Chunks accepted so far.
    pub chunks_received: u32,
    /// Bytes accepted so far.
    pub bytes_received: u64,
    /// Streaming hash over every byte received, in order.
    pub hasher: blake3::Hasher,
}

impl DownloadState {
    /// The hasher has absorbed exactly the bytes counted as received.
    pub open spec fn wf(self) -> bool {
        hasher_bytes(self.hasher).len() == self.bytes_received
    }

    /// Start a download: nothing received, nothing hashed.
    pub fn begin() -> (r: Self)
        ensures
            r.wf(),
            r.chunks_received == 0,
            r.bytes_received == 0,
            hasher_bytes(r.hasher) == Seq::<u8>::empty(),
    {
        DownloadState { chunks_received: 0, bytes_received: 0, hasher: hasher_new() }
    }

    /// Absorb one received chunk and check its reported hash against the
    /// running hash of everything received so far. Succeeds exactly when
    /// they agree; a mismatch is a file error, on which the caller aborts
    /// the download.
    pub fn verify_chunk(&mut self, data: &[u8], reported_hash: &[u8]) -> (r: Result<u32, Error>)
        requires
            old(self).wf(),
            old(self).bytes_received + data@.len() <= u64::MAX,
            old(self).chunks_received < u32::MAX,
        ensures
            final(self).wf(),
            final(self).bytes_received == old(self).bytes_received + data@.len(),
            hasher_bytes(final(self).hasher) == hasher_bytes(old(self).hasher) + data@,
            final(self).chunks_received == old(self).chunks_received + 1,
            (r is Ok <==> reported_hash@ == blake3_of(hasher_bytes(old(self).hasher) + data@)),
            r matches Ok(i) ==> i == old(self).chunks_received,
            r matches Err(e) ==> e is File,
    {
        let index = self.chunks_received;
        hasher_update(&mut self.hasher, data);
        let expected = hasher_finalize(&self.hasher);
        self.chunks_received = self.chunks_received + 1;
        self.bytes_received = self.bytes_received + data.len() as u64;
        if bytes_eq(expected.as_slice(), reported_hash) {
            Ok(index)
        } else {
            Err(Error::File(String::from_str("chunk integrity check failed")))
        }
    }

    /// Check the final hash of the whole download. Succeeds exactly when it
    /// equals the hash of everything received.
    pub fn verify_final(&self, reported_hash: &[u8]) -> (r: Result<(), Error>)
        ensures
            (r is Ok <==> reported_hash@ == blake3_of(hasher_bytes(self.hasher))),
            r matches Err(e) ==> e is File,
    {
        let digest = hasher_finalize(&self.hasher);
        if bytes_eq(digest.as_slice(), reported_hash) {
            Ok(())
        } else {
            Err(Error::File(String::from_str("file integrity check failed")))
        }
    }
}

/// How many chunks a file of the given size needs: the size divided by the
/// chunk size, rounded up.
pub fn chunk_count(file_size: u64, chunk_size: u64) -> (r: u64)
    requires
        chunk_size >= 1,
    ensures
        r == (if file_size % chunk_size == 0 {
            file_size as int / chunk_size as int
        } else {
            file_size as int / chunk_size as int + 1
        }),
{
    let q = file_size / chunk_size;
    let rem = file_size % chunk_size;
    if rem == 0 {
        q
    } else {
        proof {
            vstd::arithmetic::div_mod::lemma_fundamental_div_mod(
                file_size as int,
                chunk_size as int,
            );
            assert(chunk_size * q + rem == file_size);
            assert(q <= q * chunk_size) by (nonlinear_arith)
                requires
                    chunk_size >= 1,
                    q >= 0,
            ;
            assert(q * chunk_size == chunk_size * q);
            assert(q < u64::MAX);
        }
        q + 1
    }
}

/// The back-off before retrying a failed chunk send: one hundred
/// milliseconds per retry already made.
pub fn retry_backoff_ms(retry_count: u32) -> (r: u64)
    ensures
        r == 100 * retry_count,
{
    100 * (retry_count as u64)
}

/// Retries allowed for one chunk send.
pub const MAX_CHUNK_RETRIES: u32 = 3;

/// What a finished client-side transfer reports.
#[derive(Debug, Clone, Copy, PartialEq, Eq, Structural)]
pub struct TransferStats {
    /// Total bytes transferred
    pub bytes_transferred: u64,
    /// Transfer duration in milliseconds
    pub duration_ms: u64,
    /// Average throughput in bytes per second
    pub throughput_bps: u64,
    /// Number of chunks transferred
    pub chunks_count: u32,
    /// Number of retries
    pub retries_count: u32,
}

/// The statistics of a finished transfer: throughput is bytes per second
/// computed from milliseconds, zero for an instantaneous transfer.
pub fn transfer_stats(
    bytes_transferred: u64,
    duration_ms: u64,
    chunks_count: u32,
    retries_count: u32,
) -> (r: TransferStats)
    requires
        bytes_transferred <= 0xFFFF_FFFF_FFFF,
    ensures
        r.bytes_transferred == bytes_transferred,
        r.duration_ms == duration_ms,
        r.chunks_count == chunks_count,
        r.retries_count == retries_count,
        duration_ms == 0 ==> r.throughput_bps == 0,
        duration_ms > 0 ==> r.throughput_bps == (bytes_transferred * 1000) as int / (
        duration_ms as int),
{
    let throughput_bps = if duration_ms > 0 {
        proof {
            assert(bytes_transferred * 1000 <= 0xFFFF_FFFF_FFFF * 1000) by (nonlinear_arith)
                requires
                    bytes_transferred <= 0xFFFF_FFFF_FFFF,
            ;
            assert((bytes_transferred * 1000) as int / (duration_ms as int) <= bytes_transferred
                * 1000) by (nonlinear_arith)
                requires
                    duration_ms >= 1,
                    bytes_transferred >= 0,
            ;
        }
        (bytes_transferred * 1000) / duration_ms
    } else {
        0
    };
    TransferStats { bytes_transferred, duration_ms, throughput_bps, chunks_count, retries_count }
}

} // verus!
