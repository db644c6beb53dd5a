//! The metadata model, error taxonomy, streaming contract and capability
//! traits shared by every filesystem backend.

pub mod layer;
pub mod memory;
pub mod normalize;
pub mod utils;

use vstd::prelude::*;

verus! {

/// The shared error taxonomy every backend translates its native errors into.
#[derive(Debug, Clone)]
pub enum Error {
    /// The requested path does not exist in the consulted source.
    NotFound(String),
    /// A transport or disk failure while streaming.
    Io(String),
    /// The backend refused the operation for authorization reasons.
    PermissionDenied(String),
    /// Opaque passthrough for backend-specific failures.
    Other(String),
}

/// Authoritative descriptor for an existing file.
#[derive(Debug)]
pub struct FileMeta {
    /// Opaque path key, unique within one filesystem view.
    pub name: String,
    /// Epoch-millisecond creation timestamp.
    pub created: u64,
    /// Free-form permission tag, e.g. "ro" or "rw".
    pub perm: String,
    /// MIME string.
    pub content_type: String,
    /// Epoch-millisecond modification timestamp.
    pub last_modified: u64,
    /// Exact byte length of the content obtainable via `get`.
    pub size: u64,
}

/// The mathematical value of a [`FileMeta`]: the same fields with strings
/// abstracted to character sequences.
pub struct FileMetaView {
    pub name: Seq<char>,
    pub created: u64,
    pub perm: Seq<char>,
    pub content_type: Seq<char>,
    pub last_modified: u64,
    pub size: u64,
}

impl View for FileMeta {
    type V = FileMetaView;

    open spec fn view(&self) -> FileMetaView {
        FileMetaView {
            name: self.name@,
            created: self.created,
            perm: self.perm@,
            content_type: self.content_type@,
            last_modified: self.last_modified,
            size: self.size,
        }
    }
}

impl Clone for FileMeta {
    fn clone(&self) -> (r: Self)
        ensures
            r@ == self@,
    {
        FileMeta {
            name: self.name.clone(),
            created: self.created,
            perm: self.perm.clone(),
            content_type: self.content_type.clone(),
            last_modified: self.last_modified,
            size: self.size,
        }
    }
}

/// Caller-supplied write intent; absent fields are filled with backend
/// defaults.
#[derive(Debug, Clone)]
pub struct IncomingFileMeta {
    pub created: Option<u64>,
    pub perm: Option<String>,
    pub content_type: Option<String>,
    pub last_modified: Option<u64>,
    pub size: Option<u64>,
}

impl Default for IncomingFileMeta {
    /// A write intent that overrides nothing.
    fn default() -> (r: Self)
        ensures
            r.created is None,
            r.perm is None,
            r.content_type is None,
            r.last_modified is None,
            r.size is None,
    {
        IncomingFileMeta {
            created: None,
            perm: None,
            content_type: None,
            last_modified: None,
            size: None,
        }
    }
}

/// One element of a stream: either a chunk of bytes or the I/O failure that
/// terminates the sequence.
#[derive(Debug)]
pub enum Chunk {
    Data(Vec<u8>),
    Failure(String),
}

/// Whether any element of the chunk sequence is a failure.
pub open spec fn chunks_failed(cs: Seq<Chunk>) -> bool {
    exists|i: int| 0 <= i < cs.len() && cs[i] is Failure
}

/// The bytes a chunk sequence delivers: the concatenation of the data chunks
/// strictly before the first failure.
pub open spec fn chunks_data(cs: Seq<Chunk>) -> Seq<u8>
    decreases cs.len(),
{
    if cs.len() == 0 {
        Seq::empty()
    } else {
        match cs[0] {
            Chunk::Data(d) => d@ + chunks_data(cs.drop_first()),
            Chunk::Failure(_) => Seq::empty(),
        }
    }
}

/// A lazy, finite, non-restartable sequence of binary chunks. It is produced
/// once per read or write call and consumed once; a failure chunk ends it with
/// no recovery.
#[derive(Debug)]
pub struct Stream {
    chunks: Vec<Chunk>,
}

impl Stream {
    /// The bytes this stream delivers before any failure.
    pub closed spec fn spec_data(&self) -> Seq<u8> {
        chunks_data(self.chunks@)
    }

    /// Whether this stream ends in an I/O failure.
    pub closed spec fn spec_failed(&self) -> bool {
        chunks_failed(self.chunks@)
    }

    /// A stream with no chunks at all.
    pub fn empty() -> (s: Stream)
        ensures
            s.spec_data() == Seq::<u8>::empty(),
            !s.spec_failed(),
    {
        Stream { chunks: Vec::new() }
    }

    /// A clean single-chunk stream holding exactly `data`.
    pub fn from_bytes(data: Vec<u8>) -> (s: Stream)
        ensures
            s.spec_data() == data@,
            !s.spec_failed(),
    {
        let ghost gdata = data@;
        let mut chunks: Vec<Chunk> = Vec::new();
        chunks.push(Chunk::Data(data));
        proof {
            let cs = chunks@;
            assert(cs.len() == 1);
            assert(cs[0] matches Chunk::Data(d) && d@ == gdata);
            assert(cs.drop_first() =~= Seq::<Chunk>::empty());
            assert(chunks_data(cs.drop_first()) == Seq::<u8>::empty());
            assert(chunks_data(cs) =~= gdata);
        }
        Stream { chunks }
    }

    /// Normalizes any concrete producer of chunks into the one stream type,
    /// preserving chunk order and failure semantics exactly.
    pub fn from_chunks(chunks: Vec<Chunk>) -> (s: Stream)
        ensures
            s.spec_data() == chunks_data(chunks@),
            s.spec_failed() == chunks_failed(chunks@),
    {
        Stream { chunks }
    }

    /// Drains the stream into one byte vector, or reports the failure that
    /// terminated it.
    pub fn collect(self) -> (r: Result<Vec<u8>, Error>)
        ensures
            match r {
                Ok(bytes) => !self.spec_failed() && bytes@ == self.spec_data(),
                Err(e) => self.spec_failed() && e is Io,
            },
    {
        let ghost cs = self.chunks@;
        let mut acc: Vec<u8> = Vec::new();
        let mut i: usize = 0;
        let n = self.chunks.len();
        proof {
            assert(cs.skip(0) =~= cs);
            assert(Seq::<u8>::empty() + chunks_data(cs) =~= chunks_data(cs));
        }
        while i < n
            invariant
                0 <= i <= n,
                n == cs.len(),
                self.chunks@ == cs,
                forall|j: int| 0 <= j < i ==> !((#[trigger] cs[j]) is Failure),
                chunks_data(cs) == acc@ + chunks_data(cs.skip(i as int)),
            decreases n - i,
        {
            let ghost acc_old = acc@;
            proof {
                assert(cs.skip(i as int).len() > 0);
                assert(cs.skip(i as int)[0] == cs[i as int]);
                assert(cs.skip(i as int).drop_first() =~= cs.skip(i as int + 1));
            }
            match &self.chunks[i] {
                Chunk::Data(d) => {
                    acc.extend_from_slice(d.as_slice());
                    proof {
                        assert(chunks_data(cs.skip(i as int)) == d@ + chunks_data(
                            cs.skip(i as int + 1),
                        ));
                        assert(acc_old + (d@ + chunks_data(cs.skip(i as int + 1))) =~= (acc_old
                            + d@) + chunks_data(cs.skip(i as int + 1)));
                    }
                }
                Chunk::Failure(msg) => {
                    return Err(Error::Io(msg.clone()));
                }
            }
            i = i + 1;
        }
        proof {
            assert(cs.skip(n as int) =~= Seq::<Chunk>::empty());
            assert(acc@ =~= chunks_data(cs));
            assert(!chunks_failed(cs));
        }
        Ok(acc)
    }
}

/// One source's entry for a path, as a mathematical value: the content bytes
/// and the descriptor that travels with them.
pub struct EntryView {
    pub content: Seq<u8>,
    pub meta: FileMetaView,
}

/// Well-formedness of one source's contents: every entry is keyed by its own
/// name and reports its exact byte length.
pub open spec fn wf_contents(m: Map<Seq<char>, EntryView>) -> bool {
    forall|n: Seq<char>|
        m.contains_key(n) ==> (#[trigger] m[n]).meta.name == n && m[n].meta.size
            == m[n].content.len()
}

/// The read capability: list all visible entries, fetch one entry's content
/// and descriptor, or fetch the descriptor alone.
///
/// Sources are modeled as reliable: a transient fault is indistinguishable
/// from an absent entry to the overlay engine, which swallows losing
/// sources' errors anyway, so the contracts promise success wherever an
/// entry exists and `NotFound` wherever none does.
pub trait ReadOnlyFilesystem: Sized {
    /// The abstract contents of this source: a map from path key to entry.
    spec fn contents(&self) -> Map<Seq<char>, EntryView>;

    /// The source's internal well-formedness condition.
    spec fn inv(&self) -> bool;

    /// A source's invariant guarantees well-formed contents.
    proof fn contents_wf(&self)
        requires
            self.inv(),
        ensures
            wf_contents(self.contents()),
    ;

    /// All entries currently visible, each path key exactly once.
    fn list(&self) -> (r: Result<Vec<FileMeta>, Error>)
        requires
            self.inv(),
        ensures
            r matches Ok(files) && metas_cover(files@, self.contents()),
    ;

    /// The content stream and descriptor for one entry; fails with `NotFound`
    /// when no such entry exists.
    fn get(&self, path: &str) -> (r: Result<(Stream, FileMeta), Error>)
        requires
            self.inv(),
        ensures
            match r {
                Ok(p) => self.contents().contains_key(path@) && p.1@ == self.contents()[path@].meta
                    && p.0.spec_data() == self.contents()[path@].content && !p.0.spec_failed(),
                Err(e) => !self.contents().contains_key(path@) && e is NotFound,
            },
    ;

    /// The descriptor alone, without materializing content; fails with
    /// `NotFound` under the same condition as `get`.
    fn meta(&self, path: &str) -> (r: Result<FileMeta, Error>)
        requires
            self.inv(),
        ensures
            match r {
                Ok(m) => self.contents().contains_key(path@) && m@ == self.contents()[path@].meta,
                Err(e) => !self.contents().contains_key(path@) && e is NotFound,
            },
    ;
}

/// The listing `files` describes the map `m` exactly: no duplicate names,
/// every listed descriptor is the map's, and every key is listed.
pub open spec fn metas_cover(files: Seq<FileMeta>, m: Map<Seq<char>, EntryView>) -> bool {
    &&& forall|i: int, j: int|
        0 <= i < j < files.len() ==> (#[trigger] files[i])@.name != (#[trigger] files[j])@.name
    &&& forall|i: int|
        0 <= i < files.len() ==> m.contains_key((#[trigger] files[i])@.name) && files[i]@
            == m[files[i]@.name].meta
    &&& forall|n: Seq<char>|
        m.contains_key(n) ==> exists|i: int| 0 <= i < files.len() && (#[trigger] files[i])@.name == n
}

/// The write capability: create, replace or remove entries. Every writable
/// source is also readable, and writes are visible in its contents.
pub trait WritableFilesystem: ReadOnlyFilesystem {
    /// Consumes the stream and persists it under `path`, creating or fully
    /// replacing the entry there. A stream that fails mid-way leaves the prior
    /// contents intact: no silently truncated file.
    fn put(&mut self, path: &str, data: Stream, meta: IncomingFileMeta)
        -> (r: Result<FileMeta, Error>)
        requires
            old(self).inv(),
        ensures
            final(self).inv(),
            match r {
                Ok(m) => {
                    &&& !data.spec_failed()
                    &&& m@.name == path@
                    &&& m@.size == data.spec_data().len()
                    &&& meta.created matches Some(c) ==> m@.created == c
                    &&& meta.perm matches Some(p) ==> m@.perm == p@
                    &&& meta.content_type matches Some(ct) ==> m@.content_type == ct@
                    &&& meta.last_modified matches Some(l) ==> m@.last_modified == l
                    &&& final(self).contents() == old(self).contents().insert(
                        path@,
                        EntryView { content: data.spec_data(), meta: m@ },
                    )
                },
                Err(e) => {
                    &&& data.spec_failed()
                    &&& e is Io
                    &&& final(self).contents() == old(self).contents()
                },
            },
    ;

    /// Removes the entry under `path`; fails with `NotFound` when there is
    /// none (removal is not idempotent on absence).
    fn delete(&mut self, path: &str) -> (r: Result<(), Error>)
        requires
            old(self).inv(),
        ensures
            final(self).inv(),
            match r {
                Ok(u) => {
                    &&& old(self).contents().contains_key(path@)
                    &&& final(self).contents() == old(self).contents().remove(path@)
                },
                Err(e) => {
                    &&& !old(self).contents().contains_key(path@)
                    &&& e is NotFound
                    &&& final(self).contents() == old(self).contents()
                },
            },
    ;
}

/// A filesystem implementing both capabilities; this is a derived capability,
/// never implemented separately.
pub trait ReadWriteFilesystem: WritableFilesystem {

}

impl<T: WritableFilesystem> ReadWriteFilesystem for T {

}

} // verus!
