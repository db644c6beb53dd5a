//! A simple in-memory filesystem: the reference implementation of both
//! capability traits, and the writable root used by tests.

use vstd::prelude::*;
use vstd::slice::slice_to_vec;

use crate::fs::{
    EntryView, Error, FileMeta, FileMetaView, IncomingFileMeta, ReadOnlyFilesystem, Stream,
    WritableFilesystem,
};
use crate::text::str_eq;

verus! {

struct StoredFile {
    name: String,
    content: Vec<u8>,
    meta: FileMeta,
}

/// The entry one stored file contributes to the contents map.
spec fn entry_of(f: StoredFile) -> EntryView {
    EntryView { content: f.content@, meta: f.meta@ }
}

/// The contents map described by a sequence of stored files; later files win
/// on duplicate names, though the store never holds duplicates.
spec fn files_map(fs: Seq<StoredFile>) -> Map<Seq<char>, EntryView>
    decreases fs.len(),
{
    if fs.len() == 0 {
        Map::empty()
    } else {
        files_map(fs.drop_last()).insert(fs.last().name@, entry_of(fs.last()))
    }
}

/// No two stored files share a name.
spec fn distinct_names(fs: Seq<StoredFile>) -> bool {
    forall|i: int, j: int|
        0 <= i < j < fs.len() ==> (#[trigger] fs[i]).name@ != (#[trigger] fs[j]).name@
}

/// Each stored file's descriptor carries its own name and exact size.
spec fn files_wf(fs: Seq<StoredFile>) -> bool {
    forall|i: int|
        0 <= i < fs.len() ==> (#[trigger] fs[i]).meta@.name == fs[i].name@ && fs[i].meta@.size
            == fs[i].content@.len()
}

/// With distinct names, the contents map is characterized index-wise: its
/// keys are exactly the stored names, each mapped to that file's entry.
proof fn lemma_files_map_characterization(fs: Seq<StoredFile>)
    requires
        distinct_names(fs),
    ensures
        forall|n: Seq<char>|
            #[trigger] files_map(fs).contains_key(n) <==> exists|i: int|
                0 <= i < fs.len() && (#[trigger] fs[i]).name@ == n,
        forall|i: int|
            0 <= i < fs.len() ==> files_map(fs).contains_key((#[trigger] fs[i]).name@)
                && files_map(fs)[fs[i].name@] == entry_of(fs[i]),
    decreases fs.len(),
{
    if fs.len() > 0 {
        let prefix = fs.drop_last();
        let last = fs.last();
        assert(files_map(fs) == files_map(prefix).insert(last.name@, entry_of(last)));
        assert(distinct_names(prefix));
        lemma_files_map_characterization(prefix);
        assert forall|i: int|
            0 <= i < fs.len() implies files_map(fs).contains_key((#[trigger] fs[i]).name@)
            && files_map(fs)[fs[i].name@] == entry_of(fs[i]) by {
            if i < fs.len() - 1 {
                assert(prefix[i] == fs[i]);
                assert(fs[i].name@ != last.name@);
                assert(files_map(prefix).contains_key(prefix[i].name@));
            } else {
                assert(fs[i] == last);
            }
        }
        assert forall|n: Seq<char>| #[trigger]
            files_map(fs).contains_key(n) implies exists|i: int|
            0 <= i < fs.len() && (#[trigger] fs[i]).name@ == n by {
            if n == last.name@ {
                assert(fs[fs.len() - 1].name@ == n);
            } else {
                assert(files_map(prefix).contains_key(n));
                let i = choose|i: int| 0 <= i < prefix.len() && (#[trigger] prefix[i]).name@ == n;
                assert(prefix[i] == fs[i]);
                assert(fs[i].name@ == n);
            }
        }
    }
}

/// Removing the file at index `i` removes exactly its name from the contents
/// map, and keeps the store's invariants.
proof fn lemma_files_map_remove_idx(fs: Seq<StoredFile>, i: int)
    requires
        distinct_names(fs),
        0 <= i < fs.len(),
    ensures
        distinct_names(fs.remove(i)),
        files_wf(fs) ==> files_wf(fs.remove(i)),
        files_map(fs.remove(i)) == files_map(fs).remove(fs[i].name@),
{
    let fs1 = fs.remove(i);
    let name = fs[i].name@;
    assert forall|a: int| 0 <= a < fs1.len() implies #[trigger] fs1[a] == (if a < i {
        fs[a]
    } else {
        fs[a + 1]
    }) by {}
    assert forall|a: int, b: int| 0 <= a < b < fs1.len() implies (#[trigger] fs1[a]).name@ != (
    #[trigger] fs1[b]).name@ by {
        let a0 = if a < i {
            a
        } else {
            a + 1
        };
        let b0 = if b < i {
            b
        } else {
            b + 1
        };
        assert(fs[a0].name@ != fs[b0].name@);
    }
    if files_wf(fs) {
        assert forall|a: int| 0 <= a < fs1.len() implies (#[trigger] fs1[a]).meta@.name
            == fs1[a].name@ && fs1[a].meta@.size == fs1[a].content@.len() by {
            let a0 = if a < i {
                a
            } else {
                a + 1
            };
            assert(fs[a0].meta@.name == fs[a0].name@);
        }
    }
    lemma_files_map_characterization(fs);
    lemma_files_map_characterization(fs1);
    assert forall|n: Seq<char>| #[trigger]
        files_map(fs1).contains_key(n) implies files_map(fs).contains_key(n) && n != name
        && files_map(fs1)[n] == files_map(fs)[n] by {
        let a = choose|a: int| 0 <= a < fs1.len() && (#[trigger] fs1[a]).name@ == n;
        let a0 = if a < i {
            a
        } else {
            a + 1
        };
        assert(fs[a0].name@ == n);
        if n == name {
            assert(fs[a0].name@ == fs[i].name@ && a0 != i);
            assert(false);
        }
        assert(files_map(fs1)[n] == entry_of(fs1[a]));
        assert(files_map(fs)[n] == entry_of(fs[a0]));
    }
    assert forall|n: Seq<char>|
        files_map(fs).contains_key(n) && n != name implies #[trigger] files_map(
        fs1,
    ).contains_key(n) by {
        let a = choose|a: int| 0 <= a < fs.len() && (#[trigger] fs[a]).name@ == n;
        if a < i {
            assert(fs1[a].name@ == n);
        } else if a > i {
            assert(fs1[a - 1].name@ == n);
        }
    }
    assert(files_map(fs1) =~= files_map(fs).remove(name));
}

/// A filesystem whose entries live entirely in process memory.
pub struct MemoryFs {
    files: Vec<StoredFile>,
}

impl MemoryFs {
    /// An empty in-memory filesystem.
    pub fn new() -> (r: MemoryFs)
        ensures
            r.inv(),
            r.contents() == Map::<Seq<char>, EntryView>::empty(),
    {
        MemoryFs { files: Vec::new() }
    }

    /// Builder-style helper: the filesystem with `content` stored under
    /// `name`, replacing any previous entry there. The descriptor uses zero
    /// timestamps, the "rw" permission tag and a plain-text content type.
    pub fn with_file(self, name: &str, content: &[u8]) -> (r: MemoryFs)
        requires
            self.inv(),
        ensures
            r.inv(),
            r.contents() == self.contents().insert(
                name@,
                EntryView {
                    content: content@,
                    meta: FileMetaView {
                        name: name@,
                        created: 0,
                        perm: "rw"@,
                        content_type: "text/plain"@,
                        last_modified: 0,
                        size: content@.len() as u64,
                    },
                },
            ),
    {
        let owned: Vec<u8> = slice_to_vec(content);
        let size = owned.len() as u64;
        let meta = FileMeta {
            name: name.to_owned(),
            created: 0,
            perm: "rw".to_owned(),
            content_type: "text/plain".to_owned(),
            last_modified: 0,
            size,
        };
        let mut r = self;
        r.insert_file(StoredFile { name: name.to_owned(), content: owned, meta });
        r
    }

    /// The index holding `path`, if any.
    fn find_index(&self, path: &str) -> (r: Option<usize>)
        ensures
            match r {
                Some(i) => 0 <= i < self.files@.len() && self.files@[i as int].name@ == path@,
                None => forall|j: int|
                    0 <= j < self.files@.len() ==> (#[trigger] self.files@[j]).name@ != path@,
            },
    {
        let n = self.files.len();
        let mut i: usize = 0;
        while i < n
            invariant
                0 <= i <= n,
                n == self.files@.len(),
                forall|j: int| 0 <= j < i ==> (#[trigger] self.files@[j]).name@ != path@,
            decreases n - i,
        {
            if str_eq(self.files[i].name.as_str(), path) {
                return Some(i);
            }
            i = i + 1;
        }
        None
    }

    /// Stores `f`, replacing any entry with the same name.
    fn insert_file(&mut self, f: StoredFile)
        requires
            old(self).inv(),
            f.meta@.name == f.name@,
            f.meta@.size == f.content@.len(),
        ensures
            final(self).inv(),
            final(self).contents() == old(self).contents().insert(f.name@, entry_of(f)),
    {
        let ghost fs0 = self.files@;
        proof {
            lemma_files_map_characterization(fs0);
        }
        match self.find_index(f.name.as_str()) {
            Some(i) => {
                proof {
                    lemma_files_map_remove_idx(fs0, i as int);
                }
                self.files.remove(i);
            }
            None => {
                proof {
                    assert(!files_map(fs0).contains_key(f.name@));
                    assert(files_map(self.files@) =~= files_map(fs0).remove(f.name@));
                }
            }
        }
        let ghost fs1 = self.files@;
        proof {
            lemma_files_map_characterization(fs1);
            assert(!files_map(fs1).contains_key(f.name@));
        }
        self.files.push(f);
        proof {
            let fs2 = self.files@;
            assert(fs2.drop_last() =~= fs1);
            assert(fs2.last() == f);
            assert(files_map(fs2) == files_map(fs1).insert(f.name@, entry_of(f)));
            assert(files_map(fs2) =~= files_map(fs0).insert(f.name@, entry_of(f)));
            assert forall|a: int, b: int| 0 <= a < b < fs2.len() implies (#[trigger] fs2[a]).name@
                != (#[trigger] fs2[b]).name@ by {
                if b == fs2.len() - 1 {
                    assert(fs2[a] == fs1[a]);
                    assert(fs1[a].name@ != f.name@);
                } else {
                    assert(fs2[a] == fs1[a] && fs2[b] == fs1[b]);
                }
            }
        }
    }
}

impl ReadOnlyFilesystem for MemoryFs {
    closed spec fn contents(&self) -> Map<Seq<char>, EntryView> {
        files_map(self.files@)
    }

    closed spec fn inv(&self) -> bool {
        distinct_names(self.files@) && files_wf(self.files@)
    }

    proof fn contents_wf(&self) {
        lemma_files_map_characterization(self.files@);
    }

    fn list(&self) -> (r: Result<Vec<FileMeta>, Error>) {
        proof {
            lemma_files_map_characterization(self.files@);
        }
        let n = self.files.len();
        let mut out: Vec<FileMeta> = Vec::new();
        let mut i: usize = 0;
        while i < n
            invariant
                0 <= i <= n,
                n == self.files@.len(),
                out@.len() == i,
                self.inv(),
                forall|j: int| 0 <= j < i ==> (#[trigger] out@[j])@ == self.files@[j].meta@,
            decreases n - i,
        {
            out.push(self.files[i].meta.clone());
            i = i + 1;
        }
        proof {
            assert forall|n2: Seq<char>| self.contents().contains_key(n2) implies exists|k: int|
                0 <= k < out@.len() && (#[trigger] out@[k])@.name == n2 by {
                let k = choose|k: int|
                    0 <= k < self.files@.len() && (#[trigger] self.files@[k]).name@ == n2;
                assert(out@[k]@.name == n2);
            }
        }
        Ok(out)
    }

    fn get(&self, path: &str) -> (r: Result<(Stream, FileMeta), Error>) {
        proof {
            lemma_files_map_characterization(self.files@);
        }
        match self.find_index(path) {
            Some(i) => {
                let content: Vec<u8> = slice_to_vec(self.files[i].content.as_slice());
                let stream = Stream::from_bytes(content);
                Ok((stream, self.files[i].meta.clone()))
            }
            None => Err(Error::NotFound(path.to_owned())),
        }
    }

    fn meta(&self, path: &str) -> (r: Result<FileMeta, Error>) {
        proof {
            lemma_files_map_characterization(self.files@);
        }
        match self.find_index(path) {
            Some(i) => Ok(self.files[i].meta.clone()),
            None => Err(Error::NotFound(path.to_owned())),
        }
    }
}

impl WritableFilesystem for MemoryFs {
    fn put(&mut self, path: &str, data: Stream, meta: IncomingFileMeta) -> (r: Result<
        FileMeta,
        Error,
    >) {
        let bytes = match data.collect() {
            Ok(b) => b,
            Err(e) => {
                return Err(e);
            }
        };
        let size = bytes.len() as u64;
        let stored_meta = FileMeta {
            name: path.to_owned(),
            created: match meta.created {
                Some(c) => c,
                None => 0,
            },
            perm: match meta.perm {
                Some(p) => p,
                None => "rw".to_owned(),
            },
            content_type: match meta.content_type {
                Some(ct) => ct,
                None => "text/plain".to_owned(),
            },
            last_modified: match meta.last_modified {
                Some(l) => l,
                None => 0,
            },
            size,
        };
        let result_meta = stored_meta.clone();
        self.insert_file(StoredFile { name: path.to_owned(), content: bytes, meta: stored_meta });
        Ok(result_meta)
    }

    fn delete(&mut self, path: &str) -> (r: Result<(), Error>) {
        let ghost fs0 = self.files@;
        proof {
            lemma_files_map_characterization(fs0);
        }
        match self.find_index(path) {
            Some(i) => {
                proof {
                    lemma_files_map_remove_idx(fs0, i as int);
                }
                self.files.remove(i);
                Ok(())
            }
            None => Err(Error::NotFound(path.to_owned())),
        }
    }
}

} // verus!
