//! The overlay engine: an ordered stack of read-only layers composed over one
//! writable root, with deterministic shadowing.
//!
//! The last-added layer has the highest read priority and the root the
//! lowest; a higher-priority entry for a path completely shadows any
//! lower-priority entry, with no content merging. Writes and deletions go to
//! the root alone, so deleting a path that a layer also holds leaves the
//! layer's copy visible.

use vstd::prelude::*;

use crate::fs::{
    wf_contents, EntryView, Error, FileMeta, FileMetaView, IncomingFileMeta, ReadOnlyFilesystem,
    Stream, WritableFilesystem,
};
use crate::text::{lex_le, lemma_lex_antisym, lemma_lex_total, lemma_lex_trans, str_eq, str_le};

verus! {

/// A listing is sorted by name in ascending lexicographic order.
pub open spec fn sorted_by_name(files: Seq<FileMeta>) -> bool {
    forall|i: int, j: int|
        0 <= i < j < files.len() ==> lex_le((#[trigger] files[i])@.name, (#[trigger] files[j])@.name)
}

/// The descriptors of a contents map, keyed as the entries are.
pub open spec fn meta_map(m: Map<Seq<char>, EntryView>) -> Map<Seq<char>, FileMetaView> {
    m.map_values(|e: EntryView| e.meta)
}

/// The listing `files` describes the descriptor map `mm` exactly: no
/// duplicate names, every listed descriptor is the map's, every key listed.
pub open spec fn metas_match(files: Seq<FileMeta>, mm: Map<Seq<char>, FileMetaView>) -> bool {
    &&& forall|i: int, j: int|
        0 <= i < j < files.len() ==> (#[trigger] files[i])@.name != (#[trigger] files[j])@.name
    &&& forall|i: int|
        0 <= i < files.len() ==> mm.contains_key((#[trigger] files[i])@.name) && files[i]@
            == mm[files[i]@.name]
    &&& forall|n: Seq<char>|
        mm.contains_key(n) ==> exists|i: int| 0 <= i < files.len() && (#[trigger] files[i])@.name
            == n
}

/// The descriptor map a listing induces, later files winning on duplicates.
spec fn metas_to_map(files: Seq<FileMeta>) -> Map<Seq<char>, FileMetaView>
    decreases files.len(),
{
    if files.len() == 0 {
        Map::empty()
    } else {
        metas_to_map(files.drop_last()).insert(files.last()@.name, files.last()@)
    }
}

/// A listing with distinct names induces exactly the map it matches.
proof fn lemma_metas_to_map_of_match(files: Seq<FileMeta>, mm: Map<Seq<char>, FileMetaView>)
    requires
        metas_match(files, mm),
    ensures
        metas_to_map(files) == mm,
    decreases files.len(),
{
    if files.len() == 0 {
        assert forall|n: Seq<char>| !(#[trigger] mm.contains_key(n)) by {
            if mm.contains_key(n) {
                let i = choose|i: int|
                    0 <= i < files.len() && (#[trigger] files[i])@.name == n;
            }
        }
        assert(metas_to_map(files) =~= mm);
    } else {
        let prefix = files.drop_last();
        let last = files.last();
        let mm0 = mm.remove(last@.name);
        assert forall|i: int|
            0 <= i < prefix.len() implies mm0.contains_key((#[trigger] prefix[i])@.name)
            && prefix[i]@ == mm0[prefix[i]@.name] by {
            assert(prefix[i] == files[i]);
            assert(files[i]@.name != last@.name);
        }
        assert forall|n: Seq<char>|
            mm0.contains_key(n) implies exists|i: int|
            0 <= i < prefix.len() && (#[trigger] prefix[i])@.name == n by {
            let i = choose|i: int| 0 <= i < files.len() && (#[trigger] files[i])@.name == n;
            assert(i < files.len() - 1);
            assert(prefix[i]@.name == n);
        }
        assert(metas_match(prefix, mm0));
        lemma_metas_to_map_of_match(prefix, mm0);
        assert(mm.contains_key(last@.name) && mm[last@.name] == last@);
        assert(metas_to_map(files) =~= mm);
    }
}

/// Projecting descriptors commutes with composing two sources.
proof fn lemma_meta_map_union(a: Map<Seq<char>, EntryView>, b: Map<Seq<char>, EntryView>)
    ensures
        meta_map(a.union_prefer_right(b)) == meta_map(a).union_prefer_right(meta_map(b)),
{
    assert(meta_map(a.union_prefer_right(b)) =~= meta_map(a).union_prefer_right(meta_map(b)));
}

/// Inserts one descriptor into a sorted, duplicate-free listing, replacing
/// any entry with the same name.
fn merge_meta(acc: &mut Vec<FileMeta>, file: FileMeta, Ghost(mm): Ghost<Map<Seq<char>, FileMetaView>>)
    requires
        metas_match(old(acc)@, mm),
        sorted_by_name(old(acc)@),
    ensures
        metas_match(final(acc)@, mm.insert(file@.name, file@)),
        sorted_by_name(final(acc)@),
{
    let ghost a0 = acc@;
    let ghost fname = file@.name;
    let ghost mm1 = mm.insert(fname, file@);
    let n = acc.len();
    let mut j: usize = 0;
    while j < n
        invariant
            0 <= j <= n,
            n == a0.len(),
            acc@ == a0,
            a0 == old(acc)@,
            metas_match(a0, mm),
            sorted_by_name(a0),
            fname == file@.name,
            mm1 == mm.insert(fname, file@),
            forall|t: int|
                0 <= t < j ==> lex_le((#[trigger] a0[t])@.name, fname) && a0[t]@.name != fname,
        decreases n - j,
    {
        if str_eq(acc[j].name.as_str(), file.name.as_str()) {
            acc.remove(j);
            acc.insert(j, file);
            proof {
                let a1 = acc@;
                assert(a1 =~= a0.update(j as int, file));
                assert(a0[j as int]@.name == fname);
                assert forall|s: int, t: int|
                    0 <= s < t < a1.len() implies lex_le(
                    (#[trigger] a1[s])@.name,
                    (#[trigger] a1[t])@.name,
                ) && a1[s]@.name != a1[t]@.name by {
                    assert(lex_le(a0[s]@.name, a0[t]@.name));
                    assert(a0[s]@.name != a0[t]@.name);
                    assert(a1[s]@.name == a0[s]@.name);
                    assert(a1[t]@.name == a0[t]@.name);
                }
                assert forall|s: int|
                    0 <= s < a1.len() implies mm1.contains_key((#[trigger] a1[s])@.name) && a1[s]@
                    == mm1[a1[s]@.name] by {
                    if s != j {
                        if s < j {
                            assert(a0[s]@.name != a0[j as int]@.name);
                        } else {
                            assert(a0[j as int]@.name != a0[s]@.name);
                        }
                    }
                }
                assert forall|n2: Seq<char>| mm1.contains_key(n2) implies exists|s: int|
                    0 <= s < a1.len() && (#[trigger] a1[s])@.name == n2 by {
                    if n2 == fname {
                        assert(a1[j as int]@.name == n2);
                    } else {
                        assert(mm.contains_key(n2));
                        let s = choose|s: int|
                            0 <= s < a0.len() && (#[trigger] a0[s])@.name == n2;
                        assert(s != j);
                        assert(a1[s] == a0[s]);
                        assert(a1[s]@.name == n2);
                    }
                }
            }
            return;
        }
        if str_le(file.name.as_str(), acc[j].name.as_str()) {
            acc.insert(j, file);
            proof {
                let a1 = acc@;
                assert(a1 == a0.insert(j as int, file));
                assert forall|t: int| 0 <= t < a1.len() implies #[trigger] a1[t] == (if t < j {
                    a0[t]
                } else if t == j {
                    file
                } else {
                    a0[t - 1]
                }) by {}
                assert(lex_le(fname, a0[j as int]@.name));
                assert(fname != a0[j as int]@.name);
                assert forall|t: int| 0 <= t < a0.len() implies (#[trigger] a0[t])@.name
                    != fname by {
                    if t > j && a0[t]@.name == fname {
                        assert(lex_le(a0[j as int]@.name, a0[t]@.name));
                        lemma_lex_antisym(fname, a0[j as int]@.name);
                    }
                }
                assert forall|s: int, t: int|
                    0 <= s < t < a1.len() implies lex_le(
                    (#[trigger] a1[s])@.name,
                    (#[trigger] a1[t])@.name,
                ) && a1[s]@.name != a1[t]@.name by {
                    if t < j {
                    } else if t == j {
                        assert(lex_le(a0[s]@.name, fname) && a0[s]@.name != fname);
                    } else if s < j {
                        if s < t - 1 {
                            assert(lex_le(a0[s]@.name, a0[t - 1]@.name));
                        }
                        assert(a0[s]@.name != a0[t - 1]@.name || s == t - 1);
                        assert(a0[t - 1]@.name != fname);
                        if s == t - 1 {
                            assert(a1[s] == a0[s] && a1[t] == a0[t - 1]);
                            assert(s == j - 1 + 1 - 1);
                        }
                    } else if s == j {
                        if j < t - 1 {
                            assert(lex_le(a0[j as int]@.name, a0[t - 1]@.name));
                            lemma_lex_trans(fname, a0[j as int]@.name, a0[t - 1]@.name);
                        }
                        assert(a0[t - 1]@.name != fname);
                    } else {
                        assert(lex_le(a0[s - 1]@.name, a0[t - 1]@.name));
                        assert(a0[s - 1]@.name != a0[t - 1]@.name);
                    }
                }
                assert forall|s: int|
                    0 <= s < a1.len() implies mm1.contains_key((#[trigger] a1[s])@.name) && a1[s]@
                    == mm1[a1[s]@.name] by {
                    if s < j {
                        assert(a0[s]@.name != fname);
                    } else if s > j {
                        assert(a0[s - 1]@.name != fname);
                    }
                }
                assert forall|n2: Seq<char>| mm1.contains_key(n2) implies exists|s: int|
                    0 <= s < a1.len() && (#[trigger] a1[s])@.name == n2 by {
                    if n2 == fname {
                        assert(a1[j as int]@.name == n2);
                    } else {
                        let s = choose|s: int|
                            0 <= s < a0.len() && (#[trigger] a0[s])@.name == n2;
                        if s < j {
                            assert(a1[s]@.name == n2);
                        } else {
                            assert(a1[s + 1]@.name == n2);
                        }
                    }
                }
            }
            return;
        }
        proof {
            lemma_lex_total(a0[j as int]@.name, fname);
        }
        j = j + 1;
    }
    acc.push(file);
    proof {
        let a1 = acc@;
        assert(a1 == a0.push(file));
        assert forall|s: int, t: int|
            0 <= s < t < a1.len() implies lex_le((#[trigger] a1[s])@.name, (#[trigger] a1[t])@.name)
            && a1[s]@.name != a1[t]@.name by {
            if t == a1.len() - 1 {
                assert(a1[s] == a0[s]);
                assert(lex_le(a0[s]@.name, fname) && a0[s]@.name != fname);
            } else {
                assert(a1[s] == a0[s] && a1[t] == a0[t]);
            }
        }
        assert forall|s: int|
            0 <= s < a1.len() implies mm1.contains_key((#[trigger] a1[s])@.name) && a1[s]@
            == mm1[a1[s]@.name] by {
            if s < a1.len() - 1 {
                assert(a0[s]@.name != fname);
            }
        }
        assert forall|n2: Seq<char>| mm1.contains_key(n2) implies exists|s: int|
            0 <= s < a1.len() && (#[trigger] a1[s])@.name == n2 by {
            if n2 == fname {
                assert(a1[a1.len() - 1]@.name == n2);
            } else {
                let s = choose|s: int| 0 <= s < a0.len() && (#[trigger] a0[s])@.name == n2;
                assert(a1[s]@.name == n2);
            }
        }
    }
}

/// Folds one source's listing into the accumulated listing; the incoming
/// source wins on shared names.
fn merge_source(
    acc: &mut Vec<FileMeta>,
    files: Vec<FileMeta>,
    Ghost(mm): Ghost<Map<Seq<char>, FileMetaView>>,
    Ghost(sm): Ghost<Map<Seq<char>, FileMetaView>>,
)
    requires
        metas_match(old(acc)@, mm),
        sorted_by_name(old(acc)@),
        metas_match(files@, sm),
    ensures
        metas_match(final(acc)@, mm.union_prefer_right(sm)),
        sorted_by_name(final(acc)@),
{
    let ghost fseq = files@;
    let n = files.len();
    proof {
        assert(fseq.take(0) =~= Seq::<FileMeta>::empty());
        assert(mm.union_prefer_right(metas_to_map(fseq.take(0))) =~= mm);
    }
    let mut j: usize = 0;
    while j < n
        invariant
            0 <= j <= n,
            n == fseq.len(),
            files@ == fseq,
            metas_match(files@, sm),
            metas_match(acc@, mm.union_prefer_right(metas_to_map(fseq.take(j as int)))),
            sorted_by_name(acc@),
        decreases n - j,
    {
        let f = files[j].clone();
        merge_meta(acc, f, Ghost(mm.union_prefer_right(metas_to_map(fseq.take(j as int)))));
        proof {
            assert(fseq.take(j as int + 1).drop_last() =~= fseq.take(j as int));
            assert(fseq.take(j as int + 1).last() == fseq[j as int]);
            assert(mm.union_prefer_right(metas_to_map(fseq.take(j as int + 1)))
                =~= mm.union_prefer_right(metas_to_map(fseq.take(j as int))).insert(
                fseq[j as int]@.name,
                fseq[j as int]@,
            ));
        }
        j = j + 1;
    }
    proof {
        assert(fseq.take(n as int) =~= fseq);
        lemma_metas_to_map_of_match(fseq, sm);
    }
}

/// The contents seen through the first `k` layers over `root`: the union of
/// the maps, later (higher-priority) layers winning on shared keys.
pub open spec fn layered<L: ReadOnlyFilesystem>(
    layers: Seq<L>,
    root: Map<Seq<char>, EntryView>,
    k: int,
) -> Map<Seq<char>, EntryView>
    decreases k,
{
    if k <= 0 {
        root
    } else {
        layered(layers, root, k - 1).union_prefer_right(layers[k - 1].contents())
    }
}

/// Keys absent from layers `k..m` do not change between the `k`-layer and the
/// `m`-layer composition.
proof fn lemma_layered_absent_above<L: ReadOnlyFilesystem>(
    layers: Seq<L>,
    root: Map<Seq<char>, EntryView>,
    k: int,
    m: int,
    name: Seq<char>,
)
    requires
        0 <= k <= m <= layers.len(),
        forall|j: int| k <= j < m ==> !(#[trigger] layers[j]).contents().contains_key(name),
    ensures
        layered(layers, root, m).contains_key(name) == layered(layers, root, k).contains_key(name),
        layered(layers, root, m).contains_key(name) ==> layered(layers, root, m)[name] == layered(
            layers,
            root,
            k,
        )[name],
    decreases m - k,
{
    if m > k {
        lemma_layered_absent_above(layers, root, k, m - 1, name);
    }
}

/// A layer that holds `name` supplies the entry of the composition one level
/// above it.
proof fn lemma_layered_wins<L: ReadOnlyFilesystem>(
    layers: Seq<L>,
    root: Map<Seq<char>, EntryView>,
    k: int,
    name: Seq<char>,
)
    requires
        0 <= k < layers.len(),
        layers[k].contents().contains_key(name),
    ensures
        layered(layers, root, k + 1).contains_key(name),
        layered(layers, root, k + 1)[name] == layers[k].contents()[name],
{
}

/// The composed key set is the union of the root's and every layer's keys.
proof fn lemma_layered_dom<L: ReadOnlyFilesystem>(
    layers: Seq<L>,
    root: Map<Seq<char>, EntryView>,
    k: int,
)
    requires
        0 <= k <= layers.len(),
    ensures
        forall|n: Seq<char>|
            #[trigger] layered(layers, root, k).contains_key(n) <==> (root.contains_key(n) || exists|
                j: int,
            | 0 <= j < k && (#[trigger] layers[j]).contents().contains_key(n)),
    decreases k,
{
    if k > 0 {
        lemma_layered_dom(layers, root, k - 1);
        assert forall|n: Seq<char>| #[trigger]
            layered(layers, root, k).contains_key(n) implies (root.contains_key(n) || exists|j: int|
            0 <= j < k && (#[trigger] layers[j]).contents().contains_key(n)) by {
            if layers[k - 1].contents().contains_key(n) {
            } else {
                assert(layered(layers, root, k - 1).contains_key(n));
            }
        }
        assert forall|n: Seq<char>|
            (root.contains_key(n) || exists|j: int|
                0 <= j < k && (#[trigger] layers[j]).contents().contains_key(
                    n,
                )) implies #[trigger] layered(layers, root, k).contains_key(n) by {
            if root.contains_key(n) {
                assert(layered(layers, root, k - 1).contains_key(n));
            } else {
                let j = choose|j: int|
                    0 <= j < k && (#[trigger] layers[j]).contents().contains_key(n);
                if j < k - 1 {
                    assert(layered(layers, root, k - 1).contains_key(n));
                } else {
                    assert(layers[k - 1].contents().contains_key(n));
                }
            }
        }
    }
}

/// Composing well-formed sources yields well-formed contents.
proof fn lemma_layered_wf<L: ReadOnlyFilesystem>(
    layers: Seq<L>,
    root: Map<Seq<char>, EntryView>,
    k: int,
)
    requires
        0 <= k <= layers.len(),
        wf_contents(root),
        forall|i: int| 0 <= i < k ==> (#[trigger] layers[i]).inv(),
    ensures
        wf_contents(layered(layers, root, k)),
    decreases k,
{
    if k > 0 {
        lemma_layered_wf(layers, root, k - 1);
        layers[k - 1].contents_wf();
        let m = layered(layers, root, k);
        assert forall|n: Seq<char>| m.contains_key(n) implies (#[trigger] m[n]).meta.name == n
            && m[n].meta.size == m[n].content.len() by {
            if layers[k - 1].contents().contains_key(n) {
                assert(m[n] == layers[k - 1].contents()[n]);
            } else {
                assert(m[n] == layered(layers, root, k - 1)[n]);
            }
        }
    }
}

/// The layered filesystem: zero or more read-only layers over one writable
/// root, assembled once via [`Builder`] and immutable in shape afterwards.
pub struct Filesystem<L, R> {
    layers: Vec<L>,
    root: R,
}

/// Assembles a [`Filesystem`]: the root first, then layers in ascending
/// priority.
pub struct Builder<L, R> {
    layers: Vec<L>,
    root: R,
}

impl<L, R> Builder<L, R> {
    /// The layers added so far, in ascending priority.
    pub closed spec fn spec_layers(&self) -> Seq<L> {
        self.layers@
    }

    /// The writable root supplied at the start.
    pub closed spec fn spec_root(&self) -> R {
        self.root
    }

    /// Starts a builder around the writable root.
    pub fn new(root: R) -> (b: Builder<L, R>)
        ensures
            b.spec_root() == root,
            b.spec_layers() == Seq::<L>::empty(),
    {
        Builder { layers: Vec::new(), root }
    }

    /// Adds one read-only layer above all layers added before it.
    #[must_use]
    pub fn layer(self, layer: L) -> (b: Builder<L, R>)
        ensures
            b.spec_root() == self.spec_root(),
            b.spec_layers() == self.spec_layers().push(layer),
    {
        let mut b = self;
        b.layers.push(layer);
        b
    }

    /// Finishes assembly.
    #[must_use]
    pub fn build(self) -> (fs: Filesystem<L, R>)
        ensures
            fs.spec_root() == self.spec_root(),
            fs.spec_layers() == self.spec_layers(),
    {
        Filesystem { layers: self.layers, root: self.root }
    }
}

impl<L, R> Filesystem<L, R> {
    /// The layer stack, in ascending priority.
    pub closed spec fn spec_layers(&self) -> Seq<L> {
        self.layers@
    }

    /// The writable root.
    pub closed spec fn spec_root(&self) -> R {
        self.root
    }
}

impl<L: ReadOnlyFilesystem, R: WritableFilesystem> Filesystem<L, R> {
    /// Starts a [`Builder`] around the writable root.
    pub fn builder(root: R) -> (b: Builder<L, R>)
        ensures
            b.spec_root() == root,
            b.spec_layers() == Seq::<L>::empty(),
    {
        Builder::new(root)
    }

    /// The composed contents: the root's entries overridden by each layer in
    /// ascending priority.
    pub open spec fn composed(&self) -> Map<Seq<char>, EntryView> {
        layered(self.spec_layers(), self.spec_root().contents(), self.spec_layers().len() as int)
    }

    /// Every source of the composition satisfies its own invariant.
    pub open spec fn wf(&self) -> bool {
        self.spec_root().inv() && forall|i: int|
            0 <= i < self.spec_layers().len() ==> (#[trigger] self.spec_layers()[i]).inv()
    }

    /// For a path that only the root holds, the composition resolves to the
    /// root's entry unchanged: `get`, `meta` and `list` all report it.
    pub proof fn lemma_root_only_entry(&self, name: Seq<char>)
        requires
            self.spec_root().contents().contains_key(name),
            forall|i: int|
                0 <= i < self.spec_layers().len() ==> !(
                #[trigger] self.spec_layers()[i]).contents().contains_key(name),
        ensures
            self.composed().contains_key(name),
            self.composed()[name] == self.spec_root().contents()[name],
    {
        lemma_layered_absent_above(
            self.spec_layers(),
            self.spec_root().contents(),
            0,
            self.spec_layers().len() as int,
            name,
        );
    }

    /// The highest-priority layer holding a path supplies the composed entry,
    /// shadowing every lower layer and the root entirely — content, descriptor
    /// and size alike. With two layers holding the same path, the later one
    /// wins; a root copy underneath, written or deleted, stays invisible.
    pub proof fn lemma_layer_shadows(&self, i: int, name: Seq<char>)
        requires
            0 <= i < self.spec_layers().len(),
            self.spec_layers()[i].contents().contains_key(name),
            forall|j: int|
                i < j < self.spec_layers().len() ==> !(
                #[trigger] self.spec_layers()[j]).contents().contains_key(name),
        ensures
            self.composed().contains_key(name),
            self.composed()[name] == self.spec_layers()[i].contents()[name],
    {
        lemma_layered_wins(self.spec_layers(), self.spec_root().contents(), i, name);
        lemma_layered_absent_above(
            self.spec_layers(),
            self.spec_root().contents(),
            i + 1,
            self.spec_layers().len() as int,
            name,
        );
    }

    /// A path held by no source is absent from the composition; `get` and
    /// `meta` on it fail with `NotFound`. In particular, after deleting a
    /// root-only path, the path is gone from the composed view.
    pub proof fn lemma_absent_everywhere(&self, name: Seq<char>)
        requires
            !self.spec_root().contents().contains_key(name),
            forall|i: int|
                0 <= i < self.spec_layers().len() ==> !(
                #[trigger] self.spec_layers()[i]).contents().contains_key(name),
        ensures
            !self.composed().contains_key(name),
    {
        lemma_layered_absent_above(
            self.spec_layers(),
            self.spec_root().contents(),
            0,
            self.spec_layers().len() as int,
            name,
        );
    }

    /// The composed paths are exactly the union of the root's and every
    /// layer's paths: `list` reports each such path once and nothing else.
    pub proof fn lemma_composed_names(&self, name: Seq<char>)
        ensures
            self.composed().contains_key(name) <==> (self.spec_root().contents().contains_key(name)
                || exists|i: int|
                0 <= i < self.spec_layers().len() && (
                #[trigger] self.spec_layers()[i]).contents().contains_key(name)),
    {
        lemma_layered_dom(
            self.spec_layers(),
            self.spec_root().contents(),
            self.spec_layers().len() as int,
        );
    }

    /// Writes dispatch directly to the root; layers are never mutated, so an
    /// entry a layer also holds stays visible after the root's copy changes.
    pub fn put(&mut self, path: &str, data: Stream, meta: IncomingFileMeta) -> (r: Result<
        FileMeta,
        Error,
    >)
        requires
            old(self).wf(),
        ensures
            final(self).wf(),
            final(self).spec_layers() == old(self).spec_layers(),
            match r {
                Ok(m) => {
                    &&& !data.spec_failed()
                    &&& m@.name == path@
                    &&& m@.size == data.spec_data().len()
                    &&& meta.created matches Some(c) ==> m@.created == c
                    &&& meta.perm matches Some(p) ==> m@.perm == p@
                    &&& meta.content_type matches Some(ct) ==> m@.content_type == ct@
                    &&& meta.last_modified matches Some(l) ==> m@.last_modified == l
                    &&& final(self).spec_root().contents() == old(
                        self,
                    ).spec_root().contents().insert(
                        path@,
                        EntryView { content: data.spec_data(), meta: m@ },
                    )
                },
                Err(e) => {
                    &&& data.spec_failed()
                    &&& e is Io
                    &&& final(self).spec_root().contents() == old(self).spec_root().contents()
                },
            },
    {
        let r = self.root.put(path, data, meta);
        proof {
            assert forall|i: int|
                0 <= i < self.spec_layers().len() implies (#[trigger] self.spec_layers()[i]).inv() by {
                assert(old(self).spec_layers()[i].inv());
            }
        }
        r
    }

    /// Deletions dispatch directly to the root: "delete" means "delete the
    /// root's copy", never "make the path disappear".
    pub fn delete(&mut self, path: &str) -> (r: Result<(), Error>)
        requires
            old(self).wf(),
        ensures
            final(self).wf(),
            final(self).spec_layers() == old(self).spec_layers(),
            match r {
                Ok(u) => {
                    &&& old(self).spec_root().contents().contains_key(path@)
                    &&& final(self).spec_root().contents() == old(
                        self,
                    ).spec_root().contents().remove(path@)
                },
                Err(e) => {
                    &&& !old(self).spec_root().contents().contains_key(path@)
                    &&& e is NotFound
                    &&& final(self).spec_root().contents() == old(self).spec_root().contents()
                },
            },
    {
        let r = self.root.delete(path);
        proof {
            assert forall|i: int|
                0 <= i < self.spec_layers().len() implies (#[trigger] self.spec_layers()[i]).inv() by {
                assert(old(self).spec_layers()[i].inv());
            }
        }
        r
    }
}

impl<L: ReadOnlyFilesystem, R: WritableFilesystem> ReadOnlyFilesystem for Filesystem<L, R> {
    open spec fn contents(&self) -> Map<Seq<char>, EntryView> {
        self.composed()
    }

    open spec fn inv(&self) -> bool {
        self.wf()
    }

    proof fn contents_wf(&self) {
        self.spec_root().contents_wf();
        lemma_layered_wf(
            self.spec_layers(),
            self.spec_root().contents(),
            self.spec_layers().len() as int,
        );
    }

    fn list(&self) -> (r: Result<Vec<FileMeta>, Error>)
        ensures
            r matches Ok(files) ==> sorted_by_name(files@),
    {
        let ghost ls = self.layers@;
        let ghost rootm = self.root.contents();
        let mut acc: Vec<FileMeta> = Vec::new();
        proof {
            assert(metas_match(acc@, Map::<Seq<char>, FileMetaView>::empty()));
        }
        match self.root.list() {
            Ok(files) => {
                proof {
                    assert(metas_match(files@, meta_map(rootm)));
                }
                merge_source(
                    &mut acc,
                    files,
                    Ghost(Map::<Seq<char>, FileMetaView>::empty()),
                    Ghost(meta_map(rootm)),
                );
                proof {
                    assert(Map::<Seq<char>, FileMetaView>::empty().union_prefer_right(
                        meta_map(rootm),
                    ) =~= meta_map(rootm));
                    assert(meta_map(layered(ls, rootm, 0)) == meta_map(rootm));
                }
            }
            Err(_) => {}
        }
        let n = self.layers.len();
        let mut i: usize = 0;
        while i < n
            invariant
                0 <= i <= n,
                n == ls.len(),
                self.layers@ == ls,
                self.root.contents() == rootm,
                self.wf(),
                metas_match(acc@, meta_map(layered(ls, rootm, i as int))),
                sorted_by_name(acc@),
            decreases n - i,
        {
            proof {
                assert(self.spec_layers()[i as int] == ls[i as int]);
                assert(self.spec_layers()[i as int].inv());
            }
            match self.layers[i].list() {
                Ok(files) => {
                    proof {
                        assert(metas_match(files@, meta_map(ls[i as int].contents())));
                    }
                    merge_source(
                        &mut acc,
                        files,
                        Ghost(meta_map(layered(ls, rootm, i as int))),
                        Ghost(meta_map(ls[i as int].contents())),
                    );
                    proof {
                        lemma_meta_map_union(
                            layered(ls, rootm, i as int),
                            ls[i as int].contents(),
                        );
                    }
                }
                Err(_) => {}
            }
            i = i + 1;
        }
        proof {
            let comp = layered(ls, rootm, n as int);
            assert(self.contents() == comp);
            assert forall|idx: int|
                0 <= idx < acc@.len() implies comp.contains_key((#[trigger] acc@[idx])@.name)
                && acc@[idx]@ == comp[acc@[idx]@.name].meta by {
                assert(meta_map(comp).contains_key(acc@[idx]@.name));
                assert(meta_map(comp)[acc@[idx]@.name] == comp[acc@[idx]@.name].meta);
            }
            assert forall|n2: Seq<char>| comp.contains_key(n2) implies exists|idx: int|
                0 <= idx < acc@.len() && (#[trigger] acc@[idx])@.name == n2 by {
                assert(meta_map(comp).contains_key(n2));
            }
        }
        Ok(acc)
    }

    fn get(&self, path: &str) -> (r: Result<(Stream, FileMeta), Error>) {
        let ghost ls = self.layers@;
        let ghost rootm = self.root.contents();
        let n = self.layers.len();
        let mut k = n;
        while k > 0
            invariant
                0 <= k <= n,
                n == ls.len(),
                self.layers@ == ls,
                self.root.contents() == rootm,
                self.wf(),
                forall|j: int| k <= j < n ==> !(#[trigger] ls[j]).contents().contains_key(path@),
            decreases k,
        {
            k = k - 1;
            proof {
                assert(self.spec_layers()[k as int] == ls[k as int]);
                assert(self.spec_layers()[k as int].inv());
            }
            match self.layers[k].get(path) {
                Ok(found) => {
                    proof {
                        lemma_layered_wins(ls, rootm, k as int, path@);
                        lemma_layered_absent_above(ls, rootm, k as int + 1, n as int, path@);
                        assert(self.contents() == layered(ls, rootm, n as int));
                        assert(self.contents().contains_key(path@));
                        assert(self.contents()[path@] == ls[k as int].contents()[path@]);
                    }
                    return Ok(found);
                }
                Err(_) => {}
            }
        }
        proof {
            lemma_layered_absent_above(ls, rootm, 0, n as int, path@);
        }
        self.root.get(path)
    }

    fn meta(&self, path: &str) -> (r: Result<FileMeta, Error>) {
        let ghost ls = self.layers@;
        let ghost rootm = self.root.contents();
        let n = self.layers.len();
        let mut k = n;
        while k > 0
            invariant
                0 <= k <= n,
                n == ls.len(),
                self.layers@ == ls,
                self.root.contents() == rootm,
                self.wf(),
                forall|j: int| k <= j < n ==> !(#[trigger] ls[j]).contents().contains_key(path@),
            decreases k,
        {
            k = k - 1;
            proof {
                assert(self.spec_layers()[k as int] == ls[k as int]);
                assert(self.spec_layers()[k as int].inv());
            }
            match self.layers[k].meta(path) {
                Ok(found) => {
                    proof {
                        lemma_layered_wins(ls, rootm, k as int, path@);
                        lemma_layered_absent_above(ls, rootm, k as int + 1, n as int, path@);
                        assert(self.contents() == layered(ls, rootm, n as int));
                        assert(self.contents().contains_key(path@));
                        assert(self.contents()[path@] == ls[k as int].contents()[path@]);
                    }
                    return Ok(found);
                }
                Err(_) => {}
            }
        }
        proof {
            lemma_layered_absent_above(ls, rootm, 0, n as int, path@);
        }
        self.root.meta(path)
    }
}

} // verus!
