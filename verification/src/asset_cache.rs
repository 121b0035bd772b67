//! The cache-entry lifecycle and the cache-manifest evaluator: deciding
//! freshness, rebuilding entries under fresh unique paths, recursing over
//! dependencies, and publishing public assets.

use vstd::prelude::*;

use crate::asset_config::AssetConfig;
use crate::asset_filter::{AssetFilter, AssetFilterRegistry};
use crate::assets::{
    data_eq, AssetData, AssetDataView, AssetError, AssetErrorType, AssetFilterError,
    AssetManifest, AssetManifestView, AssetResult, AssetSource, AssetSourceView,
};
use crate::disk::Disk;
use crate::paths::{
    check_path_safety, join_path, join_view, path_is_safe, under_dir,
};

verus! {

broadcast use crate::disk::lemma_journal_faithful_refl;

/// The digest an unknown sequence of bytes hashes to.
pub uninterp spec fn blake3_of(bytes: Seq<u8>) -> Seq<u8>;

/// A 32-byte content digest used for change detection of file sources.
#[derive(Clone, Copy)]
pub struct AssetHash {
    pub hash: [u8; 32],
}

impl View for AssetHash {
    type V = Seq<u8>;

    open spec fn view(&self) -> Seq<u8> {
        self.hash@
    }
}

/// Relies on blake3::hash: the digest is 32 bytes long and is a function
/// of the input bytes alone.
#[verifier::external_body]
fn blake3_digest(bytes: &Vec<u8>) -> (r: AssetHash)
    ensures
        r@ == blake3_of(bytes@),
{
    AssetHash { hash: *blake3::hash(bytes.as_slice()).as_bytes() }
}

/// A character the hyphenated identifier form may contain: a lower-case
/// hex digit or a dash. In particular never a separator or a dot.
pub open spec fn uuid_stem_char(c: char) -> bool {
    c == '-' || ('0' <= c && c <= '9') || ('a' <= c && c <= 'f')
}

/// The shape of a freshly drawn identifier as stamped into file names:
/// 36 characters, each a lower-case hex digit or a dash.
pub open spec fn uuid_stem(s: Seq<char>) -> bool {
    s.len() == 36 && forall|j: int| 0 <= j < s.len() ==> uuid_stem_char(#[trigger] s[j])
}

/// Relies on uuid::Uuid::new_v4 and its Display form: a freshly drawn
/// random identifier, rendered as the 36-character hyphenated lower-case
/// form, so every character is a hex digit or a dash. Nothing is promised
/// about which identifier comes back.
#[verifier::external_body]
fn fresh_uuid_string() -> (r: String)
    ensures
        uuid_stem(r@),
{
    uuid::Uuid::new_v4().to_string()
}

/// Digest equality.
pub fn hash_eq(a: &AssetHash, b: &AssetHash) -> (r: bool)
    ensures
        r == (a@ == b@),
{
    let mut i: usize = 0;
    while i < 32
        invariant
            0 <= i <= 32,
            forall|j: int| 0 <= j < i ==> a.hash@[j] == b.hash@[j],
        decreases 32 - i,
    {
        if a.hash[i] != b.hash[i] {
            assert(a@[i as int] != b@[i as int]);
            return false;
        }
        i += 1;
    }
    proof {
        assert(a@ =~= b@);
    }
    true
}

/// One row of the persistent cache: the asset it describes, the definition
/// it was built from, the relative path of its materialized artifact under
/// the internal directory, and, for file sources, the content digest.
pub struct AssetCacheEntry {
    pub name: String,
    pub data: AssetData,
    pub path: String,
    pub file_hash: Option<AssetHash>,
}

#[verifier::ext_equal]
pub struct AssetCacheEntryView {
    pub name: Seq<char>,
    pub data: AssetDataView,
    pub path: Seq<char>,
    pub file_hash: Option<Seq<u8>>,
}

impl View for AssetCacheEntry {
    type V = AssetCacheEntryView;

    open spec fn view(&self) -> AssetCacheEntryView {
        AssetCacheEntryView {
            name: self.name@,
            data: self.data@,
            path: self.path@,
            file_hash: match self.file_hash {
                Some(h) => Some(h@),
                None => None,
            },
        }
    }
}

impl Clone for AssetCacheEntry {
    fn clone(&self) -> (r: AssetCacheEntry)
        ensures
            r@ == self@,
    {
        let r = AssetCacheEntry {
            name: self.name.clone(),
            data: self.data.clone(),
            path: self.path.clone(),
            file_hash: match &self.file_hash {
                Some(h) => Some(*h),
                None => None,
            },
        };
        proof {
            assert(r@ =~= self@);
        }
        r
    }
}

/// The file name stamped on a rebuilt asset: name, a dash, the fresh
/// identifier, a dot, the extension.
pub open spec fn file_name_view(name: Seq<char>, stem: Seq<char>, ext: Seq<char>) -> Seq<char> {
    name + seq!['-'] + stem + seq!['.'] + ext
}

/// The relative output path of a rebuilt asset: the file name, under the
/// optional base directory when that is non-empty.
pub open spec fn output_path_view(
    base: Option<Seq<char>>,
    name: Seq<char>,
    stem: Seq<char>,
    ext: Seq<char>,
) -> Seq<char> {
    match base {
        Some(b) => if b.len() == 0 {
            file_name_view(name, stem, ext)
        } else {
            join_view(b, file_name_view(name, stem, ext))
        },
        None => file_name_view(name, stem, ext),
    }
}

/// Composes the relative output path for an asset from its definition,
/// its name, and a fresh stem.
fn compose_output_path(data: &AssetData, name: &str, stem: &str) -> (r: String)
    ensures
        r@ == output_path_view(data@.output_base_path, name@, stem@, data@.extension),
{
    let mut file_name = name.to_owned();
    file_name.append("-");
    file_name.append(stem);
    file_name.append(".");
    file_name.append(data.extension.as_str());
    proof {
        reveal_strlit("-");
        reveal_strlit(".");
        assert("-"@ =~= seq!['-']);
        assert("."@ =~= seq!['.']);
        assert(file_name@ =~= file_name_view(name@, stem@, data@.extension));
    }
    match &data.output_base_path {
        Some(base) => {
            if base.as_str().is_empty() {
                file_name
            } else {
                join_path(base.as_str(), file_name.as_str())
            }
        },
        None => file_name,
    }
}

/// The composed output path stays safe whatever identifier a build draws.
pub open spec fn output_paths_safe(
    base: Option<Seq<char>>,
    name: Seq<char>,
    ext: Seq<char>,
) -> bool {
    forall|stem: Seq<char>|
        uuid_stem(stem) ==> path_is_safe(#[trigger] output_path_view(base, name, stem, ext))
}

/// The composed output path escapes whatever identifier a build draws; so
/// for a bad base directory such as a leading parent reference.
pub open spec fn output_paths_escape(
    base: Option<Seq<char>>,
    name: Seq<char>,
    ext: Seq<char>,
) -> bool {
    forall|stem: Seq<char>|
        uuid_stem(stem) ==> !path_is_safe(#[trigger] output_path_view(base, name, stem, ext))
}

/// An entry rebuilt during this run against manifest `m` under the name
/// `k`: consistently named, with a safe path, built from the manifest's
/// current definition, and hashed exactly for file sources.
pub open spec fn built_entry(e: AssetCacheEntryView, k: Seq<char>, m: AssetManifestView) -> bool {
    &&& e.name == k
    &&& path_is_safe(e.path)
    &&& m.assets.contains_key(k)
    &&& m.assets[k] == e.data
    &&& (e.data.source is Filtered ==> e.file_hash is None)
    &&& exists|stem: Seq<char>|
        uuid_stem(stem) && e.path == output_path_view(
            e.data.output_base_path,
            k,
            stem,
            e.data.extension,
        )
}

/// An entry that needs no rebuild: its definition still matches the
/// manifest, its artifact is present under the internal directory, and for
/// file sources the recorded digest matches the source bytes on disk.
pub open spec fn entry_fresh(
    e: AssetCacheEntryView,
    m: AssetManifestView,
    source_dir: Seq<char>,
    internal_dir: Seq<char>,
    disk: Map<Seq<char>, Seq<u8>>,
) -> bool {
    &&& m.assets.contains_key(e.name)
    &&& m.assets[e.name] == e.data
    &&& disk.contains_key(join_view(internal_dir, e.path))
    &&& match e.data.source {
        AssetSourceView::File(p) => {
            &&& disk.contains_key(join_view(source_dir, p))
            &&& e.file_hash == Some(blake3_of(disk[join_view(source_dir, p)]))
        },
        AssetSourceView::Filtered(_) => true,
    }
}

/// Every name in `scope` is cached and fresh, and `scope` is closed under
/// filter inputs: the state of a dependency closure none of whose inputs
/// have changed since it was built.
pub open spec fn deps_fresh(
    scope: Set<Seq<char>>,
    cache: Map<Seq<char>, AssetCacheEntryView>,
    m: AssetManifestView,
    source_dir: Seq<char>,
    internal_dir: Seq<char>,
    disk: Map<Seq<char>, Seq<u8>>,
) -> bool {
    forall|k: Seq<char>| #[trigger] scope.contains(k) ==> {
        &&& cache.contains_key(k)
        &&& cache[k].name == k
        &&& entry_fresh(cache[k], m, source_dir, internal_dir, disk)
        &&& match cache[k].data.source {
            AssetSourceView::Filtered(f) => forall|j: int|
                0 <= j < f.input_names.len() ==> scope.contains(#[trigger] f.input_names[j]),
            _ => true,
        }
    }
}

/// A witness that the dependency graph on `scope` is acyclic: a rank below
/// the cache's size for every name in scope, strictly decreasing from a
/// filtered entry to each of its inputs.
pub open spec fn deps_ranked(
    scope: Set<Seq<char>>,
    rank: Map<Seq<char>, int>,
    cache: Map<Seq<char>, AssetCacheEntryView>,
) -> bool {
    forall|k: Seq<char>| #[trigger] scope.contains(k) ==> {
        &&& 0 <= rank[k] < cache.len()
        &&& match cache[k].data.source {
            AssetSourceView::Filtered(f) => forall|j: int|
                0 <= j < f.input_names.len() ==> rank[#[trigger] f.input_names[j]] < rank[k],
            _ => true,
        }
    }
}

proof fn lemma_deps_fresh_union(
    a: Set<Seq<char>>,
    b: Set<Seq<char>>,
    cache: Map<Seq<char>, AssetCacheEntryView>,
    m: AssetManifestView,
    source_dir: Seq<char>,
    internal_dir: Seq<char>,
    disk: Map<Seq<char>, Seq<u8>>,
)
    requires
        deps_fresh(a, cache, m, source_dir, internal_dir, disk),
        deps_fresh(b, cache, m, source_dir, internal_dir, disk),
    ensures
        deps_fresh(a.union(b), cache, m, source_dir, internal_dir, disk),
{
    assert forall|k: Seq<char>| #[trigger] a.union(b).contains(k) implies {
        &&& cache.contains_key(k)
        &&& cache[k].name == k
        &&& entry_fresh(cache[k], m, source_dir, internal_dir, disk)
        &&& match cache[k].data.source {
            AssetSourceView::Filtered(f) => forall|j: int|
                0 <= j < f.input_names.len() ==> a.union(b).contains(
                    #[trigger] f.input_names[j],
                ),
            _ => true,
        }
    } by {
        if a.contains(k) {
            assert(deps_fresh(a, cache, m, source_dir, internal_dir, disk) && a.contains(k));
        } else {
            assert(b.contains(k));
        }
    }
}

/// In the operation run `ops` against starting tree `d0`, index `k` is a
/// journalled publish of the relative path `rel`: a write below the target
/// directory of exactly the bytes the internal copy held at that moment.
pub open spec fn published_at(
    ops: Seq<crate::disk::DiskOp>,
    k: int,
    rel: Seq<char>,
    d0: Map<Seq<char>, Seq<u8>>,
    internal_dir: Seq<char>,
    target_dir: Seq<char>,
) -> bool {
    &&& 0 <= k < ops.len()
    &&& path_is_safe(rel)
    &&& match ops[k] {
        crate::disk::DiskOp::Write(tp, b) => {
            let pre = crate::disk::apply_ops(d0, ops.take(k));
            &&& tp@ == join_view(target_dir, rel)
            &&& pre.contains_key(join_view(internal_dir, rel))
            &&& b@ == pre[join_view(internal_dir, rel)]
        },
        crate::disk::DiskOp::Remove(_) => false,
    }
}

/// The journalled operations publish the first `ks.len()` public assets,
/// in declaration order: for the i-th of them there is an operation index
/// `ks[i]` publishing the safe relative path `rels[i]`, and the cache
/// entry for that name either still carries that path or was rebuilt after
/// its publication. Work already published survives a later failure.
pub open spec fn published_prefix(
    ks: Seq<int>,
    rels: Seq<Seq<char>>,
    ops: Seq<crate::disk::DiskOp>,
    d0: Map<Seq<char>, Seq<u8>>,
    m: AssetManifestView,
    cache: Map<Seq<char>, AssetCacheEntryView>,
    internal_dir: Seq<char>,
    target_dir: Seq<char>,
) -> bool {
    &&& ks.len() == rels.len()
    &&& ks.len() <= m.public_assets.len()
    &&& forall|a: int, b: int| 0 <= a < b < ks.len() ==> ks[a] < ks[b]
    &&& forall|i: int|
        0 <= i < ks.len() ==> published_at(
            ops,
            #[trigger] ks[i],
            rels[i],
            d0,
            internal_dir,
            target_dir,
        )
    &&& forall|i: int|
        0 <= i < ks.len() ==> {
            let nm = m.public_assets[i];
            cache[nm].path == #[trigger] rels[i] || built_entry(cache[nm], nm, m)
        }
}

/// A completed run: every public asset was published.
pub open spec fn published_run(
    ks: Seq<int>,
    rels: Seq<Seq<char>>,
    ops: Seq<crate::disk::DiskOp>,
    d0: Map<Seq<char>, Seq<u8>>,
    m: AssetManifestView,
    cache: Map<Seq<char>, AssetCacheEntryView>,
    internal_dir: Seq<char>,
    target_dir: Seq<char>,
) -> bool {
    &&& ks.len() == m.public_assets.len()
    &&& published_prefix(ks, rels, ops, d0, m, cache, internal_dir, target_dir)
}

/// How one engine step may change the caches and the disk image: cache
/// entries are only added or replaced by freshly built ones, and files
/// change only below the internal and target directories.
pub open spec fn engine_frame(
    cache0: Map<Seq<char>, AssetCacheEntryView>,
    cache1: Map<Seq<char>, AssetCacheEntryView>,
    m: AssetManifestView,
    internal_dir: Seq<char>,
    target_dir: Seq<char>,
    disk0: Map<Seq<char>, Seq<u8>>,
    disk1: Map<Seq<char>, Seq<u8>>,
) -> bool {
    &&& cache0.dom().subset_of(cache1.dom())
    &&& forall|k: Seq<char>|
        #[trigger] cache1.contains_key(k) && (!cache0.contains_key(k) || cache1[k] != cache0[k])
            ==> built_entry(cache1[k], k, m)
    &&& forall|p: Seq<char>|
        #[trigger] disk1.contains_key(p) && (!disk0.contains_key(p) || disk1[p] != disk0[p])
            ==> under_dir(p, internal_dir) || under_dir(p, target_dir)
    &&& forall|p: Seq<char>|
        #[trigger] disk0.contains_key(p) && !disk1.contains_key(p) ==> under_dir(p, internal_dir)
            || under_dir(p, target_dir)
}

proof fn lemma_engine_frame_trans(
    cache0: Map<Seq<char>, AssetCacheEntryView>,
    cache1: Map<Seq<char>, AssetCacheEntryView>,
    cache2: Map<Seq<char>, AssetCacheEntryView>,
    m: AssetManifestView,
    internal_dir: Seq<char>,
    target_dir: Seq<char>,
    disk0: Map<Seq<char>, Seq<u8>>,
    disk1: Map<Seq<char>, Seq<u8>>,
    disk2: Map<Seq<char>, Seq<u8>>,
)
    requires
        engine_frame(cache0, cache1, m, internal_dir, target_dir, disk0, disk1),
        engine_frame(cache1, cache2, m, internal_dir, target_dir, disk1, disk2),
    ensures
        engine_frame(cache0, cache2, m, internal_dir, target_dir, disk0, disk2),
{
    assert forall|k: Seq<char>|
        #[trigger] cache2.contains_key(k) && (!cache0.contains_key(k) || cache2[k] != cache0[k])
            implies built_entry(cache2[k], k, m) by {
        if cache1.contains_key(k) && cache2[k] == cache1[k] {
            assert(cache1.contains_key(k) && (!cache0.contains_key(k) || cache1[k] != cache0[k]));
        }
    }
    assert forall|p: Seq<char>|
        #[trigger] disk2.contains_key(p) && (!disk0.contains_key(p) || disk2[p] != disk0[p])
            implies under_dir(p, internal_dir) || under_dir(p, target_dir) by {
        if disk1.contains_key(p) && disk2[p] == disk1[p] {
            assert(disk1.contains_key(p) && (!disk0.contains_key(p) || disk1[p] != disk0[p]));
        }
    }
    assert forall|p: Seq<char>|
        #[trigger] disk0.contains_key(p) && !disk2.contains_key(p) implies under_dir(
        p,
        internal_dir,
    ) || under_dir(p, target_dir) by {
        if disk1.contains_key(p) {
            assert(disk1.contains_key(p) && !disk2.contains_key(p));
        } else {
            assert(disk0.contains_key(p) && !disk1.contains_key(p));
        }
    }
}

/// The persisted cache: one entry per asset name.
pub struct AssetCacheManifestV1 {
    map: vstd::hash_map::StringHashMap<AssetCacheEntry>,
    names: Vec<String>,
}

impl View for AssetCacheManifestV1 {
    type V = Map<Seq<char>, AssetCacheEntryView>;

    closed spec fn view(&self) -> Map<Seq<char>, AssetCacheEntryView> {
        self.map@.map_values(|e: AssetCacheEntry| e@)
    }
}

impl AssetCacheManifestV1 {
    /// Well-formed: the name list enumerates the map's keys exactly once
    /// each, and every entry records the name it is stored under.
    pub closed spec fn wf(&self) -> bool {
        &&& forall|i: int, j: int|
            0 <= i < j < self.names@.len() ==> self.names@[i]@ != self.names@[j]@
        &&& forall|i: int|
            0 <= i < self.names@.len() ==> self.map@.contains_key(#[trigger] self.names@[i]@)
        &&& forall|k: Seq<char>| #[trigger] self.map@.contains_key(k) ==> exists|i: int|
            0 <= i < self.names@.len() && self.names@[i]@ == k
        &&& forall|k: Seq<char>| #[trigger] self.map@.contains_key(k) ==> self.map@[k].name@ == k
    }

    /// An empty cache.
    pub fn new() -> (r: AssetCacheManifestV1)
        ensures
            r.wf(),
            r@ == Map::<Seq<char>, AssetCacheEntryView>::empty(),
    {
        let r = AssetCacheManifestV1 {
            map: vstd::hash_map::StringHashMap::new(),
            names: Vec::new(),
        };
        proof {
            assert(r@ =~= Map::<Seq<char>, AssetCacheEntryView>::empty());
        }
        r
    }

    /// The number of cached entries.
    pub fn len(&self) -> (r: usize)
        ensures
            r == self@.len(),
    {
        proof {
            assert(self@.dom() =~= self.map@.dom());
        }
        self.map.len()
    }

    /// Stores an entry under its own name, replacing any previous entry.
    pub fn insert_entry(&mut self, entry: AssetCacheEntry)
        requires
            old(self).wf(),
        ensures
            final(self).wf(),
            final(self)@ == old(self)@.insert(entry.name@, entry@),
    {
        let name = entry.name.clone();
        if !self.map.contains_key(name.as_str()) {
            self.names.push(name.clone());
        }
        self.map.insert(name, entry);
        proof {
            assert(final(self)@ =~= old(self)@.insert(entry.name@, entry@));
            assert forall|k: Seq<char>| #[trigger] final(self).map@.contains_key(k)
                implies exists|i: int|
                0 <= i < final(self).names@.len() && final(self).names@[i]@ == k by {
                if k == entry.name@ {
                    if old(self).map@.contains_key(k) {
                        let i = choose|i: int|
                            0 <= i < old(self).names@.len() && old(self).names@[i]@ == k;
                        assert(final(self).names@[i]@ == k);
                    } else {
                        assert(final(self).names@[final(self).names@.len() - 1]@ == k);
                    }
                } else {
                    let i = choose|i: int|
                        0 <= i < old(self).names@.len() && old(self).names@[i]@ == k;
                    assert(final(self).names@[i]@ == k);
                }
            }
        }
    }

    /// A copy of the cached entry for the name, if any.
    pub fn get_entry(&self, name: &str) -> (r: Option<AssetCacheEntry>)
        requires
            self.wf(),
        ensures
            match r {
                Some(e) => self@.contains_key(name@) && e@ == self@[name@] && e@.name == name@,
                None => !self@.contains_key(name@),
            },
    {
        match self.map.get(name) {
            Some(e) => Some(e.clone()),
            None => None,
        }
    }

    /// The cached names, each exactly once, for enumerating the cache.
    pub fn entry_names(&self) -> (r: &Vec<String>)
        requires
            self.wf(),
        ensures
            forall|i: int| 0 <= i < r@.len() ==> self@.contains_key(#[trigger] r@[i]@),
            forall|k: Seq<char>| #[trigger] self@.contains_key(k) ==> exists|i: int|
                0 <= i < r@.len() && r@[i]@ == k,
            forall|i: int, j: int| 0 <= i < j < r@.len() ==> r@[i]@ != r@[j]@,
    {
        &self.names
    }
}

impl AssetCacheEntry {
    /// Builds the asset `name` afresh: allocates a uniquely named output
    /// path, checks it for safety, materializes the artifact under the
    /// internal directory (recursively processing the inputs of a filtered
    /// source first), and returns the new entry. Does not install it.
    #[verifier::loop_isolation(false)]
    fn create_fuel<E, F>(
        name: &String,
        config: &AssetConfig,
        manifest: &AssetManifest,
        cache_manifest: &mut AssetCacheManifestV1,
        filter_registry: &AssetFilterRegistry<E, F>,
        disk: &mut Disk,
        fuel: u64,
        Ghost(scope): Ghost<Set<Seq<char>>>,
        Ghost(rank): Ghost<Map<Seq<char>, int>>,
    ) -> (r: AssetResult<AssetCacheEntry, E>) where E: AssetFilterError, F: AssetFilter<E>
        requires
            old(cache_manifest).wf(),
        ensures
            final(cache_manifest).wf(),
            engine_frame(
                old(cache_manifest)@,
                final(cache_manifest)@,
                manifest@,
                config.internal_directory_path@,
                config.target_directory_path@,
                old(disk)@,
                final(disk)@,
            ),
            crate::disk::journal_faithful(*old(disk), *final(disk)),
            match r {
                Ok(e) => {
                    &&& built_entry(e@, name@, manifest@)
                    &&& final(disk)@.contains_key(
                        join_view(config.internal_directory_path@, e@.path),
                    )
                    &&& match e@.data.source {
                        AssetSourceView::File(p) => {
                            &&& final(disk)@.contains_key(
                                join_view(config.source_directory_path@, p),
                            )
                            &&& final(disk)@[join_view(config.internal_directory_path@, e@.path)]
                                == final(disk)@[join_view(config.source_directory_path@, p)]
                            &&& e@.file_hash == Some(
                                blake3_of(
                                    final(disk)@[join_view(config.source_directory_path@, p)],
                                ),
                            )
                        },
                        AssetSourceView::Filtered(_) => e@.file_hash is None,
                    }
                },
                Err(err) => match err.error_type {
                    AssetErrorType::AssetNotFoundInManifestError(n) => !manifest@.assets.contains_key(
                        n@,
                    ),
                    AssetErrorType::AssetPathError(p) => !path_is_safe(p@),
                    _ => true,
                },
            },
            !manifest@.assets.contains_key(name@) ==> (r matches Err(err)
                && err.error_type matches AssetErrorType::AssetNotFoundInManifestError(n)
                && n@ == name@) && final(cache_manifest)@ == old(cache_manifest)@
                && final(disk)@ == old(disk)@,
            (manifest@.assets.contains_key(name@) && output_paths_escape(
                manifest@.assets[name@].output_base_path,
                name@,
                manifest@.assets[name@].extension,
            )) ==> (r matches Err(err)
                && err.error_type matches AssetErrorType::AssetPathError(p)
                && !path_is_safe(p@)) && final(cache_manifest)@ == old(cache_manifest)@
                && final(disk)@ == old(disk)@,
            (manifest@.assets.contains_key(name@) && manifest@.assets[name@].source is File
                && old(disk)@.contains_key(
                join_view(
                    config.source_directory_path@,
                    manifest@.assets[name@].source->File_0,
                ),
            ) && output_paths_safe(
                manifest@.assets[name@].output_base_path,
                name@,
                manifest@.assets[name@].extension,
            )) ==> r is Ok,
            (r is Ok && manifest@.assets[name@].source is Filtered) ==> {
                let f = manifest@.assets[name@].source->Filtered_0;
                &&& filter_registry.has_filter(f.filter_name)
                &&& forall|j: int|
                    0 <= j < f.input_names.len() ==> manifest@.assets.contains_key(
                        #[trigger] f.input_names[j],
                    ) && final(cache_manifest)@.contains_key(f.input_names[j])
            },
            (manifest@.assets.contains_key(name@) && manifest@.assets[name@].source is File)
                ==> match r {
                Ok(e) => {
                    let src = join_view(
                        config.source_directory_path@,
                        manifest@.assets[name@].source->File_0,
                    );
                    &&& old(disk)@.contains_key(src)
                    &&& final(disk)@ == old(disk)@.insert(
                        join_view(config.internal_directory_path@, e@.path),
                        old(disk)@[src],
                    )
                    &&& final(cache_manifest)@ == old(cache_manifest)@
                },
                Err(err) => {
                    let src = join_view(
                        config.source_directory_path@,
                        manifest@.assets[name@].source->File_0,
                    );
                    &&& final(disk)@ == old(disk)@
                    &&& final(cache_manifest)@ == old(cache_manifest)@
                    &&& match err.error_type {
                        AssetErrorType::AssetPathError(_) => true,
                        AssetErrorType::IOError(io) => io@ == src && !old(disk)@.contains_key(
                            src,
                        ),
                        _ => false,
                    }
                },
            },
        decreases fuel, 0int,
    {
        let data = match manifest.assets.get(name.as_str()) {
            Some(d) => d.clone(),
            None => {
                proof {
                    assert(!manifest@.assets.contains_key(name@));
                }
                return Err(
                    AssetError::new(
                        AssetErrorType::AssetNotFoundInManifestError(name.clone()),
                    ),
                );
            },
        };
        proof {
            assert(manifest@.assets.contains_key(name@) && manifest@.assets[name@] == data@);
        }
        let stem = fresh_uuid_string();
        let output_path = compose_output_path(&data, name.as_str(), stem.as_str());
        if !check_path_safety(output_path.as_str()) {
            return Err(AssetError::new(AssetErrorType::AssetPathError(output_path)));
        }
        let output_full_path = join_path(
            config.internal_directory_path.as_str(),
            output_path.as_str(),
        );
        proof {
            crate::paths::lemma_join_under_dir(config.internal_directory_path@, output_path@);
        }
        match &data.source {
            AssetSource::File(file_path) => {
                let source_full_path = join_path(
                    config.source_directory_path.as_str(),
                    file_path.as_str(),
                );
                let bytes = match disk.read(source_full_path.as_str()) {
                    Some(b) => b.clone(),
                    None => {
                        return Err(
                            AssetError::new(AssetErrorType::IOError(source_full_path)),
                        );
                    },
                };
                let file_hash = blake3_digest(&bytes);
                let ghost dpre = *disk;
                disk.write(output_full_path, bytes);
                proof {
                    assert(disk.log_entries().skip(dpre.log_entries().len() as int)
                        =~= seq![disk.log_entries().last()]);
                    crate::disk::lemma_apply_single(dpre@, disk.log_entries().last());
                }
                let entry = AssetCacheEntry {
                    name: name.clone(),
                    data,
                    path: output_path,
                    file_hash: Some(file_hash),
                };
                proof {
                    assert(uuid_stem(stem@) && entry@.path == output_path_view(
                        entry@.data.output_base_path,
                        name@,
                        stem@,
                        entry@.data.extension,
                    ));
                }
                Ok(entry)
            },
            AssetSource::Filtered(filtered) => {
                if fuel == 0 {
                    return Err(
                        AssetError::new(
                            AssetErrorType::AssetRecursionLimitError(name.clone()),
                        ),
                    );
                }
                let mut input_files: Vec<Vec<u8>> = Vec::new();
                let mut i: usize = 0;
                while i < filtered.input_names.len()
                    invariant
                        0 <= i <= filtered.input_names.len(),
                        fuel >= 1,
                        cache_manifest.wf(),
                        input_files@.len() == i,
                        forall|j: int|
                            0 <= j < i ==> manifest@.assets.contains_key(
                                #[trigger] filtered.input_names@[j]@,
                            ) && cache_manifest@.contains_key(filtered.input_names@[j]@),
                        engine_frame(
                            old(cache_manifest)@,
                            cache_manifest@,
                            manifest@,
                            config.internal_directory_path@,
                            config.target_directory_path@,
                            old(disk)@,
                            disk@,
                        ),
                        crate::disk::journal_faithful(*old(disk), *disk),
                    decreases filtered.input_names.len() - i,
                {
                    let ghost cache_pre = cache_manifest@;
                    let ghost dpre = *disk;
                    let input_result = cache_manifest.process_fuel(
                        &filtered.input_names[i],
                        config,
                        manifest,
                        filter_registry,
                        disk,
                        fuel - 1,
                        Ghost(scope),
                        Ghost(rank),
                    );
                    proof {
                        lemma_engine_frame_trans(
                            old(cache_manifest)@,
                            cache_pre,
                            cache_manifest@,
                            manifest@,
                            config.internal_directory_path@,
                            config.target_directory_path@,
                            old(disk)@,
                            dpre@,
                            disk@,
                        );
                        crate::disk::lemma_journal_faithful_trans(*old(disk), dpre, *disk);
                    }
                    let (input_entry, _input_changed) = match input_result {
                        Ok(p) => p,
                        Err(e) => {
                            return Err(e);
                        },
                    };
                    let input_full_path = join_path(
                        config.internal_directory_path.as_str(),
                        input_entry.path.as_str(),
                    );
                    let input_bytes = match disk.read(input_full_path.as_str()) {
                        Some(b) => b.clone(),
                        None => {
                            return Err(
                                AssetError::new(AssetErrorType::IOError(input_full_path)),
                            );
                        },
                    };
                    input_files.push(input_bytes);
                    i += 1;
                }
                let filter_result = filter_registry.process_asset_file(
                    &filtered.filter_name,
                    &input_files,
                    &filtered.options,
                );
                match filter_result {
                    None => Err(
                        AssetError::new(
                            AssetErrorType::AssetFilterNotFoundError(
                                filtered.filter_name.clone(),
                            ),
                        ),
                    ),
                    Some(Err(e)) => Err(AssetError::new(AssetErrorType::FilterError(e))),
                    Some(Ok(output_bytes)) => {
                        let ghost cache_pre = cache_manifest@;
                        let ghost dpre = *disk;
                        disk.write(output_full_path, output_bytes);
                        proof {
                            assert(disk.log_entries().skip(dpre.log_entries().len() as int)
                                =~= seq![disk.log_entries().last()]);
                            crate::disk::lemma_apply_single(dpre@, disk.log_entries().last());
                            lemma_engine_frame_trans(
                                old(cache_manifest)@,
                                cache_pre,
                                cache_manifest@,
                                manifest@,
                                config.internal_directory_path@,
                                config.target_directory_path@,
                                old(disk)@,
                                dpre@,
                                disk@,
                            );
                            crate::disk::lemma_journal_faithful_trans(*old(disk), dpre, *disk);
                        }
                        let entry = AssetCacheEntry {
                            name: name.clone(),
                            data: data.clone(),
                            path: output_path,
                            file_hash: None,
                        };
                        proof {
                            assert(uuid_stem(stem@) && entry@.path == output_path_view(
                                entry@.data.output_base_path,
                                name@,
                                stem@,
                                entry@.data.extension,
                            ));
                        }
                        Ok(entry)
                    },
                }
            },
        }
    }

    /// Decides whether this entry is still fresh; if not, deletes its old
    /// artifacts and rebuilds it. `Ok(None)` means unchanged; `Ok(Some(e))`
    /// is the freshly built replacement.
    #[verifier::loop_isolation(false)]
    fn update_fuel<E, F>(
        &self,
        config: &AssetConfig,
        manifest: &AssetManifest,
        cache_manifest: &mut AssetCacheManifestV1,
        filter_registry: &AssetFilterRegistry<E, F>,
        disk: &mut Disk,
        fuel: u64,
        Ghost(scope): Ghost<Set<Seq<char>>>,
        Ghost(rank): Ghost<Map<Seq<char>, int>>,
    ) -> (r: AssetResult<Option<AssetCacheEntry>, E>) where E: AssetFilterError, F: AssetFilter<E>
        requires
            old(cache_manifest).wf(),
        ensures
            final(cache_manifest).wf(),
            engine_frame(
                old(cache_manifest)@,
                final(cache_manifest)@,
                manifest@,
                config.internal_directory_path@,
                config.target_directory_path@,
                old(disk)@,
                final(disk)@,
            ),
            crate::disk::journal_faithful(*old(disk), *final(disk)),
            match r {
                Ok(None) => {
                    &&& final(cache_manifest)@ == old(cache_manifest)@
                    &&& final(disk)@ == old(disk)@
                    &&& final(disk).log_entries() == old(disk).log_entries()
                    &&& entry_fresh(
                        self@,
                        manifest@,
                        config.source_directory_path@,
                        config.internal_directory_path@,
                        old(disk)@,
                    )
                },
                Ok(Some(e)) => {
                    &&& built_entry(e@, self@.name, manifest@)
                    &&& final(disk)@.contains_key(
                        join_view(config.internal_directory_path@, e@.path),
                    )
                    &&& match e@.data.source {
                        AssetSourceView::File(p) => {
                            &&& final(disk)@.contains_key(
                                join_view(config.source_directory_path@, p),
                            )
                            &&& final(disk)@[join_view(config.internal_directory_path@, e@.path)]
                                == final(disk)@[join_view(config.source_directory_path@, p)]
                            &&& e@.file_hash == Some(
                                blake3_of(
                                    final(disk)@[join_view(config.source_directory_path@, p)],
                                ),
                            )
                        },
                        AssetSourceView::Filtered(_) => e@.file_hash is None,
                    }
                },
                Err(err) => match err.error_type {
                    AssetErrorType::AssetNotFoundInManifestError(n) => !manifest@.assets.contains_key(
                        n@,
                    ),
                    AssetErrorType::AssetPathError(p) => !path_is_safe(p@),
                    _ => true,
                },
            },
            !manifest@.assets.contains_key(self@.name) ==> (r matches Err(err)
                && err.error_type matches AssetErrorType::AssetNotFoundInManifestError(n)
                && n@ == self@.name) && final(cache_manifest)@ == old(cache_manifest)@
                && final(disk)@ == old(disk)@,
            (manifest@.assets.contains_key(self@.name)
                && manifest@.assets[self@.name].source is File && old(disk)@.contains_key(
                join_view(
                    config.source_directory_path@,
                    manifest@.assets[self@.name].source->File_0,
                ),
            ) && !under_dir(
                join_view(
                    config.source_directory_path@,
                    manifest@.assets[self@.name].source->File_0,
                ),
                config.internal_directory_path@,
            ) && !under_dir(
                join_view(
                    config.source_directory_path@,
                    manifest@.assets[self@.name].source->File_0,
                ),
                config.target_directory_path@,
            ) && output_paths_safe(
                manifest@.assets[self@.name].output_base_path,
                self@.name,
                manifest@.assets[self@.name].extension,
            )) ==> r is Ok,
            (manifest@.assets.contains_key(self@.name) && (manifest@.assets[self@.name]
                != self@.data || !old(disk)@.contains_key(
                join_view(config.internal_directory_path@, self@.path),
            )) && output_paths_escape(
                manifest@.assets[self@.name].output_base_path,
                self@.name,
                manifest@.assets[self@.name].extension,
            )) ==> (r matches Err(err)
                && err.error_type matches AssetErrorType::AssetPathError(p)
                && !path_is_safe(p@)),
            r matches Ok(Some(e)) ==> (e@.data.source is Filtered ==> {
                let f = e@.data.source->Filtered_0;
                &&& filter_registry.has_filter(f.filter_name)
                &&& forall|j: int|
                    0 <= j < f.input_names.len() ==> manifest@.assets.contains_key(
                        #[trigger] f.input_names[j],
                    ) && final(cache_manifest)@.contains_key(f.input_names[j])
            }),
            r matches Ok(Some(_)) ==> {
                let newops = final(disk).log_entries().skip(
                    old(disk).log_entries().len() as int,
                );
                &&& (old(disk)@.contains_key(
                    join_view(config.internal_directory_path@, self@.path),
                ) ==> crate::disk::removed_in(
                    newops,
                    join_view(config.internal_directory_path@, self@.path),
                ))
                &&& (old(disk)@.contains_key(
                    join_view(config.target_directory_path@, self@.path),
                ) ==> crate::disk::removed_in(
                    newops,
                    join_view(config.target_directory_path@, self@.path),
                ))
            },
            (self@.data.source is File && entry_fresh(
                self@,
                manifest@,
                config.source_directory_path@,
                config.internal_directory_path@,
                old(disk)@,
            )) ==> r matches Ok(None),
            r matches Ok(None) ==> exists|sc: Set<Seq<char>>|
                deps_fresh(
                    sc,
                    old(cache_manifest)@,
                    manifest@,
                    config.source_directory_path@,
                    config.internal_directory_path@,
                    old(disk)@,
                ) && (match self@.data.source {
                    AssetSourceView::Filtered(f) => forall|j: int|
                        0 <= j < f.input_names.len() ==> sc.contains(
                            #[trigger] f.input_names[j],
                        ),
                    _ => true,
                }),
            (deps_fresh(
                scope,
                old(cache_manifest)@,
                manifest@,
                config.source_directory_path@,
                config.internal_directory_path@,
                old(disk)@,
            ) && deps_ranked(scope, rank, old(cache_manifest)@) && scope.contains(self@.name)
                && old(cache_manifest)@[self@.name] == self@ && fuel > rank[self@.name])
                ==> r matches Ok(None),
        decreases fuel, 1int,
    {
        let ghost p2h: bool = deps_fresh(
            scope,
            old(cache_manifest)@,
            manifest@,
            config.source_directory_path@,
            config.internal_directory_path@,
            old(disk)@,
        ) && deps_ranked(scope, rank, old(cache_manifest)@) && scope.contains(self@.name)
            && old(cache_manifest)@[self@.name] == self@ && fuel > rank[self@.name];
        let new_data = match manifest.assets.get(self.name.as_str()) {
            Some(d) => d.clone(),
            None => {
                return Err(
                    AssetError::new(
                        AssetErrorType::AssetNotFoundInManifestError(self.name.clone()),
                    ),
                );
            },
        };
        let full_path = join_path(config.internal_directory_path.as_str(), self.path.as_str());
        let ghost mut fresh_wit: Set<Seq<char>> = Set::empty();
        proof {
            assert(deps_fresh(
                fresh_wit,
                old(cache_manifest)@,
                manifest@,
                config.source_directory_path@,
                config.internal_directory_path@,
                old(disk)@,
            ));
        }
        let need_update: bool;
        if !data_eq(&new_data, &self.data) || !disk.has_file(full_path.as_str()) {
            need_update = true;
        } else {
            match &self.data.source {
                AssetSource::File(path) => {
                    let source_full_path = join_path(
                        config.source_directory_path.as_str(),
                        path.as_str(),
                    );
                    let current_hash = match disk.read(source_full_path.as_str()) {
                        Some(b) => blake3_digest(b),
                        None => {
                            return Err(
                                AssetError::new(AssetErrorType::IOError(source_full_path)),
                            );
                        },
                    };
                    need_update = match &self.file_hash {
                        Some(recorded) => !hash_eq(&current_hash, recorded),
                        None => true,
                    };
                },
                AssetSource::Filtered(filtered) => {
                    if fuel == 0 {
                        return Err(
                            AssetError::new(
                                AssetErrorType::AssetRecursionLimitError(self.name.clone()),
                            ),
                        );
                    }
                    let mut has_updated_inputs = false;
                    let mut i: usize = 0;
                    while i < filtered.input_names.len() && !has_updated_inputs
                        invariant
                            0 <= i <= filtered.input_names.len(),
                            fuel >= 1,
                            cache_manifest.wf(),
                            p2h ==> !has_updated_inputs,
                            !has_updated_inputs ==> deps_fresh(
                                fresh_wit,
                                old(cache_manifest)@,
                                manifest@,
                                config.source_directory_path@,
                                config.internal_directory_path@,
                                old(disk)@,
                            ) && (forall|j: int|
                                0 <= j < i ==> fresh_wit.contains(
                                    #[trigger] filtered.input_names@[j]@,
                                )),
                            !has_updated_inputs ==> cache_manifest@ == old(cache_manifest)@
                                && disk@ == old(disk)@ && disk.log_entries() == old(
                                disk,
                            ).log_entries(),
                            engine_frame(
                                old(cache_manifest)@,
                                cache_manifest@,
                                manifest@,
                                config.internal_directory_path@,
                                config.target_directory_path@,
                                old(disk)@,
                                disk@,
                            ),
                            crate::disk::journal_faithful(*old(disk), *disk),
                        decreases filtered.input_names.len() - i,
                    {
                        proof {
                            if p2h {
                                assert(old(cache_manifest)@[self@.name].data.source
                                    == self@.data.source);
                                assert(self@.data.source->Filtered_0.input_names[i as int]
                                    == filtered.input_names@[i as int]@);
                                assert(rank[filtered.input_names@[i as int]@] < rank[self@.name]);
                            }
                        }
                        let input_result = cache_manifest.process_fuel(
                            &filtered.input_names[i],
                            config,
                            manifest,
                            filter_registry,
                            disk,
                            fuel - 1,
                            Ghost(scope),
                            Ghost(rank),
                        );
                        match input_result {
                            Ok((_, changed)) => {
                                if changed {
                                    has_updated_inputs = true;
                                } else {
                                    proof {
                                        let sc_j = choose|sc: Set<Seq<char>>|
                                            sc.contains(filtered.input_names@[i as int]@)
                                                && deps_fresh(
                                                sc,
                                                old(cache_manifest)@,
                                                manifest@,
                                                config.source_directory_path@,
                                                config.internal_directory_path@,
                                                old(disk)@,
                                            );
                                        lemma_deps_fresh_union(
                                            fresh_wit,
                                            sc_j,
                                            old(cache_manifest)@,
                                            manifest@,
                                            config.source_directory_path@,
                                            config.internal_directory_path@,
                                            old(disk)@,
                                        );
                                        fresh_wit = fresh_wit.union(sc_j);
                                    }
                                }
                            },
                            Err(e) => {
                                return Err(e);
                            },
                        }
                        i += 1;
                    }
                    need_update = has_updated_inputs;
                },
            }
        }
        if need_update {
            let ghost cache_mid = cache_manifest@;
            let ghost dmid = *disk;
            if disk.has_file(full_path.as_str()) {
                let ghost dpre = *disk;
                disk.remove(full_path.as_str());
                proof {
                    crate::paths::lemma_join_under_dir(
                        config.internal_directory_path@,
                        self.path@,
                    );
                    assert(disk.log_entries().skip(dpre.log_entries().len() as int)
                        =~= seq![disk.log_entries().last()]);
                    crate::disk::lemma_apply_single(dpre@, disk.log_entries().last());
                    crate::disk::lemma_journal_faithful_trans(dmid, dpre, *disk);
                }
            }
            let target_full_path = join_path(
                config.target_directory_path.as_str(),
                self.path.as_str(),
            );
            if disk.has_file(target_full_path.as_str()) {
                let ghost dpre = *disk;
                disk.remove(target_full_path.as_str());
                proof {
                    crate::paths::lemma_join_under_dir(
                        config.target_directory_path@,
                        self.path@,
                    );
                    assert(disk.log_entries().skip(dpre.log_entries().len() as int)
                        =~= seq![disk.log_entries().last()]);
                    crate::disk::lemma_apply_single(dpre@, disk.log_entries().last());
                    crate::disk::lemma_journal_faithful_trans(dmid, dpre, *disk);
                }
            }
            proof {
                crate::disk::lemma_journal_faithful_trans(*old(disk), dmid, *disk);
                lemma_engine_frame_trans(
                    old(cache_manifest)@,
                    cache_mid,
                    cache_manifest@,
                    manifest@,
                    config.internal_directory_path@,
                    config.target_directory_path@,
                    old(disk)@,
                    dmid@,
                    disk@,
                );
            }
            let ghost cache_pre = cache_manifest@;
            let ghost dpre = *disk;
            let created = AssetCacheEntry::create_fuel(
                &self.name,
                config,
                manifest,
                cache_manifest,
                filter_registry,
                disk,
                fuel,
                Ghost(scope),
                Ghost(rank),
            );
            proof {
                lemma_engine_frame_trans(
                    old(cache_manifest)@,
                    cache_pre,
                    cache_manifest@,
                    manifest@,
                    config.internal_directory_path@,
                    config.target_directory_path@,
                    old(disk)@,
                    dpre@,
                    disk@,
                );
                crate::disk::lemma_journal_faithful_trans(*old(disk), dpre, *disk);
                let oldlen = old(disk).log_entries().len() as int;
                let ikey = join_view(config.internal_directory_path@, self.path@);
                let tkey = join_view(config.target_directory_path@, self.path@);
                let suffix_mid = dpre.log_entries().skip(oldlen);
                let suffix_fin = disk.log_entries().skip(oldlen);
                assert forall|x: int| 0 <= x < suffix_mid.len() implies suffix_fin[x]
                    == suffix_mid[x] by {
                    assert(suffix_mid[x] == dpre.log_entries()[oldlen + x]);
                    assert(suffix_fin[x] == disk.log_entries()[oldlen + x]);
                }
                if old(disk)@.contains_key(ikey) {
                    assert(!dpre@.contains_key(ikey));
                    crate::disk::lemma_apply_ops_removed(old(disk)@, suffix_mid, ikey);
                    crate::disk::lemma_removed_in_extends(suffix_mid, suffix_fin, ikey);
                }
                if old(disk)@.contains_key(tkey) {
                    assert(!dpre@.contains_key(tkey));
                    crate::disk::lemma_apply_ops_removed(old(disk)@, suffix_mid, tkey);
                    crate::disk::lemma_removed_in_extends(suffix_mid, suffix_fin, tkey);
                }
            }
            match created {
                Ok(e) => Ok(Some(e)),
                Err(e) => Err(e),
            }
        } else {
            proof {
                if self@.data.source is Filtered {
                    let f = self@.data.source->Filtered_0;
                    assert forall|j: int| 0 <= j < f.input_names.len() implies fresh_wit.contains(
                        #[trigger] f.input_names[j],
                    ) by {
                        match &self.data.source {
                            AssetSource::Filtered(filtered) => {
                                assert(f.input_names[j] == filtered.input_names@[j]@);
                            },
                            _ => {},
                        }
                    }
                }
            }
            Ok(None)
        }
    }
}

impl AssetCacheEntry {
    /// Builds the asset `name` afresh and returns the new entry without
    /// installing it: a fresh uniquely named output path is allocated,
    /// checked for safety, and the artifact is materialized under the
    /// internal directory, with the inputs of a filtered source processed
    /// first. A file-sourced asset whose source is present and whose path
    /// composition is safe for every identifier always builds; a name
    /// absent from the manifest, or a composition that escapes for every
    /// identifier, yields exactly its error and changes nothing.
    pub fn create<E, F>(
        name: String,
        config: &AssetConfig,
        manifest: &AssetManifest,
        cache_manifest: &mut AssetCacheManifestV1,
        filter_registry: &AssetFilterRegistry<E, F>,
        disk: &mut Disk,
    ) -> (r: AssetResult<AssetCacheEntry, E>) where E: AssetFilterError, F: AssetFilter<E>
        requires
            old(cache_manifest).wf(),
        ensures
            final(cache_manifest).wf(),
            engine_frame(
                old(cache_manifest)@,
                final(cache_manifest)@,
                manifest@,
                config.internal_directory_path@,
                config.target_directory_path@,
                old(disk)@,
                final(disk)@,
            ),
            crate::disk::journal_faithful(*old(disk), *final(disk)),
            match r {
                Ok(e) => {
                    &&& built_entry(e@, name@, manifest@)
                    &&& final(disk)@.contains_key(
                        join_view(config.internal_directory_path@, e@.path),
                    )
                    &&& match e@.data.source {
                        AssetSourceView::File(p) => {
                            &&& final(disk)@.contains_key(
                                join_view(config.source_directory_path@, p),
                            )
                            &&& final(disk)@[join_view(config.internal_directory_path@, e@.path)]
                                == final(disk)@[join_view(config.source_directory_path@, p)]
                            &&& e@.file_hash == Some(
                                blake3_of(
                                    final(disk)@[join_view(config.source_directory_path@, p)],
                                ),
                            )
                        },
                        AssetSourceView::Filtered(_) => e@.file_hash is None,
                    }
                },
                Err(err) => match err.error_type {
                    AssetErrorType::AssetNotFoundInManifestError(n) => !manifest@.assets.contains_key(
                        n@,
                    ),
                    AssetErrorType::AssetPathError(p) => !path_is_safe(p@),
                    _ => true,
                },
            },
            !manifest@.assets.contains_key(name@) ==> (r matches Err(err)
                && err.error_type matches AssetErrorType::AssetNotFoundInManifestError(n)
                && n@ == name@) && final(cache_manifest)@ == old(cache_manifest)@
                && final(disk)@ == old(disk)@,
            (manifest@.assets.contains_key(name@) && output_paths_escape(
                manifest@.assets[name@].output_base_path,
                name@,
                manifest@.assets[name@].extension,
            )) ==> (r matches Err(err)
                && err.error_type matches AssetErrorType::AssetPathError(p)
                && !path_is_safe(p@)) && final(cache_manifest)@ == old(cache_manifest)@
                && final(disk)@ == old(disk)@,
            (manifest@.assets.contains_key(name@) && manifest@.assets[name@].source is File
                && old(disk)@.contains_key(
                join_view(
                    config.source_directory_path@,
                    manifest@.assets[name@].source->File_0,
                ),
            ) && output_paths_safe(
                manifest@.assets[name@].output_base_path,
                name@,
                manifest@.assets[name@].extension,
            )) ==> r is Ok,
            (r is Ok && manifest@.assets[name@].source is Filtered) ==> {
                let f = manifest@.assets[name@].source->Filtered_0;
                &&& filter_registry.has_filter(f.filter_name)
                &&& forall|j: int|
                    0 <= j < f.input_names.len() ==> manifest@.assets.contains_key(
                        #[trigger] f.input_names[j],
                    ) && final(cache_manifest)@.contains_key(f.input_names[j])
            },
            (manifest@.assets.contains_key(name@) && manifest@.assets[name@].source is File)
                ==> match r {
                Ok(e) => {
                    let src = join_view(
                        config.source_directory_path@,
                        manifest@.assets[name@].source->File_0,
                    );
                    &&& old(disk)@.contains_key(src)
                    &&& final(disk)@ == old(disk)@.insert(
                        join_view(config.internal_directory_path@, e@.path),
                        old(disk)@[src],
                    )
                    &&& final(cache_manifest)@ == old(cache_manifest)@
                },
                Err(err) => {
                    let src = join_view(
                        config.source_directory_path@,
                        manifest@.assets[name@].source->File_0,
                    );
                    &&& final(disk)@ == old(disk)@
                    &&& final(cache_manifest)@ == old(cache_manifest)@
                    &&& match err.error_type {
                        AssetErrorType::AssetPathError(_) => true,
                        AssetErrorType::IOError(io) => io@ == src && !old(disk)@.contains_key(
                            src,
                        ),
                        _ => false,
                    }
                },
            },
    {
        let fuel = cache_manifest.fuel_for(manifest);
        AssetCacheEntry::create_fuel(
            &name,
            config,
            manifest,
            cache_manifest,
            filter_registry,
            disk,
            fuel,
            Ghost(arbitrary()),
            Ghost(arbitrary()),
        )
    }

    /// Decides whether this entry is still fresh; if not, deletes its old
    /// internal and target artifacts and rebuilds it. `Ok(None)` means the
    /// entry is unchanged; `Ok(Some(e))` is the freshly built replacement,
    /// not yet installed.
    pub fn update<E, F>(
        &self,
        config: &AssetConfig,
        manifest: &AssetManifest,
        cache_manifest: &mut AssetCacheManifestV1,
        filter_registry: &AssetFilterRegistry<E, F>,
        disk: &mut Disk,
    ) -> (r: AssetResult<Option<AssetCacheEntry>, E>) where E: AssetFilterError, F: AssetFilter<E>
        requires
            old(cache_manifest).wf(),
        ensures
            final(cache_manifest).wf(),
            engine_frame(
                old(cache_manifest)@,
                final(cache_manifest)@,
                manifest@,
                config.internal_directory_path@,
                config.target_directory_path@,
                old(disk)@,
                final(disk)@,
            ),
            crate::disk::journal_faithful(*old(disk), *final(disk)),
            match r {
                Ok(None) => {
                    &&& final(cache_manifest)@ == old(cache_manifest)@
                    &&& final(disk)@ == old(disk)@
                    &&& final(disk).log_entries() == old(disk).log_entries()
                    &&& entry_fresh(
                        self@,
                        manifest@,
                        config.source_directory_path@,
                        config.internal_directory_path@,
                        old(disk)@,
                    )
                },
                Ok(Some(e)) => {
                    &&& built_entry(e@, self@.name, manifest@)
                    &&& final(disk)@.contains_key(
                        join_view(config.internal_directory_path@, e@.path),
                    )
                    &&& match e@.data.source {
                        AssetSourceView::File(p) => {
                            &&& final(disk)@.contains_key(
                                join_view(config.source_directory_path@, p),
                            )
                            &&& final(disk)@[join_view(config.internal_directory_path@, e@.path)]
                                == final(disk)@[join_view(config.source_directory_path@, p)]
                            &&& e@.file_hash == Some(
                                blake3_of(
                                    final(disk)@[join_view(config.source_directory_path@, p)],
                                ),
                            )
                        },
                        AssetSourceView::Filtered(_) => e@.file_hash is None,
                    }
                },
                Err(err) => match err.error_type {
                    AssetErrorType::AssetNotFoundInManifestError(n) => !manifest@.assets.contains_key(
                        n@,
                    ),
                    AssetErrorType::AssetPathError(p) => !path_is_safe(p@),
                    _ => true,
                },
            },
            (self@.data.source is File && entry_fresh(
                self@,
                manifest@,
                config.source_directory_path@,
                config.internal_directory_path@,
                old(disk)@,
            )) ==> r matches Ok(None),
            r matches Ok(None) ==> exists|sc: Set<Seq<char>>|
                deps_fresh(
                    sc,
                    old(cache_manifest)@,
                    manifest@,
                    config.source_directory_path@,
                    config.internal_directory_path@,
                    old(disk)@,
                ) && (match self@.data.source {
                    AssetSourceView::Filtered(f) => forall|j: int|
                        0 <= j < f.input_names.len() ==> sc.contains(
                            #[trigger] f.input_names[j],
                        ),
                    _ => true,
                }),
            !manifest@.assets.contains_key(self@.name) ==> (r matches Err(err)
                && err.error_type matches AssetErrorType::AssetNotFoundInManifestError(n)
                && n@ == self@.name) && final(cache_manifest)@ == old(cache_manifest)@
                && final(disk)@ == old(disk)@,
            (manifest@.assets.contains_key(self@.name)
                && manifest@.assets[self@.name].source is File && old(disk)@.contains_key(
                join_view(
                    config.source_directory_path@,
                    manifest@.assets[self@.name].source->File_0,
                ),
            ) && !under_dir(
                join_view(
                    config.source_directory_path@,
                    manifest@.assets[self@.name].source->File_0,
                ),
                config.internal_directory_path@,
            ) && !under_dir(
                join_view(
                    config.source_directory_path@,
                    manifest@.assets[self@.name].source->File_0,
                ),
                config.target_directory_path@,
            ) && output_paths_safe(
                manifest@.assets[self@.name].output_base_path,
                self@.name,
                manifest@.assets[self@.name].extension,
            )) ==> r is Ok,
            (manifest@.assets.contains_key(self@.name) && (manifest@.assets[self@.name]
                != self@.data || !old(disk)@.contains_key(
                join_view(config.internal_directory_path@, self@.path),
            )) && output_paths_escape(
                manifest@.assets[self@.name].output_base_path,
                self@.name,
                manifest@.assets[self@.name].extension,
            )) ==> (r matches Err(err)
                && err.error_type matches AssetErrorType::AssetPathError(p)
                && !path_is_safe(p@)),
            r matches Ok(Some(e)) ==> (e@.data.source is Filtered ==> {
                let f = e@.data.source->Filtered_0;
                &&& filter_registry.has_filter(f.filter_name)
                &&& forall|j: int|
                    0 <= j < f.input_names.len() ==> manifest@.assets.contains_key(
                        #[trigger] f.input_names[j],
                    ) && final(cache_manifest)@.contains_key(f.input_names[j])
            }),
            r matches Ok(Some(_)) ==> {
                let newops = final(disk).log_entries().skip(
                    old(disk).log_entries().len() as int,
                );
                &&& (old(disk)@.contains_key(
                    join_view(config.internal_directory_path@, self@.path),
                ) ==> crate::disk::removed_in(
                    newops,
                    join_view(config.internal_directory_path@, self@.path),
                ))
                &&& (old(disk)@.contains_key(
                    join_view(config.target_directory_path@, self@.path),
                ) ==> crate::disk::removed_in(
                    newops,
                    join_view(config.target_directory_path@, self@.path),
                ))
            },
            (old(cache_manifest)@[self@.name] == self@ && (exists|
                sc: Set<Seq<char>>,
                rank: Map<Seq<char>, int>,
            |
                deps_fresh(
                    sc,
                    old(cache_manifest)@,
                    manifest@,
                    config.source_directory_path@,
                    config.internal_directory_path@,
                    old(disk)@,
                ) && deps_ranked(sc, rank, old(cache_manifest)@) && sc.contains(self@.name)))
                ==> r matches Ok(None),
    {
        let ghost hyp: bool = exists|sc: Set<Seq<char>>, rk: Map<Seq<char>, int>|
            deps_fresh(
                sc,
                old(cache_manifest)@,
                manifest@,
                config.source_directory_path@,
                config.internal_directory_path@,
                old(disk)@,
            ) && deps_ranked(sc, rk, old(cache_manifest)@) && sc.contains(self@.name);
        let ghost (scope, rank): (Set<Seq<char>>, Map<Seq<char>, int>) = if hyp {
            choose|sc: Set<Seq<char>>, rk: Map<Seq<char>, int>|
                deps_fresh(
                    sc,
                    old(cache_manifest)@,
                    manifest@,
                    config.source_directory_path@,
                    config.internal_directory_path@,
                    old(disk)@,
                ) && deps_ranked(sc, rk, old(cache_manifest)@) && sc.contains(self@.name)
        } else {
            arbitrary()
        };
        let fuel = cache_manifest.fuel_for(manifest);
        proof {
            if hyp {
                assert(deps_ranked(scope, rank, old(cache_manifest)@));
                assert(rank[self@.name] < old(cache_manifest)@.len());
                assert(fuel > rank[self@.name]);
            }
        }
        self.update_fuel(
            config,
            manifest,
            cache_manifest,
            filter_registry,
            disk,
            fuel,
            Ghost(scope),
            Ghost(rank),
        )
    }
}

impl AssetCacheManifestV1 {
    /// Resolves `name` against the cache: updates the cached entry or
    /// creates a missing one, installs the result, and reports whether
    /// anything was rebuilt during this call.
    fn process_fuel<E, F>(
        &mut self,
        name: &String,
        config: &AssetConfig,
        manifest: &AssetManifest,
        filter_registry: &AssetFilterRegistry<E, F>,
        disk: &mut Disk,
        fuel: u64,
        Ghost(scope): Ghost<Set<Seq<char>>>,
        Ghost(rank): Ghost<Map<Seq<char>, int>>,
    ) -> (r: AssetResult<(AssetCacheEntry, bool), E>) where E: AssetFilterError, F: AssetFilter<E>
        requires
            old(self).wf(),
        ensures
            final(self).wf(),
            engine_frame(
                old(self)@,
                final(self)@,
                manifest@,
                config.internal_directory_path@,
                config.target_directory_path@,
                old(disk)@,
                final(disk)@,
            ),
            crate::disk::journal_faithful(*old(disk), *final(disk)),
            match r {
                Ok((entry, changed)) => {
                    &&& final(self)@.contains_key(name@)
                    &&& final(self)@[name@] == entry@
                    &&& entry@.name == name@
                    &&& final(disk)@.contains_key(
                        join_view(config.internal_directory_path@, entry@.path),
                    )
                    &&& (changed == false ==> {
                        &&& final(self)@ == old(self)@
                        &&& final(disk)@ == old(disk)@
                        &&& final(disk).log_entries() == old(disk).log_entries()
                        &&& old(self)@.contains_key(name@)
                        &&& entry@ == old(self)@[name@]
                        &&& entry_fresh(
                            entry@,
                            manifest@,
                            config.source_directory_path@,
                            config.internal_directory_path@,
                            old(disk)@,
                        )
                        &&& exists|sc: Set<Seq<char>>|
                            sc.contains(name@) && deps_fresh(
                                sc,
                                old(self)@,
                                manifest@,
                                config.source_directory_path@,
                                config.internal_directory_path@,
                                old(disk)@,
                            )
                    })
                    &&& (changed == true ==> built_entry(entry@, name@, manifest@) && (match entry@.data.source {
                        AssetSourceView::File(p) => {
                            &&& final(disk)@.contains_key(
                                join_view(config.source_directory_path@, p),
                            )
                            &&& final(disk)@[join_view(
                                config.internal_directory_path@,
                                entry@.path,
                            )] == final(disk)@[join_view(config.source_directory_path@, p)]
                            &&& entry@.file_hash == Some(
                                blake3_of(
                                    final(disk)@[join_view(config.source_directory_path@, p)],
                                ),
                            )
                        },
                        AssetSourceView::Filtered(_) => entry@.file_hash is None,
                    }))
                    &&& (changed == true && entry@.data.source is Filtered ==> {
                        let f = entry@.data.source->Filtered_0;
                        &&& filter_registry.has_filter(f.filter_name)
                        &&& forall|j: int|
                            0 <= j < f.input_names.len() ==> manifest@.assets.contains_key(
                                #[trigger] f.input_names[j],
                            ) && final(self)@.contains_key(f.input_names[j])
                    })
                    &&& (changed == true && old(self)@.contains_key(name@) ==> {
                        let oldpath = old(self)@[name@].path;
                        let newops = final(disk).log_entries().skip(
                            old(disk).log_entries().len() as int,
                        );
                        &&& (old(disk)@.contains_key(
                            join_view(config.internal_directory_path@, oldpath),
                        ) ==> crate::disk::removed_in(
                            newops,
                            join_view(config.internal_directory_path@, oldpath),
                        ))
                        &&& (old(disk)@.contains_key(
                            join_view(config.target_directory_path@, oldpath),
                        ) ==> crate::disk::removed_in(
                            newops,
                            join_view(config.target_directory_path@, oldpath),
                        ))
                    })
                },
                Err(err) => match err.error_type {
                    AssetErrorType::AssetNotFoundInManifestError(n) => !manifest@.assets.contains_key(
                        n@,
                    ),
                    AssetErrorType::AssetPathError(p) => !path_is_safe(p@),
                    _ => true,
                },
            },
            !manifest@.assets.contains_key(name@) ==> (r matches Err(err)
                && err.error_type matches AssetErrorType::AssetNotFoundInManifestError(n)
                && n@ == name@),
            (manifest@.assets.contains_key(name@) && manifest@.assets[name@].source is File
                && old(disk)@.contains_key(
                join_view(
                    config.source_directory_path@,
                    manifest@.assets[name@].source->File_0,
                ),
            ) && !under_dir(
                join_view(
                    config.source_directory_path@,
                    manifest@.assets[name@].source->File_0,
                ),
                config.internal_directory_path@,
            ) && !under_dir(
                join_view(
                    config.source_directory_path@,
                    manifest@.assets[name@].source->File_0,
                ),
                config.target_directory_path@,
            ) && output_paths_safe(
                manifest@.assets[name@].output_base_path,
                name@,
                manifest@.assets[name@].extension,
            )) ==> r is Ok,
            (manifest@.assets.contains_key(name@) && !old(self)@.contains_key(name@)
                && output_paths_escape(
                manifest@.assets[name@].output_base_path,
                name@,
                manifest@.assets[name@].extension,
            )) ==> (r matches Err(err)
                && err.error_type matches AssetErrorType::AssetPathError(p)
                && !path_is_safe(p@)),
            (manifest@.assets.contains_key(name@) && old(self)@.contains_key(name@) && (
            manifest@.assets[name@] != old(self)@[name@].data || !old(disk)@.contains_key(
                join_view(config.internal_directory_path@, old(self)@[name@].path),
            )) && output_paths_escape(
                manifest@.assets[name@].output_base_path,
                name@,
                manifest@.assets[name@].extension,
            )) ==> (r matches Err(err)
                && err.error_type matches AssetErrorType::AssetPathError(p)
                && !path_is_safe(p@)),
            (old(self)@.contains_key(name@) && old(self)@[name@].data.source is File
                && entry_fresh(
                old(self)@[name@],
                manifest@,
                config.source_directory_path@,
                config.internal_directory_path@,
                old(disk)@,
            )) ==> r matches Ok((_, false)),
            (deps_fresh(
                scope,
                old(self)@,
                manifest@,
                config.source_directory_path@,
                config.internal_directory_path@,
                old(disk)@,
            ) && deps_ranked(scope, rank, old(self)@) && scope.contains(name@)
                && fuel > rank[name@]) ==> r matches Ok((_, false)),
        decreases fuel, 2int,
    {
        let entry_opt = self.get_entry(name.as_str());
        match entry_opt {
            Some(cache_entry) => {
                let updated = cache_entry.update_fuel(
                    config,
                    manifest,
                    self,
                    filter_registry,
                    disk,
                    fuel,
                    Ghost(scope),
                    Ghost(rank),
                );
                match updated {
                    Ok(Some(new_entry)) => {
                        let ghost cache_pre = self@;
                        let installed = new_entry.clone();
                        self.insert_entry(installed);
                        proof {
                            assert(engine_frame(
                                cache_pre,
                                self@,
                                manifest@,
                                config.internal_directory_path@,
                                config.target_directory_path@,
                                disk@,
                                disk@,
                            ));
                            lemma_engine_frame_trans(
                                old(self)@,
                                cache_pre,
                                self@,
                                manifest@,
                                config.internal_directory_path@,
                                config.target_directory_path@,
                                old(disk)@,
                                disk@,
                                disk@,
                            );
                        }
                        Ok((new_entry, true))
                    },
                    Ok(None) => {
                        proof {
                            let sc0 = choose|sc: Set<Seq<char>>|
                                deps_fresh(
                                    sc,
                                    old(self)@,
                                    manifest@,
                                    config.source_directory_path@,
                                    config.internal_directory_path@,
                                    old(disk)@,
                                ) && (match cache_entry@.data.source {
                                    AssetSourceView::Filtered(f) => forall|j: int|
                                        0 <= j < f.input_names.len() ==> sc.contains(
                                            #[trigger] f.input_names[j],
                                        ),
                                    _ => true,
                                });
                            let sc1 = sc0.insert(name@);
                            assert forall|k: Seq<char>| #[trigger] sc1.contains(k) implies {
                                &&& old(self)@.contains_key(k)
                                &&& old(self)@[k].name == k
                                &&& entry_fresh(
                                    old(self)@[k],
                                    manifest@,
                                    config.source_directory_path@,
                                    config.internal_directory_path@,
                                    old(disk)@,
                                )
                                &&& match old(self)@[k].data.source {
                                    AssetSourceView::Filtered(f) => forall|j: int|
                                        0 <= j < f.input_names.len() ==> sc1.contains(
                                            #[trigger] f.input_names[j],
                                        ),
                                    _ => true,
                                }
                            } by {
                                if k == name@ {
                                    assert(old(self)@[k] == cache_entry@);
                                } else {
                                    assert(sc0.contains(k));
                                }
                            }
                            assert(sc1.contains(name@) && deps_fresh(
                                sc1,
                                old(self)@,
                                manifest@,
                                config.source_directory_path@,
                                config.internal_directory_path@,
                                old(disk)@,
                            ));
                        }
                        Ok((cache_entry, false))
                    },
                    Err(e) => Err(e),
                }
            },
            None => {
                let created = AssetCacheEntry::create_fuel(
                    name,
                    config,
                    manifest,
                    self,
                    filter_registry,
                    disk,
                    fuel,
                    Ghost(scope),
                    Ghost(rank),
                );
                match created {
                    Ok(entry) => {
                        let ghost cache_pre = self@;
                        let installed = entry.clone();
                        self.insert_entry(installed);
                        proof {
                            assert(engine_frame(
                                cache_pre,
                                self@,
                                manifest@,
                                config.internal_directory_path@,
                                config.target_directory_path@,
                                disk@,
                                disk@,
                            ));
                            lemma_engine_frame_trans(
                                old(self)@,
                                cache_pre,
                                self@,
                                manifest@,
                                config.internal_directory_path@,
                                config.target_directory_path@,
                                old(disk)@,
                                disk@,
                                disk@,
                            );
                        }
                        Ok((entry, true))
                    },
                    Err(e) => Err(e),
                }
            },
        }
    }
}

impl AssetCacheManifestV1 {
    /// A recursion budget no acyclic dependency chain through this cache
    /// and manifest can exhaust.
    fn fuel_for(&self, manifest: &AssetManifest) -> (f: u64)
        ensures
            f == u64::MAX || f > self@.len(),
            self@.len() <= u64::MAX,
    {
        let a = self.len() as u64;
        let b = manifest.assets.len() as u64;
        if a < 0x4000_0000_0000_0000u64 && b < 0x4000_0000_0000_0000u64 {
            a + b + 2
        } else {
            u64::MAX
        }
    }

    /// Resolves `name` against the cache: updates the cached entry or
    /// creates a missing one, installs the result, and reports whether
    /// anything was rebuilt during this call. An asset is reported
    /// unchanged exactly when a fresh, acyclic dependency closure backs
    /// it, and then nothing is touched; a rebuild journals the removal of
    /// the stale artifacts. A file-sourced asset with its source present
    /// and a safe path composition always succeeds.
    pub fn process<E, F>(
        &mut self,
        name: String,
        config: &AssetConfig,
        manifest: &AssetManifest,
        filter_registry: &AssetFilterRegistry<E, F>,
        disk: &mut Disk,
    ) -> (r: AssetResult<(AssetCacheEntry, bool), E>) where E: AssetFilterError, F: AssetFilter<
        E,
    >
        requires
            old(self).wf(),
        ensures
            final(self).wf(),
            engine_frame(
                old(self)@,
                final(self)@,
                manifest@,
                config.internal_directory_path@,
                config.target_directory_path@,
                old(disk)@,
                final(disk)@,
            ),
            crate::disk::journal_faithful(*old(disk), *final(disk)),
            match r {
                Ok((entry, changed)) => {
                    &&& final(self)@.contains_key(name@)
                    &&& final(self)@[name@] == entry@
                    &&& entry@.name == name@
                    &&& final(disk)@.contains_key(
                        join_view(config.internal_directory_path@, entry@.path),
                    )
                    &&& (changed == false ==> {
                        &&& final(self)@ == old(self)@
                        &&& final(disk)@ == old(disk)@
                        &&& final(disk).log_entries() == old(disk).log_entries()
                        &&& old(self)@.contains_key(name@)
                        &&& entry@ == old(self)@[name@]
                        &&& entry_fresh(
                            entry@,
                            manifest@,
                            config.source_directory_path@,
                            config.internal_directory_path@,
                            old(disk)@,
                        )
                        &&& exists|sc: Set<Seq<char>>|
                            sc.contains(name@) && deps_fresh(
                                sc,
                                old(self)@,
                                manifest@,
                                config.source_directory_path@,
                                config.internal_directory_path@,
                                old(disk)@,
                            )
                    })
                    &&& (changed == true ==> built_entry(entry@, name@, manifest@) && (match entry@.data.source {
                        AssetSourceView::File(p) => {
                            &&& final(disk)@.contains_key(
                                join_view(config.source_directory_path@, p),
                            )
                            &&& final(disk)@[join_view(
                                config.internal_directory_path@,
                                entry@.path,
                            )] == final(disk)@[join_view(config.source_directory_path@, p)]
                            &&& entry@.file_hash == Some(
                                blake3_of(
                                    final(disk)@[join_view(config.source_directory_path@, p)],
                                ),
                            )
                        },
                        AssetSourceView::Filtered(_) => entry@.file_hash is None,
                    }))
                    &&& (changed == true && entry@.data.source is Filtered ==> {
                        let f = entry@.data.source->Filtered_0;
                        &&& filter_registry.has_filter(f.filter_name)
                        &&& forall|j: int|
                            0 <= j < f.input_names.len() ==> manifest@.assets.contains_key(
                                #[trigger] f.input_names[j],
                            ) && final(self)@.contains_key(f.input_names[j])
                    })
                    &&& (changed == true && old(self)@.contains_key(name@) ==> {
                        let oldpath = old(self)@[name@].path;
                        let newops = final(disk).log_entries().skip(
                            old(disk).log_entries().len() as int,
                        );
                        &&& (old(disk)@.contains_key(
                            join_view(config.internal_directory_path@, oldpath),
                        ) ==> crate::disk::removed_in(
                            newops,
                            join_view(config.internal_directory_path@, oldpath),
                        ))
                        &&& (old(disk)@.contains_key(
                            join_view(config.target_directory_path@, oldpath),
                        ) ==> crate::disk::removed_in(
                            newops,
                            join_view(config.target_directory_path@, oldpath),
                        ))
                    })
                },
                Err(err) => match err.error_type {
                    AssetErrorType::AssetNotFoundInManifestError(n) => !manifest@.assets.contains_key(
                        n@,
                    ),
                    AssetErrorType::AssetPathError(p) => !path_is_safe(p@),
                    _ => true,
                },
            },
            !manifest@.assets.contains_key(name@) ==> (r matches Err(err)
                && err.error_type matches AssetErrorType::AssetNotFoundInManifestError(n)
                && n@ == name@),
            (manifest@.assets.contains_key(name@) && manifest@.assets[name@].source is File
                && old(disk)@.contains_key(
                join_view(
                    config.source_directory_path@,
                    manifest@.assets[name@].source->File_0,
                ),
            ) && !under_dir(
                join_view(
                    config.source_directory_path@,
                    manifest@.assets[name@].source->File_0,
                ),
                config.internal_directory_path@,
            ) && !under_dir(
                join_view(
                    config.source_directory_path@,
                    manifest@.assets[name@].source->File_0,
                ),
                config.target_directory_path@,
            ) && output_paths_safe(
                manifest@.assets[name@].output_base_path,
                name@,
                manifest@.assets[name@].extension,
            )) ==> r is Ok,
            (manifest@.assets.contains_key(name@) && !old(self)@.contains_key(name@)
                && output_paths_escape(
                manifest@.assets[name@].output_base_path,
                name@,
                manifest@.assets[name@].extension,
            )) ==> (r matches Err(err)
                && err.error_type matches AssetErrorType::AssetPathError(p)
                && !path_is_safe(p@)),
            (manifest@.assets.contains_key(name@) && old(self)@.contains_key(name@) && (
            manifest@.assets[name@] != old(self)@[name@].data || !old(disk)@.contains_key(
                join_view(config.internal_directory_path@, old(self)@[name@].path),
            )) && output_paths_escape(
                manifest@.assets[name@].output_base_path,
                name@,
                manifest@.assets[name@].extension,
            )) ==> (r matches Err(err)
                && err.error_type matches AssetErrorType::AssetPathError(p)
                && !path_is_safe(p@)),
            (old(self)@.contains_key(name@) && old(self)@[name@].data.source is File
                && entry_fresh(
                old(self)@[name@],
                manifest@,
                config.source_directory_path@,
                config.internal_directory_path@,
                old(disk)@,
            )) ==> r matches Ok((_, false)),
            (exists|sc: Set<Seq<char>>, rank: Map<Seq<char>, int>|
                deps_fresh(
                    sc,
                    old(self)@,
                    manifest@,
                    config.source_directory_path@,
                    config.internal_directory_path@,
                    old(disk)@,
                ) && deps_ranked(sc, rank, old(self)@) && sc.contains(name@)) ==> r matches Ok(
                (_, false),
            ),
    {
        let ghost hyp: bool = exists|sc: Set<Seq<char>>, rk: Map<Seq<char>, int>|
            deps_fresh(
                sc,
                old(self)@,
                manifest@,
                config.source_directory_path@,
                config.internal_directory_path@,
                old(disk)@,
            ) && deps_ranked(sc, rk, old(self)@) && sc.contains(name@);
        let ghost (scope, rank): (Set<Seq<char>>, Map<Seq<char>, int>) = if hyp {
            choose|sc: Set<Seq<char>>, rk: Map<Seq<char>, int>|
                deps_fresh(
                    sc,
                    old(self)@,
                    manifest@,
                    config.source_directory_path@,
                    config.internal_directory_path@,
                    old(disk)@,
                ) && deps_ranked(sc, rk, old(self)@) && sc.contains(name@)
        } else {
            arbitrary()
        };
        let fuel = self.fuel_for(manifest);
        proof {
            if hyp {
                assert(deps_ranked(scope, rank, old(self)@));
                assert(rank[name@] < old(self)@.len());
                assert(fuel > rank[name@]);
            }
        }
        self.process_fuel(
            &name,
            config,
            manifest,
            filter_registry,
            disk,
            fuel,
            Ghost(scope),
            Ghost(rank),
        )
    }

    /// Publishes one processed entry: checks its relative path once more
    /// and copies the artifact from the internal to the target directory.
    fn publish_entry<E>(
        entry: &AssetCacheEntry,
        config: &AssetConfig,
        disk: &mut Disk,
    ) -> (r: AssetResult<(), E>) where E: AssetFilterError
        ensures
            crate::disk::journal_faithful(*old(disk), *final(disk)),
            match r {
                Ok(_) => {
                    &&& path_is_safe(entry@.path)
                    &&& old(disk)@.contains_key(
                        join_view(config.internal_directory_path@, entry@.path),
                    )
                    &&& final(disk)@ == old(disk)@.insert(
                        join_view(config.target_directory_path@, entry@.path),
                        old(disk)@[join_view(config.internal_directory_path@, entry@.path)],
                    )
                    &&& final(disk).log_entries().len() == old(disk).log_entries().len() + 1
                    &&& match final(disk).log_entries().last() {
                        crate::disk::DiskOp::Write(tp, b) => tp@ == join_view(
                            config.target_directory_path@,
                            entry@.path,
                        ) && b@ == old(disk)@[join_view(
                            config.internal_directory_path@,
                            entry@.path,
                        )],
                        crate::disk::DiskOp::Remove(_) => false,
                    }
                },
                Err(err) => final(disk)@ == old(disk)@ && final(disk).log_entries() == old(
                    disk,
                ).log_entries() && match err.error_type {
                    AssetErrorType::AssetPathError(p) => p@ == entry@.path && !path_is_safe(
                        entry@.path,
                    ),
                    AssetErrorType::IOError(io) => {
                        &&& io@ == join_view(config.internal_directory_path@, entry@.path)
                        &&& !old(disk)@.contains_key(
                            join_view(config.internal_directory_path@, entry@.path),
                        )
                        &&& path_is_safe(entry@.path)
                    },
                    _ => false,
                },
            },
    {
        if !check_path_safety(entry.path.as_str()) {
            return Err(AssetError::new(AssetErrorType::AssetPathError(entry.path.clone())));
        }
        let source_full_path = join_path(
            config.internal_directory_path.as_str(),
            entry.path.as_str(),
        );
        let output_full_path = join_path(
            config.target_directory_path.as_str(),
            entry.path.as_str(),
        );
        let bytes = match disk.read(source_full_path.as_str()) {
            Some(b) => b.clone(),
            None => {
                return Err(AssetError::new(AssetErrorType::IOError(source_full_path)));
            },
        };
        let ghost dpre = *disk;
        disk.write(output_full_path, bytes);
        proof {
            assert(disk.log_entries().skip(dpre.log_entries().len() as int)
                =~= seq![disk.log_entries().last()]);
            crate::disk::lemma_apply_single(dpre@, disk.log_entries().last());
        }
        Ok(())
    }

    /// Processes every public asset in declaration order and copies each
    /// resulting artifact into the target directory: the journal holds one
    /// publish per asset handled, in order, of exactly the bytes then under
    /// the internal directory, and publishes made before a failure stand.
    /// When nothing needs a rebuild and the target directory already holds
    /// the published bytes, the run changes neither the cache nor the file
    /// tree.
    #[verifier::loop_isolation(false)]
    pub fn process_public_assets<E, F>(
        &mut self,
        config: &AssetConfig,
        manifest: &AssetManifest,
        filter_registry: &AssetFilterRegistry<E, F>,
        disk: &mut Disk,
    ) -> (r: AssetResult<(), E>) where E: AssetFilterError, F: AssetFilter<E>
        requires
            old(self).wf(),
        ensures
            final(self).wf(),
            engine_frame(
                old(self)@,
                final(self)@,
                manifest@,
                config.internal_directory_path@,
                config.target_directory_path@,
                old(disk)@,
                final(disk)@,
            ),
            crate::disk::journal_faithful(*old(disk), *final(disk)),
            r is Ok ==> forall|i: int|
                0 <= i < manifest@.public_assets.len() ==> final(self)@.contains_key(
                    #[trigger] manifest@.public_assets[i],
                ) && path_is_safe(final(self)@[manifest@.public_assets[i]].path),
            r is Ok ==> forall|i: int|
                0 <= i < manifest@.public_assets.len() ==> (old(self)@.contains_key(
                    #[trigger] manifest@.public_assets[i],
                ) || !output_paths_escape(
                    manifest@.assets[manifest@.public_assets[i]].output_base_path,
                    manifest@.public_assets[i],
                    manifest@.assets[manifest@.public_assets[i]].extension,
                )),
            r is Ok ==> exists|ks: Seq<int>, rels: Seq<Seq<char>>|
                published_run(
                    ks,
                    rels,
                    final(disk).log_entries().skip(old(disk).log_entries().len() as int),
                    old(disk)@,
                    manifest@,
                    final(self)@,
                    config.internal_directory_path@,
                    config.target_directory_path@,
                ),
            exists|ks: Seq<int>, rels: Seq<Seq<char>>|
                published_prefix(
                    ks,
                    rels,
                    final(disk).log_entries().skip(old(disk).log_entries().len() as int),
                    old(disk)@,
                    manifest@,
                    final(self)@,
                    config.internal_directory_path@,
                    config.target_directory_path@,
                ),
            match r {
                Ok(_) => true,
                Err(err) => match err.error_type {
                    AssetErrorType::AssetNotFoundInManifestError(n) => !manifest@.assets.contains_key(
                        n@,
                    ),
                    AssetErrorType::AssetPathError(p) => !path_is_safe(p@),
                    _ => true,
                },
            },
            (forall|ii: int|
                0 <= ii < manifest@.public_assets.len() ==> {
                    let nm = #[trigger] manifest@.public_assets[ii];
                    &&& manifest@.assets.contains_key(nm)
                    &&& manifest@.assets[nm].source is File
                    &&& old(disk)@.contains_key(
                        join_view(
                            config.source_directory_path@,
                            manifest@.assets[nm].source->File_0,
                        ),
                    )
                    &&& !under_dir(
                        join_view(
                            config.source_directory_path@,
                            manifest@.assets[nm].source->File_0,
                        ),
                        config.internal_directory_path@,
                    )
                    &&& !under_dir(
                        join_view(
                            config.source_directory_path@,
                            manifest@.assets[nm].source->File_0,
                        ),
                        config.target_directory_path@,
                    )
                    &&& output_paths_safe(
                        manifest@.assets[nm].output_base_path,
                        nm,
                        manifest@.assets[nm].extension,
                    )
                    &&& (old(self)@.contains_key(nm) ==> path_is_safe(old(self)@[nm].path))
                }) ==> r is Ok,
            ((exists|sc: Set<Seq<char>>, rank: Map<Seq<char>, int>|
                deps_fresh(
                    sc,
                    old(self)@,
                    manifest@,
                    config.source_directory_path@,
                    config.internal_directory_path@,
                    old(disk)@,
                ) && deps_ranked(sc, rank, old(self)@) && (forall|i: int|
                    0 <= i < manifest@.public_assets.len() ==> sc.contains(
                        #[trigger] manifest@.public_assets[i],
                    ))) && (forall|i: int|
                0 <= i < manifest@.public_assets.len() ==> {
                    let e = old(self)@[#[trigger] manifest@.public_assets[i]];
                    &&& path_is_safe(e.path)
                    &&& old(disk)@.contains_key(
                        join_view(config.target_directory_path@, e.path),
                    )
                    &&& old(disk)@[join_view(config.target_directory_path@, e.path)] == old(
                        disk,
                    )@[join_view(config.internal_directory_path@, e.path)]
                })) ==> (r is Ok && final(self)@ == old(self)@ && final(disk)@ == old(disk)@),
    {
        let ghost ohyp: bool = forall|ii: int|
            0 <= ii < manifest@.public_assets.len() ==> {
                let nm = #[trigger] manifest@.public_assets[ii];
                &&& manifest@.assets.contains_key(nm)
                &&& manifest@.assets[nm].source is File
                &&& old(disk)@.contains_key(
                    join_view(
                        config.source_directory_path@,
                        manifest@.assets[nm].source->File_0,
                    ),
                )
                &&& !under_dir(
                    join_view(
                        config.source_directory_path@,
                        manifest@.assets[nm].source->File_0,
                    ),
                    config.internal_directory_path@,
                )
                &&& !under_dir(
                    join_view(
                        config.source_directory_path@,
                        manifest@.assets[nm].source->File_0,
                    ),
                    config.target_directory_path@,
                )
                &&& output_paths_safe(
                    manifest@.assets[nm].output_base_path,
                    nm,
                    manifest@.assets[nm].extension,
                )
                &&& (old(self)@.contains_key(nm) ==> path_is_safe(old(self)@[nm].path))
            };
        let ghost p4h: bool = (exists|sc: Set<Seq<char>>, rank: Map<Seq<char>, int>|
            deps_fresh(
                sc,
                old(self)@,
                manifest@,
                config.source_directory_path@,
                config.internal_directory_path@,
                old(disk)@,
            ) && deps_ranked(sc, rank, old(self)@) && (forall|i: int|
                0 <= i < manifest@.public_assets.len() ==> sc.contains(
                    #[trigger] manifest@.public_assets[i],
                ))) && (forall|i: int|
            0 <= i < manifest@.public_assets.len() ==> {
                let e = old(self)@[#[trigger] manifest@.public_assets[i]];
                &&& path_is_safe(e.path)
                &&& old(disk)@.contains_key(join_view(config.target_directory_path@, e.path))
                &&& old(disk)@[join_view(config.target_directory_path@, e.path)] == old(
                    disk,
                )@[join_view(config.internal_directory_path@, e.path)]
            });
        let mut i: usize = 0;
        let ghost mut ks: Seq<int> = Seq::empty();
        let ghost mut rels: Seq<Seq<char>> = Seq::empty();
        while i < manifest.public_assets.len()
            invariant
                0 <= i <= manifest.public_assets.len(),
                self.wf(),
                engine_frame(
                    old(self)@,
                    self@,
                    manifest@,
                    config.internal_directory_path@,
                    config.target_directory_path@,
                    old(disk)@,
                    disk@,
                ),
                crate::disk::journal_faithful(*old(disk), *disk),
                forall|j: int|
                    0 <= j < i ==> self@.contains_key(#[trigger] manifest@.public_assets[j])
                        && path_is_safe(self@[manifest@.public_assets[j]].path),
                ks.len() == i && rels.len() == i,
                forall|a: int, b: int| 0 <= a < b < i ==> ks[a] < ks[b],
                forall|a: int|
                    0 <= a < i ==> published_at(
                        disk.log_entries().skip(old(disk).log_entries().len() as int),
                        #[trigger] ks[a],
                        rels[a],
                        old(disk)@,
                        config.internal_directory_path@,
                        config.target_directory_path@,
                    ),
                forall|a: int|
                    0 <= a < i ==> {
                        let nm = manifest@.public_assets[a];
                        self@[nm].path == #[trigger] rels[a] || built_entry(
                            self@[nm],
                            nm,
                            manifest@,
                        )
                    },
                p4h ==> self@ == old(self)@ && disk@ == old(disk)@,
            decreases manifest.public_assets.len() - i,
        {
            let asset_name = manifest.public_assets[i].clone();
            proof {
                assert(asset_name@ == manifest@.public_assets[i as int]);
            }
            let ghost cache_pre = self@;
            let ghost dpre = *disk;
            proof {
                if p4h {
                    let (sc0, rk0): (Set<Seq<char>>, Map<Seq<char>, int>) = choose|
                        sc: Set<Seq<char>>,
                        rk: Map<Seq<char>, int>,
                    |
                        deps_fresh(
                            sc,
                            old(self)@,
                            manifest@,
                            config.source_directory_path@,
                            config.internal_directory_path@,
                            old(disk)@,
                        ) && deps_ranked(sc, rk, old(self)@) && (forall|j: int|
                            0 <= j < manifest@.public_assets.len() ==> sc.contains(
                                #[trigger] manifest@.public_assets[j],
                            ));
                    assert(deps_fresh(
                        sc0,
                        cache_pre,
                        manifest@,
                        config.source_directory_path@,
                        config.internal_directory_path@,
                        dpre@,
                    ) && deps_ranked(sc0, rk0, cache_pre) && sc0.contains(
                        manifest@.public_assets[i as int],
                    ));
                }
            }
            let processed = self.process(
                asset_name,
                config,
                manifest,
                filter_registry,
                disk,
            );
            proof {
                lemma_engine_frame_trans(
                    old(self)@,
                    cache_pre,
                    self@,
                    manifest@,
                    config.internal_directory_path@,
                    config.target_directory_path@,
                    old(disk)@,
                    dpre@,
                    disk@,
                );
                crate::disk::lemma_journal_faithful_trans(*old(disk), dpre, *disk);
                let oldlen = old(disk).log_entries().len() as int;
                assert forall|a: int| 0 <= a < i implies published_at(
                    disk.log_entries().skip(oldlen),
                    #[trigger] ks[a],
                    rels[a],
                    old(disk)@,
                    config.internal_directory_path@,
                    config.target_directory_path@,
                ) by {
                    let prevops = dpre.log_entries().skip(oldlen);
                    let curops = disk.log_entries().skip(oldlen);
                    assert(curops.take(ks[a]) =~= prevops.take(ks[a]));
                    assert(curops[ks[a]] == prevops[ks[a]]);
                }
                assert forall|a: int| 0 <= a < i implies {
                    let nm = manifest@.public_assets[a];
                    self@[nm].path == #[trigger] rels[a] || built_entry(self@[nm], nm, manifest@)
                } by {
                    let nm = manifest@.public_assets[a];
                    if self@.contains_key(nm) && self@[nm] != cache_pre[nm] {
                        assert(built_entry(self@[nm], nm, manifest@));
                    }
                }
            }
            let (cache_entry, _changed) = match processed {
                Ok(p) => p,
                Err(e) => {
                    proof {
                        if ohyp {
                            let nm = manifest@.public_assets[i as int];
                            let src = join_view(
                                config.source_directory_path@,
                                manifest@.assets[nm].source->File_0,
                            );
                            assert(dpre@.contains_key(src));
                            assert(false);
                        }
                        assert(published_prefix(
                            ks,
                            rels,
                            disk.log_entries().skip(old(disk).log_entries().len() as int),
                            old(disk)@,
                            manifest@,
                            self@,
                            config.internal_directory_path@,
                            config.target_directory_path@,
                        ));
                    }
                    return Err(e);
                },
            };
            let ghost dmid = *disk;
            let published = AssetCacheManifestV1::publish_entry::<E>(&cache_entry, config, disk);
            proof {
                crate::paths::lemma_join_under_dir(
                    config.target_directory_path@,
                    cache_entry@.path,
                );
                assert forall|p: Seq<char>|
                    #[trigger] disk@.contains_key(p) && (!dmid@.contains_key(p) || disk@[p]
                        != dmid@[p]) implies under_dir(
                    p,
                    config.internal_directory_path@,
                ) || under_dir(p, config.target_directory_path@) by {}
                lemma_engine_frame_trans(
                    old(self)@,
                    self@,
                    self@,
                    manifest@,
                    config.internal_directory_path@,
                    config.target_directory_path@,
                    old(disk)@,
                    dmid@,
                    disk@,
                );
                crate::disk::lemma_journal_faithful_trans(*old(disk), dmid, *disk);
            }
            match published {
                Ok(_) => {},
                Err(e) => {
                    proof {
                        if ohyp {
                            let nm = manifest@.public_assets[i as int];
                            assert(self@[nm] == cache_entry@);
                            if self@.contains_key(nm) && (!old(self)@.contains_key(nm) || self@[nm]
                                != old(self)@[nm]) {
                                assert(built_entry(self@[nm], nm, manifest@));
                            }
                            assert(path_is_safe(cache_entry@.path));
                            assert(dmid@.contains_key(
                                join_view(config.internal_directory_path@, cache_entry@.path),
                            ));
                            assert(false);
                        }
                        assert(published_prefix(
                            ks,
                            rels,
                            disk.log_entries().skip(old(disk).log_entries().len() as int),
                            old(disk)@,
                            manifest@,
                            self@,
                            config.internal_directory_path@,
                            config.target_directory_path@,
                        ));
                    }
                    return Err(e);
                },
            }
            proof {
                if p4h {
                    assert(disk@ =~= dmid@);
                }
                let oldlen = old(disk).log_entries().len() as int;
                let k_new = dmid.log_entries().len() as int - oldlen;
                let curops = disk.log_entries().skip(oldlen);
                let midops = dmid.log_entries().skip(oldlen);
                assert forall|a: int| 0 <= a < i implies published_at(
                    curops,
                    #[trigger] ks[a],
                    rels[a],
                    old(disk)@,
                    config.internal_directory_path@,
                    config.target_directory_path@,
                ) by {
                    assert(curops.take(ks[a]) =~= midops.take(ks[a]));
                    assert(curops[ks[a]] == midops[ks[a]]);
                }
                assert(curops.take(k_new) =~= midops);
                assert(curops[k_new] == disk.log_entries().last());
                assert(crate::disk::apply_ops(old(disk)@, curops.take(k_new)) == dmid@);
                assert(published_at(
                    curops,
                    k_new,
                    cache_entry@.path,
                    old(disk)@,
                    config.internal_directory_path@,
                    config.target_directory_path@,
                ));
                assert(self@[manifest@.public_assets[i as int]] == cache_entry@);
                ks = ks.push(k_new);
                rels = rels.push(cache_entry@.path);
                assert forall|j: int| 0 <= j < i + 1 implies self@.contains_key(
                    #[trigger] manifest@.public_assets[j],
                ) && path_is_safe(self@[manifest@.public_assets[j]].path) by {
                    let k = manifest@.public_assets[j];
                    if j < i {
                        assert(cache_pre.contains_key(k));
                        assert(self@.contains_key(k));
                        if self@[k] != cache_pre[k] {
                            assert(built_entry(self@[k], k, manifest@));
                        }
                    } else {
                        assert(self@[k] == cache_entry@);
                    }
                }
            }
            i += 1;
        }
        proof {
            let newops = disk.log_entries().skip(old(disk).log_entries().len() as int);
            assert(published_run(
                ks,
                rels,
                newops,
                old(disk)@,
                manifest@,
                self@,
                config.internal_directory_path@,
                config.target_directory_path@,
            ));
            assert forall|j: int| 0 <= j < manifest@.public_assets.len() implies (old(
                self,
            )@.contains_key(#[trigger] manifest@.public_assets[j]) || !output_paths_escape(
                manifest@.assets[manifest@.public_assets[j]].output_base_path,
                manifest@.public_assets[j],
                manifest@.assets[manifest@.public_assets[j]].extension,
            )) by {
                let nm = manifest@.public_assets[j];
                if !old(self)@.contains_key(nm) {
                    assert(self@.contains_key(nm));
                    assert(built_entry(self@[nm], nm, manifest@));
                    if output_paths_escape(
                        manifest@.assets[nm].output_base_path,
                        nm,
                        manifest@.assets[nm].extension,
                    ) {
                        let stem = choose|st: Seq<char>|
                            uuid_stem(st) && self@[nm].path == output_path_view(
                                self@[nm].data.output_base_path,
                                nm,
                                st,
                                self@[nm].data.extension,
                            );
                        assert(!path_is_safe(
                            output_path_view(
                                manifest@.assets[nm].output_base_path,
                                nm,
                                stem,
                                manifest@.assets[nm].extension,
                            ),
                        ));
                        assert(false);
                    }
                }
            }
        }
        Ok(())
    }
}

/// The persisted, versioned form of the cache. Unknown versions fail to
/// load in the serialization layer.
pub enum AssetCacheManifestVersioned {
    V1(AssetCacheManifestV1),
}

impl AssetCacheManifestVersioned {
    /// Well-formed in every version.
    pub open spec fn wf(&self) -> bool {
        match self {
            AssetCacheManifestVersioned::V1(v) => v.wf(),
        }
    }

    /// The carried cache contents, whatever the version.
    pub open spec fn cache_view(&self) -> Map<Seq<char>, AssetCacheEntryView> {
        match self {
            AssetCacheManifestVersioned::V1(v) => v@,
        }
    }
}

impl Default for AssetCacheManifestVersioned {
    fn default() -> (r: AssetCacheManifestVersioned)
        ensures
            r.wf(),
            match r {
                AssetCacheManifestVersioned::V1(v) => v@ == Map::<
                    Seq<char>,
                    AssetCacheEntryView,
                >::empty(),
            },
    {
        AssetCacheManifestVersioned::V1(AssetCacheManifestV1::new())
    }
}

pub type AssetCacheManifest = AssetCacheManifestV1;

} // verus!
