//! An asset packer with incremental rebuild: a manifest names assets —
//! raw files, or outputs of named filters over other assets — and the
//! engine materializes them under an internal directory, reusing cached
//! artifacts whose inputs are unchanged, and copies the public ones into a
//! target directory. The engine works on an in-memory image of the three
//! directories and journals its file operations for the host to replay.

use vstd::prelude::*;

pub mod asset_cache;
pub mod asset_config;
pub mod asset_filter;
pub mod assets;
pub mod disk;
pub mod paths;

use crate::asset_cache::{
    deps_fresh, deps_ranked, engine_frame, AssetCacheEntryView, AssetCacheManifest,
    AssetCacheManifestV1, AssetCacheManifestVersioned,
};
use crate::asset_config::AssetConfig;
use crate::asset_filter::{AssetFilter, AssetFilterRegistry};
use crate::assets::{AssetErrorType, AssetFilterError, AssetManifest, AssetResult};
use crate::disk::Disk;
use crate::paths::{join_view, path_is_safe};

verus! {

/// Returns the cache manifest carried by its loaded, versioned form, or an
/// empty one when no cache file was present.
pub fn load_cache_manifest(loaded: Option<AssetCacheManifestVersioned>) -> (r: AssetCacheManifest)
    requires
        match loaded {
            Some(v) => v.wf(),
            None => true,
        },
    ensures
        r.wf(),
        match loaded {
            Some(v) => r@ == v.cache_view(),
            None => r@ == Map::<Seq<char>, AssetCacheEntryView>::empty(),
        },
{
    match loaded {
        Some(AssetCacheManifestVersioned::V1(v)) => v,
        None => AssetCacheManifestV1::new(),
    }
}

/// Processes the manifest's public assets against the given cache and disk
/// image, and returns the cache in its final state together with the run's
/// result, so the host can persist the cache even when the run failed.
pub fn pack<E, F>(
    manifest: &AssetManifest,
    cache_manifest: AssetCacheManifestVersioned,
    config: &AssetConfig,
    filter_registry: &AssetFilterRegistry<E, F>,
    disk: &mut Disk,
) -> (r: (AssetCacheManifest, AssetResult<(), E>)) where E: AssetFilterError, F: AssetFilter<E>
    requires
        cache_manifest.wf(),
    ensures
        r.0.wf(),
        engine_frame(
            cache_manifest.cache_view(),
            r.0@,
            manifest@,
            config.internal_directory_path@,
            config.target_directory_path@,
            old(disk)@,
            final(disk)@,
        ),
        crate::disk::journal_faithful(*old(disk), *final(disk)),
        r.1 is Ok ==> forall|i: int|
            0 <= i < manifest@.public_assets.len() ==> r.0@.contains_key(
                #[trigger] manifest@.public_assets[i],
            ) && path_is_safe(r.0@[manifest@.public_assets[i]].path),
        r.1 is Ok ==> forall|i: int|
            0 <= i < manifest@.public_assets.len() ==> (cache_manifest.cache_view().contains_key(
                #[trigger] manifest@.public_assets[i],
            ) || !crate::asset_cache::output_paths_escape(
                manifest@.assets[manifest@.public_assets[i]].output_base_path,
                manifest@.public_assets[i],
                manifest@.assets[manifest@.public_assets[i]].extension,
            )),
        exists|ks: Seq<int>, rels: Seq<Seq<char>>|
            crate::asset_cache::published_prefix(
                ks,
                rels,
                final(disk).log_entries().skip(old(disk).log_entries().len() as int),
                old(disk)@,
                manifest@,
                r.0@,
                config.internal_directory_path@,
                config.target_directory_path@,
            ),
        r.1 is Ok ==> exists|ks: Seq<int>, rels: Seq<Seq<char>>|
            crate::asset_cache::published_run(
                ks,
                rels,
                final(disk).log_entries().skip(old(disk).log_entries().len() as int),
                old(disk)@,
                manifest@,
                r.0@,
                config.internal_directory_path@,
                config.target_directory_path@,
            ),
        match r.1 {
            Ok(_) => true,
            Err(err) => match err.error_type {
                AssetErrorType::AssetNotFoundInManifestError(n) => !manifest@.assets.contains_key(
                    n@,
                ),
                AssetErrorType::AssetPathError(p) => !path_is_safe(p@),
                _ => true,
            },
        },
        (forall|ii: int|
            0 <= ii < manifest@.public_assets.len() ==> {
                let nm = #[trigger] manifest@.public_assets[ii];
                &&& manifest@.assets.contains_key(nm)
                &&& manifest@.assets[nm].source is File
                &&& old(disk)@.contains_key(
                    join_view(
                        config.source_directory_path@,
                        manifest@.assets[nm].source->File_0,
                    ),
                )
                &&& !crate::paths::under_dir(
                    join_view(
                        config.source_directory_path@,
                        manifest@.assets[nm].source->File_0,
                    ),
                    config.internal_directory_path@,
                )
                &&& !crate::paths::under_dir(
                    join_view(
                        config.source_directory_path@,
                        manifest@.assets[nm].source->File_0,
                    ),
                    config.target_directory_path@,
                )
                &&& crate::asset_cache::output_paths_safe(
                    manifest@.assets[nm].output_base_path,
                    nm,
                    manifest@.assets[nm].extension,
                )
                &&& (cache_manifest.cache_view().contains_key(nm) ==> path_is_safe(
                    cache_manifest.cache_view()[nm].path,
                ))
            }) ==> r.1 is Ok,
        ((exists|sc: Set<Seq<char>>, rank: Map<Seq<char>, int>|
            deps_fresh(
                sc,
                cache_manifest.cache_view(),
                manifest@,
                config.source_directory_path@,
                config.internal_directory_path@,
                old(disk)@,
            ) && deps_ranked(sc, rank, cache_manifest.cache_view()) && (forall|i: int|
                0 <= i < manifest@.public_assets.len() ==> sc.contains(
                    #[trigger] manifest@.public_assets[i],
                ))) && (forall|i: int|
            0 <= i < manifest@.public_assets.len() ==> {
                let e = cache_manifest.cache_view()[#[trigger] manifest@.public_assets[i]];
                &&& path_is_safe(e.path)
                &&& old(disk)@.contains_key(join_view(config.target_directory_path@, e.path))
                &&& old(disk)@[join_view(config.target_directory_path@, e.path)] == old(
                    disk,
                )@[join_view(config.internal_directory_path@, e.path)]
            })) ==> (r.1 is Ok && r.0@ == cache_manifest.cache_view() && final(disk)@ == old(
            disk,
        )@),
{
    match cache_manifest {
        AssetCacheManifestVersioned::V1(mut cache_manifest_v1) => {
            let result = cache_manifest_v1.process_public_assets(
                config,
                manifest,
                filter_registry,
                disk,
            );
            (cache_manifest_v1, result)
        },
    }
}

} // verus!
