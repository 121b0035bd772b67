use asset_packer::asset_cache::{AssetCacheManifestV1, AssetCacheManifestVersioned};
use asset_packer::asset_config::AssetConfig;
use asset_packer::asset_filter::{AssetFilter, AssetFilterOption, AssetFilterRegistry};
use asset_packer::assets::{
    AssetData, AssetErrorType, AssetFilterError, AssetFiltered, AssetManifest, AssetSource,
};
use asset_packer::disk::Disk;
use asset_packer::pack;
use asset_packer::paths::check_path_safety;

#[derive(Debug)]
struct DummyError;

impl AssetFilterError for DummyError {}

enum TestFilter {
    Cat,
    Fail,
}

impl AssetFilter<DummyError> for TestFilter {
    fn process_asset_file(
        &self,
        input_files: &Vec<Vec<u8>>,
        options: &Vec<(String, AssetFilterOption)>,
    ) -> Result<Vec<u8>, DummyError> {
        match self {
            TestFilter::Cat => {
                let mut out: Vec<u8> = Vec::new();
                for input in input_files {
                    out.extend_from_slice(input);
                }
                for (name, value) in options {
                    if name == "additional_text" {
                        if let AssetFilterOption::Text(text) = value {
                            out.extend_from_slice(text.as_bytes());
                        }
                    }
                }
                Ok(out)
            }
            TestFilter::Fail => Err(DummyError),
        }
    }
}

fn registry() -> AssetFilterRegistry<DummyError, TestFilter> {
    AssetFilterRegistry::new(vec![
        ("TestCat".to_string(), TestFilter::Cat),
        ("Fail".to_string(), TestFilter::Fail),
    ])
}

fn config() -> AssetConfig {
    AssetConfig {
        target_directory_path: "target".to_string(),
        internal_directory_path: "internal".to_string(),
        source_directory_path: "source".to_string(),
    }
}

fn file_asset(path: &str, extension: &str) -> AssetData {
    AssetData {
        output_base_path: None,
        extension: extension.to_string(),
        source: AssetSource::File(path.to_string()),
    }
}

fn filtered_asset(
    base: Option<&str>,
    extension: &str,
    filter: &str,
    inputs: &[&str],
    extra_text: Option<&str>,
) -> AssetData {
    let mut options: Vec<(String, AssetFilterOption)> = Vec::new();
    if let Some(text) = extra_text {
        options.push((
            "additional_text".to_string(),
            AssetFilterOption::Text(text.to_string()),
        ));
    }
    AssetData {
        output_base_path: base.map(|b| b.to_string()),
        extension: extension.to_string(),
        source: AssetSource::Filtered(AssetFiltered {
            filter_name: filter.to_string(),
            input_names: inputs.iter().map(|s| s.to_string()).collect(),
            options,
        }),
    }
}

fn basic_manifest() -> AssetManifest {
    let mut manifest = AssetManifest::new();
    manifest.insert_asset("a".to_string(), file_asset("a.txt", "txt"));
    manifest.insert_asset("b".to_string(), file_asset("b.txt", "txt"));
    manifest.insert_asset(
        "out".to_string(),
        filtered_asset(Some("out_text"), "txt", "TestCat", &["a", "b"], Some("!")),
    );
    manifest.push_public("out".to_string());
    manifest
}

fn basic_disk() -> Disk {
    let mut disk = Disk::new();
    disk.preload("source/a.txt".to_string(), b"alpha".to_vec());
    disk.preload("source/b.txt".to_string(), b"beta".to_vec());
    disk
}

fn run_pack(
    manifest: &AssetManifest,
    cache: AssetCacheManifestV1,
    disk: &mut Disk,
) -> (AssetCacheManifestV1, Result<(), AssetErrorType<DummyError>>) {
    let (cache, result) = pack(
        manifest,
        AssetCacheManifestVersioned::V1(cache),
        &config(),
        &registry(),
        disk,
    );
    (cache, result.map_err(|e| e.error_type))
}

#[test]
fn path_safety_accepts_and_rejects() {
    assert!(check_path_safety("a/b"));
    assert!(check_path_safety("a/./b"));
    assert!(check_path_safety("x/.."));
    assert!(check_path_safety(""));
    assert!(check_path_safety("out_text"));
    assert!(!check_path_safety("../evil"));
    assert!(!check_path_safety(".."));
    assert!(!check_path_safety("x/../.."));
    assert!(!check_path_safety("x/../../y"));
    assert!(!check_path_safety("/rooted"));
}

#[test]
fn option_helpers_return_exact_values() {
    assert_eq!(
        asset_packer::asset_filter::option_is_flag(Some(AssetFilterOption::Flag)),
        Some(true)
    );
    assert_eq!(asset_packer::asset_filter::option_is_flag(None), Some(false));
    assert_eq!(
        asset_packer::asset_filter::option_is_flag(Some(AssetFilterOption::Bool(true))),
        None
    );
    assert_eq!(
        asset_packer::asset_filter::get_bool(AssetFilterOption::Bool(false)),
        Some(false)
    );
    assert_eq!(asset_packer::asset_filter::get_bool(AssetFilterOption::Flag), None);
    assert_eq!(
        asset_packer::asset_filter::get_string(AssetFilterOption::Text("x".to_string())),
        Some("x".to_string())
    );
    assert_eq!(asset_packer::asset_filter::get_string(AssetFilterOption::Flag), None);
    assert_eq!(
        asset_packer::asset_filter::get_string_list(AssetFilterOption::TextList(vec![
            "a".to_string(),
            "b".to_string()
        ])),
        Some(vec!["a".to_string(), "b".to_string()])
    );
    assert_eq!(
        asset_packer::asset_filter::get_string_list(AssetFilterOption::Bool(true)),
        None
    );
}

#[test]
fn basic_build_and_source_edit() {
    let manifest = basic_manifest();
    let mut disk = basic_disk();

    let (cache, result) = run_pack(&manifest, AssetCacheManifestV1::new(), &mut disk);
    result.unwrap();

    let entry1 = cache.get_entry("out").unwrap();
    assert!(entry1.path.starts_with("out_text/out-"));
    assert!(entry1.path.ends_with(".txt"));
    let target_path1 = format!("target/{}", entry1.path);
    assert_eq!(disk.read(&target_path1).unwrap(), &b"alphabeta!".to_vec());

    disk.preload("source/a.txt".to_string(), b"gamma".to_vec());
    let (cache2, result2) = run_pack(&manifest, cache, &mut disk);
    result2.unwrap();

    let entry2 = cache2.get_entry("out").unwrap();
    let target_path2 = format!("target/{}", entry2.path);
    assert_eq!(disk.read(&target_path2).unwrap(), &b"gammabeta!".to_vec());
    assert_ne!(entry1.path, entry2.path);
    assert!(!disk.has_file(&target_path1));
    assert!(!disk.has_file(&format!("internal/{}", entry1.path)));
}

#[test]
fn rerun_without_edits_rebuilds_nothing() {
    let manifest = basic_manifest();
    let mut disk = basic_disk();

    let (cache, result) = run_pack(&manifest, AssetCacheManifestV1::new(), &mut disk);
    result.unwrap();
    let out1 = cache.get_entry("out").unwrap();
    let a1 = cache.get_entry("a").unwrap();
    let journal_len = disk.journal().len();

    let (mut cache2, result2) = run_pack(&manifest, cache, &mut disk);
    result2.unwrap();
    let out2 = cache2.get_entry("out").unwrap();
    let a2 = cache2.get_entry("a").unwrap();
    assert_eq!(out1.path, out2.path);
    assert_eq!(a1.path, a2.path);
    let target_path = format!("target/{}", out2.path);
    assert_eq!(disk.read(&target_path).unwrap(), &b"alphabeta!".to_vec());
    // The second run re-publishes the same bytes and does nothing else.
    let republished = &disk.journal()[journal_len..];
    assert_eq!(republished.len(), 1);

    // A direct evaluation reports the asset as unchanged.
    let (_, changed) = cache2
        .process(
            "out".to_string(),
            &config(),
            &manifest,
            &registry(),
            &mut disk,
        )
        .unwrap();
    assert!(!changed);
}

#[test]
fn deleted_intermediate_is_rebuilt() {
    let manifest = basic_manifest();
    let mut disk = basic_disk();

    let (cache, result) = run_pack(&manifest, AssetCacheManifestV1::new(), &mut disk);
    result.unwrap();
    let entry1 = cache.get_entry("out").unwrap();

    disk.remove(&format!("internal/{}", entry1.path));
    let (cache2, result2) = run_pack(&manifest, cache, &mut disk);
    result2.unwrap();
    let entry2 = cache2.get_entry("out").unwrap();
    assert_ne!(entry1.path, entry2.path);
    assert_eq!(
        disk.read(&format!("target/{}", entry2.path)).unwrap(),
        &b"alphabeta!".to_vec()
    );
}

#[test]
fn missing_asset_fails_with_its_name() {
    let mut manifest = AssetManifest::new();
    manifest.insert_asset("a".to_string(), file_asset("a.txt", "txt"));
    manifest.insert_asset(
        "out".to_string(),
        filtered_asset(None, "txt", "TestCat", &["a", "c"], None),
    );
    manifest.push_public("out".to_string());
    let mut disk = basic_disk();

    let (_, result) = run_pack(&manifest, AssetCacheManifestV1::new(), &mut disk);
    match result {
        Err(AssetErrorType::AssetNotFoundInManifestError(name)) => assert_eq!(name, "c"),
        other => panic!("{:?}", other.map(|_| ())),
    }
}

#[test]
fn unknown_filter_fails_with_its_name() {
    let mut manifest = AssetManifest::new();
    manifest.insert_asset("a".to_string(), file_asset("a.txt", "txt"));
    manifest.insert_asset(
        "out".to_string(),
        filtered_asset(None, "txt", "Nope", &["a"], None),
    );
    manifest.push_public("out".to_string());
    let mut disk = basic_disk();

    let (_, result) = run_pack(&manifest, AssetCacheManifestV1::new(), &mut disk);
    match result {
        Err(AssetErrorType::AssetFilterNotFoundError(name)) => assert_eq!(name, "Nope"),
        other => panic!("{:?}", other.map(|_| ())),
    }
}

#[test]
fn failing_filter_error_is_wrapped() {
    let mut manifest = AssetManifest::new();
    manifest.insert_asset("a".to_string(), file_asset("a.txt", "txt"));
    manifest.insert_asset(
        "out".to_string(),
        filtered_asset(None, "txt", "Fail", &["a"], None),
    );
    manifest.push_public("out".to_string());
    let mut disk = basic_disk();

    let (_, result) = run_pack(&manifest, AssetCacheManifestV1::new(), &mut disk);
    assert!(matches!(result, Err(AssetErrorType::FilterError(DummyError))));
}

#[test]
fn path_escape_fails_and_writes_nothing() {
    let mut manifest = AssetManifest::new();
    manifest.insert_asset(
        "evil".to_string(),
        AssetData {
            output_base_path: Some("../evil".to_string()),
            extension: "txt".to_string(),
            source: AssetSource::File("a.txt".to_string()),
        },
    );
    manifest.push_public("evil".to_string());
    let mut disk = basic_disk();

    let (_, result) = run_pack(&manifest, AssetCacheManifestV1::new(), &mut disk);
    match result {
        Err(AssetErrorType::AssetPathError(path)) => assert!(path.starts_with("../evil/")),
        other => panic!("{:?}", other.map(|_| ())),
    }
    assert_eq!(disk.journal().len(), 0);
}

#[test]
fn missing_source_file_is_an_io_error() {
    let mut manifest = AssetManifest::new();
    manifest.insert_asset("a".to_string(), file_asset("missing.txt", "txt"));
    manifest.push_public("a".to_string());
    let mut disk = Disk::new();

    let (_, result) = run_pack(&manifest, AssetCacheManifestV1::new(), &mut disk);
    match result {
        Err(AssetErrorType::IOError(path)) => assert_eq!(path, "source/missing.txt"),
        other => panic!("{:?}", other.map(|_| ())),
    }
}

#[test]
fn chained_filters_rebuild_along_the_edit_path() {
    let mut manifest = AssetManifest::new();
    manifest.insert_asset("a".to_string(), file_asset("a.txt", "txt"));
    manifest.insert_asset("b".to_string(), file_asset("b.txt", "txt"));
    manifest.insert_asset(
        "mid".to_string(),
        filtered_asset(None, "txt", "TestCat", &["a"], None),
    );
    manifest.insert_asset(
        "out".to_string(),
        filtered_asset(None, "txt", "TestCat", &["mid", "b"], None),
    );
    manifest.push_public("out".to_string());
    let mut disk = basic_disk();

    let (cache, result) = run_pack(&manifest, AssetCacheManifestV1::new(), &mut disk);
    result.unwrap();
    let mid1 = cache.get_entry("mid").unwrap();
    let out1 = cache.get_entry("out").unwrap();
    let b1 = cache.get_entry("b").unwrap();

    disk.preload("source/a.txt".to_string(), b"gamma".to_vec());
    let (cache2, result2) = run_pack(&manifest, cache, &mut disk);
    result2.unwrap();
    let mid2 = cache2.get_entry("mid").unwrap();
    let out2 = cache2.get_entry("out").unwrap();
    let b2 = cache2.get_entry("b").unwrap();

    assert_ne!(mid1.path, mid2.path);
    assert_ne!(out1.path, out2.path);
    assert_eq!(b1.path, b2.path);
    assert_eq!(
        disk.read(&format!("target/{}", out2.path)).unwrap(),
        &b"gammabeta".to_vec()
    );
}

#[test]
fn self_referential_asset_reports_recursion_limit() {
    let mut manifest = AssetManifest::new();
    manifest.insert_asset(
        "loop".to_string(),
        filtered_asset(None, "txt", "TestCat", &["loop"], None),
    );
    manifest.push_public("loop".to_string());
    let mut disk = Disk::new();

    let (_, result) = run_pack(&manifest, AssetCacheManifestV1::new(), &mut disk);
    assert!(matches!(
        result,
        Err(AssetErrorType::AssetRecursionLimitError(_))
    ));
}

#[test]
fn manifest_edit_triggers_rebuild() {
    let manifest = basic_manifest();
    let mut disk = basic_disk();
    let (cache, result) = run_pack(&manifest, AssetCacheManifestV1::new(), &mut disk);
    result.unwrap();
    let out1 = cache.get_entry("out").unwrap();

    // Same assets, but the filter options change: the definition differs.
    let mut manifest2 = AssetManifest::new();
    manifest2.insert_asset("a".to_string(), file_asset("a.txt", "txt"));
    manifest2.insert_asset("b".to_string(), file_asset("b.txt", "txt"));
    manifest2.insert_asset(
        "out".to_string(),
        filtered_asset(Some("out_text"), "txt", "TestCat", &["a", "b"], Some("?")),
    );
    manifest2.push_public("out".to_string());

    let (cache2, result2) = run_pack(&manifest2, cache, &mut disk);
    result2.unwrap();
    let out2 = cache2.get_entry("out").unwrap();
    assert_ne!(out1.path, out2.path);
    assert_eq!(
        disk.read(&format!("target/{}", out2.path)).unwrap(),
        &b"alphabeta?".to_vec()
    );
}

#[test]
fn journal_replays_the_run() {
    let manifest = basic_manifest();
    let mut disk = basic_disk();
    let (cache, result) = run_pack(&manifest, AssetCacheManifestV1::new(), &mut disk);
    result.unwrap();
    let entry = cache.get_entry("out").unwrap();
    let mut wrote_internal = false;
    let mut wrote_target = false;
    for op in disk.journal() {
        match op {
            asset_packer::disk::DiskOp::Write(path, bytes) => {
                if path == &format!("internal/{}", entry.path) {
                    wrote_internal = true;
                    assert_eq!(bytes, &b"alphabeta!".to_vec());
                }
                if path == &format!("target/{}", entry.path) {
                    wrote_target = true;
                    assert_eq!(bytes, &b"alphabeta!".to_vec());
                }
            }
            asset_packer::disk::DiskOp::Remove(_) => {}
        }
    }
    assert!(wrote_internal);
    assert!(wrote_target);
}

#[test]
fn deleted_target_copy_is_republished() {
    let manifest = basic_manifest();
    let mut disk = basic_disk();
    let (cache, result) = run_pack(&manifest, AssetCacheManifestV1::new(), &mut disk);
    result.unwrap();
    let entry = cache.get_entry("out").unwrap();
    let target_path = format!("target/{}", entry.path);

    disk.remove(&target_path);
    assert!(!disk.has_file(&target_path));

    // Publishing is unconditional: an unchanged asset is still copied out.
    let (cache2, result2) = run_pack(&manifest, cache, &mut disk);
    result2.unwrap();
    let entry2 = cache2.get_entry("out").unwrap();
    assert_eq!(entry.path, entry2.path);
    assert_eq!(disk.read(&target_path).unwrap(), &b"alphabeta!".to_vec());
}

#[test]
fn file_only_public_asset_packs() {
    let mut manifest = AssetManifest::new();
    manifest.insert_asset("a".to_string(), file_asset("a.txt", "txt"));
    manifest.push_public("a".to_string());
    let mut disk = basic_disk();

    let (cache, result) = run_pack(&manifest, AssetCacheManifestV1::new(), &mut disk);
    result.unwrap();
    let entry = cache.get_entry("a").unwrap();
    assert!(entry.path.starts_with("a-"));
    assert!(entry.path.ends_with(".txt"));
    assert_eq!(
        disk.read(&format!("target/{}", entry.path)).unwrap(),
        &b"alpha".to_vec()
    );
    assert_eq!(
        disk.read(&format!("internal/{}", entry.path)).unwrap(),
        &b"alpha".to_vec()
    );
}
