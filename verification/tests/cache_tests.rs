use cargo_sysroot::cache::{
    cache_decision, marker_file_name, source_dir_name, source_plan, tar_entry_dest, CacheDecision,
    SourcePlan,
};
use cargo_sysroot::date::Date;

#[test]
fn matching_marker_is_fresh() {
    let marker = Some("1a2b3c".to_string());
    let hash = "1a2b3c".to_string();
    assert_eq!(cache_decision(&marker, &hash), CacheDecision::Fresh);
}

#[test]
fn differing_marker_is_stale() {
    let marker = Some("1a2b3c".to_string());
    let hash = "4d5e6f".to_string();
    assert_eq!(cache_decision(&marker, &hash), CacheDecision::Refetch);
}

#[test]
fn absent_marker_is_stale() {
    let hash = "1a2b3c".to_string();
    assert_eq!(cache_decision(&None, &hash), CacheDecision::Refetch);
}

#[test]
fn stale_cache_plans_fetch_and_new_marker() {
    let marker = Some("oldhash".to_string());
    let hash = "newhash".to_string();
    let nightly = Date { year: 2016, month: 3, day: 14 };
    match source_plan(&marker, &hash, &nightly) {
        SourcePlan::Fetch { url, marker } => {
            assert_eq!(
                url,
                "http://static.rust-lang.org/dist/2016-03-14/rustc-nightly-src.tar.gz"
            );
            assert_eq!(marker, "newhash");
        }
        SourcePlan::UpToDate => panic!("a stale cache must be fetched"),
    }
}

#[test]
fn second_run_with_same_hash_fetches_nothing() {
    let hash = "1a2b3c".to_string();
    let nightly = Date { year: 2016, month: 3, day: 14 };
    let first = source_plan(&None, &hash, &nightly);
    let written = match first {
        SourcePlan::Fetch { marker, .. } => marker,
        SourcePlan::UpToDate => panic!("an empty cache must be fetched"),
    };
    let second = source_plan(&Some(written), &hash, &nightly);
    assert!(matches!(second, SourcePlan::UpToDate));
}

#[test]
fn archive_entries_outside_src_are_skipped() {
    let entry: Vec<String> = vec!["rustc-nightly".to_string(), "README.md".to_string()];
    assert_eq!(tar_entry_dest(&entry), None);
    let top: Vec<String> = vec!["rustc-nightly".to_string()];
    assert_eq!(tar_entry_dest(&top), None);
}

#[test]
fn archive_entries_under_src_are_rerooted() {
    let entry: Vec<String> = vec![
        "rustc-nightly".to_string(),
        "src".to_string(),
        "libcore".to_string(),
        "lib.rs".to_string(),
    ];
    assert_eq!(
        tar_entry_dest(&entry),
        Some(vec!["libcore".to_string(), "lib.rs".to_string()])
    );
    let root: Vec<String> = vec!["rustc-nightly".to_string(), "src".to_string()];
    assert_eq!(tar_entry_dest(&root), Some(vec![]));
}

#[test]
fn cache_file_names() {
    assert_eq!(marker_file_name(), ".commit-hash");
    assert_eq!(source_dir_name(), "src");
}
