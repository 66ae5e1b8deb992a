//! End-to-end shapes of whole runs, played against the planning functions.

use cargo_sysroot::builder::{
    build_args, classify_target, harvest_jobs, libdir_suffix, resolve_target, spec_install_dest,
    Profile, Target,
};
use cargo_sysroot::cache::{cache_decision, source_plan, CacheDecision, SourcePlan};
use cargo_sysroot::config::Config;
use cargo_sysroot::date::Date;
use cargo_sysroot::link::{host_dst_suffix, mirror_plan, FsList, FsTree, MirrorAction};

#[test]
fn debug_run_for_arm_triple_places_baseline_artifact() {
    // Request: target arm-unknown-linux-gnueabihf, profile debug, output `out`.
    let target = classify_target("arm-unknown-linux-gnueabihf");
    let id = resolve_target(&target);
    let config = Config::from_text(None);
    let crates = config.crates(&id.triple);
    assert_eq!(crates, vec!["core".to_string()]);

    let args = build_args(&id.triple, &Profile::Debug, true);
    assert_eq!(
        args,
        vec!["build", "--target", "arm-unknown-linux-gnueabihf", "--verbose"]
    );

    // The baseline artifact the build produced lands under
    // out/debug/lib/rustlib/arm-unknown-linux-gnueabihf/lib.
    let libdir = format!("out/{}", libdir_suffix(&Profile::Debug, &id.triple));
    let produced = vec!["libcore-0f1e2d.rlib".to_string()];
    let jobs = harvest_jobs("deps", &libdir, &produced);
    assert_eq!(
        jobs[0].dst,
        "out/debug/lib/rustlib/arm-unknown-linux-gnueabihf/lib/libcore-0f1e2d.rlib"
    );

    // The host runtime is mirrored under out/debug/lib/rustlib/<host>.
    let host_dst = host_dst_suffix(&Profile::Debug, "x86_64-unknown-linux-gnu");
    assert_eq!(host_dst, "debug/lib/rustlib/x86_64-unknown-linux-gnu");
    let host_tree = FsList::Cons {
        head: FsTree::File { name: "libstd.so".to_string() },
        tail: Box::new(FsList::Nil),
    };
    let plan = mirror_plan(
        &vec!["toolchain".to_string()],
        &vec!["out".to_string(), host_dst],
        &host_tree,
    );
    assert!(plan.len() > 1, "the host directory must not stay empty");
}

#[test]
fn release_rerun_adds_second_profile_without_second_fetch() {
    let hash = "2a3b4c".to_string();
    let nightly = Date { year: 2016, month: 3, day: 14 };

    // First run, debug profile, empty cache: one fetch, marker written.
    let first = source_plan(&None, &hash, &nightly);
    let marker = match first {
        SourcePlan::Fetch { marker, .. } => marker,
        SourcePlan::UpToDate => panic!("an empty cache must be fetched"),
    };
    assert_eq!(marker, "2a3b4c");
    let debug_dir = libdir_suffix(&Profile::Debug, "arm-unknown-linux-gnueabihf");

    // Second run, --release, same hash: no fetch, a second artifact directory.
    assert_eq!(
        cache_decision(&Some(marker), &hash),
        CacheDecision::Fresh,
        "the second run must not download again"
    );
    let release_dir = libdir_suffix(&Profile::Release, "arm-unknown-linux-gnueabihf");
    assert_eq!(debug_dir, "debug/lib/rustlib/arm-unknown-linux-gnueabihf/lib");
    assert_eq!(release_dir, "release/lib/rustlib/arm-unknown-linux-gnueabihf/lib");
    assert_ne!(debug_dir, release_dir);
}

#[test]
fn custom_specification_file_is_copied_only_into_workspace() {
    let target = classify_target("custom.json");
    assert!(matches!(target, Target::SpecFile(_)));

    // The argument path, canonicalized by the caller.
    let canonical = Target::SpecFile("/work/other/custom.json".to_string());
    let id = resolve_target(&canonical);
    assert_eq!(id.triple, "custom");
    // The original file is only ever read: its path is kept as the copy's
    // source, unchanged.
    assert_eq!(id.spec_file, "/work/other/custom.json");

    // The only copy goes inside the disposable workspace, which is discarded
    // after harvesting; nothing targets the original path or the sysroot.
    let dest = spec_install_dest("/tmp/work/sysroot", &id.triple);
    assert_eq!(dest, "/tmp/work/sysroot/custom.json");
    assert!(dest.starts_with("/tmp/work/sysroot/"));
    assert_ne!(dest, id.spec_file);

    // Harvesting reads the deps directory alone, so no job touches the
    // workspace copy of the specification file.
    let produced = vec!["libcore-0f1e2d.rlib".to_string()];
    let jobs = harvest_jobs(
        "/tmp/work/sysroot/target/custom/debug/deps",
        "out/debug/lib/rustlib/custom/lib",
        &produced,
    );
    for job in &jobs {
        assert_ne!(job.src, dest);
        assert_ne!(job.dst, dest);
        assert!(job.dst.starts_with("out/"));
    }
}

#[test]
fn mirrored_file_destination_mirrors_source_path() {
    // For every file of the host tree, a mirror action pairs src+path with
    // dst+path.
    let tree = FsList::Cons {
        head: FsTree::Dir {
            name: "sub".to_string(),
            entries: Box::new(FsList::Cons {
                head: FsTree::File { name: "a.rlib".to_string() },
                tail: Box::new(FsList::Nil),
            }),
        },
        tail: Box::new(FsList::Cons {
            head: FsTree::File { name: "b.rlib".to_string() },
            tail: Box::new(FsList::Nil),
        }),
    };
    let src = vec!["S".to_string()];
    let dst = vec!["D".to_string()];
    let plan = mirror_plan(&src, &dst, &tree);
    let mut mirrored: Vec<(Vec<String>, Vec<String>)> = Vec::new();
    for action in &plan {
        if let MirrorAction::LinkFile { src, dst } = action {
            mirrored.push((src.clone(), dst.clone()));
        }
    }
    assert_eq!(
        mirrored,
        vec![
            (
                vec!["S".to_string(), "sub".to_string(), "a.rlib".to_string()],
                vec!["D".to_string(), "sub".to_string(), "a.rlib".to_string()],
            ),
            (
                vec!["S".to_string(), "b.rlib".to_string()],
                vec!["D".to_string(), "b.rlib".to_string()],
            ),
        ]
    );
}
