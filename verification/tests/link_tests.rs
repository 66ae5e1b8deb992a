use cargo_sysroot::builder::Profile;
use cargo_sysroot::link::{
    host_dst_suffix, host_src_suffix, mirror_plan, rustlib_dir_suffix, sysroot_query_args, FsList,
    FsTree, MirrorAction,
};

fn comps(parts: &[&str]) -> Vec<String> {
    parts.iter().map(|p| p.to_string()).collect()
}

#[test]
fn toolchain_root_is_queried_for_sysroot() {
    assert_eq!(sysroot_query_args(), vec!["--print", "sysroot"]);
}

#[test]
fn host_directories_follow_triple_and_profile() {
    assert_eq!(
        host_src_suffix("x86_64-unknown-linux-gnu"),
        "lib/rustlib/x86_64-unknown-linux-gnu"
    );
    assert_eq!(rustlib_dir_suffix(&Profile::Debug), "debug/lib/rustlib");
    assert_eq!(
        host_dst_suffix(&Profile::Debug, "x86_64-unknown-linux-gnu"),
        "debug/lib/rustlib/x86_64-unknown-linux-gnu"
    );
}

#[test]
fn mirror_plan_covers_every_file() {
    // lib/rustlib/host: libstd.so, codegen-backends/llvm.so
    let tree = FsList::Cons {
        head: FsTree::File { name: "libstd.so".to_string() },
        tail: Box::new(FsList::Cons {
            head: FsTree::Dir {
                name: "codegen-backends".to_string(),
                entries: Box::new(FsList::Cons {
                    head: FsTree::File { name: "llvm.so".to_string() },
                    tail: Box::new(FsList::Nil),
                }),
            },
            tail: Box::new(FsList::Nil),
        }),
    };
    let src = comps(&["toolchain", "lib", "rustlib", "host", "lib"]);
    let dst = comps(&["out", "debug", "lib", "rustlib", "host", "lib"]);
    let plan = mirror_plan(&src, &dst, &tree);
    assert_eq!(
        plan,
        vec![
            MirrorAction::CreateDir { path: dst.clone() },
            MirrorAction::LinkFile {
                src: comps(&["toolchain", "lib", "rustlib", "host", "lib", "libstd.so"]),
                dst: comps(&["out", "debug", "lib", "rustlib", "host", "lib", "libstd.so"]),
            },
            MirrorAction::CreateDir {
                path: comps(&["out", "debug", "lib", "rustlib", "host", "lib", "codegen-backends"]),
            },
            MirrorAction::LinkFile {
                src: comps(&[
                    "toolchain",
                    "lib",
                    "rustlib",
                    "host",
                    "lib",
                    "codegen-backends",
                    "llvm.so"
                ]),
                dst: comps(&[
                    "out",
                    "debug",
                    "lib",
                    "rustlib",
                    "host",
                    "lib",
                    "codegen-backends",
                    "llvm.so"
                ]),
            },
        ]
    );
}

#[test]
fn empty_directory_still_creates_destination() {
    let src = comps(&["toolchain", "lib"]);
    let dst = comps(&["out", "lib"]);
    let plan = mirror_plan(&src, &dst, &FsList::Nil);
    assert_eq!(plan, vec![MirrorAction::CreateDir { path: dst.clone() }]);
}
