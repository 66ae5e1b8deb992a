//! Host crate linker: the plan that mirrors the toolchain's host runtime
//! directory into the sysroot.
//!
//! The directory tree is modelled as data; the plan lists, in order, the
//! directories to create and the files to mirror.  A mirrored file is hard
//! linked when the filesystem allows it and copied byte for byte otherwise;
//! either way the destination in the plan carries the file's content.

use vstd::prelude::*;
use crate::strutil::{views, lemma_views_push};
use crate::builder::Profile;

verus! {

/// A directory tree as the walk of the source directory finds it.
pub enum FsTree {
    /// A file with this name.
    File { name: String },
    /// A directory with this name and these entries.
    Dir { name: String, entries: Box<FsList> },
}

/// The entries of one directory.
pub enum FsList {
    Nil,
    Cons { head: FsTree, tail: Box<FsList> },
}

/// The relative paths (as component sequences) of every file in a tree.
pub open spec fn tree_files(t: FsTree) -> Seq<Seq<Seq<char>>>
    decreases t,
{
    match t {
        FsTree::File { name } => seq![seq![name@]],
        FsTree::Dir { name, entries } => prefix_all(name@, list_files(*entries)),
    }
}

/// The relative paths of every file below a list of entries.
pub open spec fn list_files(l: FsList) -> Seq<Seq<Seq<char>>>
    decreases l,
{
    match l {
        FsList::Nil => Seq::empty(),
        FsList::Cons { head, tail } => tree_files(head) + list_files(*tail),
    }
}

/// Every path of `ps`, with one leading component put in front.
pub open spec fn prefix_all(name: Seq<char>, ps: Seq<Seq<Seq<char>>>) -> Seq<Seq<Seq<char>>> {
    ps.map_values(|p: Seq<Seq<char>>| seq![name] + p)
}

/// One step of the mirroring plan.
#[derive(PartialEq, Eq, Debug)]
pub enum MirrorAction {
    /// Create this directory (its parent comes earlier in the plan).
    CreateDir { path: Vec<String> },
    /// Mirror the file at `src` to `dst`: hard link it, and fall back to a
    /// byte copy if linking fails.
    LinkFile { src: Vec<String>, dst: Vec<String> },
}

impl MirrorAction {
    /// Whether this action mirrors exactly the file `s` to `d`.
    pub open spec fn is_link_of(self, s: Seq<Seq<char>>, d: Seq<Seq<char>>) -> bool {
        match self {
            MirrorAction::LinkFile { src, dst } => views(src@) == s && views(dst@) == d,
            _ => false,
        }
    }

    /// Whether this action creates the directory `dir`.
    pub open spec fn creates(self, dir: Seq<Seq<char>>) -> bool {
        match self {
            MirrorAction::CreateDir { path } => views(path@) == dir,
            _ => false,
        }
    }
}

/// Whether some action before index `k` creates the directory `dir`.
pub open spec fn dir_created_before(plan: Seq<MirrorAction>, k: int, dir: Seq<Seq<char>>) -> bool {
    exists|j: int| 0 <= j < k && (#[trigger] plan[j]).creates(dir)
}

/// Whether the plan creates the parent directory of action `k`'s destination
/// before reaching it: running the plan in order then finds every
/// destination's directory already in place.
pub open spec fn parent_created_first(plan: Seq<MirrorAction>, k: int) -> bool {
    match plan[k] {
        MirrorAction::LinkFile { dst, .. } => views(dst@).len() > 0 && dir_created_before(
            plan,
            k,
            views(dst@).drop_last(),
        ),
        MirrorAction::CreateDir { path } => views(path@).len() > 0 && dir_created_before(
            plan,
            k,
            views(path@).drop_last(),
        ),
    }
}

proof fn lemma_parent_created_extend(p1: Seq<MirrorAction>, p2: Seq<MirrorAction>, k: int)
    requires
        extends(p2, p1),
        0 <= k < p1.len(),
        parent_created_first(p1, k),
    ensures
        parent_created_first(p2, k),
{
    assert(p2[k] == p1[k]);
    match p1[k] {
        MirrorAction::LinkFile { dst, .. } => {
            let dir = views(dst@).drop_last();
            let j = choose|j: int| 0 <= j < k && (#[trigger] p1[j]).creates(dir);
            assert(p2[j].creates(dir));
        },
        MirrorAction::CreateDir { path } => {
            let dir = views(path@).drop_last();
            let j = choose|j: int| 0 <= j < k && (#[trigger] p1[j]).creates(dir);
            assert(p2[j].creates(dir));
        },
    }
}

/// Whether the plan mirrors the file `s` to `d`.
pub open spec fn plan_links(plan: Seq<MirrorAction>, s: Seq<Seq<char>>, d: Seq<Seq<char>>) -> bool {
    exists|k: int| 0 <= k < plan.len() && (#[trigger] plan[k]).is_link_of(s, d)
}

/// Whether `path` lies at or below `root`.
pub open spec fn under(path: Seq<Seq<char>>, root: Seq<Seq<char>>) -> bool {
    path.len() >= root.len() && path.take(root.len() as int) == root
}

/// Whether the action writes only at or below `root`.
pub open spec fn writes_under(a: MirrorAction, root: Seq<Seq<char>>) -> bool {
    match a {
        MirrorAction::CreateDir { path } => under(views(path@), root),
        MirrorAction::LinkFile { dst, .. } => under(views(dst@), root),
    }
}

proof fn lemma_under_parent(p: Seq<Seq<char>>, root: Seq<Seq<char>>, n: Seq<char>)
    requires
        under(p, root.push(n)),
    ensures
        under(p, root),
{
    assert(p.take(root.len() as int) =~= root);
}

/// Whether `new` is `old` with zero or more actions appended.
pub open spec fn extends(new: Seq<MirrorAction>, old: Seq<MirrorAction>) -> bool {
    new.len() >= old.len() && forall|k: int| 0 <= k < old.len() ==> new[k] == old[k]
}

proof fn lemma_links_extend(p1: Seq<MirrorAction>, p2: Seq<MirrorAction>, s: Seq<Seq<char>>, d: Seq<Seq<char>>)
    requires
        extends(p2, p1),
        plan_links(p1, s, d),
    ensures
        plan_links(p2, s, d),
{
    let k = choose|k: int| 0 <= k < p1.len() && (#[trigger] p1[k]).is_link_of(s, d);
    assert(p2[k].is_link_of(s, d));
}

/// The plan that mirrors a whole source directory: create the destination
/// root, then walk the entries.  Every file of the tree, at relative path
/// `p`, is mirrored from `src+p` to `dst+p`.
pub fn mirror_plan(src: &Vec<String>, dst: &Vec<String>, entries: &FsList) -> (r: Vec<MirrorAction>)
    ensures
        r@.len() >= 1,
        (r@[0] matches MirrorAction::CreateDir { path } && views(path@) == views(dst@)),
        forall|k: int|
            0 <= k < list_files(*entries).len() ==> plan_links(
                r@,
                views(src@) + #[trigger] list_files(*entries)[k],
                views(dst@) + list_files(*entries)[k],
            ),
        forall|k: int| 0 <= k < r@.len() ==> writes_under(#[trigger] r@[k], views(dst@)),
        forall|k: int| 1 <= k < r@.len() ==> parent_created_first(r@, k),
{
    let mut out: Vec<MirrorAction> = Vec::new();
    let path = dst.clone();
    proof {
        assert(path@ =~= dst@);
    }
    out.push(MirrorAction::CreateDir { path });
    proof {
        assert(views(dst@).take(views(dst@).len() as int) =~= views(dst@));
        assert(out@[0].creates(views(dst@)));
        assert(dir_created_before(out@, 1, views(dst@)));
    }
    mirror_entries(src, dst, entries, &mut out);
    out
}

/// Appends the actions for every entry of one directory, whose own
/// destination an earlier action already creates.
fn mirror_entries(src: &Vec<String>, dst: &Vec<String>, l: &FsList, out: &mut Vec<MirrorAction>)
    requires
        dir_created_before(old(out)@, old(out)@.len() as int, views(dst@)),
    ensures
        extends(final(out)@, old(out)@),
        forall|k: int|
            0 <= k < list_files(*l).len() ==> plan_links(
                final(out)@,
                views(src@) + #[trigger] list_files(*l)[k],
                views(dst@) + list_files(*l)[k],
            ),
        forall|k: int|
            old(out)@.len() <= k < final(out)@.len() ==> writes_under(
                #[trigger] final(out)@[k],
                views(dst@),
            ),
        forall|k: int|
            old(out)@.len() <= k < final(out)@.len() ==> parent_created_first(final(out)@, k),
    decreases *l,
{
    match l {
        FsList::Nil => {},
        FsList::Cons { head, tail } => {
            let ghost out0 = out@;
            match head {
                FsTree::File { name } => {
                    let mut s = src.clone();
                    s.push(name.clone());
                    let mut d = dst.clone();
                    d.push(name.clone());
                    proof {
                        assert(s@ =~= src@.push(*name));
                        assert(d@ =~= dst@.push(*name));
                        lemma_views_push(src@, *name);
                        lemma_views_push(dst@, *name);
                    }
                    out.push(MirrorAction::LinkFile { src: s, dst: d });
                },
                FsTree::Dir { name, entries } => {
                    let mut s = src.clone();
                    s.push(name.clone());
                    let mut d = dst.clone();
                    d.push(name.clone());
                    proof {
                        assert(s@ =~= src@.push(*name));
                        assert(d@ =~= dst@.push(*name));
                        lemma_views_push(src@, *name);
                        lemma_views_push(dst@, *name);
                    }
                    let path = d.clone();
                    proof {
                        assert(path@ =~= d@);
                    }
                    out.push(MirrorAction::CreateDir { path });
                    proof {
                        assert(out@[out0.len() as int].creates(views(d@)));
                        assert(dir_created_before(out@, out@.len() as int, views(d@)));
                    }
                    mirror_entries(&s, &d, &**entries, out);
                },
            }
            let ghost out1 = out@;
            proof {
                let j = choose|j: int| 0 <= j < out0.len() && (#[trigger] out0[j]).creates(
                    views(dst@),
                );
                assert(out1[j].creates(views(dst@)));
                assert(dir_created_before(out1, out1.len() as int, views(dst@)));
            }
            mirror_entries(src, dst, &**tail, out);
            proof {
                let out2 = out@;
                assert(extends(out2, out0));
                assert forall|k: int| 0 <= k < list_files(*l).len() implies plan_links(
                    out2,
                    views(src@) + #[trigger] list_files(*l)[k],
                    views(dst@) + list_files(*l)[k],
                ) by {
                    let hf = tree_files(*head);
                    let p = list_files(*l)[k];
                    if k < hf.len() {
                        assert(p == hf[k]);
                        match *head {
                            FsTree::File { name } => {
                                assert(p =~= seq![name@]);
                                assert(out1[out0.len() as int].is_link_of(
                                    views(src@).push(name@),
                                    views(dst@).push(name@),
                                ));
                                assert(views(src@) + p =~= views(src@).push(name@));
                                assert(views(dst@) + p =~= views(dst@).push(name@));
                                assert(plan_links(out1, views(src@) + p, views(dst@) + p));
                                lemma_links_extend(out1, out2, views(src@) + p, views(dst@) + p);
                            },
                            FsTree::Dir { name, entries } => {
                                let q = list_files(*entries)[k];
                                assert(p == seq![name@] + q);
                                assert(plan_links(
                                    out1,
                                    views(src@).push(name@) + q,
                                    views(dst@).push(name@) + q,
                                ));
                                assert(views(src@) + p =~= views(src@).push(name@) + q);
                                assert(views(dst@) + p =~= views(dst@).push(name@) + q);
                                lemma_links_extend(out1, out2, views(src@) + p, views(dst@) + p);
                            },
                        }
                    } else {
                        let j = k - hf.len();
                        assert(p == list_files(**tail)[j]);
                        assert(plan_links(out2, views(src@) + p, views(dst@) + p));
                    }
                }
                assert forall|k: int| out0.len() <= k < out2.len() implies writes_under(
                    out2[k],
                    views(dst@),
                ) by {
                    if k < out1.len() {
                        assert(out2[k] == out1[k]);
                        match *head {
                            FsTree::File { name } => {
                                assert(views(dst@).push(name@).take(views(dst@).len() as int)
                                    =~= views(dst@));
                            },
                            FsTree::Dir { name, .. } => {
                                assert(views(dst@).push(name@).take(views(dst@).len() as int)
                                    =~= views(dst@));
                                if k != out0.len() {
                                    assert(writes_under(out1[k], views(dst@).push(name@)));
                                    match out1[k] {
                                        MirrorAction::CreateDir { path } => {
                                            lemma_under_parent(
                                                views(path@),
                                                views(dst@),
                                                name@,
                                            );
                                        },
                                        MirrorAction::LinkFile { src: s2, dst: d2 } => {
                                            lemma_under_parent(views(d2@), views(dst@), name@);
                                        },
                                    }
                                }
                            },
                        }
                    } else {
                        assert(writes_under(out2[k], views(dst@)));
                    }
                }
                assert forall|k: int| out0.len() <= k < out2.len() implies parent_created_first(
                    out2,
                    k,
                ) by {
                    if k < out1.len() {
                        assert(out2[k] == out1[k]);
                        if k == out0.len() {
                            let j = choose|j: int|
                                0 <= j < out0.len() && (#[trigger] out0[j]).creates(views(dst@));
                            assert(out2[j].creates(views(dst@)));
                            match *head {
                                FsTree::File { name } => {
                                    assert(views(dst@).push(name@).drop_last() =~= views(dst@));
                                },
                                FsTree::Dir { name, .. } => {
                                    assert(views(dst@).push(name@).drop_last() =~= views(dst@));
                                },
                            }
                        } else {
                            lemma_parent_created_extend(out1, out2, k);
                        }
                    } else {
                        assert(parent_created_first(out2, k));
                    }
                }
            }
        },
    }
}

/// The host runtime library directory inside the installed toolchain's root:
/// `lib/rustlib/<host>`.
pub fn host_src_suffix(host: &str) -> (r: String)
    ensures
        r@ == "lib/rustlib/"@ + host@,
{
    let mut out = "lib/rustlib/".to_owned();
    out.append(host);
    out
}

/// The `rustlib` directory of one profile under the output directory:
/// `<profile>/lib/rustlib`.
pub fn rustlib_dir_suffix(profile: &Profile) -> (r: String)
    ensures
        r@ == profile.name_spec() + "/lib/rustlib"@,
{
    let mut out = profile.name();
    out.append("/lib/rustlib");
    out
}

/// Where the host runtime is mirrored to, under the output directory:
/// `<profile>/lib/rustlib/<host>`.
pub fn host_dst_suffix(profile: &Profile, host: &str) -> (r: String)
    ensures
        r@ == profile.name_spec() + "/lib/rustlib/"@ + host@,
{
    let mut out = profile.name();
    out.append("/lib/rustlib/");
    out.append(host);
    out
}

/// The arguments that ask the installed compiler for its root directory.
pub fn sysroot_query_args() -> (r: Vec<String>)
    ensures
        views(r@) == seq!["--print"@, "sysroot"@],
{
    let mut out: Vec<String> = Vec::new();
    out.push("--print".to_owned());
    out.push("sysroot".to_owned());
    proof {
        assert(views(out@) =~= seq!["--print"@, "sysroot"@]);
    }
    out
}

} // verus!
