//! Target crate builder: the build-project plan for one target and profile.
//!
//! Everything here is a decision the pipeline later acts on: how a target
//! argument is read, which dependency lines the disposable project's manifest
//! gets, which arguments the build tool is handed, and where artifacts land.

use vstd::prelude::*;
use crate::strutil::views;
use crate::strutil::lemma_views_push;
use crate::strutil::push_char;

verus! {

/// The build profile of one run.
#[derive(Clone, Copy, PartialEq, Eq, Structural, Debug)]
pub enum Profile {
    Debug,
    Release,
}

impl Profile {
    pub open spec fn is_release(self) -> bool {
        self is Release
    }

    pub open spec fn name_spec(self) -> Seq<char> {
        match self {
            Profile::Debug => "debug"@,
            Profile::Release => "release"@,
        }
    }

    /// The profile's directory name.
    pub fn name(&self) -> (r: String)
        ensures
            r@ == self.name_spec(),
    {
        match self {
            Profile::Debug => "debug".to_owned(),
            Profile::Release => "release".to_owned(),
        }
    }
}

/// The two profiles keep their artifacts in different directories.
pub proof fn lemma_profile_names_distinct()
    ensures
        Profile::Debug.name_spec() != Profile::Release.name_spec(),
{
    reveal_strlit("debug");
    reveal_strlit("release");
    assert("debug"@.len() == 5);
    assert("release"@.len() == 7);
}

/// How the target was named on the command line.
pub enum Target {
    /// A named triple, such as `arm-unknown-linux-gnueabihf`.
    Triple(String),
    /// A path to a target-specification file.
    SpecFile(String),
}

/// Whether the argument names a specification file: it ends in `json`.
pub open spec fn ends_with_json_spec(s: Seq<char>) -> bool {
    &&& s.len() >= 4
    &&& s[s.len() - 4] == 'j'
    &&& s[s.len() - 3] == 's'
    &&& s[s.len() - 2] == 'o'
    &&& s[s.len() - 1] == 'n'
}

/// Reads a target argument: a name ending in `json` is a specification file,
/// anything else a triple.
pub fn classify_target(arg: &str) -> (r: Target)
    ensures
        ends_with_json_spec(arg@) ==> (r matches Target::SpecFile(p) && p@ == arg@),
        !ends_with_json_spec(arg@) ==> (r matches Target::Triple(t) && t@ == arg@),
{
    let n = arg.unicode_len();
    let is_spec = n >= 4 && arg.get_char(n - 4) == 'j' && arg.get_char(n - 3) == 's'
        && arg.get_char(n - 2) == 'o' && arg.get_char(n - 1) == 'n';
    if is_spec {
        Target::SpecFile(arg.to_owned())
    } else {
        Target::Triple(arg.to_owned())
    }
}

/// The index of the last occurrence of `c`, or `-1`.
pub open spec fn rlast(s: Seq<char>, c: char) -> int
    decreases s.len(),
{
    if s.len() == 0 {
        -1
    } else if s[s.len() - 1] == c {
        s.len() - 1
    } else {
        rlast(s.drop_last(), c)
    }
}

proof fn lemma_rlast_found(s: Seq<char>, c: char, i: int)
    requires
        0 <= i < s.len(),
        s[i] == c,
        forall|j: int| i < j < s.len() ==> s[j] != c,
    ensures
        rlast(s, c) == i,
    decreases s.len(),
{
    if i < s.len() - 1 {
        lemma_rlast_found(s.drop_last(), c, i);
    }
}

proof fn lemma_rlast_none(s: Seq<char>, c: char)
    requires
        forall|j: int| 0 <= j < s.len() ==> s[j] != c,
    ensures
        rlast(s, c) == -1,
    decreases s.len(),
{
    if s.len() > 0 {
        lemma_rlast_none(s.drop_last(), c);
    }
}

/// Finds the last occurrence of a character.
pub fn rfind_char(s: &str, c: char) -> (r: Option<usize>)
    ensures
        r matches Some(i) ==> (rlast(s@, c) == i && i < s@.len() && s@[i as int] == c),
        r is None ==> rlast(s@, c) == -1,
{
    let n = s.unicode_len();
    let mut i: usize = n;
    while i > 0
        invariant
            0 <= i <= n,
            n == s@.len(),
            forall|j: int| i <= j < n ==> s@[j] != c,
        decreases i,
    {
        let ch = s.get_char(i - 1);
        if ch == c {
            proof {
                lemma_rlast_found(s@, c, i - 1);
            }
            return Some(i - 1);
        }
        i = i - 1;
    }
    proof {
        lemma_rlast_none(s@, c);
    }
    None
}

/// The part of a path after its last separator.
pub open spec fn base_name_spec(s: Seq<char>) -> Seq<char> {
    if rlast(s, '/') >= 0 {
        s.skip(rlast(s, '/') + 1)
    } else {
        s
    }
}

/// The file stem: the base name up to its last dot, except that a dot at the
/// very start does not count as an extension separator.
pub open spec fn stem_spec(s: Seq<char>) -> Seq<char> {
    let b = base_name_spec(s);
    if rlast(b, '.') > 0 {
        b.take(rlast(b, '.'))
    } else {
        b
    }
}

/// The stem of a path's file name.
pub fn file_stem(path: &str) -> (r: String)
    ensures
        r@ == stem_spec(path@),
{
    let n = path.unicode_len();
    let base: &str = match rfind_char(path, '/') {
        Some(i) => path.substring_char(i + 1, n),
        None => path,
    };
    let bn = base.unicode_len();
    let stem: &str = match rfind_char(base, '.') {
        Some(i) => {
            if i > 0 {
                base.substring_char(0, i)
            } else {
                base
            }
        },
        None => base,
    };
    proof {
        assert(base@ =~= base_name_spec(path@));
        assert(stem@ =~= stem_spec(path@));
    }
    stem.to_owned()
}

/// The triple the toolchain is invoked for, and the specification file the
/// build project may need.
pub struct TargetIdentity {
    pub triple: String,
    pub spec_file: String,
}

/// Resolves the target's identity: a specification file names its triple by
/// its file stem and is itself the file to install; a named triple is used
/// directly, with `<triple>.json` as the conventional file that may sit
/// beside the invocation.
pub fn resolve_target(target: &Target) -> (r: TargetIdentity)
    ensures
        target matches Target::SpecFile(p) ==> r.triple@ == stem_spec(p@) && r.spec_file@ == p@,
        target matches Target::Triple(t) ==> r.triple@ == t@ && r.spec_file@ == t@ + ".json"@,
{
    match target {
        Target::SpecFile(p) => TargetIdentity { triple: file_stem(p.as_str()), spec_file: p.clone() },
        Target::Triple(t) => {
            let mut f = t.clone();
            f.append(".json");
            TargetIdentity { triple: t.clone(), spec_file: f }
        },
    }
}

/// One dependency line of the build project's manifest: the crate, as a path
/// dependency on its directory inside the cached source tree, which is the
/// crate's name prefixed with `lib`.
pub open spec fn dep_line_spec(name: Seq<char>, src_dir: Seq<char>) -> Seq<char> {
    name + " = { path = '"@ + src_dir + "/lib"@ + name + "' }"@
}

/// Writes one dependency line.
pub fn dep_line(name: &str, src_dir: &str) -> (r: String)
    ensures
        r@ == dep_line_spec(name@, src_dir@),
{
    let mut out = name.to_owned();
    out.append(" = { path = '");
    out.append(src_dir);
    out.append("/lib");
    out.append(name);
    out.append("' }");
    out
}

/// The dependency lines for a whole crate list, each ended by a newline.
pub open spec fn dep_lines_spec(names: Seq<Seq<char>>, src_dir: Seq<char>) -> Seq<char>
    decreases names.len(),
{
    if names.len() == 0 {
        Seq::<char>::empty()
    } else {
        dep_lines_spec(names.drop_last(), src_dir) + dep_line_spec(names.last(), src_dir) + seq![
            '\n',
        ]
    }
}

/// Writes the manifest addition for the whole crate list.
pub fn manifest_deps(crates: &Vec<String>, src_dir: &str) -> (r: String)
    ensures
        r@ == dep_lines_spec(views(crates@), src_dir@),
{
    let mut out = String::new();
    let mut i: usize = 0;
    proof {
        assert(views(crates@).take(0) =~= Seq::<Seq<char>>::empty());
    }
    while i < crates.len()
        invariant
            0 <= i <= crates@.len(),
            out@ == dep_lines_spec(views(crates@).take(i as int), src_dir@),
        decreases crates@.len() - i,
    {
        let line = dep_line(crates[i].as_str(), src_dir);
        out.append(line.as_str());
        push_char(&mut out, '\n');
        proof {
            let vs = views(crates@);
            assert(vs.take(i + 1).drop_last() =~= vs.take(i as int));
            assert(vs.take(i + 1).last() == vs[i as int]);
            assert(out@ =~= dep_lines_spec(vs.take(i + 1), src_dir@));
        }
        i = i + 1;
    }
    proof {
        assert(views(crates@).take(crates@.len() as int) =~= views(crates@));
    }
    out
}

/// The arguments that create the build-project skeleton.
pub open spec fn stage_args_spec(verbose: bool) -> Seq<Seq<char>> {
    let base = seq!["new"@, "--vcs"@, "none"@];
    let b2 = if verbose {
        base.push("--verbose"@)
    } else {
        base
    };
    b2.push("sysroot"@)
}

/// Arguments for staging the disposable build project.
pub fn stage_args(verbose: bool) -> (r: Vec<String>)
    ensures
        views(r@) == stage_args_spec(verbose),
{
    let mut out: Vec<String> = Vec::new();
    out.push("new".to_owned());
    out.push("--vcs".to_owned());
    out.push("none".to_owned());
    if verbose {
        out.push("--verbose".to_owned());
    }
    out.push("sysroot".to_owned());
    proof {
        assert(views(out@) =~= stage_args_spec(verbose));
    }
    out
}

/// The arguments of the toolchain build for a triple and profile.
pub open spec fn build_args_spec(triple: Seq<char>, release: bool, verbose: bool) -> Seq<
    Seq<char>,
> {
    let base = seq!["build"@, "--target"@, triple];
    let b2 = if release {
        base.push("--release"@)
    } else {
        base
    };
    if verbose {
        b2.push("--verbose"@)
    } else {
        b2
    }
}

/// Arguments for the build invocation.
pub fn build_args(triple: &str, profile: &Profile, verbose: bool) -> (r: Vec<String>)
    ensures
        views(r@) == build_args_spec(triple@, profile.is_release(), verbose),
{
    let mut out: Vec<String> = Vec::new();
    out.push("build".to_owned());
    out.push("--target".to_owned());
    out.push(triple.to_owned());
    if matches!(profile, Profile::Release) {
        out.push("--release".to_owned());
    }
    if verbose {
        out.push("--verbose".to_owned());
    }
    proof {
        assert(views(out@) =~= build_args_spec(triple@, profile.is_release(), verbose));
    }
    out
}

/// The build project's directory inside the temporary working directory.
pub fn workspace_project_dir(temp_dir: &str) -> (r: String)
    ensures
        r@ == temp_dir@ + "/sysroot"@,
{
    let mut out = temp_dir.to_owned();
    out.append("/sysroot");
    out
}

/// The entry module that replaces the skeleton's: a minimal freestanding
/// declaration, so the runtime crates build without a standard runtime.
pub fn freestanding_lib_source() -> (r: String)
    ensures
        r@ == "#![no_std]"@,
{
    "#![no_std]".to_owned()
}

/// Where a specification file is installed inside the build project.
pub open spec fn spec_install_dest_spec(workspace: Seq<char>, triple: Seq<char>) -> Seq<char> {
    workspace + seq!['/'] + triple + ".json"@
}

/// The destination of the target-specification file, inside the build
/// project's directory (and only there: the original file is read, never
/// moved, and the destination dies with the workspace).
pub fn spec_install_dest(workspace: &str, triple: &str) -> (r: String)
    ensures
        r@ == spec_install_dest_spec(workspace@, triple@),
        r@.len() > workspace@.len(),
        r@.take(workspace@.len() as int) == workspace@,
{
    let mut out = workspace.to_owned();
    push_char(&mut out, '/');
    out.append(triple);
    out.append(".json");
    proof {
        reveal_strlit(".json");
        assert(out@ =~= spec_install_dest_spec(workspace@, triple@));
        assert(out@.take(workspace@.len() as int) =~= workspace@);
    }
    out
}

/// The sysroot directory that receives the built target artifacts.
pub open spec fn libdir_spec(profile: Profile, triple: Seq<char>) -> Seq<char> {
    profile.name_spec() + "/lib/rustlib/"@ + triple + "/lib"@
}

/// The target artifact directory under the output directory:
/// `<profile>/lib/rustlib/<triple>/lib`.
pub fn libdir_suffix(profile: &Profile, triple: &str) -> (r: String)
    ensures
        r@ == libdir_spec(*profile, triple@),
{
    let mut out = profile.name();
    out.append("/lib/rustlib/");
    out.append(triple);
    out.append("/lib");
    out
}

/// The two profiles' artifact directories never collide.
pub proof fn lemma_libdirs_distinct(t: Seq<char>)
    ensures
        libdir_spec(Profile::Debug, t) != libdir_spec(Profile::Release, t),
{
    reveal_strlit("debug");
    reveal_strlit("release");
    assert(libdir_spec(Profile::Debug, t)[0] == 'd');
    assert(libdir_spec(Profile::Release, t)[0] == 'r');
}

/// Where the build tool leaves the dependency artifacts it produced:
/// `target/<triple>/<profile>/deps` inside the build project.
pub open spec fn deps_dir_spec(triple: Seq<char>, profile: Profile) -> Seq<char> {
    "target/"@ + triple + seq!['/'] + profile.name_spec() + "/deps"@
}

/// The per-target, per-profile artifact directory of the build project.
pub fn deps_dir_suffix(triple: &str, profile: &Profile) -> (r: String)
    ensures
        r@ == deps_dir_spec(triple@, *profile),
{
    let mut out = "target/".to_owned();
    out.append(triple);
    push_char(&mut out, '/');
    let name = profile.name();
    out.append(name.as_str());
    out.append("/deps");
    out
}

/// One file copy of the harvest.
#[derive(PartialEq, Eq, Debug)]
pub struct CopyJob {
    pub src: String,
    pub dst: String,
}

/// Plans the harvest: every produced file is copied, unconditionally, from
/// the artifact directory into the sysroot's target library directory.
pub fn harvest_jobs(deps_dir: &str, libdir: &str, files: &Vec<String>) -> (r: Vec<CopyJob>)
    ensures
        r@.len() == files@.len(),
        forall|i: int| #![trigger r@[i]]
            0 <= i < r@.len() ==> r@[i].src@ == deps_dir@ + seq!['/'] + files@[i]@ && r@[i].dst@
                == libdir@ + seq!['/'] + files@[i]@,
{
    let mut out: Vec<CopyJob> = Vec::new();
    let mut i: usize = 0;
    while i < files.len()
        invariant
            0 <= i <= files@.len(),
            out@.len() == i,
            forall|k: int| #![trigger out@[k]]
                0 <= k < i ==> out@[k].src@ == deps_dir@ + seq!['/'] + files@[k]@ && out@[k].dst@
                    == libdir@ + seq!['/'] + files@[k]@,
        decreases files@.len() - i,
    {
        let mut src = deps_dir.to_owned();
        push_char(&mut src, '/');
        src.append(files[i].as_str());
        let mut dst = libdir.to_owned();
        push_char(&mut dst, '/');
        dst.append(files[i].as_str());
        out.push(CopyJob { src, dst });
        i = i + 1;
    }
    out
}

} // verus!
