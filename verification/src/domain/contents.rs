//! What a file in a tree contributes to.

use crate::bytes;
use crate::domain::relpath;
use crate::domain::relpath::RelPath;
use crate::program;
use vstd::prelude::*;
use vstd::string::*;

verus! {

/// What a file contributes to. Build output is regenerable and is where per-run paths get baked
/// in, so it is neither carried nor hashed.
#[derive(Debug, PartialEq, Eq, Copy, Clone, Structural)]
pub enum Disposition {
    StoreAndHash,
    BuildOutput,
    Ignore,
}

/// Where the files of a tree are being carried.
#[derive(Debug, PartialEq, Eq, Copy, Clone, Structural)]
pub enum Carry {
    /// Into a working directory for an agent.
    IntoWorkTree,
    /// From the phase before, under this one's own output.
    FromPreviousPhase,
    /// From a finished artifact.
    FromArtifact,
}

/// What is carried. What is hashed always is: an artifact whose copy omits a hashed file could not
/// re-derive its own digest.
pub open spec fn carried(c: Carry, d: Disposition) -> bool {
    match d {
        Disposition::StoreAndHash => true,
        Disposition::BuildOutput => false,
        Disposition::Ignore => c != Carry::FromPreviousPhase,
    }
}

impl Carry {
    /// Whether a file of this disposition is carried.
    pub fn admits(self, d: Disposition) -> (r: bool)
        ensures
            r == carried(self, d),
    {
        match d {
            Disposition::StoreAndHash => true,
            Disposition::BuildOutput => false,
            Disposition::Ignore => self != Carry::FromPreviousPhase,
        }
    }
}

/// The crate an agent writes, beside [`C_ORACLE_DIR`].
pub const TRANSLATION_DIR: &'static str = "translation";

/// The C oracle. Nothing under it is ever ignored: a run is graded by comparing this subtree file
/// by file before and after.
pub const C_ORACLE_DIR: &'static str = "c_src";

/// The names of directories that hold build output.
pub open spec fn build_dir_name(s: Seq<u8>) -> bool {
    ||| s == "target".spec_bytes()
    ||| s == "build".spec_bytes()
    ||| s == "c_build".spec_bytes()
    ||| s == "build_c".spec_bytes()
    ||| s == "artifacts".spec_bytes()
    ||| s == "gtest_build".spec_bytes()
    ||| s == "CMakeFiles".spec_bytes()
    ||| s == "e2e_out".spec_bytes()
    ||| s == "build_ffi".spec_bytes()
    ||| s == "fuzz_scripts".spec_bytes()
    ||| bytes::begins(s, "target-".spec_bytes())
    ||| bytes::begins(s, "cbuild".spec_bytes())
}

/// The harness's own bookkeeping files, by name.
pub open spec fn bookkeeping_name(s: Seq<u8>) -> bool {
    ||| s == "result.json".spec_bytes()
    ||| s == "verification.json".spec_bytes()
    ||| s == "translation.json".spec_bytes()
    ||| s == "harvest_bench_report.json".spec_bytes()
    ||| s == "harvest_batch_report.json".spec_bytes()
}

/// The harness's own directories, by name.
pub open spec fn bookkeeping_dir(s: Seq<u8>) -> bool {
    s == "logs".spec_bytes() || s == vstd::utf8::encode_utf8(program::settings_dir())
}

/// The endings of files that are nobody's work.
pub open spec fn discarded_ending(s: Seq<u8>) -> bool {
    ||| bytes::ends(s, ".log".spec_bytes())
    ||| bytes::ends(s, ".bak".spec_bytes())
    ||| bytes::ends(s, ".sha256".spec_bytes())
}

/// The components behind the published crate's root, where the path leads into it: that root is an
/// artifact root too.
pub open spec fn behind_translation(parts: Seq<Seq<u8>>) -> Seq<Seq<u8>> {
    if parts.len() > 0 && parts[0] == TRANSLATION_DIR.spec_bytes() {
        parts.subrange(1, parts.len() as int)
    } else {
        parts
    }
}

/// The parts of a path name something that is ignored: never under the oracle; the harness's
/// directories and bookkeeping at an artifact root only; logs, backups and checksums at any depth.
pub open spec fn ignored_parts(parts: Seq<Seq<u8>>) -> bool {
    &&& parts.len() > 0
    &&& parts[0] != C_ORACLE_DIR.spec_bytes()
    &&& {
        ||| bookkeeping_dir(parts[0])
        ||| vstd::utf8::valid_utf8(parts.last()) && (discarded_ending(parts.last()) || (
        parts.len() == 1 && bookkeeping_name(parts.last())))
    }
}

/// The path is ignored.
pub open spec fn ignored(path: Seq<u8>) -> bool {
    ignored_parts(behind_translation(relpath::components(path)))
}

/// The path leads through a directory of build output.
pub open spec fn under_build_dir(path: Seq<u8>) -> bool {
    exists|i: int|
        0 <= i < relpath::components(path).len() && build_dir_name(
            #[trigger] relpath::components(path)[i],
        )
}

/// What the file at `path` contributes to.
pub open spec fn disposition(path: Seq<u8>, in_build_dir: bool) -> Disposition {
    if ignored(path) {
        Disposition::Ignore
    } else if in_build_dir || under_build_dir(path) {
        Disposition::BuildOutput
    } else {
        Disposition::StoreAndHash
    }
}

fn names_build_dir(s: &[u8]) -> (r: bool)
    ensures
        r == build_dir_name(s@),
{
    bytes::reads(s, "target") || bytes::reads(s, "build") || bytes::reads(s, "c_build")
        || bytes::reads(s, "build_c") || bytes::reads(s, "artifacts") || bytes::reads(
        s,
        "gtest_build",
    ) || bytes::reads(s, "CMakeFiles") || bytes::reads(s, "e2e_out") || bytes::reads(s, "build_ffi")
        || bytes::reads(s, "fuzz_scripts") || bytes::starts_with(s, "target-".as_bytes())
        || bytes::starts_with(s, "cbuild".as_bytes())
}

fn names_bookkeeping(s: &[u8]) -> (r: bool)
    ensures
        r == bookkeeping_name(s@),
{
    bytes::reads(s, "result.json") || bytes::reads(s, "verification.json") || bytes::reads(
        s,
        "translation.json",
    ) || bytes::reads(s, "harvest_bench_report.json") || bytes::reads(
        s,
        "harvest_batch_report.json",
    )
}

/// Whether the file at `p` is nobody's work.
pub fn is_ignored(p: &RelPath) -> (r: bool)
    ensures
        r == ignored(p@),
{
    let parts = relpath::components_of(p.as_path());
    let ghost all = relpath::components(p@);
    assert(all.len() == parts.len());
    assert forall|i: int| 0 <= i < all.len() implies #[trigger] all[i] == parts@[i]@ by {}
    let from: usize = if parts.len() > 0 && bytes::reads(&parts[0], TRANSLATION_DIR) {
        1
    } else {
        0
    };
    let ghost inner = behind_translation(all);
    assert(inner.len() == all.len() - from);
    assert forall|i: int| 0 <= i < inner.len() implies #[trigger] inner[i] == all[i + from] by {}
    if from >= parts.len() {
        return false;
    }
    assert(inner[0] == parts@[from as int]@);
    if bytes::reads(&parts[from], C_ORACLE_DIR) {
        return false;
    }
    if bytes::reads(&parts[from], "logs") || bytes::reads(
        &parts[from],
        program::settings_dir_name().as_str(),
    ) {
        return true;
    }
    let last: usize = parts.len() - 1;
    assert(inner.last() == parts@[last as int]@);
    let name = &parts[last];
    bytes::is_utf8(name) && (bytes::ends_with(name, ".log".as_bytes()) || bytes::ends_with(
        name,
        ".bak".as_bytes(),
    ) || bytes::ends_with(name, ".sha256".as_bytes()) || (last == from && names_bookkeeping(name)))
}

/// What the file at `rel` contributes to. `in_build_dir` is true where an ancestor within the tree
/// was itself build output.
pub fn classify(rel: &RelPath, in_build_dir: bool) -> (r: Disposition)
    ensures
        r == disposition(rel@, in_build_dir),
{
    if is_ignored(rel) {
        return Disposition::Ignore;
    }
    if in_build_dir {
        return Disposition::BuildOutput;
    }
    let parts = relpath::components_of(rel.as_path());
    let ghost all = relpath::components(rel@);
    let mut i: usize = 0;
    while i < parts.len()
        invariant
            i <= parts.len(),
            bytes::byte_views(parts@) == all,
            all == relpath::components(rel@),
            !ignored(rel@),
            forall|j: int| 0 <= j < i ==> !build_dir_name(#[trigger] all[j]),
        decreases parts.len() - i,
    {
        assert(all[i as int] == parts@[i as int]@);
        if names_build_dir(&parts[i]) {
            return Disposition::BuildOutput;
        }
        i = i + 1;
    }
    Disposition::StoreAndHash
}

// ---------------------------------------------------------------------------
// Laws
// ---------------------------------------------------------------------------

/// Nothing under the C oracle is ever ignored, neither at the artifact root nor inside the
/// published crate.
pub proof fn law_nothing_under_the_oracle_is_ignored(path: Seq<u8>, in_build_dir: bool)
    requires
        behind_translation(relpath::components(path)).len() > 0,
        behind_translation(relpath::components(path))[0] == C_ORACLE_DIR.spec_bytes(),
    ensures
        disposition(path, in_build_dir) != Disposition::Ignore,
{
}

/// Whatever is hashed is carried, wherever it is carried to.
pub proof fn law_what_is_hashed_is_carried(c: Carry, path: Seq<u8>, in_build_dir: bool)
    requires
        disposition(path, in_build_dir) == Disposition::StoreAndHash,
    ensures
        carried(c, disposition(path, in_build_dir)),
{
}

/// What stands in build output is never carried or hashed.
pub proof fn law_build_output_is_never_hashed(path: Seq<u8>)
    ensures
        disposition(path, true) != Disposition::StoreAndHash,
        disposition(path, true) == Disposition::BuildOutput ==> forall|c: Carry|
            !#[trigger] carried(c, disposition(path, true)),
{
}

/// The harness's bookkeeping is ignored only at an artifact root: deeper down the same name is the
/// program's own file.
pub proof fn law_bookkeeping_counts_only_at_a_root(path: Seq<u8>)
    requires
        behind_translation(relpath::components(path)).len() > 1,
        !bookkeeping_dir(behind_translation(relpath::components(path))[0]),
        !discarded_ending(behind_translation(relpath::components(path)).last()),
    ensures
        !ignored(path),
{
}

/// Being found below build output only ever moves a file out of the hash, never into it, and
/// leaves what is ignored ignored.
pub proof fn law_a_build_ancestor_changes_nothing_else(path: Seq<u8>)
    ensures
        disposition(path, true) == Disposition::Ignore <==> disposition(path, false)
            == Disposition::Ignore,
        disposition(path, false) == Disposition::BuildOutput ==> disposition(path, true)
            == Disposition::BuildOutput,
{
}

/// What building leaves is known by the directories that it lies in: ten by their names and two by how
/// their names begin. It is set apart wherever such a directory stands in its path.
pub proof fn law_build_output_lies_in_a_build_directory(path: Seq<u8>)
    ensures
        !ignored(path) ==> (disposition(path, false) == Disposition::BuildOutput <==> exists|i: int|
            0 <= i < relpath::components(path).len() && {
                let s = #[trigger] relpath::components(path)[i];
                ||| s == "target".spec_bytes()
                ||| s == "build".spec_bytes()
                ||| s == "c_build".spec_bytes()
                ||| s == "build_c".spec_bytes()
                ||| s == "artifacts".spec_bytes()
                ||| s == "gtest_build".spec_bytes()
                ||| s == "CMakeFiles".spec_bytes()
                ||| s == "e2e_out".spec_bytes()
                ||| s == "build_ffi".spec_bytes()
                ||| s == "fuzz_scripts".spec_bytes()
                ||| bytes::begins(s, "target-".spec_bytes())
                ||| bytes::begins(s, "cbuild".spec_bytes())
            }),
        disposition(path, false) == Disposition::StoreAndHash <==> !ignored(path)
            && !under_build_dir(path),
{
    let c = relpath::components(path);
    if under_build_dir(path) {
        let i = choose|i: int| 0 <= i < c.len() && build_dir_name(#[trigger] c[i]);
        assert(build_dir_name(c[i]));
    }
}

/// What the harness writes is passed over: its own records at a root, its two directories, and the
/// files of three endings wherever they are, but nothing of the C reference. A translation has a root
/// of its own.
pub proof fn law_the_harness_passes_over_what_it_writes(parts: Seq<Seq<u8>>)
    ensures
        parts.len() > 0 && parts[0] == "c_src".spec_bytes() ==> !ignored_parts(parts),
        parts.len() > 0 && parts[0] != "c_src".spec_bytes() && (parts[0] == "logs".spec_bytes()
            || parts[0] == vstd::utf8::encode_utf8(program::settings_dir())) ==> ignored_parts(
            parts,
        ),
        parts.len() > 0 && parts[0] != "c_src".spec_bytes() && vstd::utf8::valid_utf8(parts.last())
            && (bytes::ends(parts.last(), ".log".spec_bytes()) || bytes::ends(
            parts.last(),
            ".bak".spec_bytes(),
        ) || bytes::ends(parts.last(), ".sha256".spec_bytes())) ==> ignored_parts(parts),
        parts.len() == 1 && parts[0] != "c_src".spec_bytes() && vstd::utf8::valid_utf8(parts[0]) && (
        parts[0] == "result.json".spec_bytes() || parts[0] == "verification.json".spec_bytes()
            || parts[0] == "translation.json".spec_bytes() || parts[0]
            == "harvest_bench_report.json".spec_bytes() || parts[0]
            == "harvest_batch_report.json".spec_bytes()) ==> ignored_parts(parts),
        ignored_parts(parts) ==> {
            ||| parts[0] == "logs".spec_bytes()
            ||| parts[0] == vstd::utf8::encode_utf8(program::settings_dir())
            ||| bytes::ends(parts.last(), ".log".spec_bytes())
            ||| bytes::ends(parts.last(), ".bak".spec_bytes())
            ||| bytes::ends(parts.last(), ".sha256".spec_bytes())
            ||| parts.len() == 1 && (parts[0] == "result.json".spec_bytes() || parts[0]
                == "verification.json".spec_bytes() || parts[0] == "translation.json".spec_bytes()
                || parts[0] == "harvest_bench_report.json".spec_bytes() || parts[0]
                == "harvest_batch_report.json".spec_bytes())
        },
        parts.len() > 0 && parts[0] == "translation".spec_bytes() ==> behind_translation(parts)
            == parts.subrange(1, parts.len() as int),
        parts.len() == 0 || parts[0] != "translation".spec_bytes() ==> behind_translation(parts)
            == parts,
{
}

/// What is hashed is always carried and what building left never is; what the harness writes is carried
/// but into the next phase.
pub proof fn law_only_the_next_phase_drops_the_records(c: Carry)
    ensures
        carried(c, Disposition::StoreAndHash),
        !carried(c, Disposition::BuildOutput),
        carried(c, Disposition::Ignore) <==> c != Carry::FromPreviousPhase,
{
}

} // verus!
