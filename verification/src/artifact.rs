//! Trees of files: which of them belong to an artifact, what their digest is, and whether the C
//! reference in them is the one that was shipped.

use crate::bytes;
use crate::digest;
use crate::domain::contents;
use crate::domain::contents::Carry;
use crate::domain::contents::Disposition;
use crate::domain::health::Completed;
use crate::domain::relpath;
use crate::domain::relpath::RelPath;
use crate::paths;
use crate::program;
use crate::text;
use std::marker::PhantomData;
use vstd::prelude::*;
use vstd::string::*;

verus! {

// ---------------------------------------------------------------------------
// Phases
// ---------------------------------------------------------------------------

/// A step that leaves an artifact: where it goes, and what stands beside it.
pub trait Phase: Sized {
    /// The directory.
    spec fn dir_name() -> Seq<char>;

    /// The name of the transcript, in the directory's `logs`.
    spec fn log_name() -> Seq<char>;

    /// The name of the record beside the artifact.
    spec fn metrics_name() -> Seq<char>;

    /// The directories that a fresh result makes stale.
    spec fn stale() -> Seq<Seq<char>>;

    fn dir() -> (r: &'static str)
        ensures
            r@ == Self::dir_name(),
    ;

    fn log() -> (r: &'static str)
        ensures
            r@ == Self::log_name(),
    ;

    fn metrics() -> (r: &'static str)
        ensures
            r@ == Self::metrics_name(),
    ;

    fn invalidates() -> (r: Vec<String>)
        ensures
            text::views(r@) == Self::stale(),
    ;
}

/// The translation.
#[derive(Debug, Copy, Clone)]
pub struct Translate;

/// The verification.
#[derive(Debug, Copy, Clone)]
pub struct Verify;

/// The directory of a translation.
pub const TRANSLATED: &'static str = "translated";

/// The directory of a verification.
pub const VERIFIED: &'static str = "verified";

/// The crate in a working directory.
pub const TRANSLATED_RUST: &'static str = "translated_rust";

impl Phase for Translate {
    open spec fn dir_name() -> Seq<char> {
        TRANSLATED@
    }

    open spec fn log_name() -> Seq<char> {
        "translation.log"@
    }

    open spec fn metrics_name() -> Seq<char> {
        "translation.json"@
    }

    open spec fn stale() -> Seq<Seq<char>> {
        seq![VERIFIED@]
    }

    fn dir() -> (r: &'static str) {
        TRANSLATED
    }

    fn log() -> (r: &'static str) {
        "translation.log"
    }

    fn metrics() -> (r: &'static str) {
        "translation.json"
    }

    fn invalidates() -> (r: Vec<String>) {
        let mut v: Vec<String> = Vec::new();
        v.push(text::copy(VERIFIED));
        assert(text::views(v@) =~= seq![VERIFIED@]);
        v
    }
}

impl Phase for Verify {
    open spec fn dir_name() -> Seq<char> {
        VERIFIED@
    }

    open spec fn log_name() -> Seq<char> {
        "verify.log"@
    }

    open spec fn metrics_name() -> Seq<char> {
        "verification.json"@
    }

    open spec fn stale() -> Seq<Seq<char>> {
        Seq::empty()
    }

    fn dir() -> (r: &'static str) {
        VERIFIED
    }

    fn log() -> (r: &'static str) {
        "verify.log"
    }

    fn metrics() -> (r: &'static str) {
        "verification.json"
    }

    fn invalidates() -> (r: Vec<String>) {
        let v: Vec<String> = Vec::new();
        assert(text::views(v@) =~= Seq::<Seq<char>>::empty());
        v
    }
}

/// Where the logs of a phase go.
pub open spec fn logs_in<P: Phase>(case_dir: Seq<char>) -> Seq<char> {
    paths::joined(paths::joined(case_dir, P::dir_name()), "logs"@)
}

/// Where the logs of a phase go.
pub fn phase_logs<P: Phase>(case_dir: &str) -> (r: String)
    ensures
        r@ == logs_in::<P>(case_dir@),
{
    paths::join3(case_dir, P::dir(), "logs")
}

/// Where the transcript of a phase goes.
pub fn phase_log<P: Phase>(case_dir: &str) -> (r: String)
    ensures
        r@ == paths::joined(logs_in::<P>(case_dir@), P::log_name()),
{
    paths::join(phase_logs::<P>(case_dir).as_str(), P::log())
}

/// Where the record of a phase goes.
pub fn phase_metrics<P: Phase>(case_dir: &str) -> (r: String)
    ensures
        r@ == paths::joined(paths::joined(case_dir@, P::dir_name()), P::metrics_name()),
{
    paths::join3(case_dir, P::dir(), P::metrics())
}

/// What of a phase's directory survives a fresh result: its logs, which are written while the agent
/// runs.
pub fn survives_clearing(name: &str) -> (r: bool)
    ensures
        r == (name@ == "logs"@),
{
    text::same_text(name, "logs")
}

/// The directories that a fresh result of a phase removes whole.
pub open spec fn stale_dirs_in<P: Phase>(case_dir: Seq<char>) -> Seq<Seq<char>> {
    P::stale().map_values(|d: Seq<char>| paths::joined(case_dir, d))
}

/// The directories that a fresh result of a phase removes whole.
pub fn stale_dirs<P: Phase>(case_dir: &str) -> (r: Vec<String>)
    ensures
        text::views(r@) == stale_dirs_in::<P>(case_dir@),
{
    let names = P::invalidates();
    let ghost all = P::stale();
    let mut out: Vec<String> = Vec::new();
    let mut i: usize = 0;
    while i < names.len()
        invariant
            i <= names.len(),
            all == text::views(names@),
            all == P::stale(),
            text::views(out@) == stale_dirs_in::<P>(case_dir@).subrange(0, i as int),
        decreases names.len() - i,
    {
        broadcast use text::lemma_views_push;

        assert(all[i as int] == names@[i as int]@);
        out.push(paths::join(case_dir, names[i].as_str()));
        i = i + 1;
        assert(text::views(out@) =~= stale_dirs_in::<P>(case_dir@).subrange(0, i as int));
    }
    assert(stale_dirs_in::<P>(case_dir@).subrange(0, names.len() as int) =~= stale_dirs_in::<P>(
        case_dir@,
    ));
    out
}

/// The entries of a phase's directory that a fresh result of it removes, in their order.
pub open spec fn outdated(dir: Seq<char>, names: Seq<Seq<char>>) -> Seq<Seq<char>>
    decreases names.len(),
{
    if names.len() == 0 {
        Seq::empty()
    } else {
        let before = outdated(dir, names.drop_last());
        if names.last() == "logs"@ {
            before
        } else {
            before.push(paths::joined(dir, names.last()))
        }
    }
}

/// What must go to make room for a fresh result of a phase: the later phases, which were made from the
/// result that it replaces, and everything in the phase's own directory but its logs. `names` are the
/// entries of that directory.
pub fn clear_phase<P: Phase>(case_dir: &str, names: &[String]) -> (r: Vec<String>)
    ensures
        text::views(r@) == stale_dirs_in::<P>(case_dir@) + outdated(
            paths::joined(case_dir@, P::dir_name()),
            text::views(names@),
        ),
{
    let mut out = stale_dirs::<P>(case_dir);
    let dir = paths::join(case_dir, P::dir());
    let ghost before = text::views(out@);
    let ghost all = text::views(names@);
    let mut i: usize = 0;
    assert(text::views(out@) =~= before + outdated(dir@, all.subrange(0, 0)));
    while i < names.len()
        invariant
            i <= names.len(),
            all == text::views(names@),
            text::views(out@) == before + outdated(dir@, all.subrange(0, i as int)),
        decreases names.len() - i,
    {
        broadcast use text::lemma_views_push;

        let ghost so_far = text::views(out@);
        assert(all.subrange(0, i + 1).drop_last() =~= all.subrange(0, i as int));
        assert(all.subrange(0, i + 1).last() == names@[i as int]@);
        if !survives_clearing(names[i].as_str()) {
            out.push(paths::join(dir.as_str(), names[i].as_str()));
            assert(text::views(out@) == so_far.push(paths::joined(dir@, all[i as int])));
        }
        i = i + 1;
        assert(text::views(out@) =~= before + outdated(dir@, all.subrange(0, i as int)));
    }
    assert(all.subrange(0, names.len() as int) =~= all);
    out
}

/// What is copied under what, to make the tree of a phase: the translation first, where the phase is
/// another and there is one, and then the artifact itself.
pub open spec fn layers<P: Phase>(translated_is_dir: bool) -> Seq<Carry> {
    if translated_is_dir && P::dir_name() != TRANSLATED@ {
        seq![Carry::FromPreviousPhase, Carry::FromArtifact]
    } else {
        seq![Carry::FromArtifact]
    }
}

/// What is copied under what, to make the tree of a phase.
pub fn assembly<P: Phase>(translated_is_dir: bool) -> (r: Vec<Carry>)
    ensures
        r@ == layers::<P>(translated_is_dir),
{
    let mut v: Vec<Carry> = Vec::new();
    if translated_is_dir && !text::same_text(P::dir(), TRANSLATED) {
        v.push(Carry::FromPreviousPhase);
    }
    v.push(Carry::FromArtifact);
    assert(v@ =~= layers::<P>(translated_is_dir));
    v
}

/// Where a seed lands in a working directory.
#[derive(Copy, Clone, Debug, PartialEq, Eq, Structural)]
pub enum SeedAt {
    /// As the crate.
    CrateRoot,
    /// As the C reference in the crate.
    COracle,
}

/// The place of a seed in a working directory.
pub open spec fn seed_place(root: Seq<char>, at: SeedAt) -> Seq<char> {
    let krate = paths::joined(root, TRANSLATED_RUST@);
    match at {
        SeedAt::CrateRoot => krate,
        SeedAt::COracle => paths::joined(krate, contents::C_ORACLE_DIR@),
    }
}

/// The place of a seed in a working directory.
pub fn seed(root: &str, at: SeedAt) -> (r: String)
    ensures
        r@ == seed_place(root@, at),
{
    let krate = paths::join(root, TRANSLATED_RUST);
    match at {
        SeedAt::CrateRoot => krate,
        SeedAt::COracle => paths::join(krate.as_str(), contents::C_ORACLE_DIR),
    }
}

/// A phase whose working directory may be seeded from `S`.
pub trait SeededBy<S>: Phase {
    spec fn place() -> SeedAt;

    fn at() -> (r: SeedAt)
        ensures
            r == Self::place(),
    ;
}

/// Who may change a stored tree.
#[derive(Debug, PartialEq, Eq, Copy, Clone, Structural)]
pub enum Access {
    ReadOnly,
    Writable,
}

impl Access {
    /// Whether nobody may.
    pub fn locked(self) -> (r: bool)
        ensures
            r == (self == Access::ReadOnly),
    {
        self == Access::ReadOnly
    }

    /// The permission bits of a directory.
    pub fn dir_mode(self) -> (r: u32)
        ensures
            r == (if self == Access::ReadOnly {
                0o555u32
            } else {
                0o755u32
            }),
    {
        if self.locked() {
            0o555
        } else {
            0o755
        }
    }

    /// The permission bits of a file.
    pub fn file_mode(self) -> (r: u32)
        ensures
            r == (if self == Access::ReadOnly {
                0o444u32
            } else {
                0o644u32
            }),
    {
        if self.locked() {
            0o444
        } else {
            0o644
        }
    }
}

// ---------------------------------------------------------------------------
// Trees
// ---------------------------------------------------------------------------

/// A file with its bytes, or a directory with its entries. What stands behind a link is what the link
/// leads to.
#[derive(Debug)]
pub enum Node {
    File(Vec<u8>),
    Dir(Vec<Entry>),
}

/// An entry of a directory.
#[derive(Debug)]
pub struct Entry {
    pub name: Vec<u8>,
    /// The entry is a link.
    pub link: bool,
    pub node: Node,
}

/// A path and the bytes of the file there.
pub type FileView = (Seq<u8>, Seq<u8>);

/// Which files a walk admits.
#[derive(Debug, Copy, Clone, PartialEq, Eq, Structural)]
pub enum Admit {
    /// Those of the digest.
    Hashed,
    /// Those of the C reference, taken as a tree of its own: everything but build output.
    Oracle,
    /// Those that are carried.
    Carried(Carry),
}

/// What a walk admits.
pub open spec fn admitted(a: Admit, d: Disposition) -> bool {
    match a {
        Admit::Hashed => d == Disposition::StoreAndHash,
        Admit::Oracle => d != Disposition::BuildOutput,
        Admit::Carried(c) => contents::carried(c, d),
    }
}

/// Whether a file of this disposition belongs to the C reference, taken as a tree of its own.
pub fn oracle_admits(d: Disposition) -> (r: bool)
    ensures
        r == admitted(Admit::Oracle, d),
{
    d != Disposition::BuildOutput
}

/// Whether a walk admits a file of this disposition.
pub fn admits(a: Admit, d: Disposition) -> (r: bool)
    ensures
        r == admitted(a, d),
{
    match a {
        Admit::Hashed => d == Disposition::StoreAndHash,
        Admit::Oracle => oracle_admits(d),
        Admit::Carried(c) => c.admits(d),
    }
}

/// The names of entries.
pub open spec fn names_of(es: Seq<Entry>) -> Seq<Seq<u8>> {
    es.map_values(|e: Entry| e.name@)
}

/// The place of the first entry with a name.
pub open spec fn place_of(es: Seq<Entry>, name: Seq<u8>) -> Option<int>
    decreases es.len(),
{
    if es.len() == 0 {
        None
    } else {
        match place_of(es.drop_last(), name) {
            Some(i) => Some(i),
            None => if es.last().name@ == name {
                Some(es.len() - 1)
            } else {
                None
            },
        }
    }
}

/// The directory is one that cmake built in: it says so by what it holds.
pub open spec fn built_by_cmake(es: Seq<Entry>) -> bool {
    ||| exists|i: int|
        0 <= i < es.len() && (#[trigger] es[i]).name@ == "CMakeCache.txt".spec_bytes()
            && es[i].node is File
    ||| exists|i: int|
        0 <= i < es.len() && (#[trigger] es[i]).name@ == "CMakeFiles".spec_bytes()
            && es[i].node is Dir
}

/// The path of an entry.
pub open spec fn below(prefix: Seq<u8>, name: Seq<u8>) -> Seq<u8> {
    if prefix.len() == 0 {
        name
    } else {
        prefix + seq![47u8] + name
    }
}

/// The entry is part of what a walk sees: its path stays in the tree, and the walk admits it.
pub open spec fn seen(rel: Seq<u8>, build_here: bool, a: Admit) -> bool {
    relpath::stays_inside(rel) && admitted(a, contents::disposition(rel, build_here))
}

/// The files that a walk finds at a node.
pub open spec fn files_at(n: Node, rel: Seq<u8>, in_build: bool, a: Admit) -> Seq<FileView>
    decreases n, 0nat, 0nat,
{
    match n {
        Node::File(b) => seq![(rel, b@)],
        Node::Dir(es) => files_in(es@, rel, in_build, a),
    }
}

/// The files that a walk finds in a directory, in the order of their names. A directory that the walk
/// does not admit is not opened, and below build output everything is.
pub open spec fn files_in(es: Seq<Entry>, prefix: Seq<u8>, in_build: bool, a: Admit) -> Seq<
    FileView,
>
    decreases es, 1nat, 0nat,
{
    files_over(
        es,
        bytes::in_order(names_of(es)),
        prefix,
        in_build || built_by_cmake(es),
        a,
    )
}

/// The files that a walk finds under the given names of a directory.
pub open spec fn files_over(
    es: Seq<Entry>,
    order: Seq<Seq<u8>>,
    prefix: Seq<u8>,
    build_here: bool,
    a: Admit,
) -> Seq<FileView>
    decreases es, 0nat, order.len(),
{
    if order.len() == 0 {
        Seq::empty()
    } else {
        let before = files_over(es, order.drop_last(), prefix, build_here, a);
        let name = order.last();
        let rel = below(prefix, name);
        match place_of(es, name) {
            Some(p) => if 0 <= p < es.len() && seen(rel, build_here, a) {
                before + files_at(es[p].node, rel, build_here, a)
            } else {
                before
            },
            None => before,
        }
    }
}

/// A file that a walk found.
pub struct FileAt<'a> {
    pub path: Vec<u8>,
    pub content: &'a Vec<u8>,
}

/// What walks found.
pub open spec fn file_views(s: Seq<FileAt>) -> Seq<FileView> {
    s.map_values(|f: FileAt| (f.path@, f.content@))
}

fn find_entry(es: &Vec<Entry>, name: &[u8]) -> (r: Option<usize>)
    ensures
        r is Some <==> place_of(es@, name@) is Some,
        r matches Some(i) ==> i < es.len() && place_of(es@, name@) == Some(i as int)
            && es@[i as int].name@ == name@,
{
    let mut i: usize = 0;
    while i < es.len()
        invariant
            i <= es.len(),
            place_of(es@.subrange(0, i as int), name@) is None,
        decreases es.len() - i,
    {
        assert(es@.subrange(0, i + 1).drop_last() =~= es@.subrange(0, i as int));
        if bytes::same(&es[i].name, name) {
            proof {
                lemma_place_extends(es@, name@, i + 1);
            }
            return Some(i);
        }
        i = i + 1;
    }
    assert(es@.subrange(0, es.len() as int) =~= es@);
    None
}

proof fn lemma_place_extends(es: Seq<Entry>, name: Seq<u8>, n: int)
    requires
        0 <= n <= es.len(),
        place_of(es.subrange(0, n), name) is Some,
    ensures
        place_of(es, name) == place_of(es.subrange(0, n), name),
    decreases es.len() - n,
{
    if n == es.len() {
        assert(es.subrange(0, n) =~= es);
    } else {
        assert(es.subrange(0, n + 1).drop_last() =~= es.subrange(0, n));
        lemma_place_extends(es, name, n + 1);
    }
}

/// Whether a directory is one that cmake built in.
pub fn is_cmake_build_dir(es: &Vec<Entry>) -> (r: bool)
    ensures
        r == built_by_cmake(es@),
{
    let mut i: usize = 0;
    while i < es.len()
        invariant
            i <= es.len(),
            forall|j: int|
                0 <= j < i ==> !((#[trigger] es@[j]).name@ == "CMakeCache.txt".spec_bytes()
                    && es@[j].node is File),
            forall|j: int|
                0 <= j < i ==> !((#[trigger] es@[j]).name@ == "CMakeFiles".spec_bytes()
                    && es@[j].node is Dir),
        decreases es.len() - i,
    {
        let e = &es[i];
        match e.node {
            Node::File(_) => if bytes::reads(&e.name, "CMakeCache.txt") {
                assert(es@[i as int].node is File);
                return true;
            },
            Node::Dir(_) => if bytes::reads(&e.name, "CMakeFiles") {
                assert(es@[i as int].node is Dir);
                return true;
            },
        }
        i = i + 1;
    }
    false
}

fn sorted_names(es: &Vec<Entry>) -> (r: Vec<Vec<u8>>)
    ensures
        bytes::byte_views(r@) == bytes::in_order(names_of(es@)),
{
    let mut names: Vec<Vec<u8>> = Vec::new();
    let mut i: usize = 0;
    while i < es.len()
        invariant
            i <= es.len(),
            bytes::byte_views(names@) == names_of(es@).subrange(0, i as int),
        decreases es.len() - i,
    {
        broadcast use bytes::lemma_byte_views_push;

        names.push(bytes::copy(&es[i].name));
        i = i + 1;
        assert(bytes::byte_views(names@) =~= names_of(es@).subrange(0, i as int));
    }
    assert(names_of(es@).subrange(0, es.len() as int) =~= names_of(es@));
    bytes::sort(names.as_slice())
}

fn path_below(prefix: &[u8], name: &[u8]) -> (r: Vec<u8>)
    ensures
        r@ == below(prefix@, name@),
{
    if prefix.len() == 0 {
        return bytes::copy(name);
    }
    let mut out = bytes::copy(prefix);
    out.push(47);
    let ghost before = out@;
    let mut i: usize = 0;
    while i < name.len()
        invariant
            i <= name.len(),
            before == prefix@ + seq![47u8],
            out@ == before + name@.subrange(0, i as int),
        decreases name.len() - i,
    {
        out.push(name[i]);
        i = i + 1;
        assert(out@ =~= before + name@.subrange(0, i as int));
    }
    assert(name@.subrange(0, name.len() as int) =~= name@);
    out
}

fn is_seen(rel: &[u8], build_here: bool, a: Admit) -> (r: bool)
    ensures
        r == seen(rel@, build_here, a),
{
    match RelPath::from_bytes(rel) {
        Some(p) => admits(a, contents::classify(&p, build_here)),
        None => false,
    }
}

fn walk_node<'a>(
    n: &'a Node,
    rel: &[u8],
    in_build: bool,
    a: Admit,
    out: &mut Vec<FileAt<'a>>,
)
    ensures
        file_views(final(out)@) == file_views(old(out)@) + files_at(*n, rel@, in_build, a),
    decreases *n, 0nat,
{
    match n {
        Node::File(b) => {
            let ghost before = file_views(out@);
            out.push(FileAt { path: bytes::copy(rel), content: b });
            assert(file_views(out@) =~= before + seq![(rel@, b@)]);
        },
        Node::Dir(es) => {
            let build_here = in_build || is_cmake_build_dir(es);
            let order = sorted_names(es);
            assert(decreases_to!(*n => n->Dir_0));
            assert(decreases_to!(*es => es@));
            walk_entries(es, order.as_slice(), rel, build_here, a, out);
        },
    }
}

fn walk_entries<'a>(
    es: &'a Vec<Entry>,
    order: &[Vec<u8>],
    prefix: &[u8],
    build_here: bool,
    a: Admit,
    out: &mut Vec<FileAt<'a>>,
)
    ensures
        file_views(final(out)@) == file_views(old(out)@) + files_over(
            es@,
            bytes::byte_views(order@),
            prefix@,
            build_here,
            a,
        ),
    decreases es@, 1nat,
{
    let ghost start = file_views(out@);
    let ghost o = bytes::byte_views(order@);
    let mut i: usize = 0;
    assert(file_views(out@) =~= start + files_over(
        es@,
        o.subrange(0, 0),
        prefix@,
        build_here,
        a,
    ));
    while i < order.len()
        invariant
            i <= order.len(),
            o == bytes::byte_views(order@),
            file_views(out@) == start + files_over(
                es@,
                o.subrange(0, i as int),
                prefix@,
                build_here,
                a,
            ),
        decreases order.len() - i,
    {
        let ghost before = file_views(out@);
        assert(o.subrange(0, i + 1).drop_last() =~= o.subrange(0, i as int));
        assert(o.subrange(0, i + 1).last() == order@[i as int]@);
        let rel = path_below(prefix, &order[i]);
        if let Some(p) = find_entry(es, &order[i]) {
            if is_seen(&rel, build_here, a) {
                assert(decreases_to!(es@ => es@[p as int]));
                assert(decreases_to!(es@[p as int] => es@[p as int].node));
                walk_node(&es[p].node, &rel, build_here, a, out);
            }
        }
        i = i + 1;
        assert(file_views(out@) =~= start + files_over(
            es@,
            o.subrange(0, i as int),
            prefix@,
            build_here,
            a,
        ));
    }
    assert(o.subrange(0, order.len() as int) =~= o);
}

/// The walk of an artifact's tree: hashing and copying both go through it, so which files are part of
/// the artifact has one answer.
pub fn visit<'a>(root: &'a Vec<Entry>, a: Admit) -> (r: Vec<FileAt<'a>>)
    ensures
        file_views(r@) == files_in(root@, Seq::empty(), false, a),
{
    let mut out: Vec<FileAt<'a>> = Vec::new();
    let order = sorted_names(root);
    let none: Vec<u8> = Vec::new();
    walk_entries(root, order.as_slice(), &none, is_cmake_build_dir(root), a, &mut out);
    assert(none@ =~= Seq::<u8>::empty());
    assert(file_views(out@) =~= files_in(root@, Seq::empty(), false, a));
    out
}

// ---------------------------------------------------------------------------
// Digests
// ---------------------------------------------------------------------------

/// The paths and bytes of files, in turn.
pub open spec fn file_fields(files: Seq<FileView>) -> Seq<Seq<u8>>
    decreases files.len(),
{
    if files.len() == 0 {
        Seq::empty()
    } else {
        file_fields(files.drop_last()).push(files.last().0).push(files.last().1)
    }
}

/// What is hashed of a tree: a mark of the format, and then the path and the bytes of every file.
pub open spec fn tree_fields(files: Seq<FileView>) -> Seq<Seq<u8>> {
    seq!["harvest-tree-v1".spec_bytes()] + file_fields(files)
}

/// The digest of files.
pub open spec fn files_digest(files: Seq<FileView>) -> Seq<char> {
    digest::digest_text(digest::frames(tree_fields(files)))
}

/// The digest of a tree, over the files that a walk admits.
pub open spec fn tree_digest(root: Seq<Entry>, a: Admit) -> Seq<char> {
    files_digest(files_in(root, Seq::empty(), false, a))
}

/// The digest of a tree. Only hashing a tree makes one.
#[derive(Debug, Clone, PartialEq, Eq, Hash)]
pub struct TreeDigest(String);

impl View for TreeDigest {
    type V = Seq<char>;

    closed spec fn view(&self) -> Seq<char> {
        self.0@
    }
}

impl TreeDigest {
    /// The digest as it is written.
    pub fn as_str(&self) -> (r: &str)
        ensures
            r@ == self@,
    {
        self.0.as_str()
    }

    /// The digest shortened, enough to tell two apart by eye.
    pub fn short(&self) -> (r: String)
        ensures
            r@ == shortened(self@),
    {
        shorten(self.0.as_str())
    }
}

/// A digest shortened: its kind and twelve of its hex digits.
pub open spec fn shortened(digest: Seq<char>) -> Seq<char> {
    (if digest.len() <= 19 {
        digest
    } else {
        digest.subrange(0, 19)
    }) + "…"@
}

/// A digest shortened.
pub fn shorten(digest: &str) -> (r: String)
    ensures
        r@ == shortened(digest@),
{
    let v = text::chars_of(digest);
    let n: usize = if v.len() <= 19 {
        v.len()
    } else {
        19
    };
    let head = text::cut(&v, 0, n);
    assert(digest@.len() <= 19 ==> head@ =~= digest@);
    text::join2(text::string_of(&head).as_str(), "…")
}

proof fn lemma_frames_push(fields: Seq<Seq<u8>>, f: Seq<u8>)
    ensures
        digest::frames(fields.push(f)) == digest::frames(fields) + digest::framed(f),
{
    assert(fields.push(f).drop_last() =~= fields);
}

fn hash_files(files: &[FileAt]) -> (r: TreeDigest)
    ensures
        r@ == files_digest(file_views(files@)),
        digest::well_written(r@),
{
    let ghost all = file_views(files@);
    let ghost tag = "harvest-tree-v1".spec_bytes();
    let mut h: Vec<u8> = Vec::new();
    digest::feed(&mut h, "harvest-tree-v1".as_bytes());
    let mut i: usize = 0;
    proof {
        assert(file_fields(all.subrange(0, 0)) =~= Seq::empty());
        assert(tree_fields(all.subrange(0, 0)) =~= Seq::empty().push(tag));
        lemma_frames_push(Seq::empty(), tag);
        assert(digest::frames(Seq::<Seq<u8>>::empty()) =~= Seq::empty());
        assert(h@ =~= digest::frames(tree_fields(all.subrange(0, 0))));
    }
    while i < files.len()
        invariant
            i <= files.len(),
            all == file_views(files@),
            h@ == digest::frames(tree_fields(all.subrange(0, i as int))),
        decreases files.len() - i,
    {
        let ghost now = all.subrange(0, i as int);
        let ghost next = all.subrange(0, i + 1);
        proof {
            assert(next.drop_last() =~= now);
            assert(next.last() == (files@[i as int].path@, files@[i as int].content@));
            assert(tree_fields(next) =~= tree_fields(now).push(next.last().0).push(next.last().1));
            lemma_frames_push(tree_fields(now), next.last().0);
            lemma_frames_push(tree_fields(now).push(next.last().0), next.last().1);
        }
        digest::feed(&mut h, &files[i].path);
        digest::feed(&mut h, files[i].content);
        i = i + 1;
    }
    assert(all.subrange(0, files.len() as int) =~= all);
    TreeDigest(digest::digest_of(&h))
}

/// The digest of a tree over the files that a walk admits.
pub fn hash_tree(root: &Vec<Entry>, a: Admit) -> (r: TreeDigest)
    ensures
        r@ == tree_digest(root@, a),
        digest::well_written(r@),
{
    let files = visit(root, a);
    hash_files(files.as_slice())
}

/// The digest of a tree: over the files that are stored and hashed, and so neither over build output
/// nor over logs, and without the place where the tree stands.
pub fn digest_tree(root: &Vec<Entry>) -> (r: TreeDigest)
    ensures
        r@ == tree_digest(root@, Admit::Hashed),
        digest::well_written(r@),
{
    hash_tree(root, Admit::Hashed)
}

proof fn lemma_file_fields_len(files: Seq<FileView>)
    ensures
        file_fields(files).len() == 2 * files.len(),
    decreases files.len(),
{
    if files.len() > 0 {
        lemma_file_fields_len(files.drop_last());
    }
}

proof fn lemma_file_fields_injective(one: Seq<FileView>, other: Seq<FileView>)
    requires
        file_fields(one) == file_fields(other),
    ensures
        one == other,
    decreases one.len(),
{
    lemma_file_fields_len(one);
    lemma_file_fields_len(other);
    if one.len() > 0 {
        let a = file_fields(one);
        let b = file_fields(other);
        let n = a.len() as int;
        lemma_file_fields_len(one.drop_last());
        lemma_file_fields_len(other.drop_last());
        assert(file_fields(one.drop_last()) =~= a.subrange(0, n - 2));
        assert(file_fields(other.drop_last()) =~= b.subrange(0, n - 2));
        lemma_file_fields_injective(one.drop_last(), other.drop_last());
        assert(a[n - 2] == one.last().0);
        assert(b[n - 2] == other.last().0);
        assert(a[n - 1] == one.last().1);
        assert(b[n - 1] == other.last().1);
        assert(one =~= one.drop_last().push(one.last()));
        assert(other =~= other.drop_last().push(other.last()));
    } else {
        assert(one =~= other);
    }
}

/// Every path and every file is short enough for its length to be framed.
pub open spec fn countable(files: Seq<FileView>) -> bool {
    forall|i: int|
        0 <= i < files.len() ==> (#[trigger] files[i]).0.len() <= u64::MAX && files[i].1.len()
            <= u64::MAX
}

proof fn lemma_countable_frameable(files: Seq<FileView>)
    requires
        countable(files),
    ensures
        digest::frameable(file_fields(files)),
    decreases files.len(),
{
    if files.len() > 0 {
        let before = files.drop_last();
        assert forall|i: int| 0 <= i < before.len() implies (#[trigger] before[i]).0.len()
            <= u64::MAX && before[i].1.len() <= u64::MAX by {
            assert(files[i].0.len() <= u64::MAX);
        }
        lemma_countable_frameable(before);
        let fs = file_fields(files);
        let bs = file_fields(before);
        assert(files[files.len() - 1].0.len() <= u64::MAX);
        assert forall|i: int| 0 <= i < fs.len() implies (#[trigger] fs[i]).len() <= u64::MAX by {
            if i < bs.len() {
                assert(fs[i] == bs[i]);
            }
        }
    }
}

/// What is hashed of a tree determines it: two trees with one preimage hold the same files with the
/// same bytes at the same paths.
pub proof fn law_what_is_hashed_determines_the_files(one: Seq<FileView>, other: Seq<FileView>)
    requires
        countable(one),
        countable(other),
        digest::frames(tree_fields(one)) == digest::frames(tree_fields(other)),
    ensures
        one == other,
{
    lemma_countable_frameable(one);
    lemma_countable_frameable(other);
    let a = tree_fields(one);
    let b = tree_fields(other);
    reveal_strlit("harvest-tree-v1");
    vstd::utf8::is_ascii_chars_encode_utf8("harvest-tree-v1"@);
    assert("harvest-tree-v1".spec_bytes().len() <= u64::MAX);
    assert forall|i: int| 0 <= i < a.len() implies (#[trigger] a[i]).len() <= u64::MAX by {
        if i > 0 {
            assert(a[i] == file_fields(one)[i - 1]);
        }
    }
    assert forall|i: int| 0 <= i < b.len() implies (#[trigger] b[i]).len() <= u64::MAX by {
        if i > 0 {
            assert(b[i] == file_fields(other)[i - 1]);
        }
    }
    digest::law_framing_is_injective(a, b);
    assert(file_fields(one) =~= a.subrange(1, a.len() as int));
    assert(file_fields(other) =~= b.subrange(1, b.len() as int));
    lemma_file_fields_injective(one, other);
}

// ---------------------------------------------------------------------------
// The C reference
// ---------------------------------------------------------------------------

/// The files of the C reference, taken as a tree of its own. The directory it stands in is not asked
/// whether cmake built there, or one file at its root could hide every other; the directories in it
/// are.
pub open spec fn oracle_files(es: Seq<Entry>) -> Seq<FileView> {
    files_over(es, bytes::in_order(names_of(es)), Seq::empty(), false, Admit::Oracle)
}

/// The first link that a walk of the C reference meets at a node.
pub open spec fn link_at(n: Node, rel: Seq<u8>, in_build: bool) -> Option<Seq<u8>>
    decreases n, 0nat, 0nat,
{
    match n {
        Node::File(_) => None,
        Node::Dir(es) => link_over(
            es@,
            bytes::in_order(names_of(es@)),
            rel,
            in_build || built_by_cmake(es@),
        ),
    }
}

/// The first link that a walk of the C reference meets under the given names of a directory.
pub open spec fn link_over(
    es: Seq<Entry>,
    order: Seq<Seq<u8>>,
    prefix: Seq<u8>,
    build_here: bool,
) -> Option<Seq<u8>>
    decreases es, 0nat, order.len(),
{
    if order.len() == 0 {
        None
    } else {
        match link_over(es, order.drop_last(), prefix, build_here) {
            Some(l) => Some(l),
            None => {
                let rel = below(prefix, order.last());
                match place_of(es, order.last()) {
                    Some(p) => if 0 <= p < es.len() && seen(rel, build_here, Admit::Oracle) {
                        if es[p].link {
                            Some(rel)
                        } else {
                            link_at(es[p].node, rel, build_here)
                        }
                    } else {
                        None
                    },
                    None => None,
                }
            },
        }
    }
}

/// The first link in the C reference.
pub open spec fn oracle_link(es: Seq<Entry>) -> Option<Seq<u8>> {
    link_over(es, bytes::in_order(names_of(es)), Seq::empty(), false)
}

fn find_link_at(n: &Node, rel: &[u8], in_build: bool) -> (r: Option<Vec<u8>>)
    ensures
        r is Some <==> link_at(*n, rel@, in_build) is Some,
        r matches Some(l) ==> link_at(*n, rel@, in_build) == Some(l@),
    decreases *n, 0nat,
{
    match n {
        Node::File(_) => None,
        Node::Dir(es) => {
            let build_here = in_build || is_cmake_build_dir(es);
            let order = sorted_names(es);
            assert(decreases_to!(*n => n->Dir_0));
            assert(decreases_to!(*es => es@));
            find_link_over(es, order.as_slice(), rel, build_here)
        },
    }
}

fn find_link_over(es: &Vec<Entry>, order: &[Vec<u8>], prefix: &[u8], build_here: bool) -> (r: Option<
    Vec<u8>,
>)
    ensures
        r is Some <==> link_over(es@, bytes::byte_views(order@), prefix@, build_here) is Some,
        r matches Some(l) ==> link_over(es@, bytes::byte_views(order@), prefix@, build_here)
            == Some(l@),
    decreases es@, 1nat,
{
    let ghost o = bytes::byte_views(order@);
    let mut i: usize = 0;
    while i < order.len()
        invariant
            i <= order.len(),
            o == bytes::byte_views(order@),
            link_over(es@, o.subrange(0, i as int), prefix@, build_here) is None,
        decreases order.len() - i,
    {
        assert(o.subrange(0, i + 1).drop_last() =~= o.subrange(0, i as int));
        assert(o.subrange(0, i + 1).last() == order@[i as int]@);
        let rel = path_below(prefix, &order[i]);
        if let Some(p) = find_entry(es, &order[i]) {
            if is_seen(&rel, build_here, Admit::Oracle) {
                if es[p].link {
                    proof {
                        lemma_link_extends(es@, o, prefix@, build_here, i + 1);
                    }
                    return Some(rel);
                }
                assert(decreases_to!(es@ => es@[p as int]));
                assert(decreases_to!(es@[p as int] => es@[p as int].node));
                if let Some(l) = find_link_at(&es[p].node, &rel, build_here) {
                    proof {
                        lemma_link_extends(es@, o, prefix@, build_here, i + 1);
                    }
                    return Some(l);
                }
            }
        }
        i = i + 1;
    }
    assert(o.subrange(0, order.len() as int) =~= o);
    None
}

proof fn lemma_link_extends(
    es: Seq<Entry>,
    order: Seq<Seq<u8>>,
    prefix: Seq<u8>,
    build_here: bool,
    n: int,
)
    requires
        0 <= n <= order.len(),
        link_over(es, order.subrange(0, n), prefix, build_here) is Some,
    ensures
        link_over(es, order, prefix, build_here) == link_over(
            es,
            order.subrange(0, n),
            prefix,
            build_here,
        ),
    decreases order.len() - n,
{
    if n == order.len() {
        assert(order.subrange(0, n) =~= order);
    } else {
        assert(order.subrange(0, n + 1).drop_last() =~= order.subrange(0, n));
        lemma_link_extends(es, order, prefix, build_here, n + 1);
    }
}

/// What became of a file of the C reference.
#[derive(Debug, Copy, Clone, PartialEq, Eq, Structural)]
pub enum OracleChange {
    Removed,
    /// It is there, but the artifact does not carry it.
    Hidden,
    Edited,
    Added,
    Symlinked,
}

/// Why an artifact is refused.
#[derive(Debug)]
pub enum Refusal {
    OracleModified { change: OracleChange, file: Vec<u8> },
    /// The reference was read and held nothing.
    OracleEmpty,
}

/// Why an artifact is refused, mathematically.
pub enum RefusalView {
    OracleModified { change: OracleChange, file: Seq<u8> },
    OracleEmpty,
}

impl View for Refusal {
    type V = RefusalView;

    open spec fn view(&self) -> RefusalView {
        match *self {
            Refusal::OracleModified { change, file } => RefusalView::OracleModified {
                change,
                file: file@,
            },
            Refusal::OracleEmpty => RefusalView::OracleEmpty,
        }
    }
}

/// A file of the reference and its hash.
pub type HashedFile = (Seq<u8>, Seq<u8>);

/// The hashes of files.
pub open spec fn hashed(files: Seq<FileView>) -> Seq<HashedFile> {
    files.map_values(|f: FileView| (f.0, digest::sha256(f.1)))
}

/// The C reference as the agent was handed it, file by file.
#[derive(Debug)]
pub struct OracleFiles(Vec<(Vec<u8>, Vec<u8>)>);

/// Whether the tree handed to the agent held a reference to grade against.
#[derive(Debug)]
enum Reference {
    Graded(OracleFiles),
    /// None was handed over, so the one rule left is that the run may not invent one.
    Ungraded,
}

/// Proof that the reference was read. Only [`CDir::snapshot`] makes one.
#[derive(Debug)]
pub struct Oracle(Reference);

impl View for OracleFiles {
    type V = Seq<HashedFile>;

    closed spec fn view(&self) -> Seq<HashedFile> {
        self.0@.map_values(|p: (Vec<u8>, Vec<u8>)| (p.0@, p.1@))
    }
}

impl View for Oracle {
    type V = Seq<HashedFile>;

    closed spec fn view(&self) -> Seq<HashedFile> {
        match self.0 {
            Reference::Graded(files) => files@,
            Reference::Ungraded => Seq::empty(),
        }
    }
}

/// A directory of C sources, or the place of one that is not there. Nothing reached through it can
/// change the reference.
#[derive(Debug)]
pub struct CDir {
    /// The directory is a link.
    pub link: bool,
    /// What it holds, where it is a directory.
    pub entries: Option<Vec<Entry>>,
}

/// The digest of the C reference: a mark of its own where it is not there.
pub open spec fn oracle_digest(entries: Option<Vec<Entry>>) -> Seq<char> {
    match entries {
        Some(es) => tree_digest(es@, Admit::Oracle),
        None => "sha256:absent"@,
    }
}

/// The files of the reference, or the refusal of a link in it.
pub open spec fn oracle_contents(c: CDir) -> Result<Seq<FileView>, RefusalView> {
    match c.entries {
        None => Ok(Seq::empty()),
        Some(es) => if c.link {
            Err(
                RefusalView::OracleModified {
                    change: OracleChange::Symlinked,
                    file: contents::C_ORACLE_DIR.spec_bytes(),
                },
            )
        } else {
            match oracle_link(es@) {
                Some(file) => Err(
                    RefusalView::OracleModified { change: OracleChange::Symlinked, file },
                ),
                None => Ok(oracle_files(es@)),
            }
        },
    }
}

/// The reference as it is recorded before a run: nothing where there is none, and a refusal where
/// there is one that holds nothing or has a link in it.
pub open spec fn oracle_snapshot(c: CDir) -> Result<Seq<HashedFile>, RefusalView> {
    match oracle_contents(c) {
        Err(e) => Err(e),
        Ok(files) => if c.entries is Some && files.len() == 0 {
            Err(RefusalView::OracleEmpty)
        } else {
            Ok(hashed(files))
        },
    }
}

fn oracle_walk<'a>(es: &'a Vec<Entry>) -> (r: Vec<FileAt<'a>>)
    ensures
        file_views(r@) == oracle_files(es@),
{
    let mut out: Vec<FileAt<'a>> = Vec::new();
    let order = sorted_names(es);
    let none: Vec<u8> = Vec::new();
    walk_entries(es, order.as_slice(), &none, false, Admit::Oracle, &mut out);
    assert(none@ =~= Seq::<u8>::empty());
    assert(file_views(out@) =~= oracle_files(es@));
    out
}

fn link_in(es: &Vec<Entry>) -> (r: Option<Vec<u8>>)
    ensures
        r is Some <==> oracle_link(es@) is Some,
        r matches Some(l) ==> oracle_link(es@) == Some(l@),
{
    let order = sorted_names(es);
    let none: Vec<u8> = Vec::new();
    assert(none@ =~= Seq::<u8>::empty());
    find_link_over(es, order.as_slice(), &none, false)
}

impl CDir {
    /// The digest over everything but build output, or a mark where there is no directory.
    pub fn digest(&self) -> (r: TreeDigest)
        ensures
            r@ == oracle_digest(self.entries),
            self.entries is Some ==> digest::well_written(r@),
    {
        match &self.entries {
            Some(es) => hash_tree(es, Admit::Oracle),
            None => TreeDigest(text::copy("sha256:absent")),
        }
    }

    /// The files, where there is no link among them.
    pub fn contents<'a>(&'a self) -> (r: Result<Vec<FileAt<'a>>, Refusal>)
        ensures
            match oracle_contents(*self) {
                Ok(files) => r matches Ok(v) && file_views(v@) == files,
                Err(e) => r matches Err(x) && x@ == e,
            },
    {
        match &self.entries {
            None => {
                let v: Vec<FileAt<'a>> = Vec::new();
                assert(file_views(v@) =~= Seq::<FileView>::empty());
                Ok(v)
            },
            Some(es) => {
                if self.link {
                    return Err(
                        Refusal::OracleModified {
                            change: OracleChange::Symlinked,
                            file: bytes::copy(contents::C_ORACLE_DIR.as_bytes()),
                        },
                    );
                }
                match link_in(es) {
                    Some(file) => Err(
                        Refusal::OracleModified { change: OracleChange::Symlinked, file },
                    ),
                    None => Ok(oracle_walk(es)),
                }
            },
        }
    }

    /// The reference as it is recorded before a run.
    pub fn snapshot(&self) -> (r: Result<Oracle, Refusal>)
        ensures
            match oracle_snapshot(*self) {
                Ok(files) => r matches Ok(o) && o@ == files,
                Err(e) => r matches Err(x) && x@ == e,
            },
    {
        let files = match self.contents() {
            Ok(v) => v,
            Err(e) => {
                return Err(e);
            },
        };
        let ghost all = file_views(files@);
        assert(all.len() == files@.len());
        if self.entries.is_none() {
            let o = Oracle(Reference::Ungraded);
            assert(o@ =~= hashed(all));
            return Ok(o);
        }
        if files.len() == 0 {
            return Err(Refusal::OracleEmpty);
        }
        let mut out: Vec<(Vec<u8>, Vec<u8>)> = Vec::new();
        let mut i: usize = 0;
        while i < files.len()
            invariant
                i <= files.len(),
                all == file_views(files@),
                out@.len() == i,
                forall|k: int|
                    0 <= k < i ==> (#[trigger] out@[k]).0@ == all[k].0 && out@[k].1@
                        == digest::sha256(all[k].1),
            decreases files.len() - i,
        {
            assert(all[i as int] == (files@[i as int].path@, files@[i as int].content@));
            out.push((bytes::copy(&files[i].path), digest::hash(files[i].content)));
            i = i + 1;
        }
        let o = Oracle(Reference::Graded(OracleFiles(out)));
        assert(o@ =~= hashed(all));
        Ok(o)
    }
}

/// The C sources that an agent translates: an input, never an output.
#[derive(Debug)]
pub struct Corpus {
    c: CDir,
}

impl Corpus {
    /// What the corpus holds.
    pub closed spec fn entries(&self) -> Option<Vec<Entry>> {
        self.c.entries
    }

    /// The corpus at a place, where a directory stands there: an absent input is never keyed.
    pub fn adopt(place: &str, c: CDir) -> (r: Result<Corpus, String>)
        ensures
            r is Ok <==> c.entries is Some,
            r matches Ok(k) ==> k.entries() == c.entries,
            r matches Err(e) ==> e@ == "no C corpus at "@ + place@
                + ": an absent input would otherwise be keyed as a real one"@,
    {
        if c.entries.is_none() {
            return Err(
                text::join3(
                    "no C corpus at ",
                    place,
                    ": an absent input would otherwise be keyed as a real one",
                ),
            );
        }
        Ok(Corpus { c })
    }

    /// The digest of the corpus as the agent will see it.
    pub fn digest(&self) -> (r: TreeDigest)
        ensures
            r@ == oracle_digest(self.entries()),
            self.entries() is Some ==> digest::well_written(r@),
    {
        self.c.digest()
    }
}

/// A finished artifact of a phase, known by its digest alone.
#[derive(Debug)]
pub struct Sealed<P: Phase> {
    digest: TreeDigest,
    phase: PhantomData<P>,
}

/// What sealing an artifact asks for next.
#[derive(Debug)]
pub enum Sealing<P: Phase> {
    /// Building the reference left these files under it: they are deleted, neither hashed nor stored.
    Drop(Vec<Vec<u8>>),
    Done(Sealed<P>),
}

impl<P: Phase> View for Sealed<P> {
    type V = Seq<char>;

    closed spec fn view(&self) -> Seq<char> {
        self.digest@
    }
}

impl<P: Phase> Sealed<P> {
    /// The artifact that a case has of the phase.
    pub fn adopt(place: &str, tree: Option<&Vec<Entry>>) -> (r: Result<Sealed<P>, String>)
        ensures
            match tree {
                Some(es) => r matches Ok(s) && s@ == tree_digest(es@, Admit::Hashed),
                None => r matches Err(e) && e@ == "no "@ + P::dir_name() + " phase dir at "@
                    + place@,
            },
    {
        match tree {
            Some(es) => Ok(Sealed { digest: digest_tree(es), phase: PhantomData }),
            None => Err(
                text::join2(text::join3("no ", P::dir(), " phase dir at ").as_str(), place),
            ),
        }
    }

    /// The artifact that the store kept.
    pub fn from_cache(place: &str, tree: Option<&Vec<Entry>>) -> (r: Result<Sealed<P>, String>)
        ensures
            match tree {
                Some(es) => r matches Ok(s) && s@ == tree_digest(es@, Admit::Hashed),
                None => r matches Err(e) && e@ == "cache entry has no code/ at "@ + place@,
            },
    {
        match tree {
            Some(es) => Ok(Sealed { digest: digest_tree(es), phase: PhantomData }),
            None => Err(text::join2("cache entry has no code/ at ", place)),
        }
    }

    /// The digest of the artifact.
    pub fn digest(&self) -> (r: &TreeDigest)
        ensures
            r@ == self@,
    {
        &self.digest
    }

    /// The digest of the artifact, for good.
    pub fn into_digest(self) -> (r: TreeDigest)
        ensures
            r@ == self@,
    {
        self.digest
    }

    /// What the artifact is called in a message: its phase and its digest, never its place.
    pub fn describe(&self) -> (r: String)
        ensures
            r@ == "Sealed<"@ + P::dir_name() + ">("@ + shortened(self@) + ")"@,
    {
        let head = text::join3("Sealed<", P::dir(), ">(");
        text::join3(head.as_str(), self.digest.short().as_str(), ")")
    }
}

/// Only from a translation: a verification is never verified again.
impl SeededBy<Sealed<Translate>> for Verify {
    open spec fn place() -> SeedAt {
        SeedAt::CrateRoot
    }

    fn at() -> (r: SeedAt) {
        SeedAt::CrateRoot
    }
}

impl SeededBy<Corpus> for Translate {
    open spec fn place() -> SeedAt {
        SeedAt::COracle
    }

    fn at() -> (r: SeedAt) {
        SeedAt::COracle
    }
}

// ---------------------------------------------------------------------------
// Build products
// ---------------------------------------------------------------------------

/// The endings of what a C build leaves beside its sources.
pub open spec fn product_ending(s: Seq<u8>) -> bool {
    ||| s == "o".spec_bytes()
    ||| s == "a".spec_bytes()
    ||| s == "so".spec_bytes()
    ||| s == "lo".spec_bytes()
    ||| s == "la".spec_bytes()
    ||| s == "obj".spec_bytes()
    ||| s == "d".spec_bytes()
    ||| s == "gch".spec_bytes()
    ||| s == "pch".spec_bytes()
    ||| s == "dylib".spec_bytes()
    ||| s == "gcda".spec_bytes()
    ||| s == "gcno".spec_bytes()
}

/// The first bytes of what a C build makes: ELF, an archive, Mach-O in both byte orders and its fat
/// header, and the two files of gcov.
pub open spec fn product_magic(head: Seq<u8>) -> bool {
    ||| bytes::begins(head, seq![0x7fu8, 0x45, 0x4c, 0x46])
    ||| bytes::begins(head, "!<arch>\n".spec_bytes())
    ||| bytes::begins(head, seq![0xfeu8, 0xed, 0xfa, 0xce])
    ||| bytes::begins(head, seq![0xceu8, 0xfa, 0xed, 0xfe])
    ||| bytes::begins(head, seq![0xfeu8, 0xed, 0xfa, 0xcf])
    ||| bytes::begins(head, seq![0xcfu8, 0xfa, 0xed, 0xfe])
    ||| bytes::begins(head, seq![0xcau8, 0xfe, 0xba, 0xbe])
    ||| bytes::begins(head, "adcg".spec_bytes())
    ||| bytes::begins(head, "oncg".spec_bytes())
}

/// Only decimal digits, and at least one.
pub open spec fn version_number(s: Seq<u8>) -> bool {
    s.len() > 0 && forall|i: int| 0 <= i < s.len() ==> 48 <= #[trigger] s[i] <= 57
}

/// A name is that of a build product: behind the version numbers at its end, its ending is one.
pub open spec fn product_pieces(pieces: Seq<Seq<u8>>) -> bool
    decreases pieces.len(),
{
    if pieces.len() <= 1 {
        false
    } else if version_number(pieces.last()) {
        product_pieces(pieces.drop_last())
    } else {
        product_ending(pieces.last())
    }
}

/// Building the reference made this file, rather than the reference shipping it.
pub open spec fn build_product(path: Seq<u8>, head: Seq<u8>) -> bool {
    let parts = relpath::components(path);
    ||| product_magic(head)
    ||| parts.len() > 0 && parts.last() != ".".spec_bytes() && vstd::utf8::valid_utf8(parts.last())
        && product_pieces(bytes::split(parts.last(), 46))
}

fn has_product_magic(head: &[u8]) -> (r: bool)
    ensures
        r == product_magic(head@),
{
    let elf: [u8; 4] = [0x7f, 0x45, 0x4c, 0x46];
    let mach32: [u8; 4] = [0xfe, 0xed, 0xfa, 0xce];
    let mach32_swapped: [u8; 4] = [0xce, 0xfa, 0xed, 0xfe];
    let mach64: [u8; 4] = [0xfe, 0xed, 0xfa, 0xcf];
    let mach64_swapped: [u8; 4] = [0xcf, 0xfa, 0xed, 0xfe];
    let fat: [u8; 4] = [0xca, 0xfe, 0xba, 0xbe];
    proof {
        assert(elf@ =~= seq![0x7fu8, 0x45, 0x4c, 0x46]);
        assert(mach32@ =~= seq![0xfeu8, 0xed, 0xfa, 0xce]);
        assert(mach32_swapped@ =~= seq![0xceu8, 0xfa, 0xed, 0xfe]);
        assert(mach64@ =~= seq![0xfeu8, 0xed, 0xfa, 0xcf]);
        assert(mach64_swapped@ =~= seq![0xcfu8, 0xfa, 0xed, 0xfe]);
        assert(fat@ =~= seq![0xcau8, 0xfe, 0xba, 0xbe]);
    }
    bytes::starts_with(head, &elf) || bytes::starts_with(head, "!<arch>\n".as_bytes())
        || bytes::starts_with(head, &mach32) || bytes::starts_with(head, &mach32_swapped)
        || bytes::starts_with(head, &mach64) || bytes::starts_with(head, &mach64_swapped)
        || bytes::starts_with(head, &fat) || bytes::starts_with(head, "adcg".as_bytes())
        || bytes::starts_with(head, "oncg".as_bytes())
}

fn is_version_number(s: &[u8]) -> (r: bool)
    ensures
        r == version_number(s@),
{
    if s.len() == 0 {
        return false;
    }
    let mut i: usize = 0;
    while i < s.len()
        invariant
            i <= s.len(),
            forall|j: int| 0 <= j < i ==> 48 <= #[trigger] s@[j] <= 57,
        decreases s.len() - i,
    {
        if s[i] < 48 || s[i] > 57 {
            assert(!(48 <= s@[i as int] <= 57));
            return false;
        }
        i = i + 1;
    }
    true
}

fn is_product_ending(s: &[u8]) -> (r: bool)
    ensures
        r == product_ending(s@),
{
    bytes::reads(s, "o") || bytes::reads(s, "a") || bytes::reads(s, "so") || bytes::reads(s, "lo")
        || bytes::reads(s, "la") || bytes::reads(s, "obj") || bytes::reads(s, "d") || bytes::reads(
        s,
        "gch",
    ) || bytes::reads(s, "pch") || bytes::reads(s, "dylib") || bytes::reads(s, "gcda")
        || bytes::reads(s, "gcno")
}

/// Whether building the reference made this file. `head` are its first bytes.
pub fn is_build_product(rel: &RelPath, head: &[u8]) -> (r: bool)
    ensures
        r == build_product(rel@, head@),
{
    if has_product_magic(head) {
        return true;
    }
    let parts = relpath::components_of(rel.as_path());
    let ghost all = relpath::components(rel@);
    if parts.len() == 0 {
        return false;
    }
    let last: usize = parts.len() - 1;
    assert(all.last() == parts@[last as int]@);
    let name = &parts[last];
    if bytes::reads(name, ".") || !bytes::is_utf8(name) {
        return false;
    }
    let pieces = bytes::split_on(name, 46);
    let ghost ps = bytes::byte_views(pieces@);
    let mut n: usize = pieces.len();
    assert(ps.subrange(0, n as int) =~= ps);
    while n > 1 && is_version_number(&pieces[n - 1])
        invariant
            n <= pieces.len(),
            ps == bytes::byte_views(pieces@),
            product_pieces(ps) == product_pieces(ps.subrange(0, n as int)),
        decreases n,
    {
        assert(ps.subrange(0, n as int).drop_last() =~= ps.subrange(0, n - 1));
        assert(ps.subrange(0, n as int).last() == pieces@[n - 1]@);
        n = n - 1;
    }
    if n <= 1 {
        return false;
    }
    assert(ps.subrange(0, n as int).last() == pieces@[n - 1]@);
    is_product_ending(&pieces[n - 1])
}

// ---------------------------------------------------------------------------
// The verdict on the reference
// ---------------------------------------------------------------------------

/// The bytes of the file that the parts of a path lead to.
pub open spec fn file_under(es: Seq<Entry>, parts: Seq<Seq<u8>>) -> Option<Seq<u8>>
    decreases parts.len(),
{
    if parts.len() == 0 {
        None
    } else {
        match place_of(es, parts[0]) {
            Some(p) => if 0 <= p < es.len() {
                match es[p].node {
                    Node::File(b) => if parts.len() == 1 {
                        Some(b@)
                    } else {
                        None
                    },
                    Node::Dir(sub) => file_under(sub@, parts.subrange(1, parts.len() as int)),
                }
            } else {
                None
            },
            None => None,
        }
    }
}

/// The C reference in an artifact: a directory `c_src` at its root.
pub open spec fn oracle_in(artifact: Seq<Entry>) -> Option<int> {
    match place_of(artifact, contents::C_ORACLE_DIR.spec_bytes()) {
        Some(p) => if 0 <= p < artifact.len() && artifact[p].node is Dir {
            Some(p)
        } else {
            None
        },
        None => None,
    }
}

/// What the reference in an artifact holds.
pub open spec fn oracle_entries(artifact: Seq<Entry>) -> Seq<Entry> {
    match oracle_in(artifact) {
        Some(p) => artifact[p].node->Dir_0@,
        None => Seq::empty(),
    }
}

/// The artifact carries the file of the reference at `rel`.
pub open spec fn carries(artifact: Seq<Entry>, rel: Seq<u8>) -> bool {
    exists|i: int|
        0 <= i < files_in(
            artifact,
            Seq::empty(),
            false,
            Admit::Carried(Carry::FromArtifact),
        ).len() && (#[trigger] files_in(
            artifact,
            Seq::empty(),
            false,
            Admit::Carried(Carry::FromArtifact),
        )[i]).0 == below(contents::C_ORACLE_DIR.spec_bytes(), rel)
}

/// What became of a file that was recorded.
pub open spec fn change_of(artifact: Seq<Entry>, f: HashedFile) -> Option<OracleChange> {
    match file_under(oracle_entries(artifact), relpath::components(f.0)) {
        None => Some(OracleChange::Removed),
        Some(b) => if !carries(artifact, f.0) {
            Some(OracleChange::Hidden)
        } else if digest::sha256(b) != f.1 {
            Some(OracleChange::Edited)
        } else {
            None
        },
    }
}

/// The first of the recorded files that was tampered with.
pub open spec fn first_change(artifact: Seq<Entry>, before: Seq<HashedFile>) -> Option<RefusalView>
    decreases before.len(),
{
    if before.len() == 0 {
        None
    } else {
        match first_change(artifact, before.drop_last()) {
            Some(v) => Some(v),
            None => match change_of(artifact, before.last()) {
                Some(change) => Some(
                    RefusalView::OracleModified { change, file: before.last().0 },
                ),
                None => None,
            },
        }
    }
}

/// The file was recorded.
pub open spec fn recorded(before: Seq<HashedFile>, path: Seq<u8>) -> bool {
    exists|i: int| 0 <= i < before.len() && (#[trigger] before[i]).0 == path
}

/// The first bytes of a file.
pub open spec fn head_of(content: Seq<u8>) -> Seq<u8> {
    if content.len() <= 8 {
        content
    } else {
        content.subrange(0, 8)
    }
}

/// The first file that nobody recorded and that building the reference did not make.
pub open spec fn first_added(files: Seq<FileView>, before: Seq<HashedFile>) -> Option<Seq<u8>>
    decreases files.len(),
{
    if files.len() == 0 {
        None
    } else {
        match first_added(files.drop_last(), before) {
            Some(f) => Some(f),
            None => {
                let f = files.last();
                if !recorded(before, f.0) && !build_product(f.0, head_of(f.1)) {
                    Some(f.0)
                } else {
                    None
                }
            },
        }
    }
}

/// The files that building the reference left.
pub open spec fn built_in_place(files: Seq<FileView>, before: Seq<HashedFile>) -> Seq<Seq<u8>>
    decreases files.len(),
{
    if files.len() == 0 {
        Seq::empty()
    } else if recorded(before, files.last().0) {
        built_in_place(files.drop_last(), before)
    } else {
        built_in_place(files.drop_last(), before).push(files.last().0)
    }
}

/// The reference in an artifact as a directory of its own.
pub open spec fn oracle_now(artifact: Seq<Entry>) -> Result<Seq<FileView>, RefusalView> {
    match oracle_in(artifact) {
        None => Ok(Seq::empty()),
        Some(p) => if artifact[p].link {
            Err(
                RefusalView::OracleModified {
                    change: OracleChange::Symlinked,
                    file: contents::C_ORACLE_DIR.spec_bytes(),
                },
            )
        } else {
            match oracle_link(oracle_entries(artifact)) {
                Some(file) => Err(
                    RefusalView::OracleModified { change: OracleChange::Symlinked, file },
                ),
                None => Ok(oracle_files(oracle_entries(artifact))),
            }
        },
    }
}

/// What is decided: what was recorded must be there, in the artifact and unedited; what was not must be
/// what building the reference leaves, and is named so that it can be dropped.
pub open spec fn judged(before: Seq<HashedFile>, artifact: Seq<Entry>) -> Result<
    Seq<Seq<u8>>,
    RefusalView,
> {
    match first_change(artifact, before) {
        Some(v) => Err(v),
        None => match oracle_now(artifact) {
            Err(e) => Err(e),
            Ok(files) => match first_added(files, before) {
                Some(file) => Err(
                    RefusalView::OracleModified { change: OracleChange::Added, file },
                ),
                None => Ok(built_in_place(files, before)),
            },
        },
    }
}

fn file_at_parts<'a>(es: &'a Vec<Entry>, parts: &[Vec<u8>], from: usize) -> (r: Option<&'a Vec<u8>>)
    requires
        from <= parts.len(),
    ensures
        r is Some <==> file_under(
            es@,
            bytes::byte_views(parts@).subrange(from as int, parts.len() as int),
        ) is Some,
        r matches Some(b) ==> file_under(
            es@,
            bytes::byte_views(parts@).subrange(from as int, parts.len() as int),
        ) == Some(b@),
    decreases parts.len() - from,
{
    let ghost rest = bytes::byte_views(parts@).subrange(from as int, parts.len() as int);
    if from >= parts.len() {
        return None;
    }
    assert(rest[0] == parts@[from as int]@);
    assert(rest.subrange(1, rest.len() as int) =~= bytes::byte_views(parts@).subrange(
        from + 1,
        parts.len() as int,
    ));
    match find_entry(es, &parts[from]) {
        Some(p) => match &es[p].node {
            Node::File(b) => if parts.len() - from == 1 {
                Some(b)
            } else {
                None
            },
            Node::Dir(sub) => file_at_parts(sub, parts, from + 1),
        },
        None => None,
    }
}

fn find_oracle(artifact: &Vec<Entry>) -> (r: Option<usize>)
    ensures
        r is Some <==> oracle_in(artifact@) is Some,
        r matches Some(p) ==> p < artifact.len() && oracle_in(artifact@) == Some(p as int),
{
    match find_entry(artifact, contents::C_ORACLE_DIR.as_bytes()) {
        Some(p) => match artifact[p].node {
            Node::Dir(_) => Some(p),
            Node::File(_) => None,
        },
        None => None,
    }
}

fn holds_path(files: &[FileAt], path: &[u8]) -> (r: bool)
    ensures
        r == exists|i: int|
            0 <= i < file_views(files@).len() && (#[trigger] file_views(files@)[i]).0 == path@,
{
    let ghost all = file_views(files@);
    let mut i: usize = 0;
    while i < files.len()
        invariant
            i <= files.len(),
            all == file_views(files@),
            forall|j: int| 0 <= j < i ==> (#[trigger] all[j]).0 != path@,
        decreases files.len() - i,
    {
        assert(all[i as int] == (files@[i as int].path@, files@[i as int].content@));
        if bytes::same(&files[i].path, path) {
            return true;
        }
        i = i + 1;
    }
    false
}

fn is_recorded(before: &[(Vec<u8>, Vec<u8>)], path: &[u8]) -> (r: bool)
    ensures
        r == recorded(before@.map_values(|p: (Vec<u8>, Vec<u8>)| (p.0@, p.1@)), path@),
{
    let ghost all = before@.map_values(|p: (Vec<u8>, Vec<u8>)| (p.0@, p.1@));
    let mut i: usize = 0;
    while i < before.len()
        invariant
            i <= before.len(),
            all == before@.map_values(|p: (Vec<u8>, Vec<u8>)| (p.0@, p.1@)),
            forall|j: int| 0 <= j < i ==> (#[trigger] all[j]).0 != path@,
        decreases before.len() - i,
    {
        assert(all[i as int] == (before@[i as int].0@, before@[i as int].1@));
        if bytes::same(&before[i].0, path) {
            return true;
        }
        i = i + 1;
    }
    false
}

fn change_in(
    artifact: &Vec<Entry>,
    oracle: Option<usize>,
    carried: &[FileAt],
    path: &[u8],
    hash: &[u8],
) -> (r: Option<OracleChange>)
    requires
        oracle is Some <==> oracle_in(artifact@) is Some,
        oracle matches Some(p) ==> p < artifact.len() && oracle_in(artifact@) == Some(p as int),
        file_views(carried@) == files_in(
            artifact@,
            Seq::empty(),
            false,
            Admit::Carried(Carry::FromArtifact),
        ),
    ensures
        r == change_of(artifact@, (path@, hash@)),
{
    let parts = relpath::components_of(path);
    let ghost ps = relpath::components(path@);
    assert(ps.subrange(0, ps.len() as int) =~= ps);
    assert(ps.len() == parts@.len());
    let found = match oracle {
        Some(p) => match &artifact[p].node {
            Node::Dir(es) => file_at_parts(es, parts.as_slice(), 0),
            Node::File(_) => None,
        },
        None => {
            assert(file_under(Seq::<Entry>::empty(), ps) is None) by {
                if ps.len() > 0 {
                    assert(place_of(Seq::<Entry>::empty(), ps[0]) is None);
                }
            }
            None
        },
    };
    match found {
        None => Some(OracleChange::Removed),
        Some(b) => {
            let place = path_below(contents::C_ORACLE_DIR.as_bytes(), path);
            if !holds_path(carried, &place) {
                Some(OracleChange::Hidden)
            } else if !bytes::same(&digest::hash(b), hash) {
                Some(OracleChange::Edited)
            } else {
                None
            }
        },
    }
}

proof fn lemma_first_change_extends(artifact: Seq<Entry>, before: Seq<HashedFile>, n: int)
    requires
        0 <= n <= before.len(),
        first_change(artifact, before.subrange(0, n)) is Some,
    ensures
        first_change(artifact, before) == first_change(artifact, before.subrange(0, n)),
    decreases before.len() - n,
{
    if n == before.len() {
        assert(before.subrange(0, n) =~= before);
    } else {
        assert(before.subrange(0, n + 1).drop_last() =~= before.subrange(0, n));
        lemma_first_change_extends(artifact, before, n + 1);
    }
}

proof fn lemma_first_added_extends(files: Seq<FileView>, before: Seq<HashedFile>, n: int)
    requires
        0 <= n <= files.len(),
        first_added(files.subrange(0, n), before) is Some,
    ensures
        first_added(files, before) == first_added(files.subrange(0, n), before),
    decreases files.len() - n,
{
    if n == files.len() {
        assert(files.subrange(0, n) =~= files);
    } else {
        assert(files.subrange(0, n + 1).drop_last() =~= files.subrange(0, n));
        lemma_first_added_extends(files, before, n + 1);
    }
}

proof fn lemma_walked_paths_stay_inside(n: Node, rel: Seq<u8>, in_build: bool, a: Admit)
    requires
        relpath::stays_inside(rel),
    ensures
        forall|i: int|
            0 <= i < files_at(n, rel, in_build, a).len() ==> relpath::stays_inside(
                (#[trigger] files_at(n, rel, in_build, a)[i]).0,
            ),
    decreases n, 0nat, 0nat,
{
    match n {
        Node::File(b) => {
            assert(files_at(n, rel, in_build, a) == seq![(rel, b@)]);
        },
        Node::Dir(es) => {
            let here = in_build || built_by_cmake(es@);
            assert(decreases_to!(n => n->Dir_0));
            assert(decreases_to!(es => es@));
            lemma_walked_over(es@, bytes::in_order(names_of(es@)), rel, here, a);
            assert(files_at(n, rel, in_build, a) == files_in(es@, rel, in_build, a));
            assert(files_in(es@, rel, in_build, a) == files_over(
                es@,
                bytes::in_order(names_of(es@)),
                rel,
                here,
                a,
            ));
        },
    }
}

proof fn lemma_walked_over(
    es: Seq<Entry>,
    order: Seq<Seq<u8>>,
    prefix: Seq<u8>,
    build_here: bool,
    a: Admit,
)
    ensures
        forall|i: int|
            0 <= i < files_over(es, order, prefix, build_here, a).len() ==> relpath::stays_inside(
                (#[trigger] files_over(es, order, prefix, build_here, a)[i]).0,
            ),
    decreases es, 0nat, order.len(),
{
    if order.len() > 0 {
        lemma_walked_over(es, order.drop_last(), prefix, build_here, a);
        let before = files_over(es, order.drop_last(), prefix, build_here, a);
        let all = files_over(es, order, prefix, build_here, a);
        let rel = below(prefix, order.last());
        if let Some(p) = place_of(es, order.last()) {
            if 0 <= p < es.len() && seen(rel, build_here, a) {
                assert(decreases_to!(es => es[p]));
                assert(decreases_to!(es[p] => es[p].node));
                lemma_walked_paths_stay_inside(es[p].node, rel, build_here, a);
                let here = files_at(es[p].node, rel, build_here, a);
                assert forall|i: int| 0 <= i < all.len() implies relpath::stays_inside(
                    (#[trigger] all[i]).0,
                ) by {
                    if i < before.len() {
                        assert(all[i] == before[i]);
                    } else {
                        assert(all[i] == here[i - before.len()]);
                    }
                }
            }
        }
    }
}

impl Oracle {
    /// The verdict on the reference in an artifact: a refusal, or the files under it that building it
    /// left.
    pub fn judge(&self, artifact: &Vec<Entry>) -> (r: Result<Vec<Vec<u8>>, Refusal>)
        ensures
            match judged(self@, artifact@) {
                Ok(built) => r matches Ok(v) && bytes::byte_views(v@) == built,
                Err(e) => r matches Err(x) && x@ == e,
            },
    {
        match &self.0 {
            Reference::Graded(files) => files.judge(artifact),
            Reference::Ungraded => {
                let none = OracleFiles(Vec::new());
                assert(none@ =~= self@);
                none.judge(artifact)
            },
        }
    }
}

impl OracleFiles {
    /// The verdict on the reference in an artifact.
    pub fn judge(&self, artifact: &Vec<Entry>) -> (r: Result<Vec<Vec<u8>>, Refusal>)
        ensures
            match judged(self@, artifact@) {
                Ok(built) => r matches Ok(v) && bytes::byte_views(v@) == built,
                Err(e) => r matches Err(x) && x@ == e,
            },
    {
        let ghost before = self@;
        let carried = visit(artifact, Admit::Carried(Carry::FromArtifact));
        let oracle = find_oracle(artifact);
        let mut i: usize = 0;
        while i < self.0.len()
            invariant
                i <= self.0@.len(),
                before == self@,
                before == self.0@.map_values(|p: (Vec<u8>, Vec<u8>)| (p.0@, p.1@)),
                oracle is Some <==> oracle_in(artifact@) is Some,
                oracle matches Some(p) ==> p < artifact.len() && oracle_in(artifact@) == Some(
                    p as int,
                ),
                file_views(carried@) == files_in(
                    artifact@,
                    Seq::empty(),
                    false,
                    Admit::Carried(Carry::FromArtifact),
                ),
                first_change(artifact@, before.subrange(0, i as int)) is None,
            decreases self.0.len() - i,
        {
            assert(before.subrange(0, i + 1).drop_last() =~= before.subrange(0, i as int));
            assert(before.subrange(0, i + 1).last() == (
                self.0@[i as int].0@,
                self.0@[i as int].1@,
            ));
            let change = change_in(
                artifact,
                oracle,
                carried.as_slice(),
                &self.0[i].0,
                &self.0[i].1,
            );
            if let Some(change) = change {
                proof {
                    lemma_first_change_extends(artifact@, before, i + 1);
                }
                return Err(Refusal::OracleModified { change, file: bytes::copy(&self.0[i].0) });
            }
            i = i + 1;
        }
        assert(before.subrange(0, self.0@.len() as int) =~= before);
        let files: Vec<FileAt> = match oracle {
            None => {
                let v: Vec<FileAt> = Vec::new();
                assert(file_views(v@) =~= Seq::<FileView>::empty());
                v
            },
            Some(p) => {
                if artifact[p].link {
                    return Err(
                        Refusal::OracleModified {
                            change: OracleChange::Symlinked,
                            file: bytes::copy(contents::C_ORACLE_DIR.as_bytes()),
                        },
                    );
                }
                match &artifact[p].node {
                    Node::Dir(es) => {
                        if let Some(file) = link_in(es) {
                            return Err(
                                Refusal::OracleModified { change: OracleChange::Symlinked, file },
                            );
                        }
                        proof {
                            lemma_walked_over(
                                es@,
                                bytes::in_order(names_of(es@)),
                                Seq::empty(),
                                false,
                                Admit::Oracle,
                            );
                        }
                        oracle_walk(es)
                    },
                    Node::File(_) => Vec::new(),
                }
            },
        };
        let ghost all = file_views(files@);
        let mut built: Vec<Vec<u8>> = Vec::new();
        let mut k: usize = 0;
        assert(bytes::byte_views(built@) =~= built_in_place(all.subrange(0, 0), before));
        while k < files.len()
            invariant
                k <= files.len(),
                all == file_views(files@),
                before == self@,
                before == self.0@.map_values(|p: (Vec<u8>, Vec<u8>)| (p.0@, p.1@)),
                first_change(artifact@, before) is None,
                oracle_now(artifact@) == Ok::<Seq<FileView>, RefusalView>(all),
                forall|m: int|
                    0 <= m < all.len() ==> relpath::stays_inside((#[trigger] all[m]).0),
                first_added(all.subrange(0, k as int), before) is None,
                bytes::byte_views(built@) == built_in_place(all.subrange(0, k as int), before),
            decreases files.len() - k,
        {
            broadcast use bytes::lemma_byte_views_push;

            assert(all.subrange(0, k + 1).drop_last() =~= all.subrange(0, k as int));
            assert(all.subrange(0, k + 1).last() == (
                files@[k as int].path@,
                files@[k as int].content@,
            ));
            assert(relpath::stays_inside(all[k as int].0));
            if !is_recorded(self.0.as_slice(), &files[k].path) {
                let n: usize = files[k].content.len();
                let head = bytes::cut(
                    files[k].content,
                    0,
                    if n <= 8 {
                        n
                    } else {
                        8
                    },
                );
                assert(head@ =~= head_of(files@[k as int].content@));
                let product = match RelPath::from_bytes(&files[k].path) {
                    Some(rel) => is_build_product(&rel, &head),
                    None => false,
                };
                if !product {
                    proof {
                        lemma_first_added_extends(all, before, k + 1);
                    }
                    return Err(
                        Refusal::OracleModified {
                            change: OracleChange::Added,
                            file: bytes::copy(&files[k].path),
                        },
                    );
                }
                built.push(bytes::copy(&files[k].path));
            }
            k = k + 1;
        }
        assert(all.subrange(0, files.len() as int) =~= all);
        Ok(built)
    }
}

// ---------------------------------------------------------------------------
// Scrubbing
// ---------------------------------------------------------------------------

/// What stands for the working directory of a run.
pub const WORKDIR_TOKEN: &'static str = "$HARVEST_WORKDIR";

/// A text with the paths of one run put as the token: first the working directory, then the directory
/// that it was made in.
pub open spec fn scrubbed(t: Seq<char>, root: Seq<char>, base: Seq<char>) -> Seq<char> {
    text::replaced(text::replaced(t, root, WORKDIR_TOKEN@), base, WORKDIR_TOKEN@)
}

/// A text with the paths of one run put as the token.
pub fn scrub_text(t: &str, root: &str, base: &str) -> (r: String)
    ensures
        r@ == scrubbed(t@, root@, base@),
{
    let token = text::chars_of(WORKDIR_TOKEN);
    let one = text::replace_all(&text::chars_of(t), &text::chars_of(root), &token);
    text::string_of(&text::replace_all(&one, &text::chars_of(base), &token))
}

/// The files that scrubbing rewrites, with what it writes: those that are hashed, hold text, and name
/// a path of the run.
pub open spec fn rewritten_files(files: Seq<FileView>, root: Seq<char>, base: Seq<char>) -> Seq<
    (Seq<u8>, Seq<char>),
>
    decreases files.len(),
{
    if files.len() == 0 {
        Seq::empty()
    } else {
        let before = rewritten_files(files.drop_last(), root, base);
        let f = files.last();
        let t = vstd::utf8::decode_utf8(f.1);
        if vstd::utf8::valid_utf8(f.1) && scrubbed(t, root, base) != t {
            before.push((f.0, scrubbed(t, root, base)))
        } else {
            before
        }
    }
}

/// The rewritten files.
pub open spec fn rewrite_views(v: Seq<(Vec<u8>, String)>) -> Seq<(Seq<u8>, Seq<char>)> {
    v.map_values(|p: (Vec<u8>, String)| (p.0@, p.1@))
}

/// What scrubbing makes of the bytes of a file. One that is no text holds no path that could be
/// rewritten.
pub open spec fn scrubbed_bytes(b: Seq<u8>, root: Seq<char>, base: Seq<char>) -> Seq<u8> {
    if vstd::utf8::valid_utf8(b) {
        vstd::utf8::encode_utf8(scrubbed(vstd::utf8::decode_utf8(b), root, base))
    } else {
        b
    }
}

/// What scrubbing makes of files.
pub open spec fn scrubbed_files(files: Seq<FileView>, root: Seq<char>, base: Seq<char>) -> Seq<
    FileView,
> {
    files.map_values(|f: FileView| (f.0, scrubbed_bytes(f.1, root, base)))
}

/// What scrubbing makes of a node: a file that is hashed is rewritten, and any other is left as it is.
pub open spec fn node_scrubbed(
    was: Node,
    is: Node,
    rel: Seq<u8>,
    in_build: bool,
    hashed: bool,
    root: Seq<char>,
    base: Seq<char>,
) -> bool
    decreases was,
{
    match was {
        Node::File(b) => is matches Node::File(c) && c@ == (if hashed {
            scrubbed_bytes(b@, root, base)
        } else {
            b@
        }),
        Node::Dir(es) => is matches Node::Dir(fs) && entries_scrubbed(
            es@,
            fs@,
            rel,
            in_build || built_by_cmake(es@),
            hashed,
            root,
            base,
        ),
    }
}

/// What scrubbing makes of the entries of a directory: they keep their names and their places.
pub open spec fn entries_scrubbed(
    es: Seq<Entry>,
    fs: Seq<Entry>,
    prefix: Seq<u8>,
    build_here: bool,
    hashed: bool,
    root: Seq<char>,
    base: Seq<char>,
) -> bool
    decreases es,
{
    &&& es.len() == fs.len()
    &&& forall|i: int|
        0 <= i < es.len() ==> {
            let rel = below(prefix, (#[trigger] es[i]).name@);
            &&& fs[i].name@ == es[i].name@
            &&& fs[i].link == es[i].link
            &&& node_scrubbed(
                es[i].node,
                fs[i].node,
                rel,
                build_here,
                hashed && seen(rel, build_here, Admit::Hashed),
                root,
                base,
            )
        }
}

/// What scrubbing makes of a crate.
pub open spec fn crate_scrubbed(
    was: Seq<Entry>,
    is: Seq<Entry>,
    root: Seq<char>,
    base: Seq<char>,
) -> bool {
    entries_scrubbed(was, is, Seq::empty(), built_by_cmake(was), true, root, base)
}

fn scrub_bytes(b: &Vec<u8>, root: &str, base: &str) -> (r: Vec<u8>)
    ensures
        r@ == scrubbed_bytes(b@, root@, base@),
{
    match bytes::text_of(b) {
        Some(t) => {
            proof {
                vstd::utf8::encode_utf8_decode_utf8(t@);
            }
            bytes::copy(scrub_text(t.as_str(), root, base).as_str().as_bytes())
        },
        None => bytes::copy(b),
    }
}

fn scrub_node(n: &Node, rel: &[u8], in_build: bool, hashed: bool, root: &str, base: &str) -> (r: Node)
    ensures
        node_scrubbed(*n, r, rel@, in_build, hashed, root@, base@),
    decreases *n, 0nat,
{
    match n {
        Node::File(b) => if hashed {
            Node::File(scrub_bytes(b, root, base))
        } else {
            Node::File(bytes::copy(b))
        },
        Node::Dir(es) => {
            let build_here = in_build || is_cmake_build_dir(es);
            Node::Dir(scrub_entries(es, rel, build_here, hashed, root, base))
        },
    }
}

fn scrub_entries(
    es: &Vec<Entry>,
    prefix: &[u8],
    build_here: bool,
    hashed: bool,
    root: &str,
    base: &str,
) -> (r: Vec<Entry>)
    ensures
        entries_scrubbed(es@, r@, prefix@, build_here, hashed, root@, base@),
    decreases es@, 1nat,
{
    let mut out: Vec<Entry> = Vec::new();
    let mut i: usize = 0;
    while i < es.len()
        invariant
            i <= es.len(),
            out@.len() == i,
            forall|k: int|
                0 <= k < i ==> {
                    let rel = below(prefix@, (#[trigger] es@[k]).name@);
                    &&& out@[k].name@ == es@[k].name@
                    &&& out@[k].link == es@[k].link
                    &&& node_scrubbed(
                        es@[k].node,
                        out@[k].node,
                        rel,
                        build_here,
                        hashed && seen(rel, build_here, Admit::Hashed),
                        root@,
                        base@,
                    )
                },
        decreases es.len() - i,
    {
        let e = &es[i];
        let rel = path_below(prefix, &e.name);
        let here = hashed && is_seen(&rel, build_here, Admit::Hashed);
        assert(decreases_to!(es@ => es@[i as int]));
        assert(decreases_to!(es@[i as int] => es@[i as int].node));
        let node = scrub_node(&e.node, &rel, build_here, here, root, base);
        out.push(Entry { name: bytes::copy(&e.name), link: e.link, node });
        i = i + 1;
    }
    out
}

proof fn lemma_same_places(es: Seq<Entry>, fs: Seq<Entry>, name: Seq<u8>)
    requires
        names_of(es) == names_of(fs),
    ensures
        place_of(es, name) == place_of(fs, name),
        place_of(es, name) matches Some(p) ==> 0 <= p < es.len() && es[p].name@ == name,
    decreases es.len(),
{
    assert(names_of(es).len() == es.len() && names_of(fs).len() == fs.len());
    if es.len() > 0 {
        assert(names_of(es.drop_last()) =~= names_of(es).drop_last());
        assert(names_of(fs.drop_last()) =~= names_of(fs).drop_last());
        assert(names_of(es).last() == es.last().name@);
        assert(names_of(fs).last() == fs.last().name@);
        lemma_same_places(es.drop_last(), fs.drop_last(), name);
    }
}

proof fn lemma_scrubbed_names(
    es: Seq<Entry>,
    fs: Seq<Entry>,
    prefix: Seq<u8>,
    build_here: bool,
    hashed: bool,
    root: Seq<char>,
    base: Seq<char>,
)
    requires
        entries_scrubbed(es, fs, prefix, build_here, hashed, root, base),
    ensures
        names_of(es) == names_of(fs),
        built_by_cmake(es) == built_by_cmake(fs),
{
    assert forall|i: int| 0 <= i < es.len() implies #[trigger] names_of(es)[i] == names_of(fs)[i] by {
        assert(es[i].name@ == fs[i].name@);
    }
    assert(names_of(es) =~= names_of(fs));
    assert forall|i: int| 0 <= i < es.len() implies (#[trigger] es[i]).name@ == fs[i].name@ && (
    es[i].node is File <==> fs[i].node is File) by {}
    if built_by_cmake(es) {
        let i = choose|i: int|
            0 <= i < es.len() && (((#[trigger] es[i]).name@ == "CMakeCache.txt".spec_bytes()
                && es[i].node is File) || (es[i].name@ == "CMakeFiles".spec_bytes()
                && es[i].node is Dir));
        assert(fs[i].name@ == es[i].name@);
    }
    if built_by_cmake(fs) {
        let i = choose|i: int|
            0 <= i < fs.len() && (((#[trigger] fs[i]).name@ == "CMakeCache.txt".spec_bytes()
                && fs[i].node is File) || (fs[i].name@ == "CMakeFiles".spec_bytes()
                && fs[i].node is Dir));
        assert(fs[i].name@ == es[i].name@);
    }
}

proof fn lemma_scrubbed_node(
    was: Node,
    is: Node,
    rel: Seq<u8>,
    in_build: bool,
    root: Seq<char>,
    base: Seq<char>,
)
    requires
        node_scrubbed(was, is, rel, in_build, true, root, base),
    ensures
        files_at(is, rel, in_build, Admit::Hashed) == scrubbed_files(
            files_at(was, rel, in_build, Admit::Hashed),
            root,
            base,
        ),
    decreases was, 0nat, 0nat,
{
    match was {
        Node::File(b) => {
            assert(files_at(is, rel, in_build, Admit::Hashed) =~= scrubbed_files(
                files_at(was, rel, in_build, Admit::Hashed),
                root,
                base,
            ));
        },
        Node::Dir(es) => {
            let fs = is->Dir_0;
            let build_here = in_build || built_by_cmake(es@);
            lemma_scrubbed_names(es@, fs@, rel, build_here, true, root, base);
            lemma_scrubbed_over(
                es@,
                fs@,
                bytes::in_order(names_of(es@)),
                rel,
                build_here,
                root,
                base,
            );
        },
    }
}

proof fn lemma_scrubbed_over(
    es: Seq<Entry>,
    fs: Seq<Entry>,
    order: Seq<Seq<u8>>,
    prefix: Seq<u8>,
    build_here: bool,
    root: Seq<char>,
    base: Seq<char>,
)
    requires
        entries_scrubbed(es, fs, prefix, build_here, true, root, base),
    ensures
        files_over(fs, order, prefix, build_here, Admit::Hashed) == scrubbed_files(
            files_over(es, order, prefix, build_here, Admit::Hashed),
            root,
            base,
        ),
    decreases es, 0nat, order.len(),
{
    let a = Admit::Hashed;
    if order.len() == 0 {
        assert(files_over(fs, order, prefix, build_here, a) =~= scrubbed_files(
            files_over(es, order, prefix, build_here, a),
            root,
            base,
        ));
    } else {
        lemma_scrubbed_over(es, fs, order.drop_last(), prefix, build_here, root, base);
        lemma_scrubbed_names(es, fs, prefix, build_here, true, root, base);
        let name = order.last();
        lemma_same_places(es, fs, name);
        let rel = below(prefix, name);
        if let Some(p) = place_of(es, name) {
            if seen(rel, build_here, a) {
                assert(es[p].name@ == name);
                assert(decreases_to!(es => es[p]));
                assert(decreases_to!(es[p] => es[p].node));
                lemma_scrubbed_node(es[p].node, fs[p].node, rel, build_here, root, base);
                let x = files_over(es, order.drop_last(), prefix, build_here, a);
                let y = files_at(es[p].node, rel, build_here, a);
                assert(scrubbed_files(x + y, root, base) =~= scrubbed_files(x, root, base)
                    + scrubbed_files(y, root, base));
            }
        }
    }
}

fn find_rewritten(krate: &Vec<Entry>, root: &str, base: &str) -> (r: Vec<(Vec<u8>, String)>)
    ensures
        rewrite_views(r@) == rewritten_files(
            files_in(krate@, Seq::empty(), false, Admit::Hashed),
            root@,
            base@,
        ),
{
    let files = visit(krate, Admit::Hashed);
    let ghost all = file_views(files@);
    let mut out: Vec<(Vec<u8>, String)> = Vec::new();
    let mut i: usize = 0;
    assert(rewrite_views(out@) =~= rewritten_files(all.subrange(0, 0), root@, base@));
    while i < files.len()
        invariant
            i <= files.len(),
            all == file_views(files@),
            rewrite_views(out@) == rewritten_files(all.subrange(0, i as int), root@, base@),
        decreases files.len() - i,
    {
        let ghost before = rewrite_views(out@);
        assert(all.subrange(0, i + 1).drop_last() =~= all.subrange(0, i as int));
        assert(all.subrange(0, i + 1).last() == (
            files@[i as int].path@,
            files@[i as int].content@,
        ));
        if let Some(t) = bytes::text_of(files[i].content) {
            proof {
                vstd::utf8::encode_utf8_decode_utf8(t@);
            }
            let s = scrub_text(t.as_str(), root, base);
            if !text::same_text(s.as_str(), t.as_str()) {
                let ghost sv = s@;
                out.push((bytes::copy(&files[i].path), s));
                assert(rewrite_views(out@) =~= before.push((files@[i as int].path@, sv)));
            }
        }
        i = i + 1;
    }
    assert(all.subrange(0, files.len() as int) =~= all);
    out
}

/// A crate after scrubbing: the one thing that is sealed, so that the paths of a run never reach a
/// digest. Only [`scrub`] makes one.
#[derive(Debug)]
pub struct Scrubbed<P: Phase> {
    tree: Vec<Entry>,
    rewritten: Vec<(Vec<u8>, String)>,
    phase: PhantomData<P>,
}

/// The files that are hashed.
impl<P: Phase> View for Scrubbed<P> {
    type V = Seq<FileView>;

    closed spec fn view(&self) -> Seq<FileView> {
        files_in(self.tree@, Seq::empty(), false, Admit::Hashed)
    }
}

impl<P: Phase> Scrubbed<P> {
    /// The crate.
    pub closed spec fn tree(&self) -> Seq<Entry> {
        self.tree@
    }

    /// The files that were rewritten, with their new text.
    pub closed spec fn changes(&self) -> Seq<(Seq<u8>, Seq<char>)> {
        rewrite_views(self.rewritten@)
    }

    /// It is what scrubbing makes of a crate that was worked on in `root`, below `base`.
    pub open spec fn made_from(&self, krate: Seq<Entry>, root: Seq<char>, base: Seq<char>) -> bool {
        let files = files_in(krate, Seq::empty(), false, Admit::Hashed);
        &&& crate_scrubbed(krate, self.tree(), root, base)
        &&& self@ == scrubbed_files(files, root, base)
        &&& self@ == files_in(self.tree(), Seq::empty(), false, Admit::Hashed)
        &&& self.changes() == rewritten_files(files, root, base)
    }

    /// The crate, to be written back.
    pub fn artifact(&self) -> (r: &Vec<Entry>)
        ensures
            r@ == self.tree(),
    {
        &self.tree
    }

    /// The files that were rewritten, with their new text: what each of them held varied from run to
    /// run.
    pub fn rewritten(&self) -> (r: &[(Vec<u8>, String)])
        ensures
            rewrite_views(r@) == self.changes(),
    {
        self.rewritten.as_slice()
    }
}

/// Rewrites the paths of one run in the files of a crate that are hashed. A file that is no text holds
/// no path that could be rewritten.
pub fn scrub<P: Phase>(krate: &Vec<Entry>, root: &str, base: &str) -> (r: Scrubbed<P>)
    ensures
        r.made_from(krate@, root@, base@),
{
    let none: Vec<u8> = Vec::new();
    let tree = scrub_entries(krate, &none, is_cmake_build_dir(krate), true, root, base);
    proof {
        assert(none@ =~= Seq::empty());
        lemma_scrubbed_names(
            krate@,
            tree@,
            Seq::empty(),
            built_by_cmake(krate@),
            true,
            root@,
            base@,
        );
        lemma_scrubbed_over(
            krate@,
            tree@,
            bytes::in_order(names_of(krate@)),
            Seq::empty(),
            built_by_cmake(krate@),
            root@,
            base@,
        );
    }
    Scrubbed { tree, rewritten: find_rewritten(krate, root, base), phase: PhantomData }
}

// ---------------------------------------------------------------------------
// Sealing
// ---------------------------------------------------------------------------

/// Seals what a finished run left, against the reference that was read before it: a refusal, or the
/// files to delete first, or the artifact. Only a scrubbed crate can be sealed.
pub fn seal<P: Phase>(_finished: &Completed, before: &Oracle, artifact: &Scrubbed<P>) -> (r: Result<
    Sealing<P>,
    Refusal,
>)
    ensures
        match judged(before@, artifact.tree()) {
            Err(e) => r matches Err(x) && x@ == e,
            Ok(built) => if built.len() > 0 {
                r matches Ok(Sealing::Drop(v)) && bytes::byte_views(v@) == built
            } else {
                r matches Ok(Sealing::Done(s)) && s@ == files_digest(artifact@)
            },
        },
{
    match before.judge(&artifact.tree) {
        Err(e) => Err(e),
        Ok(built) => {
            assert(bytes::byte_views(built@).len() == built@.len());
            if built.len() > 0 {
                Ok(Sealing::Drop(built))
            } else {
                Ok(
                    Sealing::Done(
                        Sealed { digest: digest_tree(&artifact.tree), phase: PhantomData },
                    ),
                )
            }
        },
    }
}

/// The digest under which a crate is sealed that was worked on in `root`, below `base`.
pub open spec fn sealed_digest(krate: Seq<Entry>, root: Seq<char>, base: Seq<char>) -> Seq<char> {
    files_digest(
        scrubbed_files(files_in(krate, Seq::empty(), false, Admit::Hashed), root, base),
    )
}

/// What is sealed is what scrubbing left: two crates whose scrubbed files agree have one digest,
/// wherever they were worked on, and two whose scrubbed files differ have different things hashed, and
/// so two digests unless the hash collides.
pub proof fn law_what_is_sealed_is_what_was_scrubbed(
    one: Seq<Entry>,
    other: Seq<Entry>,
    places: (Seq<char>, Seq<char>),
    bases: (Seq<char>, Seq<char>),
)
    requires
        countable(
            scrubbed_files(
                files_in(one, Seq::empty(), false, Admit::Hashed),
                places.0,
                bases.0,
            ),
        ),
        countable(
            scrubbed_files(
                files_in(other, Seq::empty(), false, Admit::Hashed),
                places.1,
                bases.1,
            ),
        ),
    ensures
        ({
            let a = scrubbed_files(
                files_in(one, Seq::empty(), false, Admit::Hashed),
                places.0,
                bases.0,
            );
            let b = scrubbed_files(
                files_in(other, Seq::empty(), false, Admit::Hashed),
                places.1,
                bases.1,
            );
            let (x, y) = (digest::frames(tree_fields(a)), digest::frames(tree_fields(b)));
            &&& a == b ==> sealed_digest(one, places.0, bases.0) == sealed_digest(
                other,
                places.1,
                bases.1,
            )
            &&& a == b <==> x == y
            &&& (digest::sha256(x) == digest::sha256(y) ==> x == y) ==> (sealed_digest(
                one,
                places.0,
                bases.0,
            ) == sealed_digest(other, places.1, bases.1) <==> a == b)
        }),
{
    let a = scrubbed_files(files_in(one, Seq::empty(), false, Admit::Hashed), places.0, bases.0);
    let b = scrubbed_files(files_in(other, Seq::empty(), false, Admit::Hashed), places.1, bases.1);
    let (x, y) = (digest::frames(tree_fields(a)), digest::frames(tree_fields(b)));
    if x == y {
        law_what_is_hashed_determines_the_files(a, b);
    }
    if digest::sha256(x) == digest::sha256(y) ==> x == y {
        digest::law_a_digest_names_what_was_hashed(x, y);
    }
}

// ---------------------------------------------------------------------------
// Laws of the reference
// ---------------------------------------------------------------------------

/// An artifact is accepted only where every recorded file of the reference is in it, carried and with
/// the bytes that were recorded.
pub proof fn law_an_accepted_reference_is_the_one_shipped(
    before: Seq<HashedFile>,
    artifact: Seq<Entry>,
    i: int,
)
    requires
        judged(before, artifact) is Ok,
        0 <= i < before.len(),
    ensures
        carries(artifact, before[i].0),
        file_under(oracle_entries(artifact), relpath::components(before[i].0)) is Some,
        digest::sha256(
            file_under(oracle_entries(artifact), relpath::components(before[i].0))->0,
        ) == before[i].1,
{
    lemma_no_change(artifact, before, i);
}

proof fn lemma_no_change(artifact: Seq<Entry>, before: Seq<HashedFile>, i: int)
    requires
        first_change(artifact, before) is None,
        0 <= i < before.len(),
    ensures
        change_of(artifact, before[i]) is None,
    decreases before.len(),
{
    if i < before.len() - 1 {
        assert(before.drop_last()[i] == before[i]);
        lemma_no_change(artifact, before.drop_last(), i);
    }
}

/// Nothing may be added to the reference but what building it leaves: whatever an accepted artifact
/// has there beside the recorded files is a build product.
pub proof fn law_only_build_products_may_be_added(
    before: Seq<HashedFile>,
    artifact: Seq<Entry>,
    i: int,
)
    requires
        judged(before, artifact) is Ok,
        oracle_now(artifact) is Ok,
        0 <= i < oracle_now(artifact)->Ok_0.len(),
        !recorded(before, oracle_now(artifact)->Ok_0[i].0),
    ensures
        build_product(
            oracle_now(artifact)->Ok_0[i].0,
            head_of(oracle_now(artifact)->Ok_0[i].1),
        ),
{
    lemma_nothing_added(oracle_now(artifact)->Ok_0, before, i);
}

proof fn lemma_nothing_added(files: Seq<FileView>, before: Seq<HashedFile>, i: int)
    requires
        first_added(files, before) is None,
        0 <= i < files.len(),
    ensures
        recorded(before, files[i].0) || build_product(files[i].0, head_of(files[i].1)),
    decreases files.len(),
{
    if i < files.len() - 1 {
        assert(files.drop_last()[i] == files[i]);
        lemma_nothing_added(files.drop_last(), before, i);
    }
}

/// A link in the reference is refused, whatever else holds of the artifact.
pub proof fn law_a_link_in_the_reference_is_refused(before: Seq<HashedFile>, artifact: Seq<Entry>)
    requires
        oracle_in(artifact) is Some,
        artifact[oracle_in(artifact)->0].link || oracle_link(oracle_entries(artifact)) is Some,
    ensures
        judged(before, artifact) is Err,
{
}

// ---------------------------------------------------------------------------
// Laws of digests
// ---------------------------------------------------------------------------

/// The entries of a directory but for those of a name.
pub open spec fn without(es: Seq<Entry>, name: Seq<u8>) -> Seq<Entry> {
    es.filter(|e: Entry| e.name@ != name)
}

/// Names but for one.
spec fn names_without(s: Seq<Seq<u8>>, name: Seq<u8>) -> Seq<Seq<u8>> {
    s.filter(|n: Seq<u8>| n != name)
}

proof fn lemma_names_without(es: Seq<Entry>, name: Seq<u8>)
    ensures
        names_of(without(es, name)) == names_without(names_of(es), name),
    decreases es.len(),
{
    reveal(Seq::filter);
    if es.len() == 0 {
        assert(names_of(without(es, name)) =~= names_without(names_of(es), name));
    } else {
        lemma_names_without(es.drop_last(), name);
        assert(names_of(es).drop_last() =~= names_of(es.drop_last()));
        assert(names_of(es).last() == es.last().name@);
        if es.last().name@ != name {
            assert(names_of(without(es.drop_last(), name).push(es.last())) =~= names_of(
                without(es.drop_last(), name),
            ).push(es.last().name@));
        }
    }
}

proof fn lemma_filtered_count(s: Seq<Seq<u8>>, name: Seq<u8>, x: Seq<u8>)
    ensures
        names_without(s, name).to_multiset().count(x) == (if x == name {
            0
        } else {
            s.to_multiset().count(x)
        }),
    decreases s.len(),
{
    broadcast use vstd::multiset::group_multiset_axioms;

    reveal(Seq::filter);
    s.to_multiset_ensures();
    names_without(s, name).to_multiset_ensures();
    if s.len() > 0 {
        let t = s.drop_last();
        lemma_filtered_count(t, name, x);
        assert(s =~= t.push(s.last()));
        vstd::seq_lib::to_multiset_build(t, s.last());
        vstd::seq_lib::to_multiset_build(names_without(t, name), s.last());
    }
}

proof fn lemma_filtered_order(s: Seq<Seq<u8>>, name: Seq<u8>)
    ensures
        names_without(bytes::in_order(s), name) == bytes::in_order(names_without(s, name)),
{
    broadcast use vstd::multiset::group_multiset_axioms;

    let r = bytes::byte_order();
    bytes::lemma_byte_order_total();
    s.lemma_sort_by_ensures(r);
    let o = bytes::in_order(s);
    let a = names_without(o, name);
    let t = names_without(s, name);
    t.lemma_sort_by_ensures(r);
    assert(a.to_multiset() =~= t.to_multiset()) by {
        assert forall|x: Seq<u8>| a.to_multiset().count(x) == t.to_multiset().count(x) by {
            lemma_filtered_count(o, name, x);
            lemma_filtered_count(s, name, x);
        }
    }
    lemma_filter_keeps_order(o, name);
    vstd::seq_lib::lemma_sorted_unique(a, bytes::in_order(t), r);
}

proof fn lemma_filter_keeps_order(s: Seq<Seq<u8>>, name: Seq<u8>)
    requires
        vstd::relations::sorted_by(s, bytes::byte_order()),
    ensures
        vstd::relations::sorted_by(names_without(s, name), bytes::byte_order()),
        forall|i: int|
            0 <= i < names_without(s, name).len() ==> s.contains(
                #[trigger] names_without(s, name)[i],
            ),
    decreases s.len(),
{
    reveal(Seq::filter);
    let r = bytes::byte_order();
    if s.len() > 0 {
        let t = s.drop_last();
        let before = names_without(t, name);
        assert forall|i: int, j: int| 0 <= i < j < t.len() implies #[trigger] r(t[i], t[j]) by {
            assert(r(s[i], s[j]));
        }
        lemma_filter_keeps_order(t, name);
        let after = names_without(s, name);
        assert forall|i: int, j: int| 0 <= i < j < after.len() implies #[trigger] r(
            after[i],
            after[j],
        ) by {
            if j < before.len() {
                assert(r(before[i], before[j]));
            } else {
                assert(t.contains(before[i]));
                let k = choose|k: int| 0 <= k < t.len() && t[k] == before[i];
                assert(r(s[k], s[s.len() - 1]));
            }
        }
        assert forall|i: int| 0 <= i < after.len() implies s.contains(#[trigger] after[i]) by {
            if i < before.len() {
                assert(t.contains(before[i]));
                let k = choose|k: int| 0 <= k < t.len() && t[k] == before[i];
                assert(s[k] == after[i]);
            } else {
                assert(s[s.len() - 1] == after[i]);
            }
        }
    }
}

/// An entry of another name is found in the rest as it is found in the whole.
proof fn lemma_found_without(es: Seq<Entry>, gone: Seq<u8>, name: Seq<u8>)
    requires
        name != gone,
    ensures
        place_of(es, name) is Some <==> place_of(without(es, gone), name) is Some,
        place_of(es, name) matches Some(p) ==> 0 <= p < es.len() && 0 <= place_of(
            without(es, gone),
            name,
        )->0 < without(es, gone).len() && es[p] == without(es, gone)[place_of(
            without(es, gone),
            name,
        )->0],
    decreases es.len(),
{
    reveal(Seq::filter);
    if es.len() > 0 {
        lemma_found_without(es.drop_last(), gone, name);
        let rest = without(es.drop_last(), gone);
        if es.last().name@ != gone {
            assert(rest.push(es.last()).drop_last() =~= rest);
        }
    }
}

proof fn lemma_walk_without(
    es: Seq<Entry>,
    order: Seq<Seq<u8>>,
    gone: Seq<u8>,
    build_here: bool,
    a: Admit,
)
    requires
        !seen(gone, build_here, a),
    ensures
        files_over(es, order, Seq::empty(), build_here, a) == files_over(
            without(es, gone),
            names_without(order, gone),
            Seq::empty(),
            build_here,
            a,
        ),
    decreases order.len(),
{
    reveal(Seq::filter);
    if order.len() > 0 {
        lemma_walk_without(es, order.drop_last(), gone, build_here, a);
        let name = order.last();
        let kept = names_without(order.drop_last(), gone);
        if name != gone {
            lemma_found_without(es, gone, name);
            assert(kept.push(name).drop_last() =~= kept);
        }
    }
}

proof fn lemma_rest_is_part(es: Seq<Entry>, gone: Seq<u8>, j: int)
    requires
        0 <= j < without(es, gone).len(),
    ensures
        es.contains(without(es, gone)[j]),
    decreases es.len(),
{
    reveal(Seq::filter);
    if es.len() > 0 {
        let before = without(es.drop_last(), gone);
        if j < before.len() {
            lemma_rest_is_part(es.drop_last(), gone, j);
            let t = es.drop_last();
            let i = choose|i: int| 0 <= i < t.len() && t[i] == before[j];
            assert(es[i] == before[j]);
        } else {
            assert(es[es.len() - 1] == without(es, gone)[j]);
        }
    }
}

proof fn lemma_cmake_without(es: Seq<Entry>, gone: Seq<u8>)
    requires
        gone != "CMakeCache.txt".spec_bytes(),
        gone != "CMakeFiles".spec_bytes(),
    ensures
        built_by_cmake(es) == built_by_cmake(without(es, gone)),
{
    broadcast use vstd::seq_lib::group_filter_ensures;

    let rest = without(es, gone);
    let marks = |e: Entry|
        (e.name@ == "CMakeCache.txt".spec_bytes() && e.node is File) || (e.name@
            == "CMakeFiles".spec_bytes() && e.node is Dir);
    if built_by_cmake(es) {
        let i = choose|i: int| 0 <= i < es.len() && marks(#[trigger] es[i]);
        assert(rest.contains(es[i]));
        let j = choose|j: int| 0 <= j < rest.len() && rest[j] == es[i];
        assert(marks(rest[j]));
    }
    if built_by_cmake(rest) {
        let j = choose|j: int| 0 <= j < rest.len() && marks(#[trigger] rest[j]);
        lemma_rest_is_part(es, gone, j);
        let i = choose|i: int| 0 <= i < es.len() && es[i] == rest[j];
        assert(marks(es[i]));
    }
}

/// A directory of build output at the root of a tree is not walked.
proof fn lemma_target_is_not_walked(build_here: bool, a: Admit)
    ensures
        !seen("target".spec_bytes(), build_here, a),
        "target".spec_bytes() != "CMakeCache.txt".spec_bytes(),
        "target".spec_bytes() != "CMakeFiles".spec_bytes(),
{
    reveal_strlit("target");
    vstd::utf8::is_ascii_chars_encode_utf8("target"@);
    reveal_strlit("logs");
    vstd::utf8::is_ascii_chars_encode_utf8("logs"@);
    reveal_strlit(".log");
    vstd::utf8::is_ascii_chars_encode_utf8(".log"@);
    reveal_strlit(".bak");
    vstd::utf8::is_ascii_chars_encode_utf8(".bak"@);
    reveal_strlit(".sha256");
    vstd::utf8::is_ascii_chars_encode_utf8(".sha256"@);
    reveal_strlit("result.json");
    vstd::utf8::is_ascii_chars_encode_utf8("result.json"@);
    reveal_strlit("verification.json");
    vstd::utf8::is_ascii_chars_encode_utf8("verification.json"@);
    reveal_strlit("translation.json");
    vstd::utf8::is_ascii_chars_encode_utf8("translation.json"@);
    reveal_strlit("harvest_bench_report.json");
    vstd::utf8::is_ascii_chars_encode_utf8("harvest_bench_report.json"@);
    reveal_strlit("harvest_batch_report.json");
    vstd::utf8::is_ascii_chars_encode_utf8("harvest_batch_report.json"@);
    reveal_strlit("c_src");
    vstd::utf8::is_ascii_chars_encode_utf8("c_src"@);
    reveal_strlit("translation");
    vstd::utf8::is_ascii_chars_encode_utf8("translation"@);
    reveal_strlit("CMakeCache.txt");
    vstd::utf8::is_ascii_chars_encode_utf8("CMakeCache.txt"@);
    reveal_strlit("CMakeFiles");
    vstd::utf8::is_ascii_chars_encode_utf8("CMakeFiles"@);
    reveal_strlit(".");
    vstd::utf8::is_ascii_chars_encode_utf8("."@);
    let t = "target".spec_bytes();
    assert(t.len() == 6);
    assert(t[0] == 116 && t[2] == 114 && t[5] == 116);
    program::lemma_program();
    assert(program::settings_dir()[0] == '.');
    vstd::utf8::is_ascii_chars_encode_utf8(program::settings_dir());
    bytes::lemma_split_whole(t, 47);
    reveal_with_fuel(relpath::naming, 2);
    let c = relpath::components(t);
    assert(bytes::split(t, 47).drop_last() =~= Seq::<Seq<u8>>::empty());
    assert(c =~= seq![t]);
    assert(c[0] == t);
    assert(!contents::ignored(t));
    assert(contents::build_dir_name(c[0]));
    assert(contents::under_build_dir(t));
}

/// What stands under `target` at the root of a tree leaves every digest of the tree alone: nothing
/// that is added, edited or removed there changes it.
pub proof fn law_a_build_tree_leaves_the_digest_alone(one: Seq<Entry>, other: Seq<Entry>, a: Admit)
    requires
        without(one, "target".spec_bytes()) == without(other, "target".spec_bytes()),
    ensures
        tree_digest(one, a) == tree_digest(other, a),
{
    lemma_digest_without_target(one, a);
    lemma_digest_without_target(other, a);
}

proof fn lemma_digest_without_target(es: Seq<Entry>, a: Admit)
    ensures
        tree_digest(es, a) == tree_digest(without(es, "target".spec_bytes()), a),
{
    let t = "target".spec_bytes();
    let build = built_by_cmake(es);
    lemma_target_is_not_walked(build, a);
    lemma_cmake_without(es, t);
    lemma_names_without(es, t);
    lemma_filtered_order(names_of(es), t);
    lemma_walk_without(es, bytes::in_order(names_of(es)), t, build, a);
}

/// What a walk finds at the end of a path, given by its names from `prefix` on.
pub open spec fn walked_to(
    es: Seq<Entry>,
    names: Seq<Seq<u8>>,
    prefix: Seq<u8>,
    build_here: bool,
    a: Admit,
) -> Option<Seq<u8>>
    decreases names.len(),
{
    if names.len() == 0 {
        None
    } else {
        let rel = below(prefix, names[0]);
        match place_of(es, names[0]) {
            Some(p) => if 0 <= p < es.len() && seen(rel, build_here, a) {
                match es[p].node {
                    Node::File(b) => if names.len() == 1 {
                        Some(b@)
                    } else {
                        None
                    },
                    Node::Dir(ds) => walked_to(
                        ds@,
                        names.subrange(1, names.len() as int),
                        rel,
                        build_here || built_by_cmake(ds@),
                        a,
                    ),
                }
            } else {
                None
            },
            None => None,
        }
    }
}

/// The path that names lead along from `prefix` on.
pub open spec fn path_along(prefix: Seq<u8>, names: Seq<Seq<u8>>) -> Seq<u8>
    decreases names.len(),
{
    if names.len() == 0 {
        prefix
    } else {
        path_along(below(prefix, names[0]), names.subrange(1, names.len() as int))
    }
}

proof fn lemma_name_is_ordered(es: Seq<Entry>, p: int)
    requires
        0 <= p < es.len(),
    ensures
        bytes::in_order(names_of(es)).contains(es[p].name@),
{
    broadcast use vstd::seq_lib::group_to_multiset_ensures;

    let s = names_of(es);
    bytes::lemma_byte_order_total();
    s.lemma_sort_by_ensures(bytes::byte_order());
    assert(s[p] == es[p].name@);
    assert(s.contains(es[p].name@));
    assert(s.to_multiset().count(es[p].name@) > 0);
    assert(bytes::in_order(s).to_multiset().count(es[p].name@) > 0);
}

proof fn lemma_walked_is_found(
    es: Seq<Entry>,
    names: Seq<Seq<u8>>,
    prefix: Seq<u8>,
    build_here: bool,
    a: Admit,
)
    requires
        walked_to(es, names, prefix, build_here, a) is Some,
    ensures
        files_over(es, bytes::in_order(names_of(es)), prefix, build_here, a).contains(
            (path_along(prefix, names), walked_to(es, names, prefix, build_here, a)->0),
        ),
    decreases names.len(),
{
    let rel = below(prefix, names[0]);
    let p = place_of(es, names[0])->0;
    let rest = names.subrange(1, names.len() as int);
    let found = (path_along(prefix, names), walked_to(es, names, prefix, build_here, a)->0);
    lemma_same_places(es, es, names[0]);
    let here = files_at(es[p].node, rel, build_here, a);
    match es[p].node {
        Node::File(b) => {
            assert(rest.len() == 0);
            assert(path_along(rel, rest) == rel);
            assert(here[0] == found);
        },
        Node::Dir(ds) => {
            lemma_walked_is_found(ds@, rest, rel, build_here || built_by_cmake(ds@), a);
        },
    }
    assert(here.contains(found));
    lemma_name_is_ordered(es, p);
    lemma_found_over(es, bytes::in_order(names_of(es)), prefix, build_here, a, names[0], found);
}

proof fn lemma_found_over(
    es: Seq<Entry>,
    order: Seq<Seq<u8>>,
    prefix: Seq<u8>,
    build_here: bool,
    a: Admit,
    name: Seq<u8>,
    file: FileView,
)
    requires
        order.contains(name),
        place_of(es, name) matches Some(p) && 0 <= p < es.len() && files_at(
            es[p].node,
            below(prefix, name),
            build_here,
            a,
        ).contains(file),
        seen(below(prefix, name), build_here, a),
    ensures
        files_over(es, order, prefix, build_here, a).contains(file),
    decreases order.len(),
{
    let i = choose|i: int| 0 <= i < order.len() && order[i] == name;
    let before = files_over(es, order.drop_last(), prefix, build_here, a);
    let all = files_over(es, order, prefix, build_here, a);
    if i < order.len() - 1 {
        assert(order.drop_last()[i] == name);
        lemma_found_over(es, order.drop_last(), prefix, build_here, a, name, file);
        let k = choose|k: int| 0 <= k < before.len() && before[k] == file;
        assert(all[k] == file);
    } else {
        let here = files_at(es[place_of(es, name)->0].node, below(prefix, name), build_here, a);
        let k = choose|k: int| 0 <= k < here.len() && here[k] == file;
        assert(all[before.len() + k] == file);
    }
}

/// A file that nobody would publish, such as a backup, is part of the C reference all the same: whatever
/// does not lead through a directory of build output counts there.
pub proof fn law_a_backup_is_part_of_the_reference(path: Seq<u8>)
    requires
        !contents::under_build_dir(path),
    ensures
        admitted(Admit::Oracle, contents::disposition(path, false)),
        contents::ignored(path) ==> !admitted(Admit::Hashed, contents::disposition(path, false)),
{
}

/// Two nodes hold the same: the same bytes, or the same names and under each the same.
pub open spec fn alike_node(n: Node, m: Node) -> bool
    decreases n, 0nat,
{
    match n {
        Node::File(b) => m matches Node::File(c) && b@ == c@,
        Node::Dir(es) => m matches Node::Dir(fs) && alike(es@, fs@),
    }
}

/// Two directories hold the same.
pub open spec fn alike(es: Seq<Entry>, fs: Seq<Entry>) -> bool
    decreases es, 1nat,
{
    &&& es.len() == fs.len()
    &&& forall|i: int|
        0 <= i < es.len() ==> (#[trigger] es[i]).name@ == fs[i].name@ && alike_node(
            es[i].node,
            fs[i].node,
        )
}

/// Two directories hold the same but for the bytes of one file, to which the names lead.
pub open spec fn alike_but(es: Seq<Entry>, fs: Seq<Entry>, names: Seq<Seq<u8>>) -> bool
    decreases names.len(),
{
    &&& names.len() > 0
    &&& es.len() == fs.len()
    &&& forall|i: int|
        0 <= i < es.len() ==> (#[trigger] es[i]).name@ == fs[i].name@ && (place_of(es, names[0])
            != Some(i) ==> alike_node(es[i].node, fs[i].node))
    &&& place_of(es, names[0]) matches Some(p) && if names.len() == 1 {
        es[p].node is File && fs[p].node is File
    } else {
        match es[p].node {
            Node::Dir(ds) => fs[p].node matches Node::Dir(gs) && alike_but(
                ds@,
                gs@,
                names.subrange(1, names.len() as int),
            ),
            Node::File(_) => false,
        }
    }
}

proof fn lemma_same_names(es: Seq<Entry>, fs: Seq<Entry>)
    requires
        es.len() == fs.len(),
        forall|i: int| 0 <= i < es.len() ==> (#[trigger] es[i]).name@ == fs[i].name@,
    ensures
        names_of(es) == names_of(fs),
        forall|name: Seq<u8>| place_of(es, name) == #[trigger] place_of(fs, name),
{
    assert(names_of(es) =~= names_of(fs));
    assert forall|name: Seq<u8>| place_of(es, name) == #[trigger] place_of(fs, name) by {
        lemma_place_by_names(es, fs, name);
    }
}

proof fn lemma_place_by_names(es: Seq<Entry>, fs: Seq<Entry>, name: Seq<u8>)
    requires
        es.len() == fs.len(),
        forall|i: int| 0 <= i < es.len() ==> (#[trigger] es[i]).name@ == fs[i].name@,
    ensures
        place_of(es, name) == place_of(fs, name),
        place_of(es, name) matches Some(p) ==> 0 <= p < es.len() && es[p].name@ == name,
{
    assert(names_of(es) =~= names_of(fs));
    lemma_same_places(es, fs, name);
}

proof fn lemma_cmake_carries(es: Seq<Entry>, fs: Seq<Entry>)
    requires
        es.len() == fs.len(),
        forall|i: int|
            0 <= i < es.len() ==> (#[trigger] es[i]).name@ == fs[i].name@ && (es[i].node is File
                <==> fs[i].node is File),
        built_by_cmake(es),
    ensures
        built_by_cmake(fs),
{
    if exists|i: int|
        0 <= i < es.len() && (#[trigger] es[i]).name@ == "CMakeCache.txt".spec_bytes()
            && es[i].node is File {
        let i = choose|i: int|
            0 <= i < es.len() && (#[trigger] es[i]).name@ == "CMakeCache.txt".spec_bytes()
                && es[i].node is File;
        assert(fs[i].name@ == "CMakeCache.txt".spec_bytes() && fs[i].node is File);
    } else {
        let i = choose|i: int|
            0 <= i < es.len() && (#[trigger] es[i]).name@ == "CMakeFiles".spec_bytes()
                && es[i].node is Dir;
        assert(fs[i].name@ == "CMakeFiles".spec_bytes() && fs[i].node is Dir);
    }
}

/// Directories with the same names and the same kinds of nodes are built in by cmake alike.
proof fn lemma_same_cmake(es: Seq<Entry>, fs: Seq<Entry>)
    requires
        es.len() == fs.len(),
        forall|i: int|
            0 <= i < es.len() ==> (#[trigger] es[i]).name@ == fs[i].name@ && (es[i].node is File
                <==> fs[i].node is File),
    ensures
        built_by_cmake(es) == built_by_cmake(fs),
{
    assert forall|i: int| 0 <= i < es.len() implies (#[trigger] fs[i]).name@ == es[i].name@ && (
    fs[i].node is File <==> es[i].node is File) by {
        assert(es[i].name@ == fs[i].name@);
    }
    if built_by_cmake(es) {
        lemma_cmake_carries(es, fs);
    }
    if built_by_cmake(fs) {
        lemma_cmake_carries(fs, es);
    }
}

proof fn lemma_alike_files_at(n: Node, m: Node, rel: Seq<u8>, in_build: bool, a: Admit)
    requires
        alike_node(n, m),
    ensures
        files_at(n, rel, in_build, a) == files_at(m, rel, in_build, a),
        n is File <==> m is File,
    decreases n, 0nat, 0nat,
{
    match n {
        Node::File(_) => {},
        Node::Dir(es) => {
            if let Node::Dir(fs) = m {
                lemma_alike_files(es@, fs@, rel, in_build, a);
            }
        },
    }
}

proof fn lemma_alike_files(es: Seq<Entry>, fs: Seq<Entry>, prefix: Seq<u8>, in_build: bool, a: Admit)
    requires
        alike(es, fs),
    ensures
        files_in(es, prefix, in_build, a) == files_in(fs, prefix, in_build, a),
    decreases es, 1nat, 0nat,
{
    lemma_same_names(es, fs);
    assert forall|i: int| 0 <= i < es.len() implies (#[trigger] es[i]).name@ == fs[i].name@ && (
    es[i].node is File <==> fs[i].node is File) by {
        assert(alike_node(es[i].node, fs[i].node));
    }
    lemma_same_cmake(es, fs);
    lemma_alike_over(
        es,
        fs,
        bytes::in_order(names_of(es)),
        prefix,
        in_build || built_by_cmake(es),
        a,
    );
}

proof fn lemma_alike_over(
    es: Seq<Entry>,
    fs: Seq<Entry>,
    order: Seq<Seq<u8>>,
    prefix: Seq<u8>,
    build_here: bool,
    a: Admit,
)
    requires
        alike(es, fs),
    ensures
        files_over(es, order, prefix, build_here, a) == files_over(fs, order, prefix, build_here, a),
    decreases es, 0nat, order.len(),
{
    if order.len() > 0 {
        lemma_alike_over(es, fs, order.drop_last(), prefix, build_here, a);
        lemma_place_by_names(es, fs, order.last());
        if let Some(p) = place_of(es, order.last()) {
            assert(es[p].name@ == fs[p].name@);
            lemma_alike_files_at(
                es[p].node,
                fs[p].node,
                below(prefix, order.last()),
                build_here,
                a,
            );
        }
    }
}

/// What two directories that are alike but for one file have where that file stands.
pub open spec fn meet_at(
    one: Seq<FileView>,
    other: Seq<FileView>,
    path: Seq<u8>,
    b: Seq<u8>,
    c: Seq<u8>,
) -> bool {
    &&& one.len() == other.len()
    &&& exists|i: int|
        0 <= i < one.len() && #[trigger] one[i] == (path, b) && other[i] == (path, c)
}

proof fn lemma_but_walks(
    es: Seq<Entry>,
    fs: Seq<Entry>,
    names: Seq<Seq<u8>>,
    prefix: Seq<u8>,
    build_here: bool,
    a: Admit,
)
    requires
        alike_but(es, fs, names),
        walked_to(es, names, prefix, build_here, a) is Some,
    ensures
        built_by_cmake(es) == built_by_cmake(fs),
        walked_to(fs, names, prefix, build_here, a) is Some,
        meet_at(
            files_over(es, bytes::in_order(names_of(es)), prefix, build_here, a),
            files_over(fs, bytes::in_order(names_of(fs)), prefix, build_here, a),
            path_along(prefix, names),
            walked_to(es, names, prefix, build_here, a)->0,
            walked_to(fs, names, prefix, build_here, a)->0,
        ),
        walked_to(es, names, prefix, build_here, a) == walked_to(fs, names, prefix, build_here, a)
            ==> alike(es, fs),
    decreases names.len(),
{
    let rest = names.subrange(1, names.len() as int);
    let rel = below(prefix, names[0]);
    let p = place_of(es, names[0])->0;
    lemma_same_names(es, fs);
    lemma_place_by_names(es, fs, names[0]);
    assert(es[p].name@ == fs[p].name@);
    assert forall|i: int| 0 <= i < es.len() implies (#[trigger] es[i]).name@ == fs[i].name@ && (
    es[i].node is File <==> fs[i].node is File) by {
        if i != p {
            assert(alike_node(es[i].node, fs[i].node));
        }
    }
    lemma_same_cmake(es, fs);
    let b = walked_to(es, names, prefix, build_here, a)->0;
    let c = walked_to(fs, names, prefix, build_here, a)->0;
    let here = files_at(es[p].node, rel, build_here, a);
    let there = files_at(fs[p].node, rel, build_here, a);
    let path = path_along(prefix, names);
    match es[p].node {
        Node::File(x) => {
            assert(rest.len() == 0);
            assert(path_along(rel, rest) == rel);
            assert(here[0] == (path, b) && there[0] == (path, c));
        },
        Node::Dir(ds) => {
            if names.len() == 1 {
                assert(false);
            }
            if let Node::Dir(gs) = fs[p].node {
                lemma_but_walks(ds@, gs@, rest, rel, build_here || built_by_cmake(ds@), a);
            }
        },
    }
    assert(meet_at(here, there, path, b, c));
    lemma_name_is_ordered(es, p);
    lemma_but_over(es, fs, names, bytes::in_order(names_of(es)), prefix, build_here, a, path, b, c);
    if b == c {
        assert forall|i: int| 0 <= i < es.len() implies (#[trigger] es[i]).name@ == fs[i].name@
            && alike_node(es[i].node, fs[i].node) by {
            if i == p {
                match es[p].node {
                    Node::File(_) => {},
                    Node::Dir(ds) => {},
                }
            }
        }
    }
}

proof fn lemma_but_over(
    es: Seq<Entry>,
    fs: Seq<Entry>,
    names: Seq<Seq<u8>>,
    order: Seq<Seq<u8>>,
    prefix: Seq<u8>,
    build_here: bool,
    a: Admit,
    path: Seq<u8>,
    b: Seq<u8>,
    c: Seq<u8>,
)
    requires
        alike_but(es, fs, names),
        seen(below(prefix, names[0]), build_here, a),
        meet_at(
            files_at(
                es[place_of(es, names[0])->0].node,
                below(prefix, names[0]),
                build_here,
                a,
            ),
            files_at(
                fs[place_of(es, names[0])->0].node,
                below(prefix, names[0]),
                build_here,
                a,
            ),
            path,
            b,
            c,
        ),
    ensures
        files_over(es, order, prefix, build_here, a).len() == files_over(
            fs,
            order,
            prefix,
            build_here,
            a,
        ).len(),
        order.contains(names[0]) ==> meet_at(
            files_over(es, order, prefix, build_here, a),
            files_over(fs, order, prefix, build_here, a),
            path,
            b,
            c,
        ),
    decreases order.len(),
{
    if order.len() > 0 {
        let name = order.last();
        let rel = below(prefix, name);
        lemma_but_over(es, fs, names, order.drop_last(), prefix, build_here, a, path, b, c);
        lemma_place_by_names(es, fs, name);
        lemma_place_by_names(es, fs, names[0]);
        let x = files_over(es, order.drop_last(), prefix, build_here, a);
        let y = files_over(fs, order.drop_last(), prefix, build_here, a);
        let all = files_over(es, order, prefix, build_here, a);
        let bll = files_over(fs, order, prefix, build_here, a);
        if let Some(q) = place_of(es, name) {
            assert(es[q].name@ == fs[q].name@);
            let here = files_at(es[q].node, rel, build_here, a);
            let there = files_at(fs[q].node, rel, build_here, a);
            if place_of(es, names[0]) != Some(q) {
                lemma_alike_files_at(es[q].node, fs[q].node, rel, build_here, a);
            } else {
                assert(name == names[0]);
                let i = choose|i: int|
                    0 <= i < here.len() && #[trigger] here[i] == (path, b) && there[i] == (path, c);
                assert(all[x.len() + i] == (path, b));
                assert(bll[y.len() + i] == (path, c));
            }
        }
        if order.drop_last().contains(names[0]) {
            let i = choose|i: int|
                0 <= i < x.len() && #[trigger] x[i] == (path, b) && y[i] == (path, c);
            assert(all[i] == (path, b));
            assert(bll[i] == (path, c));
        } else if order.contains(names[0]) {
            let k = choose|k: int| 0 <= k < order.len() && order[k] == names[0];
            if k < order.len() - 1 {
                assert(order.drop_last()[k] == names[0]);
            }
            assert(name == names[0]);
        }
    }
}

/// A file of a tree counts in its digest: two trees that hold the same but for the bytes of one file
/// that a walk reaches have one digest exactly where those bytes agree, unless the hash collides.
pub proof fn law_every_file_that_is_reached_counts(
    one: Seq<Entry>,
    other: Seq<Entry>,
    names: Seq<Seq<u8>>,
    a: Admit,
)
    requires
        alike_but(one, other, names),
        walked_to(one, names, Seq::empty(), built_by_cmake(one), a) is Some,
        countable(files_in(one, Seq::empty(), false, a)),
        countable(files_in(other, Seq::empty(), false, a)),
    ensures
        ({
            let x = digest::frames(tree_fields(files_in(one, Seq::empty(), false, a)));
            let y = digest::frames(tree_fields(files_in(other, Seq::empty(), false, a)));
            let same = walked_to(one, names, Seq::empty(), built_by_cmake(one), a) == walked_to(
                other,
                names,
                Seq::empty(),
                built_by_cmake(other),
                a,
            );
            &&& x == y <==> same
            &&& (digest::sha256(x) == digest::sha256(y) ==> x == y) ==> (tree_digest(one, a)
                == tree_digest(other, a) <==> same)
        }),
{
    let build = built_by_cmake(one);
    lemma_but_walks(one, other, names, Seq::empty(), build, a);
    let p = files_in(one, Seq::empty(), false, a);
    let q = files_in(other, Seq::empty(), false, a);
    let (x, y) = (digest::frames(tree_fields(p)), digest::frames(tree_fields(q)));
    if walked_to(one, names, Seq::empty(), build, a) == walked_to(
        other,
        names,
        Seq::empty(),
        build,
        a,
    ) {
        lemma_alike_files(one, other, Seq::empty(), false, a);
    }
    if x == y {
        law_what_is_hashed_determines_the_files(p, q);
    }
    if digest::sha256(x) == digest::sha256(y) ==> x == y {
        digest::law_a_digest_names_what_was_hashed(x, y);
    }
}

/// What stands at the end of a path, by its names, whatever a walk makes of it. No directory on the way
/// is one that cmake built in.
pub open spec fn led_to(es: Seq<Entry>, names: Seq<Seq<u8>>) -> Option<Seq<u8>>
    decreases names.len(),
{
    if names.len() == 0 || built_by_cmake(es) {
        None
    } else {
        match place_of(es, names[0]) {
            Some(p) => match es[p].node {
                Node::File(b) => if names.len() == 1 {
                    Some(b@)
                } else {
                    None
                },
                Node::Dir(ds) => led_to(ds@, names.subrange(1, names.len() as int)),
            },
            None => None,
        }
    }
}

/// Every path on the way stays in the tree and leads through no directory of build output.
pub open spec fn clear_way(prefix: Seq<u8>, names: Seq<Seq<u8>>) -> bool
    decreases names.len(),
{
    names.len() > 0 ==> {
        let rel = below(prefix, names[0]);
        &&& relpath::stays_inside(rel)
        &&& !contents::under_build_dir(rel)
        &&& clear_way(rel, names.subrange(1, names.len() as int))
    }
}

/// A walk of the C reference reaches every file that is no build output, a backup or a log as any other.
pub proof fn law_a_file_of_the_reference_is_reached(
    es: Seq<Entry>,
    names: Seq<Seq<u8>>,
    prefix: Seq<u8>,
)
    requires
        led_to(es, names) is Some,
        clear_way(prefix, names),
    ensures
        walked_to(es, names, prefix, built_by_cmake(es), Admit::Oracle) == led_to(es, names),
    decreases names.len(),
{
    let rel = below(prefix, names[0]);
    law_a_backup_is_part_of_the_reference(rel);
    lemma_place_by_names(es, es, names[0]);
    let p = place_of(es, names[0])->0;
    if let Node::Dir(ds) = es[p].node {
        law_a_file_of_the_reference_is_reached(ds@, names.subrange(1, names.len() as int), rel);
    }
}

/// A corpus with a backup in it is another corpus where the backup is another: two corpora that hold
/// the same but for the bytes of one file that is no build output have one digest exactly where those
/// bytes agree, unless the hash collides, wherever the corpora stand.
pub proof fn law_a_backup_counts_in_a_corpus(one: Corpus, other: Corpus, names: Seq<Seq<u8>>)
    requires
        one.entries() is Some,
        other.entries() is Some,
        alike_but(one.entries()->0@, other.entries()->0@, names),
        led_to(one.entries()->0@, names) is Some,
        led_to(other.entries()->0@, names) is Some,
        clear_way(Seq::empty(), names),
        countable(files_in(one.entries()->0@, Seq::empty(), false, Admit::Oracle)),
        countable(files_in(other.entries()->0@, Seq::empty(), false, Admit::Oracle)),
    ensures
        ({
            let a = files_in(one.entries()->0@, Seq::empty(), false, Admit::Oracle);
            let b = files_in(other.entries()->0@, Seq::empty(), false, Admit::Oracle);
            let (x, y) = (digest::frames(tree_fields(a)), digest::frames(tree_fields(b)));
            (digest::sha256(x) == digest::sha256(y) ==> x == y) ==> (oracle_digest(one.entries())
                == oracle_digest(other.entries()) <==> led_to(one.entries()->0@, names) == led_to(
                other.entries()->0@,
                names,
            ))
        }),
{
    let (es, fs) = (one.entries()->0@, other.entries()->0@);
    law_a_file_of_the_reference_is_reached(es, names, Seq::empty());
    law_a_file_of_the_reference_is_reached(fs, names, Seq::empty());
    law_every_file_that_is_reached_counts(es, fs, names, Admit::Oracle);
}

/// Whatever a walk reaches is among the files that are hashed, with its path and its bytes.
pub proof fn law_what_is_reached_is_hashed(es: Seq<Entry>, names: Seq<Seq<u8>>, a: Admit)
    requires
        walked_to(es, names, Seq::empty(), built_by_cmake(es), a) is Some,
    ensures
        files_in(es, Seq::empty(), false, a).contains(
            (
                path_along(Seq::empty(), names),
                walked_to(es, names, Seq::empty(), built_by_cmake(es), a)->0,
            ),
        ),
{
    lemma_walked_is_found(es, names, Seq::empty(), built_by_cmake(es), a);
}

/// The place of a corpus is no part of its digest: two that hold the same have one.
pub proof fn law_the_place_of_a_corpus_does_not_count(one: Corpus, other: Corpus)
    requires
        one.entries() is Some,
        other.entries() is Some,
        one.entries()->0@ == other.entries()->0@,
    ensures
        oracle_digest(one.entries()) == oracle_digest(other.entries()),
{
}

/// Each phase has a directory, a log and a record of its own. A fresh translation makes the verification
/// stale; a fresh verification makes nothing stale.
pub proof fn law_a_fresh_translation_outdates_the_verification(case_dir: Seq<char>)
    ensures
        Translate::dir_name() == "translated"@ && Verify::dir_name() == "verified"@,
        Translate::log_name() == "translation.log"@ && Verify::log_name() == "verify.log"@,
        Translate::metrics_name() == "translation.json"@ && Verify::metrics_name()
            == "verification.json"@,
        stale_dirs_in::<Translate>(case_dir) == seq![paths::joined(case_dir, "verified"@)],
        stale_dirs_in::<Verify>(case_dir).len() == 0,
        logs_in::<Translate>(case_dir) == paths::joined(
            paths::joined(case_dir, "translated"@),
            "logs"@,
        ),
        logs_in::<Verify>(case_dir) == paths::joined(paths::joined(case_dir, "verified"@), "logs"@),
{
}

/// A verification carries what the translation left below what it made itself; a translation has only
/// its own.
pub proof fn law_a_verification_starts_from_the_translation(translated_is_dir: bool)
    ensures
        layers::<Verify>(true) == seq![Carry::FromPreviousPhase, Carry::FromArtifact],
        layers::<Verify>(false) == seq![Carry::FromArtifact],
        layers::<Translate>(translated_is_dir) == seq![Carry::FromArtifact],
{
    reveal_strlit("translated");
    reveal_strlit("verified");
    assert("translated"@.len() != "verified"@.len());
}

/// A crate is seeded where it stands, and the C below it.
pub proof fn law_the_reference_is_seeded_below_the_crate(root: Seq<char>)
    ensures
        seed_place(root, SeedAt::CrateRoot) == paths::joined(root, "translated_rust"@),
        seed_place(root, SeedAt::COracle) == paths::joined(
            paths::joined(root, "translated_rust"@),
            "c_src"@,
        ),
{
}

/// What is hashed is what is stored and hashed; of the reference everything counts but what was built.
pub proof fn law_all_of_the_reference_counts_but_what_was_built(d: Disposition)
    ensures
        admitted(Admit::Hashed, d) <==> d == Disposition::StoreAndHash,
        admitted(Admit::Oracle, d) <==> d != Disposition::BuildOutput,
        admitted(Admit::Carried(Carry::FromPreviousPhase), d) <==> d == Disposition::StoreAndHash,
        admitted(Admit::Carried(Carry::FromArtifact), d) <==> d != Disposition::BuildOutput,
{
}

/// A name stands at its first entry, and nowhere where no entry has it.
pub proof fn law_a_name_stands_at_its_first_entry(es: Seq<Entry>, name: Seq<u8>)
    ensures
        place_of(es, name) matches Some(p) ==> 0 <= p < es.len() && es[p].name@ == name && forall|
            k: int,
        |
            0 <= k < p ==> (#[trigger] es[k]).name@ != name,
        place_of(es, name) is None ==> forall|k: int|
            0 <= k < es.len() ==> (#[trigger] es[k]).name@ != name,
    decreases es.len(),
{
    if es.len() > 0 {
        let d = es.drop_last();
        law_a_name_stands_at_its_first_entry(d, name);
        assert forall|k: int| 0 <= k < d.len() implies d[k] == #[trigger] es[k] by {}
        assert(es[es.len() - 1] == es.last());
        if place_of(d, name) is None {
            assert forall|k: int| 0 <= k < d.len() implies (#[trigger] es[k]).name@ != name by {
                assert(d[k] == es[k]);
            }
        } else {
            let p = place_of(d, name)->0;
            assert forall|k: int| 0 <= k < p implies (#[trigger] es[k]).name@ != name by {
                assert(d[k] == es[k]);
            }
        }
    }
}

/// A directory was built in where it holds the file or the directory that the build leaves, whatever
/// else it holds.
pub proof fn law_a_build_is_told_by_what_it_leaves(es: Seq<Entry>, e: Entry)
    ensures
        built_by_cmake(es.push(e)) <==> built_by_cmake(es) || e.name@
            == "CMakeCache.txt".spec_bytes() && e.node is File || e.name@
            == "CMakeFiles".spec_bytes() && e.node is Dir,
        !built_by_cmake(Seq::empty()),
{
    let all = es.push(e);
    assert(all[es.len() as int] == e);
    assert forall|k: int| 0 <= k < es.len() implies all[k] == #[trigger] es[k] by {}
    if built_by_cmake(es) {
        if exists|i: int|
            0 <= i < es.len() && (#[trigger] es[i]).name@ == "CMakeCache.txt".spec_bytes()
                && es[i].node is File {
            let i = choose|i: int|
                0 <= i < es.len() && (#[trigger] es[i]).name@ == "CMakeCache.txt".spec_bytes()
                    && es[i].node is File;
            assert(all[i] == es[i]);
        } else {
            let i = choose|i: int|
                0 <= i < es.len() && (#[trigger] es[i]).name@ == "CMakeFiles".spec_bytes()
                    && es[i].node is Dir;
            assert(all[i] == es[i]);
        }
    }
    if built_by_cmake(all) {
        if exists|i: int|
            0 <= i < all.len() && (#[trigger] all[i]).name@ == "CMakeCache.txt".spec_bytes()
                && all[i].node is File {
            let i = choose|i: int|
                0 <= i < all.len() && (#[trigger] all[i]).name@ == "CMakeCache.txt".spec_bytes()
                    && all[i].node is File;
            if i < es.len() {
                assert(es[i] == all[i]);
            }
        } else {
            let i = choose|i: int|
                0 <= i < all.len() && (#[trigger] all[i]).name@ == "CMakeFiles".spec_bytes()
                    && all[i].node is Dir;
            if i < es.len() {
                assert(es[i] == all[i]);
            }
        }
    }
}

/// A tree is hashed by each path followed by its content, behind the name of the scheme.
pub proof fn law_a_tree_is_hashed_path_by_path(files: Seq<FileView>, f: FileView)
    ensures
        tree_fields(Seq::empty()) == seq!["harvest-tree-v1".spec_bytes()],
        tree_fields(files.push(f)) == tree_fields(files).push(f.0).push(f.1),
        files_digest(files) == "sha256:"@ + digest::hex(
            digest::sha256(digest::frames(tree_fields(files))),
        ),
{
    assert(files.push(f).drop_last() =~= files);
    assert(tree_fields(files.push(f)) =~= tree_fields(files).push(f.0).push(f.1));
    assert(tree_fields(Seq::empty()) =~= seq!["harvest-tree-v1".spec_bytes()]);
}

/// A digest is shown by its first characters: the scheme and twelve digits.
pub proof fn law_a_digest_is_shown_by_its_beginning(digest: Seq<char>)
    ensures
        digest.len() >= 19 ==> shortened(digest) == digest.subrange(0, 19) + "…"@,
        digest.len() <= 19 ==> shortened(digest) == digest + "…"@,
{
    if digest.len() == 19 {
        assert(digest.subrange(0, 19) =~= digest);
    }
}

/// A reference that is not there has a digest of its own, and is nothing to compare with; one that is
/// reached through a link, or that holds one, is refused, and so is one that holds nothing.
pub proof fn law_a_reference_is_there_as_itself(c: CDir)
    ensures
        oracle_digest(None) == "sha256:absent"@,
        c.entries is None ==> oracle_snapshot(c) == Ok::<Seq<HashedFile>, RefusalView>(
            Seq::empty(),
        ),
        c.entries is Some && c.link ==> oracle_snapshot(c) == Err::<Seq<HashedFile>, RefusalView>(
            RefusalView::OracleModified {
                change: OracleChange::Symlinked,
                file: "c_src".spec_bytes(),
            },
        ),
        c.entries is Some && !c.link ==> (oracle_link(c.entries->0@) matches Some(file)
            ==> oracle_snapshot(c) == Err::<Seq<HashedFile>, RefusalView>(
            RefusalView::OracleModified { change: OracleChange::Symlinked, file },
        )),
        c.entries is Some && !c.link && oracle_link(c.entries->0@) is None && oracle_files(
            c.entries->0@,
        ).len() == 0 ==> oracle_snapshot(c) == Err::<Seq<HashedFile>, RefusalView>(
            RefusalView::OracleEmpty,
        ),
        c.entries is Some && !c.link && oracle_link(c.entries->0@) is None && oracle_files(
            c.entries->0@,
        ).len() > 0 ==> (oracle_snapshot(c) matches Ok(h) && h.len() == oracle_files(
            c.entries->0@,
        ).len()),
{
    assert(hashed(Seq::empty()) =~= Seq::<HashedFile>::empty());
}

/// Each file is known by its path and by the hash of its content.
pub proof fn law_a_file_is_known_by_its_hash(files: Seq<FileView>, i: int)
    requires
        0 <= i < files.len(),
    ensures
        hashed(files).len() == files.len(),
        hashed(files)[i] == (files[i].0, digest::sha256(files[i].1)),
{
}

/// What a build leaves is told by the ending of its name, which may be followed by the numbers of a
/// version. A name without an ending is none.
pub proof fn law_a_product_is_told_by_its_ending(
    stem: Seq<u8>,
    ending: Seq<u8>,
    pieces: Seq<Seq<u8>>,
    number: Seq<u8>,
)
    requires
        !version_number(ending),
    ensures
        product_pieces(seq![stem, ending]) <==> {
            ||| ending == "o".spec_bytes() || ending == "a".spec_bytes() || ending
                == "so".spec_bytes() || ending == "lo".spec_bytes()
            ||| ending == "la".spec_bytes() || ending == "obj".spec_bytes() || ending
                == "d".spec_bytes() || ending == "gch".spec_bytes()
            ||| ending == "pch".spec_bytes() || ending == "dylib".spec_bytes() || ending
                == "gcda".spec_bytes() || ending == "gcno".spec_bytes()
        },
        !product_pieces(seq![stem]),
        pieces.len() > 0 && version_number(number) ==> product_pieces(pieces.push(number))
            == product_pieces(pieces),
        pieces.len() > 0 ==> product_pieces(pieces.push(ending)) == product_pieces(
            seq![stem, ending],
        ),
{
    let two = seq![stem, ending];
    assert(two.last() == ending);
    assert(pieces.push(number).drop_last() =~= pieces);
    assert(pieces.push(number).last() == number);
    assert(pieces.push(ending).last() == ending);
}

/// A number is of digits alone, and is not empty.
pub proof fn law_a_version_is_a_number(s: Seq<u8>, c: u8)
    ensures
        !version_number(Seq::empty()),
        version_number(s.push(c)) <==> (s.len() == 0 || version_number(s)) && 48 <= c <= 57,
{
    let t = s.push(c);
    if version_number(t) {
        assert(t[s.len() as int] == c);
        assert forall|i: int| 0 <= i < s.len() implies 48 <= #[trigger] s[i] <= 57 by {
            assert(t[i] == s[i]);
        }
    }
}

/// A product is told by how its content begins too: an object, an archive or what a coverage run left.
/// What begins with any other byte than those of these is none.
pub proof fn law_a_product_is_told_by_its_first_bytes(head: Seq<u8>)
    ensures
        product_magic(head) <==> {
            ||| bytes::begins(head, seq![0x7fu8, 0x45, 0x4c, 0x46]) || bytes::begins(
                head,
                "!<arch>\n".spec_bytes(),
            )
            ||| bytes::begins(head, seq![0xfeu8, 0xed, 0xfa, 0xce]) || bytes::begins(
                head,
                seq![0xceu8, 0xfa, 0xed, 0xfe],
            )
            ||| bytes::begins(head, seq![0xfeu8, 0xed, 0xfa, 0xcf]) || bytes::begins(
                head,
                seq![0xcfu8, 0xfa, 0xed, 0xfe],
            )
            ||| bytes::begins(head, seq![0xcau8, 0xfe, 0xba, 0xbe]) || bytes::begins(
                head,
                "adcg".spec_bytes(),
            ) || bytes::begins(head, "oncg".spec_bytes())
        },
        head.len() <= 8 ==> head_of(head) == head,
        head.len() >= 8 ==> head_of(head) == head.subrange(0, 8),
{
    if head.len() == 8 {
        assert(head.subrange(0, 8) =~= head);
    }
}

/// A file of the reference is removed where it is not there, hidden where it would not be carried, and
/// edited where its content is another; otherwise nothing became of it.
pub proof fn law_what_became_of_a_file_is_told(artifact: Seq<Entry>, f: HashedFile)
    ensures
        ({
            let there = file_under(oracle_entries(artifact), relpath::components(f.0));
            &&& change_of(artifact, f) == Some(OracleChange::Removed) <==> there is None
            &&& change_of(artifact, f) == Some(OracleChange::Hidden) <==> there is Some && !carries(
                artifact,
                f.0,
            )
            &&& change_of(artifact, f) == Some(OracleChange::Edited) <==> there is Some && carries(
                artifact,
                f.0,
            ) && digest::sha256(there->0) != f.1
            &&& change_of(artifact, f) is None <==> there is Some && carries(artifact, f.0)
                && digest::sha256(there->0) == f.1
        }),
{
}

/// Nothing changed only where nothing became of any file that was recorded; what is told otherwise is of
/// one of them, and of the first.
pub proof fn law_the_first_change_is_told(
    artifact: Seq<Entry>,
    before: Seq<HashedFile>,
    f: HashedFile,
)
    ensures
        first_change(artifact, before) is Some ==> first_change(artifact, before.push(f))
            == first_change(artifact, before),
        first_change(artifact, before) is None ==> (change_of(artifact, f) matches Some(change)
            ==> first_change(artifact, before.push(f)) == Some(
            RefusalView::OracleModified { change, file: f.0 },
        )),
        first_change(artifact, before) is None && change_of(artifact, f) is None ==> first_change(
            artifact,
            before.push(f),
        ) is None,
        first_change(artifact, Seq::empty()) is None,
{
    assert(before.push(f).drop_last() =~= before);
}

/// A file was added where none of its path was recorded and a build does not leave such; the first is
/// told.
pub proof fn law_the_first_addition_is_told(
    files: Seq<FileView>,
    before: Seq<HashedFile>,
    f: FileView,
)
    ensures
        first_added(files, before) is Some ==> first_added(files.push(f), before) == first_added(
            files,
            before,
        ),
        first_added(files, before) is None && (forall|i: int|
            0 <= i < before.len() ==> (#[trigger] before[i]).0 != f.0) && !build_product(
            f.0,
            head_of(f.1),
        ) ==> first_added(files.push(f), before) == Some(f.0),
        first_added(files, before) is None && build_product(f.0, head_of(f.1)) ==> first_added(
            files.push(f),
            before,
        ) is None,
        first_added(files, before) is None && (exists|i: int|
            0 <= i < before.len() && (#[trigger] before[i]).0 == f.0) ==> first_added(
            files.push(f),
            before,
        ) is None,
        first_added(Seq::empty(), before) is None,
{
    assert(files.push(f).drop_last() =~= files);
}

/// The directory of the machine is put out of a text wherever it stands, the run's own before the base
/// that it stands in.
pub proof fn law_the_machine_is_put_out_of_a_text(t: Seq<char>, root: Seq<char>, base: Seq<char>)
    ensures
        scrubbed(t, root, base) == text::replaced(
            text::replaced(t, root, "$HARVEST_WORKDIR"@),
            base,
            "$HARVEST_WORKDIR"@,
        ),
{
}

/// The artifact's own reference is the directory of that name, and no file of it.
pub proof fn law_the_reference_of_an_artifact_is_a_directory(artifact: Seq<Entry>)
    ensures
        oracle_in(artifact) matches Some(p) ==> 0 <= p < artifact.len() && artifact[p].name@
            == "c_src".spec_bytes() && artifact[p].node is Dir,
        (forall|k: int|
            0 <= k < artifact.len() ==> (#[trigger] artifact[k]).name@ != "c_src".spec_bytes())
            ==> oracle_in(artifact) is None,
        oracle_in(artifact) is None ==> oracle_entries(artifact).len() == 0 && oracle_now(artifact)
            == Ok::<Seq<FileView>, RefusalView>(Seq::empty()),
{
    law_a_name_stands_at_its_first_entry(artifact, "c_src".spec_bytes());
}

/// An artifact is refused for the first change of what was recorded, then for a link, then for what was
/// added; only one without any of these is accepted, with what was built in place.
pub proof fn law_an_artifact_is_accepted_only_unchanged(
    before: Seq<HashedFile>,
    artifact: Seq<Entry>,
)
    ensures
        first_change(artifact, before) matches Some(v) ==> judged(before, artifact) == Err::<
            Seq<Seq<u8>>,
            RefusalView,
        >(v),
        first_change(artifact, before) is None ==> (oracle_now(artifact) matches Err(e) ==> judged(
            before,
            artifact,
        ) == Err::<Seq<Seq<u8>>, RefusalView>(e)),
        judged(before, artifact) is Ok ==> first_change(artifact, before) is None && oracle_now(
            artifact,
        ) is Ok && first_added(oracle_now(artifact)->Ok_0, before) is None,
        judged(before, artifact) matches Ok(built) ==> built == built_in_place(
            oracle_now(artifact)->Ok_0,
            before,
        ),
        first_change(artifact, before) is None ==> (oracle_now(artifact) matches Ok(files) ==> (
        first_added(files, before) matches Some(file) ==> judged(before, artifact) == Err::<
            Seq<Seq<u8>>,
            RefusalView,
        >(RefusalView::OracleModified { change: OracleChange::Added, file }))),
{
}

/// What a fresh result outdates in its directory is everything but the transcripts.
pub proof fn law_only_the_transcripts_outlive_a_fresh_result(names: Seq<Seq<char>>, dir: Seq<char>, x: Seq<char>)
    ensures
        outdated(dir, names).contains(x) <==> exists|k: int| 0 <= k < names.len() && #[trigger] names[k] != "logs"@ && x == paths::joined(dir, names[k]),
    decreases names.len(),
{
    let all = outdated(dir, names);
    if names.len() > 0 {
        let d = names.drop_last();
        let before = outdated(dir, d);
        law_only_the_transcripts_outlive_a_fresh_result(d, dir, x);
        if all.contains(x) {
            let i = choose|i: int| 0 <= i < all.len() && all[i] == x;
            if i < before.len() {
                assert(before[i] == x);
                let k = choose|k: int| 0 <= k < d.len() && #[trigger] d[k] != "logs"@ && x == paths::joined(dir, d[k]);
                assert(names[k] == d[k]);
            } else {
                assert(names[names.len() - 1] == names.last());
            }
        }
        if exists|k: int| 0 <= k < names.len() && #[trigger] names[k] != "logs"@ && x == paths::joined(dir, names[k]) {
            let k = choose|k: int| 0 <= k < names.len() && #[trigger] names[k] != "logs"@ && x == paths::joined(dir, names[k]);
            if k < d.len() {
                assert(d[k] == names[k]);
                let i = choose|i: int| 0 <= i < before.len() && before[i] == x;
                assert(all[i] == x);
            } else {
                assert(all[all.len() - 1] == x);
            }
        }
    }
}

/// What was built in place is what was not recorded.
pub proof fn law_what_was_built_in_place_was_not_recorded(files: Seq<FileView>, before: Seq<HashedFile>, x: Seq<u8>)
    ensures
        built_in_place(files, before).contains(x) <==> exists|k: int| 0 <= k < files.len() && (#[trigger] files[k]).0 == x && !recorded(before, x),
    decreases files.len(),
{
    let all = built_in_place(files, before);
    if files.len() > 0 {
        let d = files.drop_last();
        let earlier = built_in_place(d, before);
        law_what_was_built_in_place_was_not_recorded(d, before, x);
        if all.contains(x) {
            let i = choose|i: int| 0 <= i < all.len() && all[i] == x;
            if i < earlier.len() {
                assert(earlier[i] == x);
                let k = choose|k: int| 0 <= k < d.len() && (#[trigger] d[k]).0 == x && !recorded(before, x);
                assert(files[k] == d[k]);
            } else {
                assert(files[files.len() - 1] == files.last());
            }
        }
        if exists|k: int| 0 <= k < files.len() && (#[trigger] files[k]).0 == x && !recorded(before, x) {
            let k = choose|k: int| 0 <= k < files.len() && (#[trigger] files[k]).0 == x && !recorded(before, x);
            if k < d.len() {
                assert(d[k] == files[k]);
                let i = choose|i: int| 0 <= i < earlier.len() && earlier[i] == x;
                assert(all[i] == x);
            } else {
                assert(all[all.len() - 1] == x);
            }
        }
    }
}

/// A file is rewritten where it is text and the machine stands in it.
pub proof fn law_a_file_is_rewritten_where_the_machine_stands_in_it(files: Seq<FileView>, root: Seq<char>, base: Seq<char>, x: (Seq<u8>, Seq<char>))
    ensures
        rewritten_files(files, root, base).contains(x) <==> exists|k: int| 0 <= k < files.len() && vstd::utf8::valid_utf8((#[trigger] files[k]).1) && x.0 == files[k].0 && x.1 == scrubbed(vstd::utf8::decode_utf8(files[k].1), root, base) && x.1 != vstd::utf8::decode_utf8(files[k].1),
    decreases files.len(),
{
    let all = rewritten_files(files, root, base);
    if files.len() > 0 {
        let d = files.drop_last();
        let before = rewritten_files(d, root, base);
        law_a_file_is_rewritten_where_the_machine_stands_in_it(d, root, base, x);
        if all.contains(x) {
            let i = choose|i: int| 0 <= i < all.len() && all[i] == x;
            if i < before.len() {
                assert(before[i] == x);
                let k = choose|k: int| 0 <= k < d.len() && vstd::utf8::valid_utf8((#[trigger] d[k]).1) && x.0 == d[k].0 && x.1 == scrubbed(vstd::utf8::decode_utf8(d[k].1), root, base) && x.1 != vstd::utf8::decode_utf8(d[k].1);
                assert(files[k] == d[k]);
            } else {
                assert(files[files.len() - 1] == files.last());
            }
        }
        if exists|k: int| 0 <= k < files.len() && vstd::utf8::valid_utf8((#[trigger] files[k]).1) && x.0 == files[k].0 && x.1 == scrubbed(vstd::utf8::decode_utf8(files[k].1), root, base) && x.1 != vstd::utf8::decode_utf8(files[k].1) {
            let k = choose|k: int| 0 <= k < files.len() && vstd::utf8::valid_utf8((#[trigger] files[k]).1) && x.0 == files[k].0 && x.1 == scrubbed(vstd::utf8::decode_utf8(files[k].1), root, base) && x.1 != vstd::utf8::decode_utf8(files[k].1);
            if k < d.len() {
                assert(d[k] == files[k]);
                let i = choose|i: int| 0 <= i < before.len() && before[i] == x;
                assert(all[i] == x);
            } else {
                assert(all[all.len() - 1] == x);
            }
        }
    }
}

/// A path goes down by a slash, and a first name has nothing before it.
pub proof fn law_a_path_goes_down_by_a_slash(prefix: Seq<u8>, name: Seq<u8>)
    ensures
        below(Seq::empty(), name) == name,
        prefix.len() > 0 ==> below(prefix, name) == prefix + seq![47u8] + name,
{
}

/// What is text is scrubbed as text, and what is none stays as it is; the path stays in either case.
pub proof fn law_only_text_is_scrubbed(
    files: Seq<FileView>,
    root: Seq<char>,
    base: Seq<char>,
    i: int,
)
    requires
        0 <= i < files.len(),
    ensures
        scrubbed_files(files, root, base).len() == files.len(),
        scrubbed_files(files, root, base)[i].0 == files[i].0,
        !vstd::utf8::valid_utf8(files[i].1) ==> scrubbed_files(files, root, base)[i].1 == files[i].1,
        vstd::utf8::valid_utf8(files[i].1) ==> scrubbed_files(files, root, base)[i].1
            == vstd::utf8::encode_utf8(scrubbed(vstd::utf8::decode_utf8(files[i].1), root, base)),
{
}

} // verus!
