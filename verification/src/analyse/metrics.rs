//! How much code a crate has, and how much of it is unsafe.

use crate::paths;
use crate::store;
use crate::text;
use vstd::prelude::*;
use vstd::string::*;

verus! {

/// What kind of unsafe code a region is.
#[derive(Debug, Copy, Clone, PartialEq, Eq, Structural)]
pub enum RegionKind {
    Block,
    Fn,
    Impl,
}

/// A region of unsafe code: the lines from its opening brace to its closing one.
#[derive(Debug, Copy, Clone, PartialEq, Eq, Structural)]
pub struct Region {
    pub kind: RegionKind,
    pub start: usize,
    pub end: usize,
}

/// A file below a source directory.
#[derive(Debug, Clone)]
pub struct SourceFile {
    /// The path from the source directory on.
    pub path: String,
    /// The text, where it could be read.
    pub text: Option<String>,
    /// The unsafe regions, where the text parses as Rust.
    pub regions: Option<Vec<Region>>,
}

/// Unsafe constructs, and the lines they cover.
#[derive(Debug, Copy, Clone, PartialEq, Eq, Structural)]
pub struct UnsafeCounts {
    pub blocks: usize,
    pub fns: usize,
    pub impls: usize,
    /// The lines inside unsafe regions, each counted once.
    pub lines: usize,
}

impl Default for UnsafeCounts {
    fn default() -> (r: UnsafeCounts)
        ensures
            r == (UnsafeCounts { blocks: 0, fns: 0, impls: 0, lines: 0 }),
    {
        UnsafeCounts { blocks: 0, fns: 0, impls: 0, lines: 0 }
    }
}

/// Lines of code.
#[derive(Debug, Copy, Clone, PartialEq, Eq, Structural)]
pub struct LocCounts {
    /// Lines that are neither blank nor a comment.
    pub code: usize,
}

// ---------------------------------------------------------------------------
// Where unsafe code stands
// ---------------------------------------------------------------------------

/// `syn::ExprUnsafe`: an unsafe block.
#[verifier::external_type_specification]
#[verifier::external_body]
pub struct ExExprUnsafe(syn::ExprUnsafe);

/// `syn::ItemFn`: a function.
#[verifier::external_type_specification]
#[verifier::external_body]
pub struct ExItemFn(syn::ItemFn);

/// `syn::ImplItemFn`: a function of an impl.
#[verifier::external_type_specification]
#[verifier::external_body]
pub struct ExImplItemFn(syn::ImplItemFn);

/// `syn::ItemImpl`: an impl.
#[verifier::external_type_specification]
#[verifier::external_body]
pub struct ExItemImpl(syn::ItemImpl);

/// The regions with one more, where it is unsafe.
pub open spec fn noted(found: Seq<Region>, is_unsafe: bool, r: Region) -> Seq<Region> {
    if is_unsafe {
        found.push(r)
    } else {
        found
    }
}

/// The regions that a walk of a syntax tree has met so far.
struct Walk {
    found: Vec<Region>,
}

impl Walk {
    /// Notes what was met, where it is unsafe.
    fn note(&mut self, is_unsafe: bool, kind: RegionKind, start: usize, end: usize)
        ensures
            final(self).found@ == noted(old(self).found@, is_unsafe, Region { kind, start, end }),
    {
        if is_unsafe {
            self.found.push(Region { kind, start, end });
        }
    }
}

impl<'ast> syn::visit::Visit<'ast> for Walk {
    /// `syn::visit::visit_expr_unsafe`: notes the block, and goes on inside it.
    #[verifier::external_body]
    fn visit_expr_unsafe(&mut self, node: &'ast syn::ExprUnsafe) {
        let b = node.block.brace_token.span;
        self.note(true, RegionKind::Block, b.open().start().line, b.close().end().line);
        syn::visit::visit_expr_unsafe(self, node);
    }

    /// `syn::visit::visit_item_fn`: notes the body, and goes on inside it.
    #[verifier::external_body]
    fn visit_item_fn(&mut self, node: &'ast syn::ItemFn) {
        let b = node.block.brace_token.span;
        let u = node.sig.unsafety.is_some();
        self.note(u, RegionKind::Fn, b.open().start().line, b.close().end().line);
        syn::visit::visit_item_fn(self, node);
    }

    /// `syn::visit::visit_impl_item_fn`: notes the body, and goes on inside it.
    #[verifier::external_body]
    fn visit_impl_item_fn(&mut self, node: &'ast syn::ImplItemFn) {
        let b = node.block.brace_token.span;
        let u = node.sig.unsafety.is_some();
        self.note(u, RegionKind::Fn, b.open().start().line, b.close().end().line);
        syn::visit::visit_impl_item_fn(self, node);
    }

    /// `syn::visit::visit_item_impl`: notes what the braces hold, and goes on inside them.
    #[verifier::external_body]
    fn visit_item_impl(&mut self, node: &'ast syn::ItemImpl) {
        let b = node.brace_token.span;
        let u = node.unsafety.is_some();
        self.note(u, RegionKind::Impl, b.open().start().line, b.close().end().line);
        syn::visit::visit_item_impl(self, node);
    }
}

/// The unsafe regions of a Rust text, in the order in which a walk of its syntax tree meets them;
/// nothing where it is no Rust.
pub uninterp spec fn regions_in(text: Seq<char>) -> Option<Seq<Region>>;

/// `syn::parse_file`, and `syn::visit::visit_file` over the tree that it makes: every unsafe block, and
/// every unsafe function and impl, with the lines of its braces.
#[verifier::external_body]
pub(crate) fn regions_of(text: &str) -> (r: Option<Vec<Region>>)
    ensures
        match r {
            Some(v) => regions_in(text@) == Some(v@),
            None => regions_in(text@) is None,
        },
{
    let file = syn::parse_file(text).ok()?;
    let mut walk = Walk { found: Vec::new() };
    syn::visit::visit_file(&mut walk, &file);
    Some(walk.found)
}

/// A file below a source directory, by its path and its text, where that could be read.
pub fn source_file(path: &str, content: Option<String>) -> (r: SourceFile)
    ensures
        r.path@ == path@,
        r.text == content,
        match content {
            Some(t) => match r.regions {
                Some(v) => regions_in(t@) == Some(v@),
                None => regions_in(t@) is None,
            },
            None => r.regions is None,
        },
{
    let regions = match &content {
        Some(t) => regions_of(t.as_str()),
        None => None,
    };
    SourceFile { path: text::copy(path), text: content, regions }
}

// ---------------------------------------------------------------------------
// Which files count
// ---------------------------------------------------------------------------

/// A directory whose code is not counted.
pub open spec fn left_out(dir: Seq<char>) -> bool {
    dir == "bin"@ || dir == "tests"@
}

/// The file is Rust, and no directory that it stands in is left out.
pub open spec fn counted(path: Seq<char>) -> bool {
    &&& paths::extension_in(path) == Some("rs"@)
    &&& forall|i: int|
        0 <= i < paths::parts(path).len() - 1 ==> !left_out(#[trigger] paths::parts(path)[i])
}

/// Whether a file counts.
pub fn is_counted(path: &str) -> (r: bool)
    ensures
        r == counted(path@),
{
    if !paths::has_extension(path, "rs") {
        return false;
    }
    let p = paths::parts_of(path);
    let ghost all = paths::parts(path@);
    let mut i: usize = 0;
    while i < p.len() && i < p.len() - 1
        invariant
            i <= p.len(),
            text::views(p@) == all,
            all == paths::parts(path@),
            forall|j: int| 0 <= j < i ==> !left_out(#[trigger] all[j]),
        decreases p.len() - i,
    {
        assert(all[i as int] == p@[i as int]@);
        if text::same_text(p[i].as_str(), "bin") || text::same_text(p[i].as_str(), "tests") {
            return false;
        }
        i = i + 1;
    }
    true
}

// ---------------------------------------------------------------------------
// Lines of code
// ---------------------------------------------------------------------------

/// The line is neither blank nor a comment.
pub open spec fn is_code(line: Seq<char>) -> bool {
    text::trimmed(line).len() > 0 && !text::begins(text::trimmed(line), "//"@)
}

/// How many of the lines are code.
pub open spec fn code_lines(lines: Seq<Seq<char>>) -> nat
    decreases lines.len(),
{
    if lines.len() == 0 {
        0
    } else {
        code_lines(lines.drop_last()) + if is_code(lines.last()) {
            1nat
        } else {
            0nat
        }
    }
}

/// The lines of code of one file.
pub open spec fn file_loc(f: SourceFile) -> nat {
    match f.text {
        Some(t) => if counted(f.path@) {
            code_lines(text::lines(t@))
        } else {
            0
        },
        None => 0,
    }
}

/// The lines of code of all files.
pub open spec fn total_loc(files: Seq<SourceFile>) -> nat
    decreases files.len(),
{
    if files.len() == 0 {
        0
    } else {
        total_loc(files.drop_last()) + file_loc(files.last())
    }
}

/// How many lines of a text are code.
pub fn count_code_lines(t: &str) -> (r: usize)
    ensures
        r == code_lines(text::lines(t@)),
{
    let lines = text::lines_of(&text::chars_of(t));
    let comment = text::chars_of("//");
    let ghost all = text::lines(t@);
    let mut n: usize = 0;
    let mut i: usize = 0;
    while i < lines.len()
        invariant
            i <= lines.len(),
            n <= i,
            comment@ == "//"@,
            all == text::char_views(lines@),
            n == code_lines(all.subrange(0, i as int)),
        decreases lines.len() - i,
    {
        assert(all.subrange(0, i + 1).drop_last() =~= all.subrange(0, i as int));
        assert(all.subrange(0, i + 1).last() == lines@[i as int]@);
        let t = text::trim(&lines[i]);
        if t.len() > 0 && !text::starts_with(&t, &comment) {
            n = n + 1;
        }
        i = i + 1;
    }
    assert(all.subrange(0, lines.len() as int) =~= all);
    n
}

proof fn lemma_total_loc_grows(files: Seq<SourceFile>, n: int)
    requires
        0 <= n <= files.len(),
    ensures
        total_loc(files.subrange(0, n)) <= total_loc(files),
    decreases files.len() - n,
{
    if n == files.len() {
        assert(files.subrange(0, n) =~= files);
    } else {
        assert(files.subrange(0, n + 1).drop_last() =~= files.subrange(0, n));
        lemma_total_loc_grows(files, n + 1);
    }
}

/// The lines of code below a source directory.
pub fn count_loc(files: &[SourceFile]) -> (r: LocCounts)
    requires
        total_loc(files@) <= usize::MAX,
    ensures
        r.code == total_loc(files@),
{
    let mut code: usize = 0;
    let mut i: usize = 0;
    while i < files.len()
        invariant
            i <= files.len(),
            total_loc(files@) <= usize::MAX,
            code == total_loc(files@.subrange(0, i as int)),
        decreases files.len() - i,
    {
        assert(files@.subrange(0, i + 1).drop_last() =~= files@.subrange(0, i as int));
        proof {
            lemma_total_loc_grows(files@, i + 1);
        }
        if let Some(t) = &files[i].text {
            if is_counted(files[i].path.as_str()) {
                code = code + count_code_lines(t.as_str());
            }
        }
        i = i + 1;
    }
    assert(files@.subrange(0, files.len() as int) =~= files@);
    LocCounts { code }
}

// ---------------------------------------------------------------------------
// Unsafe code
// ---------------------------------------------------------------------------

/// The last line of a region: never before its first.
pub open spec fn last_line(r: Region) -> int {
    if r.end >= r.start {
        r.end as int
    } else {
        r.start as int
    }
}

/// The line lies in one of the regions.
pub open spec fn in_region(regions: Seq<Region>, line: int) -> bool {
    exists|i: int| 0 <= i < regions.len() && (#[trigger] regions[i]).start <= line <= last_line(regions[i])
}

/// The lines before `below` that the regions cover.
pub open spec fn covered_below(regions: Seq<Region>, below: int) -> Set<int> {
    Set::new(|l: int| 0 <= l < below && in_region(regions, l))
}

/// The lines that the regions cover, each once.
pub open spec fn covered(regions: Seq<Region>) -> Set<int> {
    Set::new(|l: int| in_region(regions, l))
}

/// How many regions are of a kind.
pub open spec fn of_kind(regions: Seq<Region>, kind: RegionKind) -> nat
    decreases regions.len(),
{
    if regions.len() == 0 {
        0
    } else {
        of_kind(regions.drop_last(), kind) + if regions.last().kind == kind {
            1nat
        } else {
            0nat
        }
    }
}

proof fn lemma_covered_below(regions: Seq<Region>, below: int)
    requires
        0 <= below,
    ensures
        covered_below(regions, below).finite(),
        covered_below(regions, below).len() <= below,
        covered_below(regions, below + 1).len() == covered_below(regions, below).len() + if in_region(
            regions,
            below,
        ) {
            1int
        } else {
            0int
        },
        covered_below(regions, below + 1).finite(),
    decreases below,
{
    let now = covered_below(regions, below);
    let next = covered_below(regions, below + 1);
    if below == 0 {
        assert(now =~= Set::empty());
    } else {
        lemma_covered_below(regions, below - 1);
    }
    if in_region(regions, below) {
        assert(next =~= now.insert(below));
    } else {
        assert(next =~= now);
    }
}

/// Whether a line lies in one of the regions.
fn lies_in(regions: &[Region], line: usize) -> (r: bool)
    ensures
        r == in_region(regions@, line as int),
{
    let mut i: usize = 0;
    while i < regions.len()
        invariant
            i <= regions.len(),
            forall|j: int|
                0 <= j < i ==> !((#[trigger] regions@[j]).start <= line <= last_line(regions@[j])),
        decreases regions.len() - i,
    {
        let g = regions[i];
        let last: usize = if g.end >= g.start {
            g.end
        } else {
            g.start
        };
        if g.start <= line && line <= last {
            assert(regions@[i as int].start <= line <= last_line(regions@[i as int]));
            return true;
        }
        i = i + 1;
    }
    false
}

/// The lines are numbers that can be counted up to.
pub open spec fn countable(regions: Seq<Region>) -> bool {
    forall|i: int| 0 <= i < regions.len() ==> last_line(#[trigger] regions[i]) < usize::MAX
}

/// How many lines the regions cover.
pub fn covered_lines(regions: &[Region]) -> (r: usize)
    requires
        countable(regions@),
    ensures
        r == covered(regions@).len(),
        covered(regions@).finite(),
{
    let mut top: usize = 0;
    let mut i: usize = 0;
    while i < regions.len()
        invariant
            i <= regions.len(),
            countable(regions@),
            forall|j: int| 0 <= j < i ==> last_line(#[trigger] regions@[j]) < top,
        decreases regions.len() - i,
    {
        let g = regions[i];
        assert(last_line(regions@[i as int]) < usize::MAX);
        let last: usize = if g.end >= g.start {
            g.end
        } else {
            g.start
        };
        if last >= top {
            top = last + 1;
        }
        i = i + 1;
    }
    let mut n: usize = 0;
    let mut line: usize = 0;
    proof {
        lemma_covered_below(regions@, 0);
        assert(covered_below(regions@, 0) =~= Set::empty());
    }
    while line < top
        invariant
            line <= top,
            n == covered_below(regions@, line as int).len(),
            n <= line,
        decreases top - line,
    {
        proof {
            lemma_covered_below(regions@, line as int);
        }
        if lies_in(regions, line) {
            n = n + 1;
        }
        line = line + 1;
    }
    proof {
        lemma_covered_below(regions@, top as int);
        assert(covered_below(regions@, top as int) =~= covered(regions@));
    }
    n
}

/// The regions of a file that counts and parses.
pub open spec fn file_regions(f: SourceFile) -> Seq<Region> {
    match f.regions {
        Some(v) => if counted(f.path@) {
            v@
        } else {
            Seq::empty()
        },
        None => Seq::empty(),
    }
}

/// The regions of files that count and parse, file by file.
pub open spec fn regions_by_file(files: Seq<SourceFile>) -> Seq<Seq<Region>> {
    files.map_values(|f: SourceFile| file_regions(f))
}

/// The unsafe regions of a Rust source, by its path and its text, where it counts and parses.
pub open spec fn source_regions(s: (String, Option<String>)) -> Seq<Region> {
    match s.1 {
        Some(t) => match regions_in(t@) {
            Some(v) => if counted(s.0@) {
                v
            } else {
                Seq::empty()
            },
            None => Seq::empty(),
        },
        None => Seq::empty(),
    }
}

/// The unsafe regions of Rust sources, source by source.
pub open spec fn regions_by_source(sources: Seq<(String, Option<String>)>) -> Seq<Seq<Region>> {
    sources.map_values(|s: (String, Option<String>)| source_regions(s))
}

/// How many regions of a kind all files have.
pub open spec fn total_of_kind(all: Seq<Seq<Region>>, kind: RegionKind) -> nat
    decreases all.len(),
{
    if all.len() == 0 {
        0
    } else {
        total_of_kind(all.drop_last(), kind) + of_kind(all.last(), kind)
    }
}

/// How many lines of all files are covered.
pub open spec fn total_covered(all: Seq<Seq<Region>>) -> nat
    decreases all.len(),
{
    if all.len() == 0 {
        0
    } else {
        total_covered(all.drop_last()) + covered(all.last()).len()
    }
}

/// The totals can be counted.
pub open spec fn totals_fit(all: Seq<Seq<Region>>) -> bool {
    &&& total_of_kind(all, RegionKind::Block) <= usize::MAX
    &&& total_of_kind(all, RegionKind::Fn) <= usize::MAX
    &&& total_of_kind(all, RegionKind::Impl) <= usize::MAX
    &&& total_covered(all) <= usize::MAX
    &&& forall|i: int| 0 <= i < all.len() ==> countable(#[trigger] all[i])
}

/// A total over the first files is at most that over all.
pub proof fn lemma_kinds_grow(all: Seq<Seq<Region>>, kind: RegionKind, n: int)
    requires
        0 <= n <= all.len(),
    ensures
        total_of_kind(all.subrange(0, n), kind) <= total_of_kind(all, kind),
    decreases all.len() - n,
{
    if n == all.len() {
        assert(all.subrange(0, n) =~= all);
    } else {
        assert(all.subrange(0, n + 1).drop_last() =~= all.subrange(0, n));
        lemma_kinds_grow(all, kind, n + 1);
    }
}

proof fn lemma_covered_grows(all: Seq<Seq<Region>>, n: int)
    requires
        0 <= n <= all.len(),
    ensures
        total_covered(all.subrange(0, n)) <= total_covered(all),
    decreases all.len() - n,
{
    if n == all.len() {
        assert(all.subrange(0, n) =~= all);
    } else {
        assert(all.subrange(0, n + 1).drop_last() =~= all.subrange(0, n));
        lemma_covered_grows(all, n + 1);
    }
}

fn is_countable(regions: &[Region]) -> (r: bool)
    ensures
        r == countable(regions@),
{
    let mut i: usize = 0;
    while i < regions.len()
        invariant
            i <= regions.len(),
            forall|j: int| 0 <= j < i ==> last_line(#[trigger] regions@[j]) < usize::MAX,
        decreases regions.len() - i,
    {
        let g = regions[i];
        if g.end == usize::MAX || g.start == usize::MAX {
            assert(last_line(regions@[i as int]) == usize::MAX);
            return false;
        }
        i = i + 1;
    }
    true
}

/// How many of the regions are of a kind.
pub fn count_kind(regions: &[Region], kind: RegionKind) -> (r: usize)
    ensures
        r == of_kind(regions@, kind),
        r <= regions.len(),
{
    let mut n: usize = 0;
    let mut i: usize = 0;
    while i < regions.len()
        invariant
            i <= regions.len(),
            n <= i,
            n == of_kind(regions@.subrange(0, i as int), kind),
        decreases regions.len() - i,
    {
        assert(regions@.subrange(0, i + 1).drop_last() =~= regions@.subrange(0, i as int));
        if regions[i].kind == kind {
            n = n + 1;
        }
        i = i + 1;
    }
    assert(regions@.subrange(0, regions.len() as int) =~= regions@);
    n
}

/// The regions of a file that counts and parses.
pub fn regions_for(f: &SourceFile) -> (r: &[Region])
    ensures
        r@ == file_regions(*f),
{
    match &f.regions {
        Some(v) => if is_counted(f.path.as_str()) {
            v.as_slice()
        } else {
            &[]
        },
        None => &[],
    }
}

/// The unsafe code below a source directory, where its totals can be counted.
pub fn try_count_unsafe(files: &[SourceFile]) -> (r: Option<UnsafeCounts>)
    ensures
        r is Some <==> totals_fit(regions_by_file(files@)),
        r matches Some(c) ==> {
            &&& c.blocks == total_of_kind(regions_by_file(files@), RegionKind::Block)
            &&& c.fns == total_of_kind(regions_by_file(files@), RegionKind::Fn)
            &&& c.impls == total_of_kind(regions_by_file(files@), RegionKind::Impl)
            &&& c.lines == total_covered(regions_by_file(files@))
        },
{
    let ghost all = regions_by_file(files@);
    let mut c = UnsafeCounts { blocks: 0, fns: 0, impls: 0, lines: 0 };
    let mut i: usize = 0;
    while i < files.len()
        invariant
            i <= files.len(),
            all == regions_by_file(files@),
            c.blocks == total_of_kind(all.subrange(0, i as int), RegionKind::Block),
            c.fns == total_of_kind(all.subrange(0, i as int), RegionKind::Fn),
            c.impls == total_of_kind(all.subrange(0, i as int), RegionKind::Impl),
            c.lines == total_covered(all.subrange(0, i as int)),
            forall|j: int| 0 <= j < i ==> countable(#[trigger] all[j]),
        decreases files.len() - i,
    {
        let v = regions_for(&files[i]);
        proof {
            assert(all.subrange(0, i + 1).drop_last() =~= all.subrange(0, i as int));
            assert(all.subrange(0, i + 1).last() == all[i as int]);
            assert(all[i as int] == v@);
            lemma_kinds_grow(all, RegionKind::Block, i + 1);
            lemma_kinds_grow(all, RegionKind::Fn, i + 1);
            lemma_kinds_grow(all, RegionKind::Impl, i + 1);
            lemma_covered_grows(all, i + 1);
        }
        if !is_countable(v) {
            return None;
        }
        c.blocks = match c.blocks.checked_add(count_kind(v, RegionKind::Block)) {
            Some(n) => n,
            None => {
                return None;
            },
        };
        c.fns = match c.fns.checked_add(count_kind(v, RegionKind::Fn)) {
            Some(n) => n,
            None => {
                return None;
            },
        };
        c.impls = match c.impls.checked_add(count_kind(v, RegionKind::Impl)) {
            Some(n) => n,
            None => {
                return None;
            },
        };
        c.lines = match c.lines.checked_add(covered_lines(v)) {
            Some(n) => n,
            None => {
                return None;
            },
        };
        i = i + 1;
    }
    assert(all.subrange(0, files.len() as int) =~= all);
    Some(c)
}

/// The unsafe code below a source directory.
pub fn count_unsafe(files: &[SourceFile]) -> (r: UnsafeCounts)
    requires
        totals_fit(regions_by_file(files@)),
    ensures
        r.blocks == total_of_kind(regions_by_file(files@), RegionKind::Block),
        r.fns == total_of_kind(regions_by_file(files@), RegionKind::Fn),
        r.impls == total_of_kind(regions_by_file(files@), RegionKind::Impl),
        r.lines == total_covered(regions_by_file(files@)),
{
    match try_count_unsafe(files) {
        Some(c) => c,
        None => vstd::pervasive::unreached(),
    }
}

/// The files of sources, each parsed.
pub fn source_files(sources: &[(String, Option<String>)]) -> (r: Vec<SourceFile>)
    ensures
        regions_by_file(r@) == regions_by_source(sources@),
        r@.len() == sources@.len(),
        forall|i: int|
            0 <= i < r@.len() ==> (#[trigger] r@[i]).path@ == sources@[i].0@ && store::maybe(
                r@[i].text,
            ) == store::maybe(sources@[i].1),
{
    let mut out: Vec<SourceFile> = Vec::new();
    let mut i: usize = 0;
    while i < sources.len()
        invariant
            i <= sources.len(),
            out@.len() == i,
            forall|k: int|
                0 <= k < i ==> (#[trigger] out@[k]).path@ == sources@[k].0@ && store::maybe(
                    out@[k].text,
                ) == store::maybe(sources@[k].1) && file_regions(out@[k]) == source_regions(
                    sources@[k],
                ),
        decreases sources.len() - i,
    {
        let content = match &sources[i].1 {
            Some(t) => Some(text::copy(t.as_str())),
            None => None,
        };
        out.push(source_file(sources[i].0.as_str(), content));
        i = i + 1;
    }
    assert(regions_by_file(out@) =~= regions_by_source(sources@));
    out
}

/// The unsafe code of Rust sources, each given by its path from the source directory on and by its
/// text; nothing where it is more than can be counted.
pub fn count_unsafe_in(sources: &[(String, Option<String>)]) -> (r: Option<UnsafeCounts>)
    ensures
        r is Some <==> totals_fit(regions_by_source(sources@)),
        r matches Some(c) ==> {
            &&& c.blocks == total_of_kind(regions_by_source(sources@), RegionKind::Block)
            &&& c.fns == total_of_kind(regions_by_source(sources@), RegionKind::Fn)
            &&& c.impls == total_of_kind(regions_by_source(sources@), RegionKind::Impl)
            &&& c.lines == total_covered(regions_by_source(sources@))
        },
{
    let files = source_files(sources);
    try_count_unsafe(files.as_slice())
}

// ---------------------------------------------------------------------------
// Laws
// ---------------------------------------------------------------------------

/// The lines that unsafe regions cover are never more than the lines they lie in, however the
/// regions nest or overlap.
pub proof fn law_covered_lines_never_exceed_the_file(regions: Seq<Region>, first: int, n: nat)
    requires
        0 <= first,
        forall|i: int|
            0 <= i < regions.len() ==> first <= (#[trigger] regions[i]).start && last_line(
                regions[i],
            ) < first + n,
    ensures
        covered(regions).finite(),
        covered(regions).len() <= n,
{
    let span = vstd::set_lib::set_int_range(first, first + n);
    vstd::set_lib::lemma_int_range(first, first + n);
    assert forall|l: int| covered(regions).contains(l) implies span.contains(l) by {
        let i = choose|i: int|
            0 <= i < regions.len() && (#[trigger] regions[i]).start <= l <= last_line(regions[i]);
        assert(first <= regions[i].start);
    }
    vstd::set_lib::lemma_len_subset(covered(regions), span);
}

/// A region inside another covers no further line.
pub proof fn law_a_nested_region_adds_no_line(regions: Seq<Region>, inner: Region)
    requires
        exists|i: int|
            0 <= i < regions.len() && (#[trigger] regions[i]).start <= inner.start && last_line(inner)
                <= last_line(regions[i]),
    ensures
        covered(regions.push(inner)) == covered(regions),
{
    let grown = regions.push(inner);
    let host = choose|i: int|
        0 <= i < regions.len() && (#[trigger] regions[i]).start <= inner.start && last_line(inner)
            <= last_line(regions[i]);
    assert forall|l: int| covered(grown).contains(l) <==> covered(regions).contains(l) by {
        if in_region(grown, l) {
            let i = choose|i: int|
                0 <= i < grown.len() && (#[trigger] grown[i]).start <= l <= last_line(grown[i]);
            if i < regions.len() {
                assert(regions[i].start <= l <= last_line(regions[i]));
            } else {
                assert(regions[host].start <= l <= last_line(regions[host]));
            }
        }
        if in_region(regions, l) {
            let i = choose|i: int|
                0 <= i < regions.len() && (#[trigger] regions[i]).start <= l <= last_line(regions[i]);
            assert(grown[i].start <= l <= last_line(grown[i]));
        }
    }
    assert(covered(grown) =~= covered(regions));
}

/// A line is code unless it is blank or begins with a comment, and a file adds its own lines of code
/// where it counts.
pub proof fn law_code_is_neither_blank_nor_a_comment(
    lines: Seq<Seq<char>>,
    line: Seq<char>,
    files: Seq<SourceFile>,
    f: SourceFile,
)
    ensures
        is_code(line) <==> text::trimmed(line).len() > 0 && !text::begins(
            text::trimmed(line),
            "//"@,
        ),
        code_lines(lines.push(line)) == code_lines(lines) + if is_code(line) {
            1nat
        } else {
            0nat
        },
        code_lines(Seq::empty()) == 0,
        counted(f.path@) && f.text is Some ==> total_loc(files.push(f)) == total_loc(files)
            + code_lines(text::lines(f.text->0@)),
        !counted(f.path@) || f.text is None ==> total_loc(files.push(f)) == total_loc(files),
        total_loc(Seq::empty()) == 0,
{
    assert(lines.push(line).drop_last() =~= lines);
    assert(files.push(f).drop_last() =~= files);
}

/// A file counts where it is Rust and lies in no directory of programs or tests; a file of such a name
/// is no such directory.
pub proof fn law_programs_and_tests_do_not_count(path: Seq<char>, i: int)
    ensures
        counted(path) ==> paths::extension_in(path) == Some("rs"@),
        counted(path) && 0 <= i < paths::parts(path).len() - 1 ==> paths::parts(path)[i] != "bin"@
            && paths::parts(path)[i] != "tests"@,
        paths::extension_in(path) == Some("rs"@) && paths::parts(path).len() == 1 ==> counted(path),
{
}

/// Each region counts under its own kind, and only there.
pub proof fn law_a_region_counts_under_its_kind(
    all: Seq<Seq<Region>>,
    regions: Seq<Region>,
    r: Region,
    kind: RegionKind,
)
    ensures
        r.kind == kind ==> of_kind(regions.push(r), kind) == of_kind(regions, kind) + 1,
        r.kind != kind ==> of_kind(regions.push(r), kind) == of_kind(regions, kind),
        of_kind(Seq::empty(), kind) == 0,
        total_of_kind(all.push(regions), kind) == total_of_kind(all, kind) + of_kind(regions, kind),
        total_of_kind(Seq::empty(), kind) == 0,
        total_covered(all.push(regions)) == total_covered(all) + covered(regions).len(),
        total_covered(Seq::empty()) == 0,
{
    assert(regions.push(r).drop_last() =~= regions);
    assert(all.push(regions).drop_last() =~= all);
}

/// A line is covered where it lies between the first and the last line of a region, both of them
/// included.
pub proof fn law_a_line_is_covered_by_a_region_around_it(regions: Seq<Region>, i: int, line: int)
    requires
        0 <= i < regions.len(),
    ensures
        regions[i].start <= line <= regions[i].end ==> covered(regions).contains(line),
        covered(regions).contains(line) ==> exists|k: int|
            0 <= k < regions.len() && (#[trigger] regions[k]).start <= line && (line
                <= regions[k].end || line == regions[k].start),
{
    if regions[i].start <= line <= regions[i].end {
        assert(in_region(regions, line));
    }
    if covered(regions).contains(line) {
        let k = choose|k: int|
            0 <= k < regions.len() && (#[trigger] regions[k]).start <= line <= last_line(regions[k]);
        assert(regions[k].start <= line);
    }
}

/// The regions of a text count where its file does: those that its parse finds, and none where it does
/// not parse.
pub proof fn law_only_counted_files_have_regions(s: (String, Option<String>))
    ensures
        !counted(s.0@) ==> source_regions(s).len() == 0,
        s.1 is None ==> source_regions(s).len() == 0,
        s.1 is Some && regions_in(s.1->0@) is None ==> source_regions(s).len() == 0,
        counted(s.0@) && s.1 is Some && regions_in(s.1->0@) is Some ==> source_regions(s)
            == regions_in(s.1->0@)->0,
{
}

} // verus!
