//! A path inside a tree.

use crate::bytes;
use crate::text;
use vstd::prelude::*;
use vstd::string::*;

verus! {

/// The path begins at the root of the file system.
pub open spec fn is_absolute(path: Seq<u8>) -> bool {
    path.len() > 0 && path[0] == 47
}

/// Keeps the pieces that name something: not the empty ones, and a dot only where it is the very
/// first piece.
pub open spec fn naming(pieces: Seq<Seq<u8>>) -> Seq<Seq<u8>>
    decreases pieces.len(),
{
    if pieces.len() == 0 {
        Seq::empty()
    } else {
        let before = naming(pieces.drop_last());
        let piece = pieces.last();
        if piece.len() == 0 || (piece == ".".spec_bytes() && pieces.len() > 1) {
            before
        } else {
            before.push(piece)
        }
    }
}

/// The components of a relative path: what stands between slashes, with repeated and trailing
/// slashes and the dots behind the front left out.
pub open spec fn components(path: Seq<u8>) -> Seq<Seq<u8>> {
    naming(bytes::split(path, 47))
}

/// One of the components leads out of the directory it stands in.
pub open spec fn climbs(path: Seq<u8>) -> bool {
    components(path).contains("..".spec_bytes())
}

/// A path that cannot leave the tree it is taken in: relative, without `..`, and not empty.
pub open spec fn stays_inside(path: Seq<u8>) -> bool {
    !is_absolute(path) && !climbs(path) && path.len() > 0
}

/// The components of a relative path.
pub fn components_of(path: &[u8]) -> (r: Vec<Vec<u8>>)
    ensures
        bytes::byte_views(r@) == components(path@),
{
    let pieces = bytes::split_on(path, 47);
    let ghost all = bytes::byte_views(pieces@);
    let mut out: Vec<Vec<u8>> = Vec::new();
    let mut i: usize = 0;
    assert(bytes::byte_views(out@) =~= naming(all.subrange(0, 0)));
    while i < pieces.len()
        invariant
            i <= pieces.len(),
            all == bytes::byte_views(pieces@),
            bytes::byte_views(out@) == naming(all.subrange(0, i as int)),
        decreases pieces.len() - i,
    {
        broadcast use bytes::lemma_byte_views_push;

        let ghost now = all.subrange(0, i + 1);
        assert(now.drop_last() =~= all.subrange(0, i as int));
        assert(now.last() == pieces@[i as int]@);
        let dot = bytes::reads(&pieces[i], ".");
        if pieces[i].len() > 0 && !(dot && i > 0) {
            out.push(bytes::copy(&pieces[i]));
        }
        i = i + 1;
    }
    assert(all.subrange(0, pieces.len() as int) =~= all);
    out
}

/// A relative path, not empty and without `..`: it cannot escape the tree it indexes.
#[derive(Debug)]
pub struct RelPath {
    path: Vec<u8>,
}

impl View for RelPath {
    type V = Seq<u8>;

    closed spec fn view(&self) -> Seq<u8> {
        self.path@
    }
}

impl Clone for RelPath {
    fn clone(&self) -> (r: RelPath)
        ensures
            r@ == self@,
    {
        proof {
            use_type_invariant(self);
        }
        RelPath { path: bytes::copy(&self.path) }
    }
}

impl PartialEq for RelPath {
    fn eq(&self, other: &RelPath) -> (r: bool) {
        let a = components_of(&self.path);
        let b = components_of(&other.path);
        let ghost x = bytes::byte_views(a@);
        let ghost y = bytes::byte_views(b@);
        if a.len() != b.len() {
            assert(x.len() != y.len());
            return false;
        }
        let mut i: usize = 0;
        while i < a.len()
            invariant
                i <= a.len(),
                a.len() == b.len(),
                x == bytes::byte_views(a@),
                y == bytes::byte_views(b@),
                x == components(self@),
                y == components(other@),
                forall|j: int| 0 <= j < i ==> x[j] == y[j],
            decreases a.len() - i,
        {
            if !bytes::same(&a[i], &b[i]) {
                assert(x[i as int] != y[i as int]);
                return false;
            }
            i = i + 1;
        }
        assert(x =~= y);
        true
    }
}

impl vstd::std_specs::cmp::PartialEqSpecImpl for RelPath {
    open spec fn obeys_eq_spec() -> bool {
        true
    }

    open spec fn eq_spec(&self, other: &RelPath) -> bool {
        components(self@) == components(other@)
    }
}

impl Eq for RelPath {

}

/// What is wrong with a path that may leave its tree, or is empty.
pub open spec fn complaint(path: Seq<char>, encoded: Seq<u8>) -> Seq<char> {
    if is_absolute(encoded) {
        "path must be relative: "@ + path
    } else if climbs(encoded) {
        "path must not contain `..`: "@ + path
    } else {
        "path must not be empty"@
    }
}

fn holds_parent(path: &[u8]) -> (r: bool)
    ensures
        r == climbs(path@),
{
    let parts = components_of(path);
    let mut i: usize = 0;
    while i < parts.len()
        invariant
            i <= parts.len(),
            bytes::byte_views(parts@) == components(path@),
            forall|j: int| 0 <= j < i ==> components(path@)[j] != "..".spec_bytes(),
        decreases parts.len() - i,
    {
        assert(components(path@)[i as int] == parts@[i as int]@);
        if bytes::reads(&parts[i], "..") {
            return true;
        }
        i = i + 1;
    }
    false
}

impl RelPath {
    /// A path stays in its tree.
    #[verifier::type_invariant]
    spec fn inside(self) -> bool {
        stays_inside(self.path@)
    }

    /// The path that `p` writes, or what is wrong with it.
    pub fn new(p: &str) -> (r: Result<RelPath, String>)
        ensures
            r is Ok <==> stays_inside(p.spec_bytes()),
            r matches Ok(rel) ==> rel@ == p.spec_bytes(),
            r matches Err(e) ==> e@ == complaint(p@, p.spec_bytes()),
    {
        let b = p.as_bytes();
        if b.len() > 0 && b[0] == 47 {
            return Err(text::join2("path must be relative: ", p));
        }
        if holds_parent(b) {
            return Err(text::join2("path must not contain `..`: ", p));
        }
        if b.len() == 0 {
            return Err(text::copy("path must not be empty"));
        }
        Ok(RelPath { path: bytes::copy(b) })
    }

    /// The path with these bytes, as a file system gives them: none where it could leave its tree,
    /// or is empty.
    pub fn from_bytes(p: &[u8]) -> (r: Option<RelPath>)
        ensures
            r is Some <==> stays_inside(p@),
            r matches Some(rel) ==> rel@ == p@,
    {
        if p.len() == 0 || p[0] == 47 || holds_parent(p) {
            return None;
        }
        Some(RelPath { path: bytes::copy(p) })
    }

    /// The path as it was written.
    pub fn as_path(&self) -> (r: &[u8])
        ensures
            r@ == self@,
            stays_inside(r@),
    {
        proof {
            use_type_invariant(self);
        }
        self.path.as_slice()
    }
}

// ---------------------------------------------------------------------------
// Laws
// ---------------------------------------------------------------------------

/// A path is kept only where it has something, is not absolute, and never climbs; what is refused is
/// told by the first of these that it breaks.
pub proof fn law_a_path_that_leaves_its_tree_is_refused(
    path: Seq<u8>,
    shown: Seq<char>,
    i: int,
)
    ensures
        stays_inside(path) ==> path.len() > 0 && path[0] != 47,
        stays_inside(path) && 0 <= i < components(path).len() ==> components(path)[i]
            != "..".spec_bytes(),
        path.len() > 0 && path[0] == 47 ==> !stays_inside(path) && complaint(shown, path)
            == "path must be relative: "@ + shown,
        path.len() > 0 && path[0] != 47 && components(path).contains("..".spec_bytes()) ==> complaint(
            shown,
            path,
        ) == "path must not contain `..`: "@ + shown && !stays_inside(path),
        path.len() == 0 ==> !stays_inside(path),
        path.len() > 0 && path[0] != 47 && !components(path).contains("..".spec_bytes())
            ==> stays_inside(path),
{
    if stays_inside(path) && 0 <= i < components(path).len() {
        if components(path)[i] == "..".spec_bytes() {
            assert(components(path).contains("..".spec_bytes()));
        }
    }
}

/// The components of a path are its names between slashes: empty ones are none, nor is a dot but at the
/// front.
pub proof fn law_a_component_stands_between_slashes(pieces: Seq<Seq<u8>>, piece: Seq<u8>)
    ensures
        piece.len() == 0 ==> naming(pieces.push(piece)) == naming(pieces),
        piece == ".".spec_bytes() && pieces.len() > 0 ==> naming(pieces.push(piece)) == naming(
            pieces,
        ),
        piece.len() > 0 && piece != ".".spec_bytes() ==> naming(pieces.push(piece)) == naming(
            pieces,
        ).push(piece),
        naming(Seq::empty()).len() == 0,
{
    assert(pieces.push(piece).drop_last() =~= pieces);
}

} // verus!
