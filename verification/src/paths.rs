//! Paths as text, where they are built and taken apart by name.

use crate::text;
use vstd::prelude::*;
use vstd::string::*;

verus! {

/// The path `b` taken in the directory `a`: an absolute `b` stands for itself.
pub open spec fn joined(a: Seq<char>, b: Seq<char>) -> Seq<char> {
    if (b.len() > 0 && b[0] == '/') || a.len() == 0 {
        b
    } else if a.last() == '/' {
        a + b
    } else {
        a + "/"@ + b
    }
}

/// The path `b` taken in the directory `a`.
pub fn join(a: &str, b: &str) -> (r: String)
    ensures
        r@ == joined(a@, b@),
{
    let x = text::chars_of(a);
    let y = text::chars_of(b);
    if (y.len() > 0 && y[0] == '/') || x.len() == 0 {
        text::copy(b)
    } else if x[x.len() - 1] == '/' {
        text::join2(a, b)
    } else {
        text::join3(a, "/", b)
    }
}

/// The path of three names, one in the other.
pub fn join3(a: &str, b: &str, c: &str) -> (r: String)
    ensures
        r@ == joined(joined(a@, b@), c@),
{
    join(join(a, b).as_str(), c)
}

/// Keeps the pieces that name something: not the empty ones, and a dot only where it is the very
/// first piece.
pub open spec fn naming(pieces: Seq<Seq<char>>) -> Seq<Seq<char>>
    decreases pieces.len(),
{
    if pieces.len() == 0 {
        Seq::empty()
    } else {
        let before = naming(pieces.drop_last());
        let piece = pieces.last();
        if piece.len() == 0 || (piece == "."@ && pieces.len() > 1) {
            before
        } else {
            before.push(piece)
        }
    }
}

/// The names that a path goes through.
pub open spec fn parts(path: Seq<char>) -> Seq<Seq<char>> {
    naming(text::split(path, '/'))
}

/// The names that a path goes through.
pub fn parts_of(path: &str) -> (r: Vec<String>)
    ensures
        text::views(r@) == parts(path@),
{
    let pieces = text::split_on(&text::chars_of(path), '/');
    let dot = text::chars_of(".");
    let ghost all = text::char_views(pieces@);
    let mut out: Vec<String> = Vec::new();
    let mut i: usize = 0;
    assert(text::views(out@) =~= naming(all.subrange(0, 0)));
    while i < pieces.len()
        invariant
            i <= pieces.len(),
            all == text::char_views(pieces@),
            dot@ == "."@,
            text::views(out@) == naming(all.subrange(0, i as int)),
        decreases pieces.len() - i,
    {
        broadcast use text::lemma_views_push;

        let ghost now = all.subrange(0, i + 1);
        assert(now.drop_last() =~= all.subrange(0, i as int));
        assert(now.last() == pieces@[i as int]@);
        let is_dot = text::same(&pieces[i], &dot);
        if pieces[i].len() > 0 && !(is_dot && i > 0) {
            out.push(text::string_of(&pieces[i]));
        }
        i = i + 1;
    }
    assert(all.subrange(0, pieces.len() as int) =~= all);
    out
}

/// A part that is a name, and no step in place or upwards.
pub open spec fn is_name(part: Seq<char>) -> bool {
    part != "."@ && part != ".."@
}

/// The last name of a path, where its last part is one.
pub open spec fn name_in(path: Seq<char>) -> Option<Seq<char>> {
    let p = parts(path);
    if p.len() > 0 && is_name(p.last()) {
        Some(p.last())
    } else {
        None
    }
}

/// The name of the directory that holds what the path leads to.
pub open spec fn holder_in(path: Seq<char>) -> Option<Seq<char>> {
    let p = parts(path);
    if p.len() > 1 && is_name(p[p.len() - 2]) {
        Some(p[p.len() - 2])
    } else {
        None
    }
}

fn names_something(part: &str) -> (r: bool)
    ensures
        r == is_name(part@),
{
    !text::same_text(part, ".") && !text::same_text(part, "..")
}

/// The last name of a path.
pub fn file_name(path: &str) -> (r: Option<String>)
    ensures
        r is Some <==> name_in(path@) is Some,
        r matches Some(s) ==> name_in(path@) == Some(s@),
{
    let p = parts_of(path);
    if p.len() == 0 {
        return None;
    }
    let last: usize = p.len() - 1;
    assert(parts(path@).last() == p@[last as int]@);
    if names_something(p[last].as_str()) {
        Some(text::copy(p[last].as_str()))
    } else {
        None
    }
}

/// The name of the directory that holds what the path leads to.
pub fn holder_name(path: &str) -> (r: Option<String>)
    ensures
        r is Some <==> holder_in(path@) is Some,
        r matches Some(s) ==> holder_in(path@) == Some(s@),
{
    let p = parts_of(path);
    if p.len() < 2 {
        return None;
    }
    let at: usize = p.len() - 2;
    assert(parts(path@)[at as int] == p@[at as int]@);
    if names_something(p[at].as_str()) {
        Some(text::copy(p[at].as_str()))
    } else {
        None
    }
}

/// The ending of a file name behind its last dot, where something stands before that dot.
pub open spec fn extension_in(path: Seq<char>) -> Option<Seq<char>> {
    match name_in(path) {
        Some(name) => match text::last_index(name, "."@) {
            Some(i) => if i > 0 {
                Some(name.subrange(i + 1, name.len() as int))
            } else {
                None
            },
            None => None,
        },
        None => None,
    }
}

/// Whether the ending of a file name is the given one.
pub fn has_extension(path: &str, extension: &str) -> (r: bool)
    ensures
        r == (extension_in(path@) == Some(extension@)),
{
    let name = match file_name(path) {
        Some(n) => text::chars_of(n.as_str()),
        None => {
            return false;
        },
    };
    let dot = text::chars_of(".");
    proof {
        reveal_strlit(".");
    }
    match text::rfind(&name, &dot) {
        Some(i) => {
            if i == 0 {
                return false;
            }
            let end: usize = name.len();
            assert(text::occurs_at(name@, "."@, i as int));
            text::same(&text::cut(&name, i + 1, end), &text::chars_of(extension))
        },
        None => false,
    }
}

/// A path without the separators and the steps in place at its end. The root stays.
pub open spec fn tidied(path: Seq<char>) -> Seq<char>
    decreases path.len(),
{
    if path.len() > 1 && path.last() == '/' {
        tidied(path.drop_last())
    } else if path.len() > 1 && path.last() == '.' && path[path.len() - 2] == '/' {
        tidied(path.drop_last())
    } else {
        path
    }
}

/// The directory that holds what a path leads to. The root and the empty path are in none.
pub open spec fn parent_in(path: Seq<char>) -> Option<Seq<char>> {
    let p = tidied(path);
    if p.len() == 0 || p == "/"@ {
        None
    } else {
        match text::last_index(p, "/"@) {
            None => Some(""@),
            Some(i) => if i == 0 {
                Some("/"@)
            } else {
                Some(tidied(p.subrange(0, i)))
            },
        }
    }
}

fn tidied_len(path: &Vec<char>, from: usize) -> (r: usize)
    requires
        from <= path.len(),
    ensures
        r <= from,
        tidied(path@.subrange(0, from as int)) == path@.subrange(0, r as int),
{
    let mut n: usize = from;
    while n > 1 && (path[n - 1] == '/' || (path[n - 1] == '.' && path[n - 2] == '/'))
        invariant
            n <= from <= path.len(),
            tidied(path@.subrange(0, from as int)) == tidied(path@.subrange(0, n as int)),
        decreases n,
    {
        assert(path@.subrange(0, n as int).drop_last() =~= path@.subrange(0, n - 1));
        n = n - 1;
    }
    n
}

/// The directory that holds what a path leads to.
pub fn parent(path: &str) -> (r: Option<String>)
    ensures
        r is Some <==> parent_in(path@) is Some,
        r matches Some(s) ==> parent_in(path@) == Some(s@),
{
    let v = text::chars_of(path);
    assert(v@.subrange(0, v.len() as int) =~= v@);
    let n = tidied_len(&v, v.len());
    let p = text::cut(&v, 0, n);
    let slash = text::chars_of("/");
    proof {
        reveal_strlit("/");
        reveal_strlit("");
    }
    if p.len() == 0 || text::same(&p, &slash) {
        return None;
    }
    match text::rfind(&p, &slash) {
        None => Some(text::copy("")),
        Some(i) => {
            assert(text::occurs_at(p@, "/"@, i as int));
            if i == 0 {
                Some(text::copy("/"))
            } else {
                let m = tidied_len(&p, i);
                Some(text::string_of(&text::cut(&p, 0, m)))
            }
        },
    }
}

/// The steps of a path: the root, where it begins there, and then its names.
pub open spec fn steps(path: Seq<char>) -> Seq<Seq<char>> {
    if path.len() > 0 && path[0] == '/' {
        seq!["/"@] + parts(path)
    } else {
        parts(path)
    }
}

/// A path leads to a directory or into it.
pub open spec fn within(path: Seq<char>, dir: Seq<char>) -> bool {
    steps(dir).len() <= steps(path).len() && steps(path).subrange(0, steps(dir).len() as int)
        == steps(dir)
}

fn steps_of(path: &str) -> (r: Vec<String>)
    ensures
        text::views(r@) == steps(path@),
{
    let v = text::chars_of(path);
    let mut p = parts_of(path);
    if v.len() > 0 && v[0] == '/' {
        let ghost before = text::views(p@);
        p.insert(0, text::copy("/"));
        assert(text::views(p@) =~= seq!["/"@] + before);
    }
    p
}

/// Whether a path leads to a directory or into it.
pub fn is_within(path: &str, dir: &str) -> (r: bool)
    ensures
        r == within(path@, dir@),
{
    let p = steps_of(path);
    let d = steps_of(dir);
    let ghost a = steps(path@);
    let ghost b = steps(dir@);
    assert(a.len() == p@.len());
    assert(b.len() == d@.len());
    if d.len() > p.len() {
        return false;
    }
    let mut i: usize = 0;
    while i < d.len()
        invariant
            i <= d.len() <= p.len(),
            a == text::views(p@),
            b == text::views(d@),
            a == steps(path@),
            b == steps(dir@),
            forall|k: int| 0 <= k < i ==> a[k] == #[trigger] b[k],
        decreases d.len() - i,
    {
        assert(a[i as int] == p@[i as int]@);
        assert(b[i as int] == d@[i as int]@);
        if !text::same_text(p[i].as_str(), d[i].as_str()) {
            assert(a.subrange(0, b.len() as int)[i as int] != b[i as int]);
            return false;
        }
        i = i + 1;
    }
    assert(a.subrange(0, b.len() as int) =~= b);
    true
}

// ---------------------------------------------------------------------------
// Laws
// ---------------------------------------------------------------------------

/// A relative path is joined behind one slash, and an absolute one takes the place of what was before.
pub proof fn law_a_path_is_joined_behind_one_slash(a: Seq<char>, b: Seq<char>)
    ensures
        b.len() > 0 && b[0] == '/' ==> joined(a, b) == b,
        a.len() == 0 ==> joined(a, b) == b,
        a.len() > 0 && a.last() != '/' && !(b.len() > 0 && b[0] == '/') ==> joined(a, b) == a
            + "/"@ + b,
        a.len() > 0 && a.last() == '/' && !(b.len() > 0 && b[0] == '/') ==> joined(a, b) == a + b,
{
}

/// The parts of a path are its names between slashes: empty ones are no parts, nor is a dot but at the
/// front.
pub proof fn law_a_part_stands_between_slashes(pieces: Seq<Seq<char>>, piece: Seq<char>)
    ensures
        piece.len() == 0 ==> naming(pieces.push(piece)) == naming(pieces),
        piece == "."@ && pieces.len() > 0 ==> naming(pieces.push(piece)) == naming(pieces),
        piece.len() > 0 && piece != "."@ ==> naming(pieces.push(piece)) == naming(pieces).push(
            piece,
        ),
        naming(Seq::empty()).len() == 0,
{
    assert(pieces.push(piece).drop_last() =~= pieces);
}

/// What is joined to a path is its last part.
pub proof fn law_what_is_joined_is_the_last_part(a: Seq<char>, name: Seq<char>)
    requires
        a.len() > 0,
        name.len() > 0,
        !name.contains('/'),
        name != "."@,
    ensures
        parts(joined(a, name)) == parts(a).push(name),
        name != ".."@ ==> name_in(joined(a, name)) == Some(name),
{
    reveal_strlit("/");
    assert(name[0] != '/');
    let p = text::split(a, '/');
    let q = text::split(joined(a, name), '/');
    text::lemma_split_nonempty(a, '/');
    if a.last() == '/' {
        let h = a.drop_last();
        assert(h.push('/') =~= a);
        text::law_a_text_is_split_at_its_separators(h, '/', Seq::empty());
        text::law_a_text_is_split_at_its_separators(h, '/', name);
        text::law_a_text_is_split_at_its_separators(name, '/', Seq::empty());
        text::law_a_text_is_split_at_its_separators(Seq::empty(), '/', Seq::empty());
        assert(h.push('/') + Seq::<char>::empty() =~= a);
        assert(joined(a, name) =~= h.push('/') + name);
        let s = text::split(h, '/');
        assert(p =~= s.push(Seq::<char>::empty()));
        assert(q =~= s.push(name));
        law_a_part_stands_between_slashes(s, Seq::empty());
        law_a_part_stands_between_slashes(s, name);
    } else {
        text::law_a_text_is_split_at_its_separators(a, '/', name);
        text::law_a_text_is_split_at_its_separators(name, '/', Seq::empty());
        assert(joined(a, name) =~= a.push('/') + name);
        assert(q =~= p.push(name));
        law_a_part_stands_between_slashes(p, name);
    }
    assert(parts(joined(a, name)).last() == name);
}

/// A file is of the kind that stands behind the last dot of its name; a name that begins with its only
/// dot has none.
pub proof fn law_a_kind_stands_behind_the_last_dot(
    path: Seq<char>,
    stem: Seq<char>,
    kind: Seq<char>,
)
    requires
        name_in(path) == Some(stem + "."@ + kind),
        !kind.contains('.'),
    ensures
        stem.len() > 0 ==> extension_in(path) == Some(kind),
        stem.len() == 0 ==> extension_in(path) is None,
{
    reveal_strlit(".");
    let name = stem + "."@ + kind;
    let i = stem.len() as int;
    assert(name.subrange(i, i + 1) =~= "."@);
    assert forall|j: int| i < j implies !text::occurs_at(name, "."@, j) by {
        if text::occurs_at(name, "."@, j) {
            assert(name.subrange(j, j + 1)[0] == '.');
            assert(kind[j - i - 1] == '.');
        }
    }
    text::lemma_last_index(name, "."@, i);
    assert(name.subrange(i + 1, name.len() as int) =~= kind);
}

/// A path lies within a directory whose parts begin its own, itself among them; and what is joined to a
/// directory lies within it.
pub proof fn law_a_path_lies_within_what_begins_it(path: Seq<char>, dir: Seq<char>, i: int)
    ensures
        within(dir, dir),
        within(path, dir) ==> steps(dir).len() <= steps(path).len(),
        within(path, dir) && 0 <= i < steps(dir).len() ==> steps(path)[i] == steps(dir)[i],
        dir.len() > 0 && dir[0] == '/' && !(path.len() > 0 && path[0] == '/') ==> !within(path, dir)
            || steps(path)[0] == "/"@,
{
    assert(steps(dir).subrange(0, steps(dir).len() as int) =~= steps(dir));
    if within(path, dir) && 0 <= i < steps(dir).len() {
        assert(steps(path).subrange(0, steps(dir).len() as int)[i] == steps(path)[i]);
    }
    if within(path, dir) && dir.len() > 0 && dir[0] == '/' {
        assert(steps(dir)[0] == "/"@);
        assert(steps(path).subrange(0, steps(dir).len() as int)[0] == steps(path)[0]);
    }
}

/// The directory that holds a name is what stands before its last slash.
pub proof fn law_a_parent_stands_before_the_last_slash(dir: Seq<char>, name: Seq<char>)
    requires
        dir.len() > 0,
        dir.last() != '/',
        dir.last() != '.',
        name.len() > 0,
        !name.contains('/'),
        name != "."@,
        name.last() != '.',
    ensures
        parent_in(dir + "/"@ + name) == Some(dir),
{
    reveal_strlit("/");
    let p = dir + "/"@ + name;
    assert(p.last() == name.last());
    assert(name[name.len() - 1] != '/');
    assert(tidied(p) == p);
    assert(p.len() >= 3);
    let i = dir.len() as int;
    assert(p.subrange(i, i + 1) =~= "/"@);
    assert forall|j: int| i < j implies !text::occurs_at(p, "/"@, j) by {
        if text::occurs_at(p, "/"@, j) {
            assert(p.subrange(j, j + 1)[0] == '/');
            assert(name[j - i - 1] == '/');
        }
    }
    text::lemma_last_index(p, "/"@, i);
    assert(p.subrange(0, i) =~= dir);
    assert(tidied(dir) == dir);
}

} // verus!
