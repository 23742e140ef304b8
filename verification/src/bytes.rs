//! Byte sequences: comparing, searching, splitting and ordering them.

use vstd::prelude::*;
use vstd::relations::*;
use vstd::seq_lib::*;
use vstd::string::*;

verus! {

/// The views of a sequence of byte vectors.
pub open spec fn byte_views(s: Seq<Vec<u8>>) -> Seq<Seq<u8>> {
    s.map_values(|t: Vec<u8>| t@)
}

/// A byte vector pushed is its view pushed.
pub broadcast proof fn lemma_byte_views_push(s: Seq<Vec<u8>>, t: Vec<u8>)
    ensures
        #[trigger] byte_views(s.push(t)) == byte_views(s).push(t@),
{
    assert(byte_views(s.push(t)) =~= byte_views(s).push(t@));
}

/// `std::str::from_utf8`: it succeeds on exactly the byte sequences that are UTF-8.
#[verifier::external_body]
pub(crate) fn is_utf8(b: &[u8]) -> (r: bool)
    ensures
        r == vstd::utf8::valid_utf8(b@),
{
    std::str::from_utf8(b).is_ok()
}

/// The bytes of `v` from `from` up to `to`.
pub fn cut(v: &[u8], from: usize, to: usize) -> (r: Vec<u8>)
    requires
        from <= to <= v.len(),
    ensures
        r@ == v@.subrange(from as int, to as int),
{
    let mut out: Vec<u8> = Vec::new();
    let mut i: usize = from;
    while i < to
        invariant
            from <= i <= to <= v.len(),
            out@ == v@.subrange(from as int, i as int),
        decreases to - i,
    {
        out.push(v[i]);
        i = i + 1;
        assert(v@.subrange(from as int, i as int) =~= v@.subrange(from as int, i - 1).push(
            v@[i - 1],
        ));
    }
    out
}

/// A copy.
pub fn copy(v: &[u8]) -> (r: Vec<u8>)
    ensures
        r@ == v@,
{
    let r = cut(v, 0, v.len());
    assert(r@ =~= v@);
    r
}

/// Whether two byte sequences are the same.
pub fn same(a: &[u8], b: &[u8]) -> (r: bool)
    ensures
        r == (a@ == b@),
{
    if a.len() != b.len() {
        return false;
    }
    let mut i: usize = 0;
    while i < a.len()
        invariant
            i <= a.len(),
            a.len() == b.len(),
            forall|j: int| 0 <= j < i ==> a@[j] == b@[j],
        decreases a.len() - i,
    {
        if a[i] != b[i] {
            return false;
        }
        i = i + 1;
    }
    assert(a@ =~= b@);
    true
}

/// Whether the bytes are those of a text.
pub fn reads(a: &[u8], s: &str) -> (r: bool)
    ensures
        r == (a@ == s.spec_bytes()),
{
    same(a, s.as_bytes())
}

/// `n` stands in `h` at position `i`.
pub open spec fn occurs_at(h: Seq<u8>, n: Seq<u8>, i: int) -> bool {
    0 <= i && i + n.len() <= h.len() && h.subrange(i, i + n.len()) == n
}

/// `h` begins with `n`.
pub open spec fn begins(h: Seq<u8>, n: Seq<u8>) -> bool {
    occurs_at(h, n, 0)
}

/// `h` ends with `n`.
pub open spec fn ends(h: Seq<u8>, n: Seq<u8>) -> bool {
    occurs_at(h, n, h.len() - n.len())
}

/// `n` stands somewhere in `h`.
pub open spec fn found(h: Seq<u8>, n: Seq<u8>) -> bool {
    exists|i: int| occurs_at(h, n, i)
}

/// Whether `n` stands in `h` at `i`.
pub fn stands_at(h: &[u8], n: &[u8], i: usize) -> (r: bool)
    ensures
        r == occurs_at(h@, n@, i as int),
{
    if i > h.len() || n.len() > h.len() - i {
        return false;
    }
    let mut k: usize = 0;
    while k < n.len()
        invariant
            k <= n.len(),
            i + n.len() <= h.len(),
            forall|j: int| 0 <= j < k ==> h@[i + j] == n@[j],
        decreases n.len() - k,
    {
        if h[i + k] != n[k] {
            assert(h@.subrange(i as int, i + n@.len())[k as int] != n@[k as int]);
            return false;
        }
        k = k + 1;
    }
    assert(h@.subrange(i as int, i + n@.len()) =~= n@);
    true
}

/// Whether `h` begins with `n`.
pub fn starts_with(h: &[u8], n: &[u8]) -> (r: bool)
    ensures
        r == begins(h@, n@),
{
    stands_at(h, n, 0)
}

/// Whether `h` ends with `n`.
pub fn ends_with(h: &[u8], n: &[u8]) -> (r: bool)
    ensures
        r == ends(h@, n@),
{
    if n.len() > h.len() {
        return false;
    }
    stands_at(h, n, h.len() - n.len())
}

/// The pieces of `s` between the occurrences of `c`.
pub open spec fn split(s: Seq<u8>, c: u8) -> Seq<Seq<u8>>
    decreases s.len(),
{
    if s.len() == 0 {
        seq![Seq::<u8>::empty()]
    } else {
        let before = split(s.drop_last(), c);
        if s.last() == c {
            before.push(Seq::<u8>::empty())
        } else {
            before.drop_last().push(before.last().push(s.last()))
        }
    }
}

/// Bytes without the separator are one piece.
pub proof fn lemma_split_whole(s: Seq<u8>, c: u8)
    requires
        !s.contains(c),
    ensures
        split(s, c) == seq![s],
    decreases s.len(),
{
    if s.len() > 0 {
        assert forall|i: int| 0 <= i < s.drop_last().len() implies s.drop_last()[i] != c by {
            assert(s.contains(s[i]));
        }
        assert(s.contains(s.last()));
        lemma_split_whole(s.drop_last(), c);
        assert(split(s, c) =~= seq![s]) by {
            assert(s.drop_last().push(s.last()) =~= s);
        }
    } else {
        assert(s =~= Seq::empty());
    }
}

/// A split always has a piece, and no piece holds the separator.
pub proof fn lemma_split_nonempty(s: Seq<u8>, c: u8)
    ensures
        split(s, c).len() >= 1,
        forall|i: int| 0 <= i < split(s, c).len() ==> !(#[trigger] split(s, c)[i]).contains(c),
    decreases s.len(),
{
    if s.len() > 0 {
        lemma_split_nonempty(s.drop_last(), c);
        let before = split(s.drop_last(), c);
        assert forall|i: int| 0 <= i < split(s, c).len() implies !(
        #[trigger] split(s, c)[i]).contains(c) by {
            if i < before.len() - 1 || (s.last() == c && i < before.len()) {
                assert(split(s, c)[i] == before[i]);
            } else if s.last() != c {
                let last = before.last();
                assert(last == before[before.len() - 1]);
                assert(split(s, c)[i] == last.push(s.last()));
                if last.push(s.last()).contains(c) {
                    let k = choose|k: int|
                        0 <= k < last.push(s.last()).len() && last.push(s.last())[k] == c;
                    assert(last[k] == c);
                }
            }
        }
    }
}

/// The pieces of `h` between the occurrences of `c`.
pub fn split_on(h: &[u8], c: u8) -> (r: Vec<Vec<u8>>)
    ensures
        byte_views(r@) == split(h@, c),
        r.len() >= 1,
{
    broadcast use lemma_byte_views_push;

    let mut done: Vec<Vec<u8>> = Vec::new();
    let mut piece: Vec<u8> = Vec::new();
    let mut i: usize = 0;
    assert(byte_views(done@).push(piece@) =~= split(h@.subrange(0, 0), c));
    while i < h.len()
        invariant
            i <= h.len(),
            byte_views(done@).push(piece@) == split(h@.subrange(0, i as int), c),
        decreases h.len() - i,
    {
        broadcast use lemma_byte_views_push;

        let ghost before = split(h@.subrange(0, i as int), c);
        assert(h@.subrange(0, i + 1).drop_last() =~= h@.subrange(0, i as int));
        assert(before.drop_last() =~= byte_views(done@));
        assert(before.last() == piece@);
        if h[i] == c {
            done.push(piece);
            piece = Vec::new();
        } else {
            piece.push(h[i]);
        }
        i = i + 1;
        assert(byte_views(done@).push(piece@) =~= split(h@.subrange(0, i as int), c));
    }
    assert(h@.subrange(0, h.len() as int) =~= h@);
    done.push(piece);
    done
}

// ---------------------------------------------------------------------------
// Order
// ---------------------------------------------------------------------------

/// The order of byte sequences: by the first byte that differs, and a prefix before what it begins.
pub open spec fn precedes(a: Seq<u8>, b: Seq<u8>) -> bool
    decreases a.len(),
{
    if b.len() == 0 {
        false
    } else if a.len() == 0 {
        true
    } else if a[0] != b[0] {
        a[0] < b[0]
    } else {
        precedes(a.subrange(1, a.len() as int), b.subrange(1, b.len() as int))
    }
}

proof fn lemma_precedes_irreflexive(a: Seq<u8>)
    ensures
        !precedes(a, a),
    decreases a.len(),
{
    if a.len() > 0 {
        lemma_precedes_irreflexive(a.subrange(1, a.len() as int));
    }
}

proof fn lemma_precedes_total(a: Seq<u8>, b: Seq<u8>)
    ensures
        !precedes(a, a),
        a != b ==> (precedes(a, b) <==> !precedes(b, a)),
        a == b || precedes(a, b) || precedes(b, a),
    decreases a.len(),
{
    lemma_precedes_irreflexive(a);
    if a.len() == 0 && b.len() == 0 {
        assert(a =~= b);
    } else if a.len() > 0 && b.len() > 0 {
        let x = a.subrange(1, a.len() as int);
        let y = b.subrange(1, b.len() as int);
        lemma_precedes_total(x, y);
        if a[0] == b[0] && x == y {
            assert(a =~= seq![a[0]] + x);
            assert(b =~= seq![b[0]] + y);
        }
    }
}

proof fn lemma_precedes_transitive(a: Seq<u8>, b: Seq<u8>, c: Seq<u8>)
    requires
        precedes(a, b),
        precedes(b, c),
    ensures
        precedes(a, c),
    decreases a.len(),
{
    if a.len() > 0 && a[0] == b[0] && b[0] == c[0] {
        lemma_precedes_transitive(
            a.subrange(1, a.len() as int),
            b.subrange(1, b.len() as int),
            c.subrange(1, c.len() as int),
        );
    }
}

/// The order as a relation.
pub open spec fn byte_order() -> spec_fn(Seq<u8>, Seq<u8>) -> bool {
    |a: Seq<u8>, b: Seq<u8>| !precedes(b, a)
}

/// The sequences in their order.
pub open spec fn in_order(s: Seq<Seq<u8>>) -> Seq<Seq<u8>> {
    s.sort_by(byte_order())
}

/// The order is total.
pub proof fn lemma_byte_order_total()
    ensures
        total_ordering(byte_order()),
{
    let r = byte_order();
    assert forall|a: Seq<u8>| #[trigger] r(a, a) by {
        lemma_precedes_total(a, a);
    }
    assert forall|a: Seq<u8>, b: Seq<u8>| #[trigger] r(a, b) && #[trigger] r(b, a) implies a
        == b by {
        lemma_precedes_total(a, b);
    }
    assert forall|a: Seq<u8>, b: Seq<u8>| #[trigger] r(a, b) || #[trigger] r(b, a) by {
        lemma_precedes_total(a, b);
    }
    assert forall|a: Seq<u8>, b: Seq<u8>, c: Seq<u8>| #[trigger]
        r(a, b) && #[trigger] r(b, c) implies r(a, c) by {
        lemma_precedes_total(a, b);
        lemma_precedes_total(b, c);
        lemma_precedes_total(a, c);
        if a != b && b != c {
            lemma_precedes_transitive(a, b, c);
        }
    }
}

/// Whether `a` stands before `b`.
pub fn less(a: &[u8], b: &[u8]) -> (r: bool)
    ensures
        r == precedes(a@, b@),
{
    let mut i: usize = 0;
    assert(a@.subrange(0, a.len() as int) =~= a@);
    assert(b@.subrange(0, b.len() as int) =~= b@);
    while i < a.len() && i < b.len() && a[i] == b[i]
        invariant
            i <= a.len(),
            i <= b.len(),
            precedes(a@, b@) == precedes(
                a@.subrange(i as int, a.len() as int),
                b@.subrange(i as int, b.len() as int),
            ),
        decreases a.len() - i,
    {
        let ghost x = a@.subrange(i as int, a.len() as int);
        let ghost y = b@.subrange(i as int, b.len() as int);
        assert(x.subrange(1, x.len() as int) =~= a@.subrange(i + 1, a.len() as int));
        assert(y.subrange(1, y.len() as int) =~= b@.subrange(i + 1, b.len() as int));
        i = i + 1;
    }
    if i >= b.len() {
        false
    } else if i >= a.len() {
        true
    } else {
        a[i] < b[i]
    }
}

/// The sequences in their order.
pub fn sort(v: &[Vec<u8>]) -> (r: Vec<Vec<u8>>)
    ensures
        byte_views(r@) == in_order(byte_views(v@)),
        r.len() == v.len(),
{
    let mut out: Vec<Vec<u8>> = Vec::new();
    let mut i: usize = 0;
    assert(byte_views(out@) =~= byte_views(v@).subrange(0, 0));
    while i < v.len()
        invariant
            i <= v.len(),
            out.len() == i,
            sorted_by(byte_views(out@), byte_order()),
            byte_views(out@).to_multiset() == byte_views(v@).subrange(0, i as int).to_multiset(),
        decreases v.len() - i,
    {
        let ghost before = out@;
        let mut at: usize = out.len();
        while at > 0 && less(&v[i], &out[at - 1])
            invariant
                at <= out.len(),
                i < v.len(),
                out@ == before,
                forall|k: int| at <= k < out.len() ==> precedes(v@[i as int]@, #[trigger] out@[k]@),
            decreases at,
        {
            at = at - 1;
        }
        let x = copy(&v[i]);
        let ghost xv = x@;
        out.insert(at, x);
        proof {
            lemma_byte_order_total();
            let r = byte_order();
            let a = byte_views(before);
            let b = byte_views(out@);
            assert(b =~= a.insert(at as int, xv));
            assert forall|p: int, q: int| 0 <= p < q < b.len() implies #[trigger] r(b[p], b[q]) by {
                if q < at {
                    assert(r(a[p], a[q]));
                } else if q == at {
                    if p < at {
                        assert(!precedes(xv, a[at - 1]));
                        assert(r(a[at - 1], xv));
                        if p < at - 1 {
                            assert(r(a[p], a[at - 1]));
                        }
                        assert(r(b[p], b[q]));
                    }
                } else if p < at {
                    assert(r(a[p], a[q - 1]));
                } else if p == at {
                    assert(precedes(xv, before[q - 1]@));
                    assert(a[q - 1] == before[q - 1]@);
                    lemma_precedes_total(xv, a[q - 1]);
                } else {
                    assert(r(a[p - 1], a[q - 1]));
                }
            }
            assert(byte_views(v@).subrange(0, i + 1) =~= byte_views(v@).subrange(
                0,
                i as int,
            ).push(xv));
            a.to_multiset_ensures();
            to_multiset_insert(a, at as int, xv);
            byte_views(v@).subrange(0, i as int).to_multiset_ensures();
        }
        i = i + 1;
    }
    proof {
        let all = byte_views(v@);
        assert(all.subrange(0, v.len() as int) =~= all);
        lemma_byte_order_total();
        all.lemma_sort_by_ensures(byte_order());
        lemma_sorted_unique(byte_views(out@), in_order(all), byte_order());
    }
    out
}

/// The text of bytes, where what is no UTF-8 is replaced.
pub uninterp spec fn lossy_form(b: Seq<u8>) -> Seq<char>;

/// `String::from_utf8_lossy`: the text of bytes. UTF-8 is kept as it is, and the rest is replaced by
/// U+FFFD.
#[verifier::external_body]
pub(crate) fn lossy_text(b: &[u8]) -> (r: String)
    ensures
        r@ == lossy_form(b@),
        vstd::utf8::valid_utf8(b@) ==> r@ == vstd::utf8::decode_utf8(b@),
{
    String::from_utf8_lossy(b).into_owned()
}

/// `String::from_utf8`: the text of bytes that are UTF-8, and none of others.
#[verifier::external_body]
pub(crate) fn text_of(b: &[u8]) -> (r: Option<String>)
    ensures
        r is Some <==> vstd::utf8::valid_utf8(b@),
        r matches Some(s) ==> vstd::utf8::encode_utf8(s@) == b@,
{
    String::from_utf8(b.to_vec()).ok()
}

// ---------------------------------------------------------------------------
// Laws
// ---------------------------------------------------------------------------

/// Bytes are split at one into what is before it and what is behind it; what does not hold it is one
/// piece.
pub proof fn law_bytes_are_split_at_their_separators(a: Seq<u8>, c: u8, b: Seq<u8>)
    ensures
        split(a.push(c) + b, c) == split(a, c) + split(b, c),
        !a.contains(c) ==> split(a, c) == seq![a],
    decreases a.len() + b.len(),
{
    if !a.contains(c) {
        lemma_split_whole(a, c);
    }
    let s = a.push(c) + b;
    lemma_split_nonempty(a, c);
    lemma_split_nonempty(b, c);
    if b.len() == 0 {
        assert(s.drop_last() =~= a);
        assert(s.last() == c);
        assert(split(s, c) =~= split(a, c) + split(b, c));
    } else {
        let d = b.drop_last();
        law_bytes_are_split_at_their_separators(a, c, d);
        lemma_split_nonempty(d, c);
        assert(s.drop_last() =~= a.push(c) + d);
        assert(s.last() == b.last());
        let before = split(a, c) + split(d, c);
        assert(before.last() == split(d, c).last());
        assert(before.drop_last() =~= split(a, c) + split(d, c).drop_last());
        assert(split(s, c) =~= split(a, c) + split(b, c));
    }
}

/// Bytes are ordered by the first in which they differ, and what begins others comes before them.
pub proof fn law_bytes_are_ordered_by_their_first_difference(
    same: Seq<u8>,
    x: u8,
    a: Seq<u8>,
    y: u8,
    b: Seq<u8>,
)
    requires
        x < y,
    ensures
        precedes(same.push(x) + a, same.push(y) + b),
        !precedes(same.push(y) + b, same.push(x) + a),
        precedes(same, same.push(x) + a),
        !precedes(same.push(x) + a, same),
    decreases same.len(),
{
    let p = same.push(x) + a;
    let q = same.push(y) + b;
    if same.len() > 0 {
        let t = same.subrange(1, same.len() as int);
        law_bytes_are_ordered_by_their_first_difference(t, x, a, y, b);
        assert(p.subrange(1, p.len() as int) =~= t.push(x) + a);
        assert(q.subrange(1, q.len() as int) =~= t.push(y) + b);
        assert(p[0] == same[0] && q[0] == same[0]);
    } else {
        assert(p[0] == x && q[0] == y);
    }
}

} // verus!
