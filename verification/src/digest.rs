//! Digests over framed fields: what is hashed determines every field it was made of.

use crate::bytes;
use crate::text;
use vstd::bytes::*;
use vstd::prelude::*;
use vstd::string::*;

verus! {

// ---------------------------------------------------------------------------
// Framing
// ---------------------------------------------------------------------------

/// A field behind its length in eight bytes, least significant first.
pub open spec fn framed(field: Seq<u8>) -> Seq<u8> {
    spec_u64_to_le_bytes(field.len() as u64) + field
}

/// Fields, each framed, one after the other.
pub open spec fn frames(fields: Seq<Seq<u8>>) -> Seq<u8>
    decreases fields.len(),
{
    if fields.len() == 0 {
        Seq::empty()
    } else {
        frames(fields.drop_last()) + framed(fields.last())
    }
}

/// Appends a field behind its length.
pub fn feed(h: &mut Vec<u8>, field: &[u8])
    ensures
        final(h)@ == old(h)@ + framed(field@),
{
    let n: u64 = field.len() as u64;
    let head = u64_to_le_bytes(n);
    let ghost before = h@;
    h.extend_from_slice(&head);
    assert(h@ =~= before + head@);
    h.extend_from_slice(field);
    assert(h@ =~= before + framed(field@));
}

/// Fields, each framed, one after the other.
pub fn frame_all(fields: &[Vec<u8>]) -> (r: Vec<u8>)
    ensures
        r@ == frames(bytes::byte_views(fields@)),
{
    let ghost all = bytes::byte_views(fields@);
    let mut h: Vec<u8> = Vec::new();
    let mut i: usize = 0;
    assert(h@ =~= frames(all.subrange(0, 0)));
    while i < fields.len()
        invariant
            i <= fields.len(),
            all == bytes::byte_views(fields@),
            h@ == frames(all.subrange(0, i as int)),
        decreases fields.len() - i,
    {
        assert(all.subrange(0, i + 1).drop_last() =~= all.subrange(0, i as int));
        assert(all.subrange(0, i + 1).last() == fields@[i as int]@);
        feed(&mut h, &fields[i]);
        i = i + 1;
    }
    assert(all.subrange(0, fields.len() as int) =~= all);
    h
}

proof fn lemma_framed_prefix(a: Seq<u8>, x: Seq<u8>, b: Seq<u8>, y: Seq<u8>)
    requires
        a.len() <= u64::MAX,
        b.len() <= u64::MAX,
        framed(a) + x == framed(b) + y,
    ensures
        a == b,
        x == y,
{
    lemma_auto_spec_u64_to_from_le_bytes();
    let m = spec_u64_to_le_bytes(a.len() as u64);
    let n = spec_u64_to_le_bytes(b.len() as u64);
    let whole = framed(a) + x;
    assert(m =~= whole.subrange(0, 8));
    assert(n =~= (framed(b) + y).subrange(0, 8));
    assert(spec_u64_from_le_bytes(m) == a.len() as u64);
    assert(spec_u64_from_le_bytes(n) == b.len() as u64);
    assert(a.len() == b.len());
    assert(a =~= whole.subrange(8, 8int + a.len()));
    assert(b =~= (framed(b) + y).subrange(8, 8int + b.len()));
    assert(x =~= whole.subrange(8int + a.len(), whole.len() as int));
    assert(y =~= (framed(b) + y).subrange(8int + b.len(), whole.len() as int));
}

proof fn lemma_frames_front(fields: Seq<Seq<u8>>)
    requires
        fields.len() > 0,
    ensures
        frames(fields) == framed(fields[0]) + frames(fields.subrange(1, fields.len() as int)),
    decreases fields.len(),
{
    let rest = fields.subrange(1, fields.len() as int);
    if fields.len() == 1 {
        assert(fields.drop_last() =~= Seq::empty());
        assert(rest =~= Seq::empty());
        assert(frames(fields) =~= framed(fields[0]) + frames(rest));
    } else {
        lemma_frames_front(fields.drop_last());
        assert(fields.drop_last().subrange(1, fields.len() - 1) =~= rest.drop_last());
        assert(frames(fields) =~= framed(fields[0]) + frames(rest));
    }
}

/// Every field is short enough for its length to be framed.
pub open spec fn frameable(fields: Seq<Seq<u8>>) -> bool {
    forall|i: int| 0 <= i < fields.len() ==> (#[trigger] fields[i]).len() <= u64::MAX
}

/// The framing is injective: two lists of fields with one framing are one list. No separator can be
/// forged, whatever bytes a field holds.
pub proof fn law_framing_is_injective(one: Seq<Seq<u8>>, other: Seq<Seq<u8>>)
    requires
        frameable(one),
        frameable(other),
        frames(one) == frames(other),
    ensures
        one == other,
    decreases one.len(),
{
    lemma_auto_spec_u64_to_from_le_bytes();
    if one.len() == 0 {
        if other.len() > 0 {
            lemma_frames_front(other);
            assert(frames(other).len() >= 8);
        }
        assert(one =~= other);
    } else if other.len() == 0 {
        lemma_frames_front(one);
        assert(frames(one).len() >= 8);
    } else {
        lemma_frames_front(one);
        lemma_frames_front(other);
        let r = one.subrange(1, one.len() as int);
        let s = other.subrange(1, other.len() as int);
        assert(one[0].len() <= u64::MAX);
        assert(other[0].len() <= u64::MAX);
        lemma_framed_prefix(one[0], frames(r), other[0], frames(s));
        assert forall|i: int| 0 <= i < r.len() implies (#[trigger] r[i]).len() <= u64::MAX by {
            assert(one[i + 1].len() <= u64::MAX);
        }
        assert forall|i: int| 0 <= i < s.len() implies (#[trigger] s[i]).len() <= u64::MAX by {
            assert(other[i + 1].len() <= u64::MAX);
        }
        law_framing_is_injective(r, s);
        assert(one =~= seq![one[0]] + r);
        assert(other =~= seq![other[0]] + s);
    }
}

// ---------------------------------------------------------------------------
// Hashing
// ---------------------------------------------------------------------------

/// The SHA-256 hash of bytes.
pub uninterp spec fn sha256(bytes: Seq<u8>) -> Seq<u8>;

/// `sha2::Sha256::digest`: the hash, which is 32 bytes long.
#[verifier::external_body]
pub(crate) fn hash(bytes: &[u8]) -> (r: Vec<u8>)
    ensures
        r@ == sha256(bytes@),
        r@.len() == 32,
{
    <sha2::Sha256 as sha2::Digest>::digest(bytes).to_vec()
}

/// The hexadecimal digit of a number below sixteen.
pub open spec fn hex_digit(n: u8) -> char {
    if n < 10 {
        (48 + n) as u32 as char
    } else {
        (87 + n) as u32 as char
    }
}

/// Bytes in hexadecimal, two lower-case digits each.
pub open spec fn hex(bytes: Seq<u8>) -> Seq<char>
    decreases bytes.len(),
{
    if bytes.len() == 0 {
        ""@
    } else {
        hex(bytes.drop_last()).push(hex_digit(bytes.last() / 16)).push(
            hex_digit(bytes.last() % 16),
        )
    }
}

fn hex_char(n: u8) -> (r: char)
    requires
        n < 16,
    ensures
        r == hex_digit(n),
{
    if n < 10 {
        (48 + n) as char
    } else {
        (87 + n) as char
    }
}

/// Bytes in hexadecimal.
pub fn hex_of(bytes: &[u8]) -> (r: String)
    ensures
        r@ == hex(bytes@),
{
    let mut s = text::copy("");
    let mut i: usize = 0;
    while i < bytes.len()
        invariant
            i <= bytes.len(),
            s@ == hex(bytes@.subrange(0, i as int)),
        decreases bytes.len() - i,
    {
        assert(bytes@.subrange(0, i + 1).drop_last() =~= bytes@.subrange(0, i as int));
        s.push(hex_char(bytes[i] / 16));
        s.push(hex_char(bytes[i] % 16));
        i = i + 1;
    }
    assert(bytes@.subrange(0, bytes.len() as int) =~= bytes@);
    s
}

/// Two byte sequences with one hexadecimal form are one.
pub proof fn law_hex_is_injective(one: Seq<u8>, other: Seq<u8>)
    requires
        hex(one) == hex(other),
    ensures
        one == other,
    decreases one.len(),
{
    lemma_hex_len(one);
    lemma_hex_len(other);
    if one.len() > 0 {
        let a = hex(one.drop_last());
        let b = hex(other.drop_last());
        lemma_hex_len(one.drop_last());
        lemma_hex_len(other.drop_last());
        let n = a.len() as int;
        assert(a =~= hex(one).subrange(0, n));
        assert(b =~= hex(other).subrange(0, n));
        law_hex_is_injective(one.drop_last(), other.drop_last());
        let x = one.last();
        let y = other.last();
        assert(hex(one)[n] == hex_digit(x / 16));
        assert(hex(other)[n] == hex_digit(y / 16));
        assert(hex(one)[n + 1] == hex_digit(x % 16));
        assert(hex(other)[n + 1] == hex_digit(y % 16));
        assert(x / 16 == y / 16);
        assert(x % 16 == y % 16);
        assert(x == y);
        assert(one =~= one.drop_last().push(x));
        assert(other =~= other.drop_last().push(y));
    } else {
        assert(one =~= other);
    }
}

proof fn lemma_hex_len(bytes: Seq<u8>)
    ensures
        hex(bytes).len() == 2 * bytes.len(),
    decreases bytes.len(),
{
    reveal_strlit("");
    if bytes.len() > 0 {
        lemma_hex_len(bytes.drop_last());
    }
}

/// The digest of bytes as it is written: the name of the hash and its hexadecimal form.
pub open spec fn digest_text(bytes: Seq<u8>) -> Seq<char> {
    "sha256:"@ + hex(sha256(bytes))
}

/// Where two texts do not collide under the hash, their digests tell them apart.
pub proof fn law_a_digest_names_what_was_hashed(one: Seq<u8>, other: Seq<u8>)
    requires
        sha256(one) == sha256(other) ==> one == other,
    ensures
        digest_text(one) == digest_text(other) <==> one == other,
{
    if digest_text(one) == digest_text(other) {
        let n = "sha256:"@.len();
        let (a, b) = (digest_text(one), digest_text(other));
        assert(a.subrange(n as int, a.len() as int) =~= hex(sha256(one)));
        assert(b.subrange(n as int, b.len() as int) =~= hex(sha256(other)));
        law_hex_is_injective(sha256(one), sha256(other));
    }
}

/// A small hexadecimal digit.
pub open spec fn is_hex(c: char) -> bool {
    '0' <= c <= '9' || 'a' <= c <= 'f'
}

/// A digest as it is written: the name of the hash, and 64 small hexadecimal digits.
pub open spec fn well_written(s: Seq<char>) -> bool {
    &&& s.len() == 71
    &&& s.subrange(0, 7) == "sha256:"@
    &&& forall|i: int| 7 <= i < s.len() ==> is_hex(#[trigger] s[i])
}

proof fn lemma_hex_is_hex(bytes: Seq<u8>)
    ensures
        forall|i: int| 0 <= i < hex(bytes).len() ==> is_hex(#[trigger] hex(bytes)[i]),
    decreases bytes.len(),
{
    reveal_strlit("");
    if bytes.len() > 0 {
        let v = hex(bytes.drop_last());
        let w = hex(bytes);
        lemma_hex_is_hex(bytes.drop_last());
        let n = bytes.last();
        assert(n / 16 < 16 && n % 16 < 16);
        assert(is_hex(hex_digit(n / 16)) && is_hex(hex_digit(n % 16)));
        assert forall|i: int| 0 <= i < w.len() implies is_hex(#[trigger] w[i]) by {
            if i < v.len() {
                assert(w[i] == v[i]);
            }
        }
    }
}

/// The digest of bytes as it is written.
pub fn digest_of(bytes: &[u8]) -> (r: String)
    ensures
        r@ == digest_text(bytes@),
        well_written(r@),
{
    let h = hash(bytes);
    let r = text::join2("sha256:", hex_of(&h).as_str());
    proof {
        reveal_strlit("sha256:");
        lemma_hex_len(h@);
        lemma_hex_is_hex(h@);
        assert(r@.subrange(0, 7) =~= "sha256:"@);
        assert forall|i: int| 7 <= i < r@.len() implies is_hex(#[trigger] r@[i]) by {
            assert(r@[i] == hex(h@)[i - 7]);
        }
    }
    r
}

/// A byte is written by two digits, the high one first, in lower case.
pub proof fn law_a_byte_is_two_digits(bytes: Seq<u8>, b: u8)
    ensures
        hex(bytes.push(b)) == hex(bytes).push(hex_digit(b / 16)).push(hex_digit(b % 16)),
        hex(Seq::empty()).len() == 0,
        hex_digit(0) == '0' && hex_digit(9) == '9' && hex_digit(10) == 'a' && hex_digit(15) == 'f',
{
    reveal_strlit("");
    assert(bytes.push(b).drop_last() =~= bytes);
}

/// A field is framed by its length in eight bytes, and fields follow one another.
pub proof fn law_a_field_is_framed_by_its_length(fields: Seq<Seq<u8>>, field: Seq<u8>)
    ensures
        frames(fields.push(field)) == frames(fields) + framed(field),
        frames(Seq::empty()).len() == 0,
        framed(field) == spec_u64_to_le_bytes(field.len() as u64) + field,
        digest_text(field) == "sha256:"@ + hex(sha256(field)),
{
    assert(fields.push(field).drop_last() =~= fields);
}

} // verus!
