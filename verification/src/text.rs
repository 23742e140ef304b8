//! Text as a sequence of characters: searching, splitting, trimming, replacing, ordering and
//! decimal numerals, each with the mathematical meaning it is specified by.

use vstd::prelude::*;
use vstd::relations::*;
use vstd::seq_lib::*;
use vstd::string::*;

verus! {

/// `String::push`: the character is appended, and nothing else changes.
pub assume_specification[ std::string::String::push ](s: &mut String, c: char)
    ensures
        final(s)@ == old(s)@.push(c),
;

// ---------------------------------------------------------------------------
// Between strings and character vectors
// ---------------------------------------------------------------------------

/// The views of a sequence of strings.
pub open spec fn views(s: Seq<String>) -> Seq<Seq<char>> {
    s.map_values(|t: String| t@)
}

/// The views of a sequence of character vectors.
pub open spec fn char_views(s: Seq<Vec<char>>) -> Seq<Seq<char>> {
    s.map_values(|t: Vec<char>| t@)
}

/// A string pushed is its view pushed.
pub broadcast proof fn lemma_views_push(s: Seq<String>, t: String)
    ensures
        #[trigger] views(s.push(t)) == views(s).push(t@),
{
    assert(views(s.push(t)) =~= views(s).push(t@));
}

/// A character vector pushed is its view pushed.
pub broadcast proof fn lemma_char_views_push(s: Seq<Vec<char>>, t: Vec<char>)
    ensures
        #[trigger] char_views(s.push(t)) == char_views(s).push(t@),
{
    assert(char_views(s.push(t)) =~= char_views(s).push(t@));
}

/// The characters of `s`.
pub fn chars_of(s: &str) -> (r: Vec<char>)
    ensures
        r@ == s@,
{
    let mut out: Vec<char> = Vec::new();
    for c in it: s.chars()
        invariant
            it.seq() == s@,
            out@ == s@.subrange(0, it.index()),
    {
        out.push(c);
        assert(out@ =~= s@.subrange(0, it.index() + 1));
    }
    assert(s@.subrange(0, s@.len() as int) =~= s@);
    out
}

/// The string with the characters `v`.
pub fn string_of(v: &[char]) -> (r: String)
    ensures
        r@ == v@,
{
    let mut out = String::new();
    let mut i: usize = 0;
    while i < v.len()
        invariant
            i <= v.len(),
            out@ == v@.subrange(0, i as int),
        decreases v.len() - i,
    {
        out.push(v[i]);
        i = i + 1;
        assert(v@.subrange(0, i as int) =~= v@.subrange(0, i - 1).push(v@[i - 1]));
    }
    assert(v@.subrange(0, v.len() as int) =~= v@);
    out
}

/// The characters of `v` from `from` up to `to`.
pub fn cut(v: &[char], from: usize, to: usize) -> (r: Vec<char>)
    requires
        from <= to <= v.len(),
    ensures
        r@ == v@.subrange(from as int, to as int),
{
    let mut out: Vec<char> = Vec::new();
    let mut i: usize = from;
    while i < to
        invariant
            from <= i <= to <= v.len(),
            out@ == v@.subrange(from as int, i as int),
        decreases to - i,
    {
        out.push(v[i]);
        i = i + 1;
        assert(v@.subrange(from as int, i as int) =~= v@.subrange(from as int, i - 1).push(
            v@[i - 1],
        ));
    }
    out
}

/// Whether two character sequences are the same.
pub fn same(a: &[char], b: &[char]) -> (r: bool)
    ensures
        r == (a@ == b@),
{
    if a.len() != b.len() {
        return false;
    }
    let mut i: usize = 0;
    while i < a.len()
        invariant
            i <= a.len(),
            a.len() == b.len(),
            forall|j: int| 0 <= j < i ==> a@[j] == b@[j],
        decreases a.len() - i,
    {
        if a[i] != b[i] {
            return false;
        }
        i = i + 1;
    }
    assert(a@ =~= b@);
    true
}

/// Whether two strings are the same.
pub fn same_text(a: &str, b: &str) -> (r: bool)
    ensures
        r == (a@ == b@),
{
    let x = chars_of(a);
    let y = chars_of(b);
    same(&x, &y)
}

// ---------------------------------------------------------------------------
// Searching
// ---------------------------------------------------------------------------

/// `n` stands in `h` at position `i`.
pub open spec fn occurs_at(h: Seq<char>, n: Seq<char>, i: int) -> bool {
    0 <= i && i + n.len() <= h.len() && h.subrange(i, i + n.len()) == n
}

/// `n` stands somewhere in `h`.
pub open spec fn found(h: Seq<char>, n: Seq<char>) -> bool {
    exists|i: int| occurs_at(h, n, i)
}

/// `i` is the first position, from `from` on, at which `n` stands in `h`.
pub open spec fn first_from(h: Seq<char>, n: Seq<char>, from: int, i: int) -> bool {
    from <= i && occurs_at(h, n, i) && forall|j: int| from <= j < i ==> !occurs_at(h, n, j)
}

/// `i` is the last position at which `n` stands in `h`.
pub open spec fn last_at(h: Seq<char>, n: Seq<char>, i: int) -> bool {
    occurs_at(h, n, i) && forall|j: int| i < j ==> !occurs_at(h, n, j)
}

/// The position of the first `n` in `h` from `from` on, if there is one.
pub open spec fn index_from(h: Seq<char>, n: Seq<char>, from: int) -> Option<int> {
    if exists|i: int| first_from(h, n, from, i) {
        Some(choose|i: int| first_from(h, n, from, i))
    } else {
        None
    }
}

/// The position of the last `n` in `h`, if there is one.
pub open spec fn last_index(h: Seq<char>, n: Seq<char>) -> Option<int> {
    if exists|i: int| last_at(h, n, i) {
        Some(choose|i: int| last_at(h, n, i))
    } else {
        None
    }
}

/// A position that is first is the one that `index_from` gives.
pub proof fn lemma_index_from(h: Seq<char>, n: Seq<char>, from: int, i: int)
    requires
        first_from(h, n, from, i),
    ensures
        index_from(h, n, from) == Some(i),
{
    let j = choose|j: int| first_from(h, n, from, j);
    assert(first_from(h, n, from, j));
    if j < i {
        assert(!occurs_at(h, n, j));
    }
    if i < j {
        assert(!occurs_at(h, n, i));
    }
}

/// A position that is last is the one that `last_index` gives.
pub proof fn lemma_last_index(h: Seq<char>, n: Seq<char>, i: int)
    requires
        last_at(h, n, i),
    ensures
        last_index(h, n) == Some(i),
{
    let j = choose|j: int| last_at(h, n, j);
    assert(last_at(h, n, j));
    if j < i {
        assert(!occurs_at(h, n, i));
    }
    if i < j {
        assert(!occurs_at(h, n, j));
    }
}

/// Where no position from `from` on holds `n`, `index_from` gives none.
pub proof fn lemma_index_from_none(h: Seq<char>, n: Seq<char>, from: int)
    requires
        forall|j: int| from <= j ==> !occurs_at(h, n, j),
    ensures
        index_from(h, n, from) is None,
{
    assert forall|i: int| !first_from(h, n, from, i) by {
        if from <= i {
            assert(!occurs_at(h, n, i));
        }
    }
}

/// Where the text is found, `found` holds, and only there.
pub proof fn lemma_has_iff_indexed(h: Seq<char>, n: Seq<char>)
    ensures
        found(h, n) <==> index_from(h, n, 0) is Some,
        index_from(h, n, 0) matches Some(i) ==> first_from(h, n, 0, i),
{
    if found(h, n) {
        let i = choose|i: int| occurs_at(h, n, i);
        lemma_first_exists(h, n, 0, i);
    }
    if index_from(h, n, 0) is Some {
        let i = choose|i: int| first_from(h, n, 0, i);
        assert(occurs_at(h, n, i));
    }
}

/// Where there is an occurrence there is a first one.
pub proof fn lemma_first_exists(h: Seq<char>, n: Seq<char>, from: int, i: int)
    requires
        from <= i,
        occurs_at(h, n, i),
    ensures
        exists|k: int| first_from(h, n, from, k) && k <= i,
        index_from(h, n, from) matches Some(k) && first_from(h, n, from, k) && k <= i,
    decreases i - from,
{
    if exists|j: int| from <= j < i && occurs_at(h, n, j) {
        let j = choose|j: int| from <= j < i && occurs_at(h, n, j);
        lemma_first_exists(h, n, from, j);
    } else {
        assert(first_from(h, n, from, i));
        lemma_index_from(h, n, from, i);
    }
}

/// Whether `n` stands in `h` at `i`.
pub fn stands_at(h: &[char], n: &[char], i: usize) -> (r: bool)
    ensures
        r == occurs_at(h@, n@, i as int),
{
    if i > h.len() || n.len() > h.len() - i {
        return false;
    }
    let mut k: usize = 0;
    while k < n.len()
        invariant
            k <= n.len(),
            i + n.len() <= h.len(),
            forall|j: int| 0 <= j < k ==> h@[i + j] == n@[j],
        decreases n.len() - k,
    {
        if h[i + k] != n[k] {
            assert(h@.subrange(i as int, i + n@.len())[k as int] != n@[k as int]);
            return false;
        }
        k = k + 1;
    }
    assert(h@.subrange(i as int, i + n@.len()) =~= n@);
    true
}

/// The position of the first `n` in `h` from `from` on.
pub fn find_from(h: &[char], n: &[char], from: usize) -> (r: Option<usize>)
    requires
        from <= h.len(),
    ensures
        r matches Some(i) ==> first_from(h@, n@, from as int, i as int) && index_from(h@, n@, from as int) == Some(i as int),
        r is None ==> index_from(h@, n@, from as int) is None && forall|j: int| from <= j ==> !occurs_at(h@, n@, j),
{
    let mut i: usize = from;
    while i < h.len()
        invariant
            from <= i <= h.len(),
            forall|j: int| from <= j < i ==> !occurs_at(h@, n@, j),
        decreases h.len() - i,
    {
        if stands_at(h, n, i) {
            proof {
                lemma_index_from(h@, n@, from as int, i as int);
            }
            return Some(i);
        }
        i = i + 1;
    }
    if stands_at(h, n, i) {
        proof {
            lemma_index_from(h@, n@, from as int, i as int);
        }
        return Some(i);
    }
    proof {
        assert forall|j: int| from <= j implies !occurs_at(h@, n@, j) by {
            if j > h.len() {
            }
        }
        lemma_index_from_none(h@, n@, from as int);
    }
    None
}

/// The position of the last `n` in `h`.
pub fn rfind(h: &[char], n: &[char]) -> (r: Option<usize>)
    ensures
        r matches Some(i) ==> last_at(h@, n@, i as int) && last_index(h@, n@) == Some(i as int),
        r is None ==> last_index(h@, n@) is None && !found(h@, n@),
{
    if n.len() > h.len() {
        assert forall|j: int| !occurs_at(h@, n@, j) by {}
        return None;
    }
    let mut i: usize = h.len() - n.len();
    loop
        invariant
            i + n.len() <= h.len(),
            forall|j: int| i < j ==> !occurs_at(h@, n@, j),
        decreases i,
    {
        if stands_at(h, n, i) {
            proof {
                lemma_last_index(h@, n@, i as int);
            }
            return Some(i);
        }
        if i == 0 {
            assert forall|j: int| !occurs_at(h@, n@, j) by {
                if j > 0 {
                }
            }
            return None;
        }
        i = i - 1;
    }
}

/// Whether `n` stands somewhere in `h`.
pub fn contains(h: &[char], n: &[char]) -> (r: bool)
    ensures
        r == found(h@, n@),
{
    match find_from(h, n, 0) {
        Some(i) => {
            assert(occurs_at(h@, n@, i as int));
            true
        },
        None => {
            assert forall|j: int| !occurs_at(h@, n@, j) by {
                if 0 <= j {
                }
            }
            false
        },
    }
}

/// Whether the string `n` stands somewhere in the string `h`.
pub fn has_text(h: &str, n: &str) -> (r: bool)
    ensures
        r == found(h@, n@),
{
    let a = chars_of(h);
    let b = chars_of(n);
    contains(&a, &b)
}

/// `h` begins with `n`.
pub open spec fn begins(h: Seq<char>, n: Seq<char>) -> bool {
    occurs_at(h, n, 0)
}

/// `h` ends with `n`.
pub open spec fn ends(h: Seq<char>, n: Seq<char>) -> bool {
    occurs_at(h, n, h.len() - n.len())
}

/// Whether `h` begins with `n`.
pub fn starts_with(h: &[char], n: &[char]) -> (r: bool)
    ensures
        r == begins(h@, n@),
{
    stands_at(h, n, 0)
}

/// Whether `h` ends with `n`.
pub fn ends_with(h: &[char], n: &[char]) -> (r: bool)
    ensures
        r == ends(h@, n@),
{
    if n.len() > h.len() {
        return false;
    }
    stands_at(h, n, h.len() - n.len())
}

// ---------------------------------------------------------------------------
// Characters
// ---------------------------------------------------------------------------

/// The characters with the Unicode property `White_Space`.
pub open spec fn is_space(c: char) -> bool {
    let n = c as u32;
    ||| 0x9 <= n <= 0xd
    ||| n == 0x20
    ||| n == 0x85
    ||| n == 0xa0
    ||| n == 0x1680
    ||| 0x2000 <= n <= 0x200a
    ||| n == 0x2028
    ||| n == 0x2029
    ||| n == 0x202f
    ||| n == 0x205f
    ||| n == 0x3000
}

/// Whether a character is white space.
pub fn space(c: char) -> (r: bool)
    ensures
        r == is_space(c),
{
    let n: u32 = c as u32;
    (0x9 <= n && n <= 0xd) || n == 0x20 || n == 0x85 || n == 0xa0 || n == 0x1680 || (0x2000 <= n
        && n <= 0x200a) || n == 0x2028 || n == 0x2029 || n == 0x202f || n == 0x205f || n == 0x3000
}

/// An ASCII decimal digit.
pub open spec fn is_digit(c: char) -> bool {
    '0' <= c <= '9'
}

/// Whether a character is an ASCII decimal digit.
pub fn digit(c: char) -> (r: bool)
    ensures
        r == is_digit(c),
{
    '0' <= c && c <= '9'
}

/// The lower-case form of an ASCII letter; any other character itself.
pub open spec fn lower(c: char) -> char {
    if 'A' <= c <= 'Z' {
        ((c as u32) + 32) as u32 as char
    } else {
        c
    }
}

/// A text with every ASCII letter in lower case.
pub open spec fn lowered(s: Seq<char>) -> Seq<char> {
    s.map_values(|c: char| lower(c))
}

/// The lower-case form of one character.
pub fn lower_char(c: char) -> (r: char)
    ensures
        r == lower(c),
{
    if 'A' <= c && c <= 'Z' {
        let b: u8 = c as u8;
        (b + 32) as char
    } else {
        c
    }
}

/// The text with every ASCII letter in lower case.
pub fn to_lower(h: &[char]) -> (r: Vec<char>)
    ensures
        r@ == lowered(h@),
{
    let mut out: Vec<char> = Vec::new();
    let mut i: usize = 0;
    while i < h.len()
        invariant
            i <= h.len(),
            out@ == lowered(h@.subrange(0, i as int)),
        decreases h.len() - i,
    {
        out.push(lower_char(h[i]));
        i = i + 1;
        assert(out@ =~= lowered(h@.subrange(0, i as int)));
    }
    assert(h@.subrange(0, h.len() as int) =~= h@);
    out
}

/// The lower-case form of a text by Unicode.
pub uninterp spec fn lowercase_form(s: Seq<char>) -> Seq<char>;

/// The upper-case form of a character by Unicode, which may be several characters.
pub uninterp spec fn uppercase_form(c: char) -> Seq<char>;

/// `str::to_lowercase`. On ASCII text it lowers the letters `A` to `Z` and nothing else.
#[verifier::external_body]
pub(crate) fn to_lowercase(s: &str) -> (r: String)
    ensures
        r@ == lowercase_form(s@),
        vstd::utf8::is_ascii_chars(s@) ==> r@ == lowered(s@),
{
    s.to_lowercase()
}

/// `char::to_uppercase`. On the letters `a` to `z` it gives the one capital letter.
#[verifier::external_body]
pub(crate) fn to_uppercase(c: char) -> (r: String)
    ensures
        r@ == uppercase_form(c),
        'a' <= c <= 'z' ==> r@ == seq![((c as u32) - 32) as u32 as char],
{
    c.to_uppercase().to_string()
}

/// The text with every `from` put as `to`.
pub open spec fn exchanged(s: Seq<char>, from: char, to: char) -> Seq<char> {
    s.map_values(|c: char| if c == from { to } else { c })
}

/// The text with every `from` put as `to`.
pub fn exchange(h: &[char], from: char, to: char) -> (r: Vec<char>)
    ensures
        r@ == exchanged(h@, from, to),
{
    let mut out: Vec<char> = Vec::new();
    let mut i: usize = 0;
    while i < h.len()
        invariant
            i <= h.len(),
            out@ == exchanged(h@.subrange(0, i as int), from, to),
        decreases h.len() - i,
    {
        out.push(if h[i] == from { to } else { h[i] });
        i = i + 1;
        assert(out@ =~= exchanged(h@.subrange(0, i as int), from, to));
    }
    assert(h@.subrange(0, h.len() as int) =~= h@);
    out
}

// ---------------------------------------------------------------------------
// Trimming, splitting, replacing
// ---------------------------------------------------------------------------

/// The text without the white space at its front.
pub open spec fn trimmed_start(s: Seq<char>) -> Seq<char>
    decreases s.len(),
{
    if s.len() > 0 && is_space(s[0]) {
        trimmed_start(s.subrange(1, s.len() as int))
    } else {
        s
    }
}

/// The text without the white space at its end.
pub open spec fn trimmed_end(s: Seq<char>) -> Seq<char>
    decreases s.len(),
{
    if s.len() > 0 && is_space(s.last()) {
        trimmed_end(s.drop_last())
    } else {
        s
    }
}

/// The text without the white space around it.
pub open spec fn trimmed(s: Seq<char>) -> Seq<char> {
    trimmed_end(trimmed_start(s))
}

/// The text without the white space at its front.
pub fn trim_start(h: &[char]) -> (r: Vec<char>)
    ensures
        r@ == trimmed_start(h@),
{
    let mut i: usize = 0;
    assert(h@.subrange(0, h.len() as int) =~= h@);
    while i < h.len() && space(h[i])
        invariant
            i <= h.len(),
            trimmed_start(h@.subrange(i as int, h.len() as int)) == trimmed_start(h@),
        decreases h.len() - i,
    {
        assert(h@.subrange(i as int, h.len() as int).subrange(1, h.len() - i) =~= h@.subrange(
            i + 1,
            h.len() as int,
        ));
        i = i + 1;
    }
    cut(h, i, h.len())
}

/// The text without the white space at its end.
pub fn trim_end(h: &[char]) -> (r: Vec<char>)
    ensures
        r@ == trimmed_end(h@),
{
    let mut i: usize = h.len();
    assert(h@.subrange(0, h.len() as int) =~= h@);
    while i > 0 && space(h[i - 1])
        invariant
            i <= h.len(),
            trimmed_end(h@.subrange(0, i as int)) == trimmed_end(h@),
        decreases i,
    {
        assert(h@.subrange(0, i as int).drop_last() =~= h@.subrange(0, i - 1));
        i = i - 1;
    }
    cut(h, 0, i)
}

/// The text without the white space around it.
pub fn trim(h: &[char]) -> (r: Vec<char>)
    ensures
        r@ == trimmed(h@),
{
    let a = trim_start(h);
    trim_end(&a)
}

/// The pieces of `s` between the occurrences of `c`.
pub open spec fn split(s: Seq<char>, c: char) -> Seq<Seq<char>>
    decreases s.len(),
{
    if s.len() == 0 {
        seq![Seq::<char>::empty()]
    } else {
        let before = split(s.drop_last(), c);
        if s.last() == c {
            before.push(Seq::<char>::empty())
        } else {
            before.drop_last().push(before.last().push(s.last()))
        }
    }
}

/// A split always has a piece, and no piece holds the separator.
pub proof fn lemma_split_nonempty(s: Seq<char>, c: char)
    ensures
        split(s, c).len() >= 1,
        forall|i: int| 0 <= i < split(s, c).len() ==> !(#[trigger] split(s, c)[i]).contains(c),
    decreases s.len(),
{
    if s.len() > 0 {
        lemma_split_nonempty(s.drop_last(), c);
        let before = split(s.drop_last(), c);
        assert forall|i: int| 0 <= i < split(s, c).len() implies !(
        #[trigger] split(s, c)[i]).contains(c) by {
            if i < before.len() - 1 || (s.last() == c && i < before.len()) {
                assert(split(s, c)[i] == before[i]);
            } else if s.last() != c {
                let last = before.last();
                assert(last == before[before.len() - 1]);
                assert(split(s, c)[i] == last.push(s.last()));
                if last.push(s.last()).contains(c) {
                    let k = choose|k: int|
                        0 <= k < last.push(s.last()).len() && last.push(s.last())[k] == c;
                    assert(last[k] == c);
                }
            }
        }
    }
}

/// The pieces of `h` between the occurrences of `c`.
pub fn split_on(h: &[char], c: char) -> (r: Vec<Vec<char>>)
    ensures
        char_views(r@) == split(h@, c),
        r.len() >= 1,
{
    let mut done: Vec<Vec<char>> = Vec::new();
    let mut piece: Vec<char> = Vec::new();
    let mut i: usize = 0;
    assert(char_views(done@).push(piece@) =~= split(h@.subrange(0, 0), c));
    while i < h.len()
        invariant
            i <= h.len(),
            char_views(done@).push(piece@) == split(h@.subrange(0, i as int), c),
        decreases h.len() - i,
    {
        let ghost before = split(h@.subrange(0, i as int), c);
        assert(h@.subrange(0, i + 1).drop_last() =~= h@.subrange(0, i as int));
        assert(before.drop_last() =~= char_views(done@));
        assert(before.last() == piece@);
        if h[i] == c {
            let ghost d0 = char_views(done@);
            let ghost p0 = piece@;
            done.push(piece);
            assert(char_views(done@) =~= d0.push(p0));
            piece = Vec::new();
        } else {
            piece.push(h[i]);
        }
        i = i + 1;
        assert(char_views(done@).push(piece@) =~= split(h@.subrange(0, i as int), c));
    }
    assert(h@.subrange(0, h.len() as int) =~= h@);
    let ghost d0 = char_views(done@);
    let ghost p0 = piece@;
    done.push(piece);
    assert(char_views(done@) =~= d0.push(p0));
    done
}

/// A line without the carriage return that stands before its line feed.
pub open spec fn without_return(s: Seq<char>) -> Seq<char> {
    if s.len() > 0 && s.last() == '\r' {
        s.drop_last()
    } else {
        s
    }
}

/// The lines of a text: the pieces between line feeds, each that a line feed ended without the
/// carriage return before it; what follows the last line feed is a line unless it is empty.
pub open spec fn lines(s: Seq<char>) -> Seq<Seq<char>> {
    let pieces = split(s, '\n');
    let ended = pieces.drop_last().map_values(|p: Seq<char>| without_return(p));
    if pieces.last().len() == 0 {
        ended
    } else {
        ended.push(pieces.last())
    }
}

/// The lines of a text.
pub fn lines_of(h: &[char]) -> (r: Vec<Vec<char>>)
    ensures
        char_views(r@) == lines(h@),
{
    let pieces = split_on(h, '\n');
    let ghost p = split(h@, '\n');
    let last: usize = pieces.len() - 1;
    let mut out: Vec<Vec<char>> = Vec::new();
    let mut i: usize = 0;
    let ghost ended = p.drop_last().map_values(|q: Seq<char>| without_return(q));
    assert(p.len() == pieces.len());
    while i < last
        invariant
            i <= last,
            last + 1 == pieces.len(),
            char_views(pieces@) == p,
            ended == p.drop_last().map_values(|q: Seq<char>| without_return(q)),
            char_views(out@) == ended.subrange(0, i as int),
        decreases last - i,
    {
        assert(p[i as int] == pieces@[i as int]@);
        let n: usize = pieces[i].len();
        let line = if n > 0 && pieces[i][n - 1] == '\r' {
            cut(&pieces[i], 0, n - 1)
        } else {
            cut(&pieces[i], 0, n)
        };
        proof {
            let q = pieces@[i as int]@;
            assert(q.subrange(0, n as int) =~= q);
            if n > 0 {
                assert(q.subrange(0, n - 1) =~= q.drop_last());
            }
            assert(line@ == ended[i as int]);
        }
        let ghost o0 = char_views(out@);
        let ghost l0 = line@;
        out.push(line);
        i = i + 1;
        assert(char_views(out@) =~= o0.push(l0));
        assert(ended.subrange(0, i as int) =~= ended.subrange(0, i - 1).push(ended[i - 1]));
    }
    assert(ended.subrange(0, last as int) =~= ended);
    assert(p.last() == pieces@[last as int]@);
    let n: usize = pieces[last].len();
    if n > 0 {
        let tail = cut(&pieces[last], 0, n);
        assert(tail@ =~= p.last());
        let ghost o0 = char_views(out@);
        out.push(tail);
        assert(char_views(out@) =~= o0.push(p.last()));
    }
    out
}

/// The pieces of `s` between its white space.
pub open spec fn spaced(s: Seq<char>) -> Seq<Seq<char>>
    decreases s.len(),
{
    if s.len() == 0 {
        seq![Seq::<char>::empty()]
    } else {
        let before = spaced(s.drop_last());
        if is_space(s.last()) {
            before.push(Seq::<char>::empty())
        } else {
            before.drop_last().push(before.last().push(s.last()))
        }
    }
}

/// The pieces that are not empty.
pub open spec fn nonempty(p: Seq<Seq<char>>) -> Seq<Seq<char>>
    decreases p.len(),
{
    if p.len() == 0 {
        Seq::empty()
    } else if p.last().len() == 0 {
        nonempty(p.drop_last())
    } else {
        nonempty(p.drop_last()).push(p.last())
    }
}

/// The words of a text: what stands between white space.
pub open spec fn words(s: Seq<char>) -> Seq<Seq<char>> {
    nonempty(spaced(s))
}

/// The words of a text.
pub fn words_of(h: &[char]) -> (r: Vec<Vec<char>>)
    ensures
        char_views(r@) == words(h@),
{
    broadcast use lemma_char_views_push;

    let mut done: Vec<Vec<char>> = Vec::new();
    let mut piece: Vec<char> = Vec::new();
    let ghost mut all: Seq<Seq<char>> = Seq::empty();
    let mut i: usize = 0;
    assert(all.push(piece@) =~= spaced(h@.subrange(0, 0)));
    assert(char_views(done@) =~= nonempty(all));
    while i < h.len()
        invariant
            i <= h.len(),
            all.push(piece@) == spaced(h@.subrange(0, i as int)),
            char_views(done@) == nonempty(all),
        decreases h.len() - i,
    {
        broadcast use lemma_char_views_push;

        let ghost before = spaced(h@.subrange(0, i as int));
        assert(h@.subrange(0, i + 1).drop_last() =~= h@.subrange(0, i as int));
        assert(before.drop_last() =~= all);
        assert(before.last() == piece@);
        if space(h[i]) {
            proof {
                let next = all.push(piece@);
                assert(next.drop_last() =~= all);
                all = next;
            }
            if piece.len() > 0 {
                done.push(piece);
            }
            piece = Vec::new();
        } else {
            piece.push(h[i]);
        }
        i = i + 1;
        assert(all.push(piece@) =~= spaced(h@.subrange(0, i as int)));
    }
    assert(h@.subrange(0, h.len() as int) =~= h@);
    assert(all.push(piece@).drop_last() =~= all);
    if piece.len() > 0 {
        done.push(piece);
    }
    done
}

/// `s` with each `from`, found from the left, put as `to`. An empty `from` changes nothing.
pub open spec fn replaced(s: Seq<char>, from: Seq<char>, to: Seq<char>) -> Seq<char>
    decreases s.len(),
{
    if from.len() == 0 {
        s
    } else {
        match index_from(s, from, 0) {
            None => s,
            Some(i) => if 0 <= i && i + from.len() <= s.len() {
                s.subrange(0, i) + to + replaced(
                    s.subrange(i + from.len(), s.len() as int),
                    from,
                    to,
                )
            } else {
                s
            },
        }
    }
}

proof fn lemma_index_from_shift(s: Seq<char>, n: Seq<char>, at: int)
    requires
        0 <= at <= s.len(),
    ensures
        index_from(s.subrange(at, s.len() as int), n, 0) is Some <==> index_from(s, n, at) is Some,
        index_from(s, n, at) matches Some(i) ==> index_from(
            s.subrange(at, s.len() as int),
            n,
            0,
        ) == Some(i - at),
{
    let t = s.subrange(at, s.len() as int);
    assert forall|j: int| 0 <= j implies (#[trigger] occurs_at(t, n, j) <==> occurs_at(
        s,
        n,
        j + at,
    )) by {
        if j + n.len() <= t.len() {
            assert(t.subrange(j, j + n.len()) =~= s.subrange(j + at, j + at + n.len()));
        }
    }
    if index_from(s, n, at) is Some {
        let i = choose|i: int| first_from(s, n, at, i);
        assert(occurs_at(t, n, i - at));
        assert forall|j: int| 0 <= j < i - at implies !occurs_at(t, n, j) by {
            assert(!occurs_at(s, n, j + at));
        }
        assert(first_from(t, n, 0, i - at));
        lemma_index_from(t, n, 0, i - at);
    }
    if index_from(t, n, 0) is Some {
        let i = choose|i: int| first_from(t, n, 0, i);
        assert(occurs_at(s, n, i + at));
        assert forall|j: int| at <= j < i + at implies !occurs_at(s, n, j) by {
            assert(!occurs_at(t, n, j - at));
            assert(occurs_at(t, n, j - at) <==> occurs_at(s, n, j - at + at));
        }
        assert(first_from(s, n, at, i + at));
        lemma_index_from(s, n, at, i + at);
    }
}

/// `h` with each `from`, found from the left, put as `to`.
pub fn replace_all(h: &[char], from: &[char], to: &[char]) -> (r: Vec<char>)
    ensures
        r@ == replaced(h@, from@, to@),
{
    let mut out: Vec<char> = Vec::new();
    let mut pos: usize = 0;
    assert(h@.subrange(0, h.len() as int) =~= h@);
    assert(out@ + replaced(h@, from@, to@) =~= replaced(h@, from@, to@));
    if from.len() == 0 {
        return cut(h, 0, h.len());
    }
    loop
        invariant
            from.len() > 0,
            pos <= h.len(),
            out@ + replaced(h@.subrange(pos as int, h.len() as int), from@, to@) == replaced(
                h@,
                from@,
                to@,
            ),
        decreases h.len() - pos,
    {
        let ghost rest = h@.subrange(pos as int, h.len() as int);
        proof {
            lemma_index_from_shift(h@, from@, pos as int);
        }
        match find_from(h, from, pos) {
            Some(i) => {
                let head = cut(h, pos, i);
                let ghost o0 = out@;
                out.extend_from_slice(&head);
                out.extend_from_slice(to);
                proof {
                    let k = i - pos;
                    assert(index_from(rest, from@, 0) == Some(k));
                    assert(rest.subrange(0, k) =~= head@);
                    assert(out@ =~= o0 + head@ + to@);
                    let after = h@.subrange(i + from.len(), h.len() as int);
                    assert(rest.subrange(k + from@.len(), rest.len() as int) =~= after);
                    assert(replaced(rest, from@, to@) == rest.subrange(0, k) + to@ + replaced(
                        after,
                        from@,
                        to@,
                    ));
                    assert(out@ + replaced(after, from@, to@) =~= o0 + replaced(rest, from@, to@));
                }
                pos = i + from.len();
            },
            None => {
                let tail = cut(h, pos, h.len());
                let ghost o0 = out@;
                out.extend_from_slice(&tail);
                assert(out@ =~= o0 + tail@);
                return out;
            },
        }
    }
}

// ---------------------------------------------------------------------------
// Numerals
// ---------------------------------------------------------------------------

/// The ASCII digit for a number below ten.
pub open spec fn digit_char(d: nat) -> char {
    (48 + d) as u32 as char
}

/// The decimal numeral of a number.
pub open spec fn numeral(n: nat) -> Seq<char>
    decreases n,
{
    if n < 10 {
        seq![digit_char(n)]
    } else {
        numeral(n / 10).push(digit_char(n % 10))
    }
}

/// The number that a row of decimal digits stands for.
pub open spec fn numeral_value(s: Seq<char>) -> nat
    decreases s.len(),
{
    if s.len() == 0 {
        0
    } else {
        (numeral_value(s.drop_last()) * 10 + (s.last() as u32 - 48)) as nat
    }
}

/// Only decimal digits.
pub open spec fn all_digits(s: Seq<char>) -> bool {
    forall|i: int| 0 <= i < s.len() ==> is_digit(#[trigger] s[i])
}

/// A numeral is read back as the number it was written for.
pub proof fn lemma_numeral_value(n: nat)
    ensures
        numeral_value(numeral(n)) == n,
        all_digits(numeral(n)),
        numeral(n).len() >= 1,
    decreases n,
{
    if n >= 10 {
        lemma_numeral_value(n / 10);
        assert(numeral(n).drop_last() =~= numeral(n / 10));
    } else {
        assert(numeral(n).drop_last() =~= Seq::empty());
        assert(numeral_value(Seq::empty()) == 0);
    }
}

/// Appends the decimal numeral of `n`.
pub fn push_numeral(out: &mut String, n: u64)
    ensures
        final(out)@ == old(out)@ + numeral(n as nat),
    decreases n,
{
    if n >= 10 {
        push_numeral(out, n / 10);
    }
    let d: u8 = (n % 10) as u8;
    let c: char = (48 + d) as char;
    let ghost before = out@;
    out.push(c);
    proof {
        assert(c == digit_char((n % 10) as nat));
        assert(out@ =~= old(out)@ + numeral(n as nat));
    }
}

/// The decimal numeral of `n`.
pub fn numeral_of(n: u64) -> (r: String)
    ensures
        r@ == numeral(n as nat),
{
    let mut s = String::new();
    push_numeral(&mut s, n);
    assert(s@ =~= numeral(n as nat));
    s
}

/// The decimal numeral of a number, with a minus sign before a negative one.
pub open spec fn signed_numeral(n: int) -> Seq<char> {
    if n < 0 {
        "-"@ + numeral((-n) as nat)
    } else {
        numeral(n as nat)
    }
}

/// The decimal numeral of `n`, with a minus sign before a negative one.
pub fn signed_numeral_of(n: i32) -> (r: String)
    ensures
        r@ == signed_numeral(n as int),
{
    if n < 0 {
        let m: u64 = (-(n as i64)) as u64;
        let mut s = String::from_str("-");
        push_numeral(&mut s, m);
        s
    } else {
        numeral_of(n as u64)
    }
}

proof fn lemma_numeral_value_grows(s: Seq<char>, i: int)
    requires
        0 <= i <= s.len(),
        all_digits(s),
    ensures
        numeral_value(s.subrange(0, i)) <= numeral_value(s),
    decreases s.len() - i,
{
    if i < s.len() {
        lemma_numeral_value_grows(s, i + 1);
        assert(s.subrange(0, i + 1).drop_last() =~= s.subrange(0, i));
    } else {
        assert(s.subrange(0, i) =~= s);
    }
}

/// Reads a row of decimal digits: none where it is empty, holds anything else, or stands for a
/// number that does not fit.
pub fn read_digits(h: &[char]) -> (r: Option<u64>)
    ensures
        r is Some <==> h@.len() > 0 && all_digits(h@) && numeral_value(h@) <= u64::MAX,
        r matches Some(n) ==> n == numeral_value(h@),
{
    if h.len() == 0 {
        return None;
    }
    let mut n: u64 = 0;
    let mut i: usize = 0;
    while i < h.len()
        invariant
            i <= h.len(),
            all_digits(h@.subrange(0, i as int)),
            n == numeral_value(h@.subrange(0, i as int)),
        decreases h.len() - i,
    {
        let ghost next = h@.subrange(0, i + 1);
        assert(next.drop_last() =~= h@.subrange(0, i as int));
        if !digit(h[i]) {
            return None;
        }
        assert(all_digits(next)) by {
            assert forall|k: int| 0 <= k < next.len() implies is_digit(#[trigger] next[k]) by {
                if k < i {
                    assert(next[k] == h@.subrange(0, i as int)[k]);
                }
            }
        }
        let d: u64 = (h[i] as u64) - 48;
        if n > (u64::MAX - d) / 10 {
            proof {
                if all_digits(h@) {
                    lemma_numeral_value_grows(h@, i + 1);
                }
            }
            return None;
        }
        n = n * 10 + d;
        i = i + 1;
    }
    assert(h@.subrange(0, h.len() as int) =~= h@);
    Some(n)
}

// ---------------------------------------------------------------------------
// Order
// ---------------------------------------------------------------------------

/// The order of strings: by the first character that differs, and a prefix before what it begins.
pub open spec fn precedes(a: Seq<char>, b: Seq<char>) -> bool
    decreases a.len(),
{
    if b.len() == 0 {
        false
    } else if a.len() == 0 {
        true
    } else if a[0] != b[0] {
        a[0] < b[0]
    } else {
        precedes(a.subrange(1, a.len() as int), b.subrange(1, b.len() as int))
    }
}

/// `a` stands before `b` or is `b`.
pub open spec fn precedes_or_same(a: Seq<char>, b: Seq<char>) -> bool {
    !precedes(b, a)
}

/// No text precedes itself.
pub proof fn lemma_precedes_irreflexive(a: Seq<char>)
    ensures
        !precedes(a, a),
    decreases a.len(),
{
    if a.len() > 0 {
        lemma_precedes_irreflexive(a.subrange(1, a.len() as int));
    }
}

/// Of two different texts exactly one precedes the other.
pub proof fn lemma_precedes_total(a: Seq<char>, b: Seq<char>)
    ensures
        !precedes(a, a),
        a != b ==> (precedes(a, b) <==> !precedes(b, a)),
        a == b || precedes(a, b) || precedes(b, a),
    decreases a.len() + b.len(),
{
    if a.len() == 0 && b.len() == 0 {
        assert(a =~= b);
    } else if a.len() > 0 {
        let a1 = a.subrange(1, a.len() as int);
        if b.len() > 0 {
            let b1 = b.subrange(1, b.len() as int);
            lemma_precedes_total(a1, b1);
            if a[0] == b[0] && a1 == b1 {
                assert(a =~= seq![a[0]] + a1);
                assert(b =~= seq![b[0]] + b1);
            }
        }
    }
    lemma_precedes_irreflexive(a);
}

/// The order is transitive.
pub proof fn lemma_precedes_transitive(a: Seq<char>, b: Seq<char>, c: Seq<char>)
    requires
        precedes(a, b),
        precedes(b, c),
    ensures
        precedes(a, c),
    decreases a.len(),
{
    if a.len() > 0 && a[0] == b[0] && b[0] == c[0] {
        lemma_precedes_transitive(
            a.subrange(1, a.len() as int),
            b.subrange(1, b.len() as int),
            c.subrange(1, c.len() as int),
        );
    }
}

/// Whether `a` stands before `b`.
pub fn less(a: &[char], b: &[char]) -> (r: bool)
    ensures
        r == precedes(a@, b@),
{
    let mut i: usize = 0;
    assert(a@.subrange(0, a.len() as int) =~= a@);
    assert(b@.subrange(0, b.len() as int) =~= b@);
    while i < a.len() && i < b.len() && a[i] == b[i]
        invariant
            i <= a.len(),
            i <= b.len(),
            precedes(a@, b@) == precedes(
                a@.subrange(i as int, a.len() as int),
                b@.subrange(i as int, b.len() as int),
            ),
        decreases a.len() - i,
    {
        let ghost x = a@.subrange(i as int, a.len() as int);
        let ghost y = b@.subrange(i as int, b.len() as int);
        assert(x.subrange(1, x.len() as int) =~= a@.subrange(i + 1, a.len() as int));
        assert(y.subrange(1, y.len() as int) =~= b@.subrange(i + 1, b.len() as int));
        i = i + 1;
    }
    if i >= b.len() {
        false
    } else if i >= a.len() {
        true
    } else {
        a[i] < b[i]
    }
}

/// Whether the string `a` stands before the string `b`.
pub fn less_text(a: &str, b: &str) -> (r: bool)
    ensures
        r == precedes(a@, b@),
{
    let x = chars_of(a);
    let y = chars_of(b);
    less(&x, &y)
}

/// The order as a relation.
pub open spec fn text_order() -> spec_fn(Seq<char>, Seq<char>) -> bool {
    |a: Seq<char>, b: Seq<char>| precedes_or_same(a, b)
}

/// The texts in their order.
pub open spec fn in_order(s: Seq<Seq<char>>) -> Seq<Seq<char>> {
    s.sort_by(text_order())
}

/// The order is total.
pub proof fn lemma_text_order_total()
    ensures
        total_ordering(text_order()),
{
    let r = text_order();
    assert forall|a: Seq<char>| #[trigger] r(a, a) by {
        lemma_precedes_total(a, a);
    }
    assert forall|a: Seq<char>, b: Seq<char>| #[trigger] r(a, b) && #[trigger] r(b, a) implies a
        == b by {
        lemma_precedes_total(a, b);
    }
    assert forall|a: Seq<char>, b: Seq<char>| #[trigger] r(a, b) || #[trigger] r(b, a) by {
        lemma_precedes_total(a, b);
    }
    assert forall|a: Seq<char>, b: Seq<char>, c: Seq<char>| #[trigger]
        r(a, b) && #[trigger] r(b, c) implies r(a, c) by {
        lemma_precedes_total(a, b);
        lemma_precedes_total(b, c);
        lemma_precedes_total(a, c);
        if a != b && b != c {
            lemma_precedes_transitive(a, b, c);
        }
    }
}

/// What is in order and holds the same texts as `s` is `s` in order.
pub proof fn lemma_in_order_unique(s: Seq<Seq<char>>, t: Seq<Seq<char>>)
    requires
        sorted_by(t, text_order()),
        s.to_multiset() == t.to_multiset(),
    ensures
        t == in_order(s),
{
    lemma_text_order_total();
    s.lemma_sort_by_ensures(text_order());
    lemma_sorted_unique(t, in_order(s), text_order());
}

/// A copy of a string.
pub fn copy(s: &str) -> (r: String)
    ensures
        r@ == s@,
{
    String::from_str(s)
}

/// Two texts, one after the other.
pub fn join2(a: &str, b: &str) -> (r: String)
    ensures
        r@ == a@ + b@,
{
    let mut s = String::from_str(a);
    s.append(b);
    s
}

/// Three texts, one after the other.
pub fn join3(a: &str, b: &str, c: &str) -> (r: String)
    ensures
        r@ == a@ + b@ + c@,
{
    let mut s = String::from_str(a);
    s.append(b);
    s.append(c);
    s
}

/// Copies of strings.
pub fn copies(v: &[String]) -> (r: Vec<String>)
    ensures
        views(r@) == views(v@),
        r.len() == v.len(),
{
    let mut out: Vec<String> = Vec::new();
    let mut i: usize = 0;
    while i < v.len()
        invariant
            i <= v.len(),
            views(out@) == views(v@).subrange(0, i as int),
        decreases v.len() - i,
    {
        broadcast use lemma_views_push;

        out.push(copy(&v[i]));
        i = i + 1;
        assert(views(out@) =~= views(v@).subrange(0, i as int));
    }
    assert(views(out@) =~= views(v@));
    assert(views(out@).len() == out@.len());
    out
}

/// The strings in their order.
pub fn sort_texts(v: &[String]) -> (r: Vec<String>)
    ensures
        views(r@) == in_order(views(v@)),
        r.len() == v.len(),
{
    let mut out: Vec<String> = Vec::new();
    let mut i: usize = 0;
    assert(views(out@) =~= views(v@).subrange(0, 0));
    while i < v.len()
        invariant
            i <= v.len(),
            out.len() == i,
            sorted_by(views(out@), text_order()),
            views(out@).to_multiset() == views(v@).subrange(0, i as int).to_multiset(),
        decreases v.len() - i,
    {
        let ghost o0 = out@;
        let mut at: usize = out.len();
        while at > 0 && less_text(&v[i as usize], &out[at - 1])
            invariant
                at <= out.len(),
                i < v.len(),
                out@ == o0,
                forall|k: int| at <= k < out.len() ==> precedes(v@[i as int]@, #[trigger] out@[k]@),
            decreases at,
        {
            at = at - 1;
        }
        let x = copy(&v[i]);
        let ghost xv = x@;
        out.insert(at, x);
        proof {
            lemma_text_order_total();
            let r = text_order();
            let a = views(o0);
            let b = views(out@);
            assert(b =~= a.insert(at as int, xv));
            assert forall|p: int, q: int| 0 <= p < q < b.len() implies #[trigger] r(b[p], b[q]) by {
                if q < at {
                    assert(r(a[p], a[q]));
                } else if q == at {
                    if p < at {
                        assert(!precedes(xv, a[at - 1]));
                        assert(r(a[at - 1], xv));
                        if p < at - 1 {
                            assert(r(a[p], a[at - 1]));
                        }
                        assert(r(b[p], b[q]));
                    }
                } else if p < at {
                    assert(r(a[p], a[q - 1]));
                } else if p == at {
                    assert(precedes(xv, o0[q - 1]@));
                    assert(a[q - 1] == o0[q - 1]@);
                    lemma_precedes_total(xv, a[q - 1]);
                } else {
                    assert(r(a[p - 1], a[q - 1]));
                }
            }
            assert(views(v@).subrange(0, i + 1) =~= views(v@).subrange(0, i as int).push(xv));
            a.to_multiset_ensures();
            to_multiset_insert(a, at as int, xv);
            views(v@).subrange(0, i as int).to_multiset_ensures();
        }
        i = i + 1;
    }
    proof {
        assert(views(v@).subrange(0, v.len() as int) =~= views(v@));
        lemma_in_order_unique(views(v@), views(out@));
    }
    out
}

// ---------------------------------------------------------------------------
// The order of pairs of strings
// ---------------------------------------------------------------------------

/// Pairs of strings as pairs of character sequences.
pub open spec fn pair_views(s: Seq<(String, String)>) -> Seq<(Seq<char>, Seq<char>)> {
    s.map_values(|p: (String, String)| (p.0@, p.1@))
}

/// The order of pairs: by their first texts, and by their second where the first are one.
pub open spec fn pair_precedes(a: (Seq<char>, Seq<char>), b: (Seq<char>, Seq<char>)) -> bool {
    precedes(a.0, b.0) || (a.0 == b.0 && precedes(a.1, b.1))
}

/// The order of pairs as a relation.
pub open spec fn pair_order() -> spec_fn((Seq<char>, Seq<char>), (Seq<char>, Seq<char>)) -> bool {
    |a: (Seq<char>, Seq<char>), b: (Seq<char>, Seq<char>)| !pair_precedes(b, a)
}

/// The pairs in their order.
pub open spec fn pairs_in_order(s: Seq<(Seq<char>, Seq<char>)>) -> Seq<(Seq<char>, Seq<char>)> {
    s.sort_by(pair_order())
}

proof fn lemma_pair_total(a: (Seq<char>, Seq<char>), b: (Seq<char>, Seq<char>))
    ensures
        !pair_precedes(a, a),
        a != b ==> (pair_precedes(a, b) <==> !pair_precedes(b, a)),
{
    lemma_precedes_total(a.0, b.0);
    lemma_precedes_total(a.1, b.1);
    lemma_precedes_total(b.0, a.0);
    lemma_precedes_total(b.1, a.1);
}

/// The order of pairs is total.
pub proof fn lemma_pair_order_total()
    ensures
        total_ordering(pair_order()),
{
    let r = pair_order();
    assert forall|a: (Seq<char>, Seq<char>)| #[trigger] r(a, a) by {
        lemma_pair_total(a, a);
    }
    assert forall|a: (Seq<char>, Seq<char>), b: (Seq<char>, Seq<char>)| #[trigger]
        r(a, b) && #[trigger] r(b, a) implies a == b by {
        lemma_pair_total(a, b);
    }
    assert forall|a: (Seq<char>, Seq<char>), b: (Seq<char>, Seq<char>)| #[trigger]
        r(a, b) || #[trigger] r(b, a) by {
        lemma_pair_total(a, b);
    }
    assert forall|
        a: (Seq<char>, Seq<char>),
        b: (Seq<char>, Seq<char>),
        c: (Seq<char>, Seq<char>),
    | #[trigger] r(a, b) && #[trigger] r(b, c) implies r(a, c) by {
        lemma_pair_total(a, b);
        lemma_pair_total(b, c);
        lemma_pair_total(a, c);
        if a != b && b != c {
            if precedes(a.0, b.0) && precedes(b.0, c.0) {
                lemma_precedes_transitive(a.0, b.0, c.0);
            }
            if a.0 == b.0 && b.0 == c.0 {
                lemma_precedes_transitive(a.1, b.1, c.1);
            }
        }
    }
}

/// The pairs in their order.
pub fn sort_pairs(v: &[(String, String)]) -> (r: Vec<(String, String)>)
    ensures
        pair_views(r@) == pairs_in_order(pair_views(v@)),
        r.len() == v.len(),
{
    let mut out: Vec<(String, String)> = Vec::new();
    let mut i: usize = 0;
    assert(pair_views(out@) =~= pair_views(v@).subrange(0, 0));
    while i < v.len()
        invariant
            i <= v.len(),
            out.len() == i,
            sorted_by(pair_views(out@), pair_order()),
            pair_views(out@).to_multiset() == pair_views(v@).subrange(0, i as int).to_multiset(),
        decreases v.len() - i,
    {
        let ghost o0 = out@;
        let ghost xv = (v@[i as int].0@, v@[i as int].1@);
        let mut at: usize = out.len();
        while at > 0 && less_pair(&v[i], &out[at - 1])
            invariant
                at <= out.len(),
                i < v.len(),
                out@ == o0,
                xv == (v@[i as int].0@, v@[i as int].1@),
                forall|k: int|
                    at <= k < out.len() ==> pair_precedes(
                        xv,
                        ((#[trigger] out@[k]).0@, out@[k].1@),
                    ),
            decreases at,
        {
            at = at - 1;
        }
        let x = (copy(&v[i].0), copy(&v[i].1));
        out.insert(at, x);
        proof {
            lemma_pair_order_total();
            let r = pair_order();
            let a = pair_views(o0);
            let b = pair_views(out@);
            assert(b =~= a.insert(at as int, xv));
            assert forall|p: int, q: int| 0 <= p < q < b.len() implies #[trigger] r(b[p], b[q]) by {
                if q < at {
                    assert(r(a[p], a[q]));
                } else if q == at {
                    if p < at {
                        assert(a[at - 1] == (o0[at - 1].0@, o0[at - 1].1@));
                        assert(r(a[at - 1], xv));
                        if p < at - 1 {
                            assert(r(a[p], a[at - 1]));
                        }
                        assert(r(b[p], b[q]));
                    }
                } else if p < at {
                    assert(r(a[p], a[q - 1]));
                } else if p == at {
                    assert(a[q - 1] == (o0[q - 1].0@, o0[q - 1].1@));
                    assert(pair_precedes(xv, a[q - 1]));
                    lemma_pair_total(xv, a[q - 1]);
                } else {
                    assert(r(a[p - 1], a[q - 1]));
                }
            }
            assert(pair_views(v@).subrange(0, i + 1) =~= pair_views(v@).subrange(0, i as int).push(
                xv,
            ));
            a.to_multiset_ensures();
            to_multiset_insert(a, at as int, xv);
            pair_views(v@).subrange(0, i as int).to_multiset_ensures();
        }
        i = i + 1;
    }
    proof {
        assert(pair_views(v@).subrange(0, v.len() as int) =~= pair_views(v@));
        lemma_pair_order_total();
        pair_views(v@).lemma_sort_by_ensures(pair_order());
        lemma_sorted_unique(pair_views(out@), pairs_in_order(pair_views(v@)), pair_order());
    }
    out
}

fn less_pair(a: &(String, String), b: &(String, String)) -> (r: bool)
    ensures
        r == pair_precedes((a.0@, a.1@), (b.0@, b.1@)),
{
    less_text(a.0.as_str(), b.0.as_str()) || (same_text(a.0.as_str(), b.0.as_str()) && less_text(
        a.1.as_str(),
        b.1.as_str(),
    ))
}

/// Pairs that are the same up to their order are the same in order.
pub proof fn lemma_pairs_in_order_forget_order(
    s: Seq<(Seq<char>, Seq<char>)>,
    t: Seq<(Seq<char>, Seq<char>)>,
)
    requires
        s.to_multiset() == t.to_multiset(),
    ensures
        pairs_in_order(s) == pairs_in_order(t),
{
    lemma_pair_order_total();
    s.lemma_sort_by_ensures(pair_order());
    t.lemma_sort_by_ensures(pair_order());
    lemma_sorted_unique(pairs_in_order(s), pairs_in_order(t), pair_order());
}

/// A text holds each of the texts that it was put together from.
pub proof fn lemma_found_inside(before: Seq<char>, n: Seq<char>, after: Seq<char>)
    ensures
        found(before + n + after, n),
{
    let s = before + n + after;
    assert(s.subrange(before.len() as int, (before.len() + n.len()) as int) =~= n);
    assert(occurs_at(s, n, before.len() as int));
}

// ---------------------------------------------------------------------------
// Around a character
// ---------------------------------------------------------------------------

/// Where a character stands first.
pub open spec fn first_place(s: Seq<char>, c: char) -> Option<int>
    decreases s.len(),
{
    if s.len() == 0 {
        None
    } else {
        match first_place(s.drop_last(), c) {
            Some(i) => Some(i),
            None => if s.last() == c {
                Some(s.len() - 1)
            } else {
                None
            },
        }
    }
}

/// The first place holds the character, and none before it does.
pub proof fn lemma_first_place(s: Seq<char>, c: char)
    ensures
        first_place(s, c) matches Some(i) ==> 0 <= i < s.len() && s[i] == c && forall|j: int|
            0 <= j < i ==> s[j] != c,
        first_place(s, c) is None ==> forall|j: int| 0 <= j < s.len() ==> s[j] != c,
    decreases s.len(),
{
    if s.len() > 0 {
        let d = s.drop_last();
        lemma_first_place(d, c);
        assert forall|j: int| 0 <= j < d.len() implies s[j] == d[j] by {}
    }
}

/// The place where a character stands, and no earlier one, is its first.
pub proof fn lemma_first_place_is(s: Seq<char>, c: char, i: int)
    requires
        0 <= i < s.len(),
        s[i] == c,
        forall|j: int| 0 <= j < i ==> s[j] != c,
    ensures
        first_place(s, c) == Some(i),
{
    lemma_first_place(s, c);
}

/// Where a character stands first.
pub fn find_char(h: &[char], c: char) -> (r: Option<usize>)
    ensures
        r is Some <==> first_place(h@, c) is Some,
        r matches Some(i) ==> first_place(h@, c) == Some(i as int) && i < h.len(),
{
    let mut i: usize = 0;
    while i < h.len()
        invariant
            i <= h.len(),
            forall|j: int| 0 <= j < i ==> h@[j] != c,
        decreases h.len() - i,
    {
        if h[i] == c {
            proof {
                lemma_first_place_is(h@, c, i as int);
            }
            return Some(i);
        }
        i = i + 1;
    }
    proof {
        lemma_first_place(h@, c);
    }
    None
}

/// What stands before a character, or the whole where it does not stand.
pub open spec fn before_char(s: Seq<char>, c: char) -> Seq<char> {
    match first_place(s, c) {
        Some(i) => s.subrange(0, i),
        None => s,
    }
}

/// What stands behind a character, or the whole where it does not stand.
pub open spec fn after_char(s: Seq<char>, c: char) -> Seq<char> {
    match first_place(s, c) {
        Some(i) => s.subrange(i + 1, s.len() as int),
        None => s,
    }
}

/// What stands before a character, or the whole.
pub fn cut_before(h: &[char], c: char) -> (r: Vec<char>)
    ensures
        r@ == before_char(h@, c),
{
    match find_char(h, c) {
        Some(i) => cut(h, 0, i),
        None => {
            assert(h@.subrange(0, h.len() as int) =~= h@);
            cut(h, 0, h.len())
        },
    }
}

/// What stands behind a character, or the whole.
pub fn cut_after(h: &[char], c: char) -> (r: Vec<char>)
    ensures
        r@ == after_char(h@, c),
{
    match find_char(h, c) {
        Some(i) => cut(h, i + 1, h.len()),
        None => {
            assert(h@.subrange(0, h.len() as int) =~= h@);
            cut(h, 0, h.len())
        },
    }
}

/// How often a character stands in a text.
pub open spec fn times(s: Seq<char>, c: char) -> nat
    decreases s.len(),
{
    if s.len() == 0 {
        0
    } else if s.last() == c {
        times(s.drop_last(), c) + 1
    } else {
        times(s.drop_last(), c)
    }
}

/// How often a character stands in a text.
pub fn count_char(h: &[char], c: char) -> (r: usize)
    ensures
        r == times(h@, c),
{
    let mut n: usize = 0;
    let mut i: usize = 0;
    while i < h.len()
        invariant
            i <= h.len(),
            n <= i,
            n == times(h@.subrange(0, i as int), c),
        decreases h.len() - i,
    {
        assert(h@.subrange(0, i + 1).drop_last() =~= h@.subrange(0, i as int));
        if h[i] == c {
            n = n + 1;
        }
        i = i + 1;
    }
    assert(h@.subrange(0, h.len() as int) =~= h@);
    n
}

/// Texts with a separator between them.
pub open spec fn joined(parts: Seq<Seq<char>>, sep: Seq<char>) -> Seq<char>
    decreases parts.len(),
{
    if parts.len() == 0 {
        Seq::empty()
    } else if parts.len() == 1 {
        parts[0]
    } else {
        joined(parts.drop_last(), sep) + sep + parts.last()
    }
}

/// Strings with a separator between them.
pub fn join_all(v: &[String], sep: &str) -> (r: String)
    ensures
        r@ == joined(views(v@), sep@),
{
    let ghost all = views(v@);
    if v.len() == 0 {
        proof {
            reveal_strlit("");
        }
        assert(""@ =~= joined(all, sep@));
        return copy("");
    }
    let mut s = copy(v[0].as_str());
    let mut i: usize = 1;
    assert(all.subrange(0, 1).len() == 1);
    while i < v.len()
        invariant
            1 <= i <= v.len(),
            all == views(v@),
            s@ == joined(all.subrange(0, i as int), sep@),
        decreases v.len() - i,
    {
        assert(all.subrange(0, i + 1).drop_last() =~= all.subrange(0, i as int));
        assert(all.subrange(0, i + 1).last() == v@[i as int]@);
        s.append(sep);
        s.append(v[i].as_str());
        i = i + 1;
    }
    assert(all.subrange(0, v.len() as int) =~= all);
    s
}

/// A text as it is quoted in a message, with what cannot be printed escaped.
pub uninterp spec fn quoted_form(s: Seq<char>) -> Seq<char>;

/// The `Debug` form of `str`: the text in double quotes, with escapes.
#[verifier::external_body]
pub(crate) fn quoted(s: &str) -> (r: String)
    ensures
        r@ == quoted_form(s@),
{
    format!("{:?}", s)
}

/// Texts, each quoted, with a comma and a space between them.
pub open spec fn quoted_items(items: Seq<Seq<char>>) -> Seq<char>
    decreases items.len(),
{
    if items.len() == 0 {
        Seq::empty()
    } else if items.len() == 1 {
        quoted_form(items[0])
    } else {
        quoted_items(items.drop_last()) + ", "@ + quoted_form(items.last())
    }
}

/// A list of texts as it is written in a message: each of them quoted, between brackets.
pub open spec fn list_form(items: Seq<Seq<char>>) -> Seq<char> {
    "["@ + quoted_items(items) + "]"@
}

/// A list of texts as it is written in a message.
pub fn quoted_list(items: &[String]) -> (r: String)
    ensures
        r@ == list_form(views(items@)),
{
    let ghost all = views(items@);
    let mut s = copy("[");
    let mut i: usize = 0;
    assert(s@ =~= "["@ + quoted_items(all.subrange(0, 0)));
    while i < items.len()
        invariant
            i <= items.len(),
            all == views(items@),
            s@ == "["@ + quoted_items(all.subrange(0, i as int)),
        decreases items.len() - i,
    {
        let ghost now = all.subrange(0, i + 1);
        let ghost before = quoted_items(all.subrange(0, i as int));
        assert(now.drop_last() =~= all.subrange(0, i as int));
        assert(now.last() == items@[i as int]@);
        if i > 0 {
            s.append(", ");
        }
        s.append(quoted(items[i].as_str()).as_str());
        assert(s@ =~= "["@ + quoted_items(now));
        i = i + 1;
    }
    assert(all.subrange(0, items.len() as int) =~= all);
    s.append("]");
    s
}

// ---------------------------------------------------------------------------
// Laws
// ---------------------------------------------------------------------------

/// A text is split at a character into what is before it and what is behind it; what does not hold the
/// character is one piece.
pub proof fn law_a_text_is_split_at_its_separators(a: Seq<char>, c: char, b: Seq<char>)
    ensures
        split(a.push(c) + b, c) == split(a, c) + split(b, c),
        !a.contains(c) ==> split(a, c) == seq![a],
    decreases a.len() + b.len(),
{
    if !a.contains(c) {
        lemma_unsplit(a, c);
    }
    let s = a.push(c) + b;
    lemma_split_nonempty(a, c);
    lemma_split_nonempty(b, c);
    if b.len() == 0 {
        assert(s.drop_last() =~= a);
        assert(s.last() == c);
        assert(split(s, c) =~= split(a, c) + split(b, c));
    } else {
        let d = b.drop_last();
        law_a_text_is_split_at_its_separators(a, c, d);
        lemma_split_nonempty(d, c);
        assert(s.drop_last() =~= a.push(c) + d);
        assert(s.last() == b.last());
        let before = split(a, c) + split(d, c);
        assert(before.last() == split(d, c).last());
        assert(before.drop_last() =~= split(a, c) + split(d, c).drop_last());
        assert(split(s, c) =~= split(a, c) + split(b, c));
    }
}

proof fn lemma_unsplit(a: Seq<char>, c: char)
    requires
        !a.contains(c),
    ensures
        split(a, c) == seq![a],
    decreases a.len(),
{
    if a.len() > 0 {
        let d = a.drop_last();
        assert(!d.contains(c)) by {
            if d.contains(c) {
                let i = choose|i: int| 0 <= i < d.len() && d[i] == c;
                assert(a[i] == c);
            }
        }
        assert(a[a.len() - 1] != c);
        lemma_unsplit(d, c);
        assert(split(a, c) =~= seq![d.push(a.last())]);
        assert(d.push(a.last()) =~= a);
    } else {
        assert(a =~= Seq::empty());
    }
}

/// Lines are what stands between line feeds: a line that is ended is taken without its carriage return,
/// and behind the last line feed stands a line only where there is something.
pub proof fn law_a_line_ends_at_its_line_feed(line: Seq<char>, rest: Seq<char>)
    requires
        !line.contains('\n'),
    ensures
        lines(line.push('\n') + rest) == seq![without_return(line)] + lines(rest),
        line.len() > 0 ==> lines(line) == seq![line],
        lines(Seq::empty()).len() == 0,
        line.len() > 0 && line.last() == '\r' ==> without_return(line) == line.drop_last(),
        line.len() > 0 && line.last() != '\r' ==> without_return(line) == line,
{
    law_a_text_is_split_at_its_separators(line, '\n', rest);
    lemma_split_nonempty(rest, '\n');
    let p = split(rest, '\n');
    let all = split(line.push('\n') + rest, '\n');
    assert(all =~= seq![line] + p);
    assert(all.last() == p.last());
    let f = |p: Seq<char>| without_return(p);
    assert(all.drop_last().map_values(f) =~= seq![without_return(line)] + p.drop_last().map_values(
        f,
    ));
    assert(lines(line.push('\n') + rest) =~= seq![without_return(line)] + lines(rest));
    assert(split(line, '\n').drop_last().map_values(f) =~= Seq::<Seq<char>>::empty());
    assert(Seq::<char>::empty().len() == 0);
    lemma_unsplit(Seq::empty(), '\n');
    assert(split(Seq::empty(), '\n').drop_last().map_values(f) =~= Seq::<Seq<char>>::empty());
}

proof fn lemma_spaced(a: Seq<char>, c: char, b: Seq<char>)
    requires
        is_space(c),
    ensures
        spaced(a).len() >= 1,
        spaced(a.push(c) + b) == spaced(a) + spaced(b),
    decreases a.len() + b.len(),
{
    lemma_spaced_nonempty(a);
    lemma_spaced_nonempty(b);
    let s = a.push(c) + b;
    if b.len() == 0 {
        assert(s.drop_last() =~= a);
        assert(spaced(s) =~= spaced(a) + spaced(b));
    } else {
        let d = b.drop_last();
        lemma_spaced(a, c, d);
        lemma_spaced_nonempty(d);
        assert(s.drop_last() =~= a.push(c) + d);
        assert(s.last() == b.last());
        let before = spaced(a) + spaced(d);
        assert(before.last() == spaced(d).last());
        assert(before.drop_last() =~= spaced(a) + spaced(d).drop_last());
        assert(spaced(s) =~= spaced(a) + spaced(b));
    }
}

proof fn lemma_spaced_nonempty(a: Seq<char>)
    ensures
        spaced(a).len() >= 1,
    decreases a.len(),
{
    if a.len() > 0 {
        lemma_spaced_nonempty(a.drop_last());
    }
}

proof fn lemma_nonempty_of_both(p: Seq<Seq<char>>, q: Seq<Seq<char>>)
    ensures
        nonempty(p + q) == nonempty(p) + nonempty(q),
    decreases q.len(),
{
    if q.len() == 0 {
        assert(p + q =~= p);
        assert(nonempty(p) + nonempty(q) =~= nonempty(p));
    } else {
        lemma_nonempty_of_both(p, q.drop_last());
        assert((p + q).drop_last() =~= p + q.drop_last());
        assert((p + q).last() == q.last());
        assert(nonempty(p + q) =~= nonempty(p) + nonempty(q));
    }
}

proof fn lemma_unspaced(a: Seq<char>)
    requires
        forall|i: int| 0 <= i < a.len() ==> !is_space(#[trigger] a[i]),
    ensures
        spaced(a) == seq![a],
    decreases a.len(),
{
    if a.len() > 0 {
        let d = a.drop_last();
        assert forall|i: int| 0 <= i < d.len() implies !is_space(#[trigger] d[i]) by {
            assert(d[i] == a[i]);
        }
        lemma_unspaced(d);
        assert(!is_space(a[a.len() - 1]));
        assert(spaced(a) =~= seq![d.push(a.last())]);
        assert(d.push(a.last()) =~= a);
    } else {
        assert(a =~= Seq::empty());
    }
}

/// Words are what stands between blanks: a text without one is a word, and a blank parts the words
/// before it from those behind it.
pub proof fn law_words_are_parted_by_blanks(a: Seq<char>, c: char, b: Seq<char>, w: Seq<char>)
    requires
        is_space(c),
        forall|i: int| 0 <= i < w.len() ==> !is_space(#[trigger] w[i]),
    ensures
        words(a.push(c) + b) == words(a) + words(b),
        w.len() > 0 ==> words(w) == seq![w],
        words(Seq::empty()).len() == 0,
        is_space(' ') && is_space('\t') && is_space('\n') && is_space('\r'),
        !is_space('a') && !is_space('0') && !is_space('.'),
{
    lemma_spaced(a, c, b);
    lemma_nonempty_of_both(spaced(a), spaced(b));
    lemma_unspaced(w);
    assert(seq![w].drop_last() =~= Seq::<Seq<char>>::empty());
    assert(nonempty(Seq::<Seq<char>>::empty()) =~= Seq::empty());
    if w.len() > 0 {
        assert(nonempty(seq![w]) =~= seq![w]);
    }
    lemma_unspaced(Seq::empty());
    let none = seq![Seq::<char>::empty()];
    assert(none.drop_last() =~= Seq::<Seq<char>>::empty());
    assert(nonempty(none) =~= Seq::empty());
}

/// What is trimmed at its start loses blanks there and nothing else.
pub proof fn law_trimming_takes_blanks_from_the_start(s: Seq<char>)
    ensures
        ({
            let n = s.len() - trimmed_start(s).len();
            &&& 0 <= n
            &&& trimmed_start(s) == s.subrange(n, s.len() as int)
            &&& forall|i: int| 0 <= i < n ==> is_space(#[trigger] s[i])
            &&& trimmed_start(s).len() > 0 ==> !is_space(trimmed_start(s)[0])
        }),
    decreases s.len(),
{
    if s.len() > 0 && is_space(s[0]) {
        let t = s.subrange(1, s.len() as int);
        law_trimming_takes_blanks_from_the_start(t);
        let n = s.len() - trimmed_start(s).len();
        assert(trimmed_start(s) =~= s.subrange(n, s.len() as int));
        assert forall|i: int| 0 <= i < n implies is_space(#[trigger] s[i]) by {
            if i > 0 {
                assert(t[i - 1] == s[i]);
            }
        }
    } else {
        assert(s.subrange(0, s.len() as int) =~= s);
    }
}

/// What is trimmed at its end loses blanks there and nothing else.
pub proof fn law_trimming_takes_blanks_from_the_end(s: Seq<char>)
    ensures
        ({
            let n = trimmed_end(s).len() as int;
            &&& n <= s.len()
            &&& trimmed_end(s) == s.subrange(0, n)
            &&& forall|i: int| n <= i < s.len() ==> is_space(#[trigger] s[i])
            &&& n > 0 ==> !is_space(trimmed_end(s)[n - 1])
        }),
    decreases s.len(),
{
    if s.len() > 0 && is_space(s.last()) {
        let t = s.drop_last();
        law_trimming_takes_blanks_from_the_end(t);
        let n = trimmed_end(s).len() as int;
        assert(trimmed_end(s) =~= s.subrange(0, n));
        assert forall|i: int| n <= i < s.len() implies is_space(#[trigger] s[i]) by {
            if i < t.len() {
                assert(t[i] == s[i]);
            }
        }
    } else {
        assert(s.subrange(0, s.len() as int) =~= s);
    }
}

/// A trimmed text neither begins nor ends with a blank, and stands in the text that it was made of.
pub proof fn law_a_trimmed_text_has_no_blank_at_its_ends(s: Seq<char>)
    ensures
        trimmed(s).len() > 0 ==> !is_space(trimmed(s)[0]) && !is_space(trimmed(s).last()),
        found(s, trimmed(s)),
        s.len() > 0 && !is_space(s[0]) && !is_space(s.last()) ==> trimmed(s) == s,
        trimmed(s).len() == 0 <==> forall|i: int| 0 <= i < s.len() ==> is_space(#[trigger] s[i]),
{
    let t = trimmed_start(s);
    law_trimming_takes_blanks_from_the_start(s);
    law_trimming_takes_blanks_from_the_end(t);
    let e = trimmed_end(t);
    let n = s.len() - t.len();
    assert(s.subrange(n, n + e.len()) =~= e);
    assert(occurs_at(s, e, n));
    if e.len() == 0 {
        assert forall|i: int| 0 <= i < s.len() implies is_space(#[trigger] s[i]) by {
            if i >= n {
                assert(t[i - n] == s[i]);
            }
        }
    } else {
        assert(!is_space(e[0]));
        assert(e[0] == s[n]);
        assert(!is_space(s[n]));
    }
}

/// Every place where a text stands is replaced, from the first on, and what stands around it is kept;
/// where it does not stand nothing changes.
pub proof fn law_every_occurrence_is_replaced(
    before: Seq<char>,
    from: Seq<char>,
    after: Seq<char>,
    to: Seq<char>,
)
    requires
        from.len() > 0,
        first_from(before + from + after, from, 0, before.len() as int),
    ensures
        replaced(before + from + after, from, to) == before + to + replaced(after, from, to),
        !found(after, from) ==> replaced(after, from, to) == after,
{
    let s = before + from + after;
    let i = before.len() as int;
    lemma_index_from(s, from, 0, i);
    assert(s.subrange(0, i) =~= before);
    assert(s.subrange(i + from.len(), s.len() as int) =~= after);
    lemma_has_iff_indexed(after, from);
}

/// Texts are joined with the separator between each two, and none at the ends.
pub proof fn law_a_separator_stands_between_two_texts(
    parts: Seq<Seq<char>>,
    last: Seq<char>,
    sep: Seq<char>,
)
    ensures
        joined(Seq::empty(), sep).len() == 0,
        joined(seq![last], sep) == last,
        parts.len() > 0 ==> joined(parts.push(last), sep) == joined(parts, sep) + sep + last,
{
    assert(parts.push(last).drop_last() =~= parts);
}

/// Texts are ordered by the first character in which they differ, and one that begins another comes
/// before it.
pub proof fn law_texts_are_ordered_by_their_first_difference(
    same: Seq<char>,
    x: char,
    a: Seq<char>,
    y: char,
    b: Seq<char>,
)
    requires
        x < y,
    ensures
        precedes(same.push(x) + a, same.push(y) + b),
        !precedes(same.push(y) + b, same.push(x) + a),
        precedes(same, same.push(x) + a),
        !precedes(same.push(x) + a, same),
    decreases same.len(),
{
    let p = same.push(x) + a;
    let q = same.push(y) + b;
    if same.len() > 0 {
        let t = same.subrange(1, same.len() as int);
        law_texts_are_ordered_by_their_first_difference(t, x, a, y, b);
        assert(p.subrange(1, p.len() as int) =~= t.push(x) + a);
        assert(q.subrange(1, q.len() as int) =~= t.push(y) + b);
        assert(p[0] == same[0] && q[0] == same[0]);
    } else {
        assert(p[0] == x && q[0] == y);
    }
}

/// What is put in order is what it was before, each text as often, and no text comes before an earlier
/// one.
pub proof fn law_putting_in_order_keeps_every_text(s: Seq<Seq<char>>, i: int, j: int)
    ensures
        in_order(s).to_multiset() == s.to_multiset(),
        in_order(s).len() == s.len(),
        0 <= i < j < s.len() ==> !precedes(in_order(s)[j], in_order(s)[i]),
{
    lemma_text_order_total();
    s.lemma_sort_by_ensures(text_order());
    s.to_multiset_ensures();
    in_order(s).to_multiset_ensures();
    if 0 <= i < j < s.len() {
        assert(text_order()(in_order(s)[i], in_order(s)[j]));
    }
}

/// A number below nought is written with a minus sign before its numeral, and any other as its numeral.
pub proof fn law_a_negative_number_has_a_sign(n: nat)
    ensures
        signed_numeral(n as int) == numeral(n),
        n > 0 ==> signed_numeral(-n) == "-"@ + numeral(n),
        numeral(0) == seq!['0'],
        numeral(7) == seq!['7'],
{
    assert(digit_char(0) == '0');
    assert(digit_char(7) == '7');
}

/// How often a character stands in a text is the number of places where it does.
pub proof fn law_a_character_is_counted_at_its_places(s: Seq<char>, c: char, d: char)
    ensures
        times(s.push(d), c) == times(s, c) + if c == d {
            1nat
        } else {
            0nat
        },
        times(Seq::empty(), c) == 0,
{
    assert(s.push(d).drop_last() =~= s);
}

/// What is exchanged is one character for another, at every place, and nothing else.
pub proof fn law_a_character_is_exchanged_everywhere(s: Seq<char>, from: char, to: char, i: int)
    requires
        0 <= i < s.len(),
    ensures
        exchanged(s, from, to).len() == s.len(),
        s[i] == from ==> exchanged(s, from, to)[i] == to,
        s[i] != from ==> exchanged(s, from, to)[i] == s[i],
{
}

/// A text without the character stands before it whole; where it does stand, the two sides and the
/// character make up the text.
pub proof fn law_a_character_has_a_side_before_and_one_behind(s: Seq<char>, c: char)
    ensures
        s.contains(c) ==> before_char(s, c).push(c) + after_char(s, c) == s && !before_char(
            s,
            c,
        ).contains(c),
        !s.contains(c) ==> before_char(s, c) == s && after_char(s, c) == s,
{
    lemma_first_place(s, c);
    if s.contains(c) {
        let i = first_place(s, c)->0;
        assert(before_char(s, c).push(c) + after_char(s, c) =~= s);
    }
}

/// A text is kept where it was there and is wanted.
pub proof fn lemma_kept(s: Seq<Seq<char>>, p: spec_fn(Seq<char>) -> bool, x: Seq<char>)
    ensures
        s.filter(p).contains(x) <==> s.contains(x) && p(x),
    decreases s.len(),
{
    reveal(Seq::filter);
    if s.len() > 0 {
        let d = s.drop_last();
        lemma_kept(d, p, x);
        let all = s.filter(p);
        let before = d.filter(p);
        if all.contains(x) {
            let i = choose|i: int| 0 <= i < all.len() && all[i] == x;
            if i < before.len() {
                assert(before[i] == x);
                let k = choose|k: int| 0 <= k < d.len() && d[k] == x;
                assert(s[k] == x);
            } else {
                assert(s[s.len() - 1] == x);
            }
        }
        if s.contains(x) && p(x) {
            let k = choose|k: int| 0 <= k < s.len() && s[k] == x;
            if k < d.len() {
                assert(d[k] == x);
                let i = choose|i: int| 0 <= i < before.len() && before[i] == x;
                assert(all[i] == x);
            } else {
                assert(all[all.len() - 1] == x);
            }
        }
    }
}

/// Items that are shown follow one another with a comma and a blank between them.
pub proof fn law_shown_items_are_parted_by_commas(items: Seq<Seq<char>>, x: Seq<char>)
    ensures
        quoted_items(Seq::empty()).len() == 0,
        quoted_items(seq![x]) == quoted_form(x),
        items.len() > 0 ==> quoted_items(items.push(x)) == quoted_items(items) + ", "@
            + quoted_form(x),
{
    assert(items.push(x).drop_last() =~= items);
    assert(seq![x][0] == x);
}

/// A capital letter is lowered to the letter of its place, any other character stays as it is, and what
/// was lowered is no capital.
pub proof fn law_a_capital_is_lowered_and_nothing_else(c: char)
    ensures
        lower('A') == 'a' && lower('M') == 'm' && lower('Z') == 'z',
        'A' <= c <= 'Z' ==> 'a' <= lower(c) <= 'z' && lower(c) as int - 'a' as int == c as int
            - 'A' as int,
        !('A' <= c <= 'Z') ==> lower(c) == c,
        !('A' <= lower(c) <= 'Z'),
        lower(lower(c)) == lower(c),
{
}

} // verus!
