//! Whole numbers the way the tables print them.

use crate::text;
use vstd::prelude::*;
use vstd::relations::*;
use vstd::seq_lib::*;
use vstd::string::*;

verus! {

/// Three digits, with zeros in front.
pub open spec fn three_digits(n: nat) -> Seq<char> {
    seq![
        text::digit_char(n / 100 % 10),
        text::digit_char(n / 10 % 10),
        text::digit_char(n % 10),
    ]
}

/// A number with commas between its groups of three digits.
pub open spec fn with_commas(n: nat) -> Seq<char>
    decreases n,
{
    if n < 1000 {
        text::numeral(n)
    } else {
        with_commas(n / 1000) + ","@ + three_digits(n % 1000)
    }
}

fn push_digit(out: &mut String, d: u32)
    requires
        d < 10,
    ensures
        final(out)@ == old(out)@.push(text::digit_char(d as nat)),
{
    let b: u8 = d as u8;
    out.push((48 + b) as char);
}

/// A number with commas between its groups of three digits.
pub fn fmt_commas(n: u32) -> (r: String)
    ensures
        r@ == with_commas(n as nat),
    decreases n,
{
    if n < 1000 {
        return text::numeral_of(n as u64);
    }
    let mut s = fmt_commas(n / 1000);
    s.append(",");
    let ghost before = s@;
    let low: u32 = n % 1000;
    push_digit(&mut s, low / 100 % 10);
    push_digit(&mut s, low / 10 % 10);
    push_digit(&mut s, low % 10);
    assert(s@ =~= before + three_digits(low as nat));
    s
}

/// The order of numbers.
pub open spec fn at_most() -> spec_fn(u32, u32) -> bool {
    |a: u32, b: u32| a <= b
}

/// The values in their order.
pub open spec fn ascending(values: Seq<u32>) -> Seq<u32> {
    values.sort_by(at_most())
}

/// The middle value, or the mean of the two in the middle, rounded half up; zero of no values.
pub open spec fn median(values: Seq<u32>) -> int {
    let s = ascending(values);
    let n = values.len() as int;
    if n == 0 {
        0
    } else if n % 2 == 1 {
        s[n / 2] as int
    } else {
        (s[n / 2 - 1] + s[n / 2] + 1) / 2
    }
}

/// The values in their order.
pub fn sort_numbers(v: &[u32]) -> (r: Vec<u32>)
    ensures
        r@ == ascending(v@),
        r.len() == v.len(),
{
    let mut out: Vec<u32> = Vec::new();
    let mut i: usize = 0;
    assert(out@ =~= v@.subrange(0, 0));
    while i < v.len()
        invariant
            i <= v.len(),
            out.len() == i,
            sorted_by(out@, at_most()),
            out@.to_multiset() == v@.subrange(0, i as int).to_multiset(),
        decreases v.len() - i,
    {
        let ghost before = out@;
        let x: u32 = v[i];
        let mut at: usize = out.len();
        while at > 0 && x < out[at - 1]
            invariant
                at <= out.len(),
                out@ == before,
                forall|k: int| at <= k < out.len() ==> x < #[trigger] out@[k],
            decreases at,
        {
            at = at - 1;
        }
        out.insert(at, x);
        proof {
            let r = at_most();
            let b = out@;
            assert(b =~= before.insert(at as int, x));
            assert forall|p: int, q: int| 0 <= p < q < b.len() implies #[trigger] r(b[p], b[q]) by {
                if q < at {
                    assert(r(before[p], before[q]));
                } else if q == at {
                    if p < at - 1 {
                        assert(r(before[p], before[at - 1]));
                    }
                } else if p < at {
                    assert(r(before[p], before[q - 1]));
                } else if p > at {
                    assert(r(before[p - 1], before[q - 1]));
                } else {
                    assert(x < before[q - 1]);
                }
            }
            assert(v@.subrange(0, i + 1) =~= v@.subrange(0, i as int).push(x));
            to_multiset_insert(before, at as int, x);
            v@.subrange(0, i as int).to_multiset_ensures();
        }
        i = i + 1;
    }
    proof {
        assert(v@.subrange(0, v.len() as int) =~= v@);
        v@.lemma_sort_by_ensures(at_most());
        lemma_sorted_unique(out@, ascending(v@), at_most());
    }
    out
}

/// The median, rounded half up; zero of no values.
pub fn median_round(values: &[u32]) -> (r: u32)
    ensures
        r == median(values@),
{
    if values.len() == 0 {
        return 0;
    }
    let v = sort_numbers(values);
    let n: usize = v.len();
    if n % 2 == 1 {
        v[n / 2]
    } else {
        let a: u64 = v[n / 2 - 1] as u64;
        let b: u64 = v[n / 2] as u64;
        ((a + b + 1) / 2) as u32
    }
}

/// The mean, rounded half up; zero of no cases.
pub open spec fn mean(total: nat, cases: nat) -> nat {
    if cases == 0 {
        0
    } else {
        (2 * total + cases) / (2 * cases)
    }
}

/// The mean, rounded half up; zero of no cases.
pub fn mean_round(total: u32, cases: u32) -> (r: u32)
    ensures
        r == mean(total as nat, cases as nat),
{
    if cases == 0 {
        return 0;
    }
    let t: u64 = 2 * (total as u64) + (cases as u64);
    let c: u64 = 2 * (cases as u64);
    let q: u64 = t / c;
    proof {
        assert(q <= u32::MAX) by (nonlinear_arith)
            requires
                q == t / c,
                c == 2 * cases,
                t == 2 * total + cases,
                1 <= cases <= u32::MAX,
                total <= u32::MAX,
        ;
    }
    q as u32
}

/// The tenths of a thousand that a number between one and two thousand is printed as. The halves
/// among them go to the side on which their nearest binary fraction lies, and the two halves that
/// are binary fractions to the even tenth.
pub open spec fn tenths(loc: nat) -> nat {
    if loc == 1150 || loc == 1250 || loc == 1450 || loc == 1650 || loc == 1950 {
        ((loc - 50) / 100) as nat
    } else {
        ((loc + 50) / 100) as nat
    }
}

/// A line count as the tables print it: whole below a thousand, in tenths of a thousand below two
/// thousand, and in thousands from there on.
pub open spec fn in_thousands(loc: nat) -> Seq<char> {
    if loc < 1000 {
        text::numeral(loc)
    } else if loc < 2000 {
        text::numeral(tenths(loc) / 10) + "."@ + text::numeral(tenths(loc) % 10) + "k"@
    } else {
        text::numeral(((loc + 500) / 1000) as nat) + "k"@
    }
}

/// A line count as the tables print it.
pub fn fmt_k(loc: u32) -> (r: String)
    ensures
        r@ == in_thousands(loc as nat),
{
    if loc < 1000 {
        text::numeral_of(loc as u64)
    } else if loc < 2000 {
        let t: u64 = if loc == 1150 || loc == 1250 || loc == 1450 || loc == 1650 || loc == 1950 {
            ((loc - 50) / 100) as u64
        } else {
            ((loc + 50) / 100) as u64
        };
        let mut s = text::numeral_of(t / 10);
        s.append(".");
        text::push_numeral(&mut s, t % 10);
        s.append("k");
        s
    } else {
        let mut s = text::numeral_of((loc as u64 + 500) / 1000);
        s.append("k");
        s
    }
}

/// What is left of a text without its commas.
pub open spec fn without_commas(s: Seq<char>) -> Seq<char>
    decreases s.len(),
{
    if s.len() == 0 {
        s
    } else if s.last() == ',' {
        without_commas(s.drop_last())
    } else {
        without_commas(s.drop_last()).push(s.last())
    }
}

proof fn lemma_without_commas_push(s: Seq<char>, c: char)
    ensures
        without_commas(s.push(c)) == (if c == ',' {
            without_commas(s)
        } else {
            without_commas(s).push(c)
        }),
{
    assert(s.push(c).drop_last() =~= s);
}

proof fn lemma_low_digits(n: nat)
    ensures
        n % 1000 / 100 % 10 == n / 100 % 10,
        n % 1000 / 10 % 10 == n / 10 % 10,
        n % 1000 % 10 == n % 10,
{
    let q = n / 1000;
    let r = n % 1000;
    assert(n == 1000 * q + r);
    assert(n / 100 == 10 * q + r / 100);
    assert(n / 10 == 100 * q + r / 10);
}

proof fn lemma_numeral_three_more(n: nat)
    requires
        n >= 1000,
    ensures
        text::numeral(n) == text::numeral(n / 1000).push(text::digit_char(n / 100 % 10)).push(
            text::digit_char(n / 10 % 10),
        ).push(text::digit_char(n % 10)),
{
    assert(n / 10 / 10 == n / 100);
    assert(n / 100 / 10 == n / 1000);
    assert(text::numeral(n) == text::numeral(n / 10).push(text::digit_char(n % 10)));
    assert(text::numeral(n / 10) == text::numeral(n / 100).push(text::digit_char(n / 10 % 10)));
    assert(text::numeral(n / 100) == text::numeral(n / 1000).push(text::digit_char(n / 100 % 10)));
}

/// Commas group the digits and change none: without them the numeral is left.
pub proof fn law_commas_only_group(n: nat)
    ensures
        without_commas(with_commas(n)) == text::numeral(n),
    decreases n,
{
    if n < 1000 {
        lemma_numeral_has_no_comma(n);
    } else {
        law_commas_only_group(n / 1000);
        lemma_numeral_three_more(n);
        reveal_strlit(",");
        let high = with_commas(n / 1000);
        let low = three_digits(n % 1000);
        lemma_low_digits(n);
        assert(with_commas(n) =~= high.push(',').push(low[0]).push(low[1]).push(low[2]));
        lemma_without_commas_push(high, ',');
        lemma_without_commas_push(high.push(','), low[0]);
        lemma_without_commas_push(high.push(',').push(low[0]), low[1]);
        lemma_without_commas_push(high.push(',').push(low[0]).push(low[1]), low[2]);
    }
}

proof fn lemma_numeral_has_no_comma(n: nat)
    ensures
        without_commas(text::numeral(n)) == text::numeral(n),
    decreases n,
{
    let s = text::numeral(n);
    if n >= 10 {
        lemma_numeral_has_no_comma(n / 10);
        assert(s.drop_last() =~= text::numeral(n / 10));
    } else {
        assert(s.drop_last() =~= Seq::empty());
        assert(without_commas(s.drop_last()) =~= Seq::empty());
        assert(without_commas(s) =~= s);
    }
}

/// The mean is the whole number that is nearest to it: no further than a half away, and upwards where
/// it lies between two.
pub proof fn law_the_mean_is_rounded_to_the_nearest(total: nat, cases: nat)
    requires
        cases > 0,
    ensures
        2 * cases * mean(total, cases) <= 2 * total + cases,
        2 * total + cases < 2 * cases * mean(total, cases) + 2 * cases,
        mean(total, 0) == 0,
{
    let n = (2 * total + cases) as int;
    let d = (2 * cases) as int;
    vstd::arithmetic::div_mod::lemma_fundamental_div_mod(n, d);
    vstd::arithmetic::div_mod::lemma_mod_bound(n, d);
    assert(mean(total, cases) == n / d);
    assert(2 * cases * mean(total, cases) == d * (n / d)) by (nonlinear_arith)
        requires
            mean(total, cases) == n / d,
            d == 2 * cases,
    ;
}

/// No value of the lower half is above the median and none of the upper half below it. It is the middle
/// value, or half of the sum of the two middle ones, rounded up.
pub proof fn law_the_median_parts_the_values(values: Seq<u32>, i: int)
    requires
        values.len() > 0,
        0 <= i < values.len(),
    ensures
        ({
            let s = ascending(values);
            let n = values.len() as int;
            &&& s.to_multiset() == values.to_multiset()
            &&& s.len() == n
            &&& i < n / 2 ==> s[i] <= median(values)
            &&& i >= (n + 1) / 2 ==> s[i] >= median(values)
            &&& n % 2 == 1 ==> median(values) == s[n / 2]
            &&& n % 2 == 0 ==> 0 <= 2 * median(values) - (s[n / 2 - 1] + s[n / 2]) <= 1
        }),
{
    let s = ascending(values);
    let n = values.len() as int;
    values.lemma_sort_by_ensures(at_most());
    values.to_multiset_ensures();
    s.to_multiset_ensures();
    assert(s.len() == n);
    if i < n / 2 {
        if n % 2 == 1 {
            assert(at_most()(s[i], s[n / 2]));
        } else {
            if i < n / 2 - 1 {
                assert(at_most()(s[i], s[n / 2 - 1]));
            }
            assert(at_most()(s[n / 2 - 1], s[n / 2]));
        }
    }
    if i >= (n + 1) / 2 {
        if n % 2 == 1 {
            assert(at_most()(s[n / 2], s[i]));
        } else {
            if i > n / 2 {
                assert(at_most()(s[n / 2], s[i]));
            }
            assert(at_most()(s[n / 2 - 1], s[n / 2]));
        }
    }
}

/// A comma stands before each three digits from the end, and nowhere else.
pub proof fn law_a_comma_stands_before_three_digits(n: nat)
    ensures
        n < 1000 ==> with_commas(n) == text::numeral(n),
        n >= 1000 ==> {
            let s = with_commas(n);
            &&& s.len() >= 4
            &&& s[s.len() - 4] == ','
            &&& s.subrange(0, s.len() - 4) == with_commas(n / 1000)
            &&& '0' <= s[s.len() - 3] <= '9' && '0' <= s[s.len() - 2] <= '9' && '0' <= s[s.len() - 1]
                <= '9'
        },
{
    if n >= 1000 {
        reveal_strlit(",");
        let s = with_commas(n);
        assert(s.subrange(0, s.len() - 4) =~= with_commas(n / 1000));
        let low = three_digits(n % 1000);
        assert(s[s.len() - 3] == low[0] && s[s.len() - 2] == low[1] && s[s.len() - 1] == low[2]);
    }
}

/// Lines are told as they are below a thousand; then in tenths of a thousand, no more than fifty lines
/// away; and from two thousand on in thousands, no more than five hundred away.
pub proof fn law_a_size_in_thousands_is_near(loc: nat)
    ensures
        loc < 1000 ==> in_thousands(loc) == text::numeral(loc),
        1000 <= loc < 2000 ==> {
            &&& -50 <= tenths(loc) * 100 - loc <= 50
            &&& in_thousands(loc) == text::numeral(tenths(loc) / 10) + "."@ + text::numeral(
                tenths(loc) % 10,
            ) + "k"@
        },
        loc >= 2000 ==> exists|k: nat|
            #![trigger text::numeral(k)]
            in_thousands(loc) == text::numeral(k) + "k"@ && -500 < k * 1000 - loc <= 500,
{
    if loc >= 2000 {
        let k = ((loc + 500) / 1000) as nat;
        assert(in_thousands(loc) == text::numeral(k) + "k"@);
        assert(-500 < k * 1000 - loc <= 500);
    }
}

} // verus!
