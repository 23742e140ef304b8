//! Sets of names.

use crate::text;
use vstd::prelude::*;
use vstd::string::*;

verus! {

/// Each name stands before the next.
pub open spec fn ascending(s: Seq<Seq<char>>) -> bool {
    forall|i: int, j: int|
        0 <= i < j < s.len() ==> text::precedes(#[trigger] s[i], #[trigger] s[j])
}

/// A set of names, kept in their order.
#[derive(Debug)]
pub struct Names {
    list: Vec<String>,
}

impl Names {
    #[verifier::type_invariant]
    spec fn well_formed(self) -> bool {
        ascending(text::views(self.list@))
    }

    /// The names in their order.
    pub closed spec fn listed(&self) -> Seq<Seq<char>> {
        text::views(self.list@)
    }
}

impl View for Names {
    type V = Set<Seq<char>>;

    open spec fn view(&self) -> Set<Seq<char>> {
        self.listed().to_set()
    }
}

/// Two ascending lists of the same names are one list.
pub proof fn law_an_ascending_list_is_known_by_its_names(a: Seq<Seq<char>>, b: Seq<Seq<char>>)
    requires
        ascending(a),
        ascending(b),
        a.to_set() == b.to_set(),
    ensures
        a == b,
    decreases a.len(),
{
    if a.len() == 0 {
        if b.len() > 0 {
            assert(b.to_set().contains(b[0]));
            assert(a.to_set().contains(b[0]));
        }
        assert(a =~= b);
    } else {
        assert(a.to_set().contains(a.last()));
        assert(b.to_set().contains(a.last()));
        assert(b.len() > 0);
        assert(b.to_set().contains(b.last()));
        assert(a.to_set().contains(b.last()));
        let i = choose|i: int| 0 <= i < b.len() && b[i] == a.last();
        let j = choose|j: int| 0 <= j < a.len() && a[j] == b.last();
        if i < b.len() - 1 {
            assert(text::precedes(b[i], b[b.len() - 1]));
            text::lemma_precedes_total(a.last(), b.last());
            if j < a.len() - 1 {
                assert(text::precedes(a[j], a[a.len() - 1]));
            }
        }
        assert(a.last() == b.last());
        let x = a.drop_last();
        let y = b.drop_last();
        assert forall|s: Seq<char>| x.to_set().contains(s) <==> y.to_set().contains(s) by {
            if x.to_set().contains(s) {
                let k = choose|k: int| 0 <= k < x.len() && x[k] == s;
                assert(a[k] == s);
                assert(a.to_set().contains(s));
                assert(b.to_set().contains(s));
                let m = choose|m: int| 0 <= m < b.len() && b[m] == s;
                assert(text::precedes(a[k], a[a.len() - 1]));
                text::lemma_precedes_total(s, a.last());
                assert(m < b.len() - 1);
                assert(y[m] == s);
            }
            if y.to_set().contains(s) {
                let k = choose|k: int| 0 <= k < y.len() && y[k] == s;
                assert(b[k] == s);
                assert(b.to_set().contains(s));
                assert(a.to_set().contains(s));
                let m = choose|m: int| 0 <= m < a.len() && a[m] == s;
                assert(text::precedes(b[k], b[b.len() - 1]));
                text::lemma_precedes_total(s, b.last());
                assert(m < a.len() - 1);
                assert(x[m] == s);
            }
        }
        assert(x.to_set() =~= y.to_set());
        law_an_ascending_list_is_known_by_its_names(x, y);
        assert(a =~= x.push(a.last()));
        assert(b =~= y.push(b.last()));
    }
}

impl Names {
    /// The set of the given names.
    pub fn new(names: &[String]) -> (r: Names)
        ensures
            r@ == text::views(names@).to_set(),
            ascending(r.listed()),
    {
        let mut set = Names { list: Vec::new() };
        let ghost all = text::views(names@);
        let mut i: usize = 0;
        assert(set@ =~= all.subrange(0, 0).to_set());
        while i < names.len()
            invariant
                i <= names.len(),
                all == text::views(names@),
                set@ == all.subrange(0, i as int).to_set(),
            decreases names.len() - i,
        {
            proof {
                let now = all.subrange(0, i + 1);
                let before = all.subrange(0, i as int);
                assert forall|s: Seq<char>|
                    now.to_set().contains(s) <==> before.to_set().insert(
                        names@[i as int]@,
                    ).contains(s) by {
                    if now.to_set().contains(s) {
                        let k = choose|k: int| 0 <= k < now.len() && now[k] == s;
                        if k < i {
                            assert(before[k] == s);
                        }
                    }
                    if before.to_set().contains(s) {
                        let k = choose|k: int| 0 <= k < before.len() && before[k] == s;
                        assert(now[k] == s);
                    }
                    assert(now[i as int] == names@[i as int]@);
                }
                assert(now.to_set() =~= before.to_set().insert(names@[i as int]@));
            }
            set.add_name(names[i].as_str());
            i = i + 1;
        }
        assert(all.subrange(0, names.len() as int) =~= all);
        proof {
            use_type_invariant(&set);
        }
        set
    }

    fn add_name(&mut self, name: &str)
        ensures
            final(self)@ == old(self)@.insert(name@),
    {
        proof {
            use_type_invariant(&*self);
        }
        let ghost l0 = self.listed();
        let mut at: usize = self.list.len();
        while at > 0 && text::less_text(name, self.list[at - 1].as_str())
            invariant
                at <= self.list.len(),
                l0 == self.listed(),
                l0 == text::views(self.list@),
                forall|k: int| at <= k < l0.len() ==> text::precedes(name@, #[trigger] l0[k]),
            decreases at,
        {
            assert(l0[at - 1] == self.list@[at - 1]@);
            at = at - 1;
        }
        if at > 0 {
            assert(l0[at - 1] == self.list@[at - 1]@);
            if text::same_text(self.list[at - 1].as_str(), name) {
                assert(l0.to_set().contains(name@));
                assert(l0.to_set().insert(name@) =~= l0.to_set());
                return;
            }
        }
        let mut list: Vec<String> = Vec::new();
        std::mem::swap(&mut list, &mut self.list);
        list.insert(at, text::copy(name));
        proof {
            let l1 = text::views(list@);
            assert(l1 =~= l0.insert(at as int, name@));
            assert forall|i: int, j: int| 0 <= i < j < l1.len() implies text::precedes(
                #[trigger] l1[i],
                #[trigger] l1[j],
            ) by {
                if j < at {
                    assert(text::precedes(l0[i], l0[j]));
                } else if j == at {
                    text::lemma_precedes_total(name@, l0[at - 1]);
                    if i < at - 1 {
                        assert(text::precedes(l0[i], l0[at - 1]));
                        text::lemma_precedes_transitive(l0[i], l0[at - 1], name@);
                    }
                } else if i < at {
                    assert(text::precedes(l0[i], l0[j - 1]));
                } else if i == at {
                    assert(text::precedes(name@, l0[j - 1]));
                } else {
                    assert(text::precedes(l0[i - 1], l0[j - 1]));
                }
            }
            assert forall|s: Seq<char>|
                l1.to_set().contains(s) <==> l0.to_set().insert(name@).contains(s) by {
                if l1.to_set().contains(s) {
                    let k = choose|k: int| 0 <= k < l1.len() && l1[k] == s;
                    if k < at {
                        assert(l0[k] == s);
                    } else if k > at {
                        assert(l0[k - 1] == s);
                    }
                }
                if l0.to_set().contains(s) {
                    let k = choose|k: int| 0 <= k < l0.len() && l0[k] == s;
                    if k < at {
                        assert(l1[k] == s);
                    } else {
                        assert(l1[k + 1] == s);
                    }
                }
                assert(l1[at as int] == name@);
            }
            assert(l1.to_set() =~= l0.to_set().insert(name@));
        }
        self.list = list;
    }

    /// The empty set.
    pub fn none() -> (r: Names)
        ensures
            r@ == Set::<Seq<char>>::empty(),
            r.listed() == Seq::<Seq<char>>::empty(),
    {
        let r = Names { list: Vec::new() };
        assert(r.listed() =~= Seq::empty());
        assert(r@ =~= Set::empty());
        r
    }

    /// The names in their order.
    pub fn as_slice(&self) -> (r: &[String])
        ensures
            text::views(r@) == self.listed(),
            ascending(self.listed()),
    {
        proof {
            use_type_invariant(self);
        }
        self.list.as_slice()
    }

    /// How many names there are.
    pub fn len(&self) -> (r: usize)
        ensures
            r == self@.len(),
            r == self.listed().len(),
    {
        proof {
            use_type_invariant(self);
            let l = self.listed();
            assert(l.len() == self.list@.len());
            assert forall|i: int, j: int| 0 <= i < j < l.len() implies l[i] != l[j] by {
                assert(text::precedes(l[i], l[j]));
                text::lemma_precedes_irreflexive(l[i]);
            }
            l.unique_seq_to_set();
        }
        self.list.len()
    }

    /// Whether a name is in the set.
    pub fn contains(&self, name: &str) -> (r: bool)
        ensures
            r == self@.contains(name@),
    {
        let ghost l = self.listed();
        let mut i: usize = 0;
        while i < self.list.len()
            invariant
                i <= self.list.len(),
                l == self.listed(),
                l == text::views(self.list@),
                forall|k: int| 0 <= k < i ==> #[trigger] l[k] != name@,
            decreases self.list.len() - i,
        {
            assert(l[i as int] == self.list@[i as int]@);
            if text::same_text(self.list[i].as_str(), name) {
                assert(l.to_set().contains(name@));
                return true;
            }
            i = i + 1;
        }
        assert(!l.to_set().contains(name@));
        false
    }

    /// The names of this set that are in the other where `there`, and those that are not otherwise.
    fn divided(&self, other: &Names, there: bool) -> (r: Names)
        ensures
            there ==> r@ == self@.intersect(other@),
            !there ==> r@ == self@.difference(other@),
            ascending(r.listed()),
    {
        let mut picked: Vec<String> = Vec::new();
        let ghost l = self.listed();
        let mut i: usize = 0;
        while i < self.list.len()
            invariant
                i <= self.list.len(),
                l == self.listed(),
                l == text::views(self.list@),
                forall|s: Seq<char>|
                    text::views(picked@).to_set().contains(s) <==> (exists|k: int|
                        0 <= k < i && #[trigger] l[k] == s && other@.contains(s) == there),
            decreases self.list.len() - i,
        {
            let ghost before = text::views(picked@);
            assert(l[i as int] == self.list@[i as int]@);
            let ghost name = l[i as int];
            if other.contains(self.list[i].as_str()) == there {
                picked.push(text::copy(self.list[i].as_str()));
                let ghost now = text::views(picked@);
                assert(now =~= before.push(name));
                assert forall|s: Seq<char>|
                    now.to_set().contains(s) <==> (before.to_set().contains(s) || s == name) by {
                    if now.to_set().contains(s) {
                        let k = choose|k: int| 0 <= k < now.len() && now[k] == s;
                        if k < before.len() {
                            assert(before[k] == s);
                        }
                    }
                    if before.to_set().contains(s) {
                        let k = choose|k: int| 0 <= k < before.len() && before[k] == s;
                        assert(now[k] == s);
                    }
                    assert(now[before.len() as int] == name);
                }
            }
            i = i + 1;
        }
        let r = Names::new(picked.as_slice());
        assert forall|s: Seq<char>| self@.contains(s) <==> (exists|k: int|
            0 <= k < l.len() && #[trigger] l[k] == s) by {}
        if there {
            assert(r@ =~= self@.intersect(other@));
        } else {
            assert(r@ =~= self@.difference(other@));
        }
        r
    }

    /// The names that are in both sets.
    pub fn intersection(&self, other: &Names) -> (r: Names)
        ensures
            r@ == self@.intersect(other@),
            ascending(r.listed()),
    {
        self.divided(other, true)
    }

    /// The names of this set that are not in the other.
    pub fn difference(&self, other: &Names) -> (r: Names)
        ensures
            r@ == self@.difference(other@),
            ascending(r.listed()),
    {
        self.divided(other, false)
    }
}

} // verus!
