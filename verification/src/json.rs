//! JSON values as plain data, and their passage through `serde_json`.

use crate::text;
use vstd::prelude::*;
use vstd::string::*;

verus! {

// ---------------------------------------------------------------------------
// Values
// ---------------------------------------------------------------------------

/// A JSON value. A name that an object gives twice has the value given last.
#[derive(Debug)]
pub enum Json {
    Null,
    Bool(bool),
    Number(serde_json::Number),
    Text(String),
    List(Vec<Json>),
    Object(Vec<(String, Json)>),
}

/// A JSON value, mathematically. A number is known by what it is as a natural number that fits in
/// 64 bits, where it is one, and by the way it is written.
pub enum JsonView {
    Null,
    Bool(bool),
    Number { natural: Option<u64>, written: Seq<char> },
    Text(Seq<char>),
    List(Seq<JsonView>),
    Object(Map<Seq<char>, JsonView>),
}

/// What a value is.
pub open spec fn meaning(j: Json) -> JsonView
    decreases j,
{
    match j {
        Json::Null => JsonView::Null,
        Json::Bool(b) => JsonView::Bool(b),
        Json::Number(n) => JsonView::Number { natural: natural_in(n), written: written_as(n) },
        Json::Text(s) => JsonView::Text(s@),
        Json::List(v) => JsonView::List(meanings(v@)),
        Json::Object(v) => JsonView::Object(members(v@)),
    }
}

/// What the values of a list are.
pub open spec fn meanings(v: Seq<Json>) -> Seq<JsonView>
    decreases v,
{
    if v.len() == 0 {
        Seq::empty()
    } else {
        meanings(v.drop_last()).push(meaning(v.last()))
    }
}

/// What the names of an object stand for.
pub open spec fn members(v: Seq<(String, Json)>) -> Map<Seq<char>, JsonView>
    decreases v,
{
    if v.len() == 0 {
        Map::empty()
    } else {
        members(v.drop_last()).insert(v.last().0@, meaning(v.last().1))
    }
}

impl View for Json {
    type V = JsonView;

    open spec fn view(&self) -> JsonView {
        meaning(*self)
    }
}

/// A list is known by its items.
pub proof fn lemma_meanings(v: Seq<Json>)
    ensures
        meanings(v).len() == v.len(),
        forall|i: int| 0 <= i < v.len() ==> #[trigger] meanings(v)[i] == v[i]@,
    decreases v.len(),
{
    if v.len() > 0 {
        lemma_meanings(v.drop_last());
        assert forall|i: int| 0 <= i < v.len() implies #[trigger] meanings(v)[i] == v[i]@ by {
            if i < v.len() - 1 {
                assert(v.drop_last()[i] == v[i]);
            }
        }
    }
}

/// The value that `j` has under `name`, where it is an object with that name.
pub open spec fn member(j: JsonView, name: Seq<char>) -> Option<JsonView> {
    match j {
        JsonView::Object(m) => if m.dom().contains(name) {
            Some(m[name])
        } else {
            None
        },
        _ => None,
    }
}

/// The item that `j` has at `i`, where it is a list that long.
pub open spec fn item(j: JsonView, i: int) -> Option<JsonView> {
    match j {
        JsonView::List(s) => if 0 <= i < s.len() {
            Some(s[i])
        } else {
            None
        },
        _ => None,
    }
}

/// The text that `j` is, where it is one.
pub open spec fn text_in(j: Option<JsonView>) -> Option<Seq<char>> {
    match j {
        Some(JsonView::Text(s)) => Some(s),
        _ => None,
    }
}

/// The natural number that `j` is, where it is one that fits.
pub open spec fn number_in(j: Option<JsonView>) -> Option<u64> {
    match j {
        Some(JsonView::Number { natural, written: _ }) => natural,
        _ => None,
    }
}

impl Json {
    /// The value under `name`.
    pub fn get(&self, name: &str) -> (r: Option<&Json>)
        ensures
            r is Some <==> member(self@, name@) is Some,
            r matches Some(j) ==> member(self@, name@) == Some(j@),
    {
        match self {
            Json::Object(v) => {
                let mut i: usize = v.len();
                assert(v@.subrange(0, i as int) =~= v@);
                while i > 0
                    invariant
                        i <= v.len(),
                        self@ == JsonView::Object(members(v@)),
                        members(v@).dom().contains(name@) <==> members(
                            v@.subrange(0, i as int),
                        ).dom().contains(name@),
                        members(v@).dom().contains(name@) ==> members(v@)[name@] == members(
                            v@.subrange(0, i as int),
                        )[name@],
                    decreases i,
                {
                    assert(v@.subrange(0, i as int).drop_last() =~= v@.subrange(0, i - 1));
                    if text::same_text(v[i - 1].0.as_str(), name) {
                        return Some(&v[i - 1].1);
                    }
                    i = i - 1;
                }
                assert(v@.subrange(0, 0).len() == 0);
                None
            },
            _ => None,
        }
    }

    /// The item at `i`.
    pub fn at(&self, i: usize) -> (r: Option<&Json>)
        ensures
            r is Some <==> item(self@, i as int) is Some,
            r matches Some(j) ==> item(self@, i as int) == Some(j@),
    {
        match self {
            Json::List(v) => {
                proof {
                    lemma_meanings(v@);
                }
                if i < v.len() {
                    Some(&v[i])
                } else {
                    None
                }
            },
            _ => None,
        }
    }

    /// The text that this is.
    pub fn as_str(&self) -> (r: Option<&str>)
        ensures
            r is Some <==> text_in(Some(self@)) is Some,
            r matches Some(s) ==> text_in(Some(self@)) == Some(s@),
    {
        match self {
            Json::Text(s) => Some(s.as_str()),
            _ => None,
        }
    }

    /// The natural number that this is.
    pub fn as_u64(&self) -> (r: Option<u64>)
        ensures
            r == number_in(Some(self@)),
    {
        match self {
            Json::Number(n) => natural_of(n),
            _ => None,
        }
    }
}

/// A natural number as a value.
pub open spec fn natural_view(n: u64) -> JsonView {
    JsonView::Number { natural: Some(n), written: text::numeral(n as nat) }
}

/// An integer as a value.
pub open spec fn integer_view(n: i32) -> JsonView {
    JsonView::Number {
        natural: if n >= 0 {
            Some(n as u64)
        } else {
            None
        },
        written: text::signed_numeral(n as int),
    }
}

/// A natural number as a value.
pub fn natural(n: u64) -> (r: Json)
    ensures
        r@ == natural_view(n),
{
    Json::Number(number_from_u64(n))
}

/// An integer as a value.
pub fn integer(n: i32) -> (r: Json)
    ensures
        r@ == integer_view(n),
{
    Json::Number(number_from_i32(n))
}

/// A text as a value.
pub fn words(s: &str) -> (r: Json)
    ensures
        r@ == JsonView::Text(s@),
{
    Json::Text(text::copy(s))
}

/// Adds a member to those of an object: the last one with a name counts.
pub fn set(v: &mut Vec<(String, Json)>, name: &str, value: Json)
    ensures
        members(final(v)@) == members(old(v)@).insert(name@, value@),
{
    let ghost before = v@;
    v.push((text::copy(name), value));
    assert(v@.drop_last() =~= before);
}

// ---------------------------------------------------------------------------
// Through serde_json
// ---------------------------------------------------------------------------

/// `serde_json::Number`.
#[verifier::external_type_specification]
#[verifier::external_body]
pub struct ExNumber(serde_json::Number);

/// `serde_json::Value`.
#[verifier::external_type_specification]
#[verifier::external_body]
pub struct ExValue(serde_json::Value);

/// What a number of `serde_json` is as a natural number that fits in 64 bits, where it is one.
pub uninterp spec fn natural_in(n: serde_json::Number) -> Option<u64>;

/// How `serde_json` writes a number.
pub uninterp spec fn written_as(n: serde_json::Number) -> Seq<char>;

/// What a value of `serde_json` holds.
pub uninterp spec fn held(v: serde_json::Value) -> JsonView;

/// What `serde_json` reads in a text, where the text is JSON.
pub uninterp spec fn read(text: Seq<char>) -> Option<JsonView>;

/// How `serde_json` writes a value over several lines.
pub uninterp spec fn pretty_form(j: JsonView) -> Seq<char>;

/// How `serde_json` writes a value on one line.
pub uninterp spec fn compact_form(j: JsonView) -> Seq<char>;

/// How `serde_json` shows a value in a message.
pub uninterp spec fn shown_form(j: JsonView) -> Seq<char>;

/// `serde_json::Number::as_u64`: the number where it is natural and fits.
#[verifier::external_body]
fn natural_of(n: &serde_json::Number) -> (r: Option<u64>)
    ensures
        r == natural_in(*n),
{
    n.as_u64()
}

/// `serde_json::Number::from`, of a `u64`: the natural number, written as its decimal numeral.
#[verifier::external_body]
fn number_from_u64(n: u64) -> (r: serde_json::Number)
    ensures
        natural_in(r) == Some(n),
        written_as(r) == text::numeral(n as nat),
{
    serde_json::Number::from(n)
}

/// `serde_json::Number::from`, of an `i32`: natural where it is not negative, written as its
/// decimal numeral.
#[verifier::external_body]
fn number_from_i32(n: i32) -> (r: serde_json::Number)
    ensures
        natural_in(r) == (if n >= 0 {
            Some(n as u64)
        } else {
            None
        }),
        written_as(r) == text::signed_numeral(n as int),
{
    serde_json::Number::from(n)
}

/// One level of a value: its parts are still values of `serde_json`.
enum Level<'a> {
    Null,
    Bool(bool),
    Number(serde_json::Number),
    Text(String),
    List(&'a Vec<serde_json::Value>),
    Object(Vec<(String, &'a serde_json::Value)>),
}

/// What the values of a list hold.
spec fn held_items(v: Seq<serde_json::Value>) -> Seq<JsonView> {
    v.map_values(|x: serde_json::Value| held(x))
}

/// What a level holds. The names of an object stand there once each.
spec fn level_holds(l: Level, j: JsonView) -> bool {
    match l {
        Level::Null => j == JsonView::Null,
        Level::Bool(b) => j == JsonView::Bool(b),
        Level::Number(n) => j == (JsonView::Number {
            natural: natural_in(n),
            written: written_as(n),
        }),
        Level::Text(s) => j == JsonView::Text(s@),
        Level::List(v) => j == JsonView::List(held_items(v@)),
        Level::Object(v) => {
            &&& j is Object
            &&& j->Object_0.dom().finite()
            &&& forall|k: Seq<char>|
                j->Object_0.dom().contains(k) <==> exists|i: int|
                    0 <= i < v@.len() && (#[trigger] v@[i]).0@ == k
            &&& forall|i: int|
                0 <= i < v@.len() ==> j->Object_0[(#[trigger] v@[i]).0@] == held(*v@[i].1)
        },
    }
}

/// The variants of `serde_json::Value`, and `serde_json::Map::iter`, which gives each member of an
/// object once.
#[verifier::external_body]
fn level<'a>(v: &'a serde_json::Value) -> (r: Level<'a>)
    ensures
        level_holds(r, held(*v)),
{
    match v {
        serde_json::Value::Null => Level::Null,
        serde_json::Value::Bool(b) => Level::Bool(*b),
        serde_json::Value::Number(n) => Level::Number(n.clone()),
        serde_json::Value::String(s) => Level::Text(s.clone()),
        serde_json::Value::Array(a) => Level::List(a),
        serde_json::Value::Object(m) => Level::Object(
            m.iter().map(|(k, x)| (k.clone(), x)).collect(),
        ),
    }
}

/// `serde_json::from_str`, into a `serde_json::Value`.
#[verifier::external_body]
fn read_value(s: &str) -> (r: Option<serde_json::Value>)
    ensures
        r is Some <==> read(s@) is Some,
        r matches Some(v) ==> read(s@) == Some(held(v)),
{
    serde_json::from_str(s).ok()
}

fn settle(v: &serde_json::Value) -> (r: Json)
    ensures
        r@ == held(*v),
    decreases held(*v),
{
    match level(v) {
        Level::Null => Json::Null,
        Level::Bool(b) => Json::Bool(b),
        Level::Number(n) => Json::Number(n),
        Level::Text(s) => Json::Text(s),
        Level::List(items) => {
            let ghost whole = held(*v)->List_0;
            let mut out: Vec<Json> = Vec::new();
            let mut i: usize = 0;
            while i < items.len()
                invariant
                    i <= items.len(),
                    held(*v) == JsonView::List(whole),
                    whole == held_items(items@),
                    meanings(out@) == whole.subrange(0, i as int),
                decreases items.len() - i,
            {
                let ghost before = out@;
                assert(whole[i as int] == held(items@[i as int]));
                assert(decreases_to!(held(*v) => held(*v)->List_0));
                assert(decreases_to!(whole => whole[i as int]));
                out.push(settle(&items[i]));
                i = i + 1;
                assert(out@.drop_last() =~= before);
                assert(meanings(out@) =~= whole.subrange(0, i as int));
            }
            assert(whole.subrange(0, items.len() as int) =~= whole);
            Json::List(out)
        },
        Level::Object(items) => {
            let ghost whole = held(*v)->Object_0;
            let mut out: Vec<(String, Json)> = Vec::new();
            let mut i: usize = 0;
            while i < items.len()
                invariant
                    i <= items.len(),
                    held(*v) == JsonView::Object(whole),
                    whole.dom().finite(),
                    forall|k: Seq<char>|
                        whole.dom().contains(k) <==> exists|p: int|
                            0 <= p < items@.len() && (#[trigger] items@[p]).0@ == k,
                    forall|p: int|
                        0 <= p < items@.len() ==> whole[(#[trigger] items@[p]).0@] == held(
                            *items@[p].1,
                        ),
                    forall|k: Seq<char>|
                        members(out@).dom().contains(k) <==> exists|p: int|
                            0 <= p < i && (#[trigger] items@[p]).0@ == k,
                    forall|k: Seq<char>|
                        members(out@).dom().contains(k) ==> #[trigger] members(out@)[k]
                            == whole[k],
                decreases items.len() - i,
            {
                let ghost before = out@;
                let ghost name = items@[i as int].0@;
                assert(whole.dom().contains(name));
                assert(decreases_to!(held(*v) => held(*v)->Object_0));
                assert(decreases_to!(whole => whole[name]));
                let x = settle(items[i].1);
                set(&mut out, items[i].0.as_str(), x);
                i = i + 1;
                assert forall|k: Seq<char>| members(out@).dom().contains(k) <==> exists|p: int|
                    0 <= p < i && (#[trigger] items@[p]).0@ == k by {
                    if k == name {
                        assert(items@[i - 1].0@ == k);
                    } else {
                        if members(before).dom().contains(k) {
                            let p = choose|p: int| 0 <= p < i - 1 && (#[trigger] items@[p]).0@ == k;
                            assert(items@[p].0@ == k);
                        }
                    }
                }
            }
            assert(members(out@) =~= whole);
            Json::Object(out)
        },
    }
}

/// Reads a text as JSON.
pub fn parse(s: &str) -> (r: Option<Json>)
    ensures
        r is Some <==> read(s@) is Some,
        r matches Some(j) ==> read(s@) == Some(j@),
{
    match read_value(s) {
        Some(v) => Some(settle(&v)),
        None => None,
    }
}

/// One level of a value to be made.
enum Parts {
    Null,
    Bool(bool),
    Number(serde_json::Number),
    Text(String),
    List(Vec<serde_json::Value>),
    Object(Vec<(String, serde_json::Value)>),
}

/// What the names of an object to be made stand for: a name given twice has what is given last.
spec fn held_members(v: Seq<(String, serde_json::Value)>) -> Map<Seq<char>, JsonView>
    decreases v.len(),
{
    if v.len() == 0 {
        Map::empty()
    } else {
        held_members(v.drop_last()).insert(v.last().0@, held(v.last().1))
    }
}

/// What the parts make.
spec fn parts_hold(p: Parts) -> JsonView {
    match p {
        Parts::Null => JsonView::Null,
        Parts::Bool(b) => JsonView::Bool(b),
        Parts::Number(n) => JsonView::Number { natural: natural_in(n), written: written_as(n) },
        Parts::Text(s) => JsonView::Text(s@),
        Parts::List(v) => JsonView::List(held_items(v@)),
        Parts::Object(v) => JsonView::Object(held_members(v@)),
    }
}

/// The variants of `serde_json::Value`, and `serde_json::Map::from_iter`, in which of equal names
/// the last counts.
#[verifier::external_body]
fn assemble(p: Parts) -> (r: serde_json::Value)
    ensures
        held(r) == parts_hold(p),
{
    match p {
        Parts::Null => serde_json::Value::Null,
        Parts::Bool(b) => serde_json::Value::Bool(b),
        Parts::Number(n) => serde_json::Value::Number(n),
        Parts::Text(s) => serde_json::Value::String(s),
        Parts::List(v) => serde_json::Value::Array(v),
        Parts::Object(v) => serde_json::Value::Object(v.into_iter().collect()),
    }
}

/// `serde_json::Number::clone`: the same number.
#[verifier::external_body]
fn copy_number(n: &serde_json::Number) -> (r: serde_json::Number)
    ensures
        natural_in(r) == natural_in(*n),
        written_as(r) == written_as(*n),
{
    n.clone()
}

/// A value without parts that is no fraction: nothing, a text, a truth value, or an integer that fits
/// in 64 bits.
pub open spec fn plain(j: JsonView) -> bool {
    match j {
        JsonView::Null => true,
        JsonView::Text(_) => true,
        JsonView::Bool(_) => true,
        JsonView::Number { natural, written } => match natural {
            Some(n) => written == text::numeral(n as nat),
            None => exists|n: i64| n < 0 && written == #[trigger] text::signed_numeral(n as int),
        },
        _ => false,
    }
}

/// A value of plain values, with lists and objects nested in each other at most so deep.
pub open spec fn survives_within(j: JsonView, depth: nat) -> bool
    decreases depth,
{
    match j {
        JsonView::List(s) => depth > 0 && forall|i: int|
            0 <= i < s.len() ==> survives_within(#[trigger] s[i], (depth - 1) as nat),
        JsonView::Object(m) => depth > 0 && forall|k: Seq<char>|
            m.dom().contains(k) ==> survives_within(#[trigger] m[k], (depth - 1) as nat),
        _ => plain(j),
    }
}

/// A value that is read back as it was written: of plain values, and nested no deeper than a reader
/// follows.
pub open spec fn survives(j: JsonView) -> bool {
    survives_within(j, 127)
}

/// An object of plain values survives.
pub proof fn lemma_plain_members_survive(j: JsonView)
    requires
        j matches JsonView::Object(m) && forall|k: Seq<char>|
            m.dom().contains(k) ==> plain(#[trigger] m[k]),
    ensures
        survives(j),
{
    let m = j->Object_0;
    assert forall|k: Seq<char>| m.dom().contains(k) implies survives_within(
        #[trigger] m[k],
        126,
    ) by {
        assert(plain(m[k]));
    }
}

/// `serde_json::to_string_pretty`, which does not fail on a `serde_json::Value`. What it writes, with a
/// line end behind it, `serde_json::from_str` reads back as it was, where lists and objects nest at
/// most 127 deep and no number is a fraction. Of fractions nothing is said: they are read with the best
/// precision that is had quickly, so that one can be read back as a neighbour.
#[verifier::external_body]
fn write_pretty(v: &serde_json::Value) -> (r: String)
    ensures
        r@ == pretty_form(held(*v)),
        survives(held(*v)) ==> read(r@ + "\n"@) == Some(held(*v)),
{
    serde_json::to_string_pretty(v).unwrap_or_default()
}

/// `serde_json::to_string`, which does not fail on a `serde_json::Value`.
#[verifier::external_body]
fn write_compact(v: &serde_json::Value) -> (r: String)
    ensures
        r@ == compact_form(held(*v)),
{
    serde_json::to_string(v).unwrap_or_default()
}

/// The `Debug` form of a `serde_json::Value`: its kind and what it holds.
#[verifier::external_body]
fn show_value(v: &serde_json::Value) -> (r: String)
    ensures
        r@ == shown_form(held(*v)),
{
    format!("{:?}", v)
}

fn build(j: &Json) -> (r: serde_json::Value)
    ensures
        held(r) == j@,
    decreases j,
{
    match j {
        Json::Null => assemble(Parts::Null),
        Json::Bool(b) => assemble(Parts::Bool(*b)),
        Json::Number(n) => assemble(Parts::Number(copy_number(n))),
        Json::Text(s) => assemble(Parts::Text(text::copy(s.as_str()))),
        Json::List(items) => {
            let mut out: Vec<serde_json::Value> = Vec::new();
            let mut i: usize = 0;
            proof {
                lemma_meanings(items@);
            }
            while i < items.len()
                invariant
                    i <= items.len(),
                    *j == Json::List(*items),
                    meanings(items@).len() == items@.len(),
                    forall|k: int| 0 <= k < items@.len() ==> #[trigger] meanings(items@)[k] == items@[k]@,
                    held_items(out@) == meanings(items@).subrange(0, i as int),
                decreases items.len() - i,
            {
                let ghost before = out@;
                assert(decreases_to!(*j => j->List_0));
                assert(decreases_to!(*items => items@));
                assert(decreases_to!(items@ => items@[i as int]));
                let x = build(&items[i]);
                out.push(x);
                i = i + 1;
                assert(held_items(out@) =~= held_items(before).push(held(x)));
                assert(held_items(out@) =~= meanings(items@).subrange(0, i as int));
            }
            assert(meanings(items@).subrange(0, items.len() as int) =~= meanings(items@));
            assemble(Parts::List(out))
        },
        Json::Object(items) => {
            let mut out: Vec<(String, serde_json::Value)> = Vec::new();
            let mut i: usize = 0;
            while i < items.len()
                invariant
                    i <= items.len(),
                    *j == Json::Object(*items),
                    held_members(out@) == members(items@.subrange(0, i as int)),
                decreases items.len() - i,
            {
                let ghost before = out@;
                assert(decreases_to!(*j => j->Object_0));
                assert(decreases_to!(*items => items@));
                assert(decreases_to!(items@ => items@[i as int]));
                assert(decreases_to!(items@[i as int] => items@[i as int].1));
                let x = build(&items[i].1);
                out.push((text::copy(items[i].0.as_str()), x));
                i = i + 1;
                assert(out@.drop_last() =~= before);
                assert(items@.subrange(0, i as int).drop_last() =~= items@.subrange(0, i - 1));
            }
            assert(items@.subrange(0, items.len() as int) =~= items@);
            assemble(Parts::Object(out))
        },
    }
}

/// Writes a value over several lines. What survives is read back as it was, with a line end behind it.
pub fn pretty(j: &Json) -> (r: String)
    ensures
        r@ == pretty_form(j@),
        survives(j@) ==> read(r@ + "\n"@) == Some(j@),
{
    write_pretty(&build(j))
}

/// Writes a value on one line.
pub fn compact(j: &Json) -> (r: String)
    ensures
        r@ == compact_form(j@),
{
    write_compact(&build(j))
}

/// A value as it is shown in a message.
pub fn shown(j: &Json) -> (r: String)
    ensures
        r@ == shown_form(j@),
{
    show_value(&build(j))
}

/// The same value again.
pub fn copy(j: &Json) -> (r: Json)
    ensures
        r@ == j@,
{
    settle(&build(j))
}

} // verus!
