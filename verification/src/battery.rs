//! Batteries of cases: which cases there are, which of them share one source, and where their
//! results go.

use crate::analyse::cargo_toml;
use crate::analyse::metrics;
use crate::bytes;
use crate::json;
use crate::json::Json;
use crate::paths;
use crate::patterns;
use crate::program;
use crate::store;
use crate::text;
use crate::toml;
use vstd::prelude::*;
use vstd::relations::*;
use vstd::seq_lib::*;
use vstd::string::*;

verus! {

// ---------------------------------------------------------------------------
// Cases
// ---------------------------------------------------------------------------

/// A case that is translated and verified on its own.
#[derive(Debug, Clone)]
pub struct IndependentCase {
    pub name: String,
    pub is_lib: bool,
}

/// A configuration within a group of cases that share one source.
#[derive(Debug, Clone)]
pub struct Config {
    pub name: String,
    pub features: Vec<String>,
    pub is_lib: bool,
    pub lib_name: Option<String>,
}

/// Cases that share one C source and differ by CMake features.
#[derive(Debug, Clone)]
pub struct SharedSourceGroup {
    pub real_case: String,
    pub configs: Vec<Config>,
}

/// A case, or the cases that share its source.
#[derive(Debug, Clone)]
pub enum Case {
    Independent(IndependentCase),
    SharedSource(SharedSourceGroup),
}

/// A battery with all its cases.
#[derive(Debug)]
pub struct Battery {
    pub name: String,
    pub cases: Vec<Case>,
}

/// What a `Config` says.
pub struct ConfigView {
    pub name: Seq<char>,
    pub features: Seq<Seq<char>>,
    pub is_lib: bool,
    pub lib_name: Option<Seq<char>>,
}

/// What a `Case` says.
pub enum CaseView {
    Independent { name: Seq<char>, is_lib: bool },
    SharedSource { real_case: Seq<char>, configs: Seq<ConfigView> },
}

/// The view of an optional string.
pub open spec fn maybe(s: Option<String>) -> Option<Seq<char>> {
    match s {
        Some(t) => Some(t@),
        None => None,
    }
}

impl View for Config {
    type V = ConfigView;

    open spec fn view(&self) -> ConfigView {
        ConfigView {
            name: self.name@,
            features: text::views(self.features@),
            is_lib: self.is_lib,
            lib_name: maybe(self.lib_name),
        }
    }
}

/// The views of configurations.
pub open spec fn config_views(s: Seq<Config>) -> Seq<ConfigView> {
    s.map_values(|c: Config| c@)
}

impl View for Case {
    type V = CaseView;

    open spec fn view(&self) -> CaseView {
        match *self {
            Case::Independent(c) => CaseView::Independent { name: c.name@, is_lib: c.is_lib },
            Case::SharedSource(g) => CaseView::SharedSource {
                real_case: g.real_case@,
                configs: config_views(g.configs@),
            },
        }
    }
}

/// The views of cases.
pub open spec fn case_views(s: Seq<Case>) -> Seq<CaseView> {
    s.map_values(|c: Case| c@)
}

impl View for Battery {
    type V = (Seq<char>, Seq<CaseView>);

    open spec fn view(&self) -> (Seq<char>, Seq<CaseView>) {
        (self.name@, case_views(self.cases@))
    }
}

/// The names of a case: its own, or that of the real case and then those of its configurations.
pub open spec fn names_of(c: CaseView) -> Seq<Seq<char>> {
    match c {
        CaseView::Independent { name, is_lib: _ } => seq![name],
        CaseView::SharedSource { real_case, configs } => seq![real_case] + configs.map_values(
            |f: ConfigView| f.name,
        ),
    }
}

/// The names of all cases, in their order.
pub open spec fn names_of_all(s: Seq<CaseView>) -> Seq<Seq<char>>
    decreases s.len(),
{
    if s.len() == 0 {
        Seq::empty()
    } else {
        names_of_all(s.drop_last()) + names_of(s.last())
    }
}

/// The names of all cases of a battery, as a flat list.
pub fn all_case_names(battery: &Battery) -> (r: Vec<String>)
    ensures
        text::views(r@) == names_of_all(battery@.1),
{
    let mut names: Vec<String> = Vec::new();
    let ghost all = case_views(battery.cases@);
    let mut i: usize = 0;
    assert(text::views(names@) =~= names_of_all(all.subrange(0, 0)));
    while i < battery.cases.len()
        invariant
            i <= battery.cases.len(),
            all == case_views(battery.cases@),
            text::views(names@) == names_of_all(all.subrange(0, i as int)),
        decreases battery.cases.len() - i,
    {
        broadcast use text::lemma_views_push;

        let ghost before = text::views(names@);
        assert(all.subrange(0, i + 1).drop_last() =~= all.subrange(0, i as int));
        assert(all.subrange(0, i + 1).last() == battery.cases@[i as int]@);
        match &battery.cases[i] {
            Case::Independent(c) => {
                names.push(text::copy(c.name.as_str()));
                assert(text::views(names@) =~= before + seq![c.name@]);
            },
            Case::SharedSource(g) => {
                names.push(text::copy(g.real_case.as_str()));
                let ghost fs = config_views(g.configs@).map_values(|f: ConfigView| f.name);
                let mut j: usize = 0;
                assert(text::views(names@) =~= before + (seq![g.real_case@] + fs.subrange(0, 0)));
                while j < g.configs.len()
                    invariant
                        j <= g.configs.len(),
                        fs == config_views(g.configs@).map_values(|f: ConfigView| f.name),
                        text::views(names@) == before + (seq![g.real_case@] + fs.subrange(
                            0,
                            j as int,
                        )),
                    decreases g.configs.len() - j,
                {
                    broadcast use text::lemma_views_push;

                    names.push(text::copy(g.configs[j].name.as_str()));
                    j = j + 1;
                    assert(fs[j - 1] == g.configs@[j - 1].name@);
                    assert(text::views(names@) =~= before + (seq![g.real_case@] + fs.subrange(
                        0,
                        j as int,
                    )));
                }
                assert(fs.subrange(0, g.configs.len() as int) =~= fs);
            },
        }
        i = i + 1;
    }
    assert(all.subrange(0, battery.cases.len() as int) =~= all);
    names
}

// ---------------------------------------------------------------------------
// Features and library names
// ---------------------------------------------------------------------------

/// The cache variables of the second configure preset.
pub open spec fn cache_variables(data: json::JsonView) -> Option<json::JsonView> {
    let preset = match json::member(data, "configurePresets"@) {
        Some(json::JsonView::List(s)) => json::item(json::JsonView::List(s), 1),
        Some(json::JsonView::Object(m)) => json::member(json::JsonView::Object(m), "1"@),
        _ => None,
    };
    match preset {
        Some(p) => match json::member(p, "cacheVariables"@) {
            Some(json::JsonView::Object(m)) => Some(json::JsonView::Object(m)),
            _ => None,
        },
        None => None,
    }
}

/// The value of a cache variable as a feature: its text in lower case, where there is one.
pub open spec fn feature_under(cv: json::JsonView, key: Seq<char>) -> Seq<Seq<char>> {
    match json::text_in(json::member(cv, key)) {
        Some(s) => if text::lowercase_form(s).len() > 0 {
            seq![text::lowercase_form(s)]
        } else {
            Seq::empty()
        },
        None => Seq::empty(),
    }
}

/// The features that the presets of a case select.
pub open spec fn preset_features(data: json::JsonView) -> Seq<Seq<char>> {
    match cache_variables(data) {
        Some(cv) => feature_under(cv, "HASH_BACKEND"@) + feature_under(cv, "THASH"@)
            + feature_under(cv, "SECPAR"@),
        None => Seq::empty(),
    }
}

fn cached<'a>(data: &'a Json) -> (r: Option<&'a Json>)
    ensures
        r is Some <==> cache_variables(data@) is Some,
        r matches Some(j) ==> cache_variables(data@) == Some(j@),
{
    let presets = match data.get("configurePresets") {
        Some(p) => p,
        None => {
            return None;
        },
    };
    let preset = match presets {
        Json::List(_) => presets.at(1),
        Json::Object(_) => presets.get("1"),
        _ => None,
    };
    match preset {
        Some(p) => match p.get("cacheVariables") {
            Some(c) => match c {
                Json::Object(_) => Some(c),
                _ => None,
            },
            None => None,
        },
        None => None,
    }
}

fn push_feature(out: &mut Vec<String>, cv: &Json, key: &str)
    ensures
        text::views(final(out)@) == text::views(old(out)@) + feature_under(cv@, key@),
{
    broadcast use text::lemma_views_push;

    if let Some(j) = cv.get(key) {
        if let Some(s) = j.as_str() {
            let lower = text::to_lowercase(s);
            if !lower.as_str().is_empty() {
                let ghost before = text::views(out@);
                let ghost form = lower@;
                out.push(lower);
                assert(text::views(out@) =~= before + seq![form]);
                return;
            }
        }
    }
    assert(text::views(out@) =~= text::views(out@) + Seq::<Seq<char>>::empty());
}

/// The features that parsed presets select.
pub fn features_of(data: &Json) -> (r: Vec<String>)
    ensures
        text::views(r@) == preset_features(data@),
{
    let mut out: Vec<String> = Vec::new();
    assert(text::views(out@) =~= Seq::<Seq<char>>::empty());
    if let Some(cv) = cached(data) {
        push_feature(&mut out, cv, "HASH_BACKEND");
        push_feature(&mut out, cv, "THASH");
        push_feature(&mut out, cv, "SECPAR");
        assert(text::views(out@) =~= preset_features(data@));
    }
    out
}

/// The features that the text of a `CMakePresets.json` selects: none where there is no such file.
pub fn extract_features_from_path(presets: Option<&str>) -> (r: Result<Vec<String>, String>)
    ensures
        r is Err <==> (presets matches Some(t) && json::read(t@) is None),
        r matches Ok(v) ==> text::views(v@) == (match presets {
            Some(t) => preset_features(json::read(t@)->0),
            None => Seq::empty(),
        }),
        r matches Err(e) ==> e@ == "parsing CMakePresets.json"@,
{
    match presets {
        None => {
            let v: Vec<String> = Vec::new();
            assert(text::views(v@) =~= Seq::<Seq<char>>::empty());
            Ok(v)
        },
        Some(t) => match json::parse(t) {
            Some(j) => Ok(features_of(&j)),
            None => Err(text::copy("parsing CMakePresets.json")),
        },
    }
}

/// How the runner of a case names the library it loads.
pub const LIBRARY_PATTERN: &'static str = "library:\\s*\"([^\"]+)\"";

/// What the first match of a pattern names: its group of number one.
pub open spec fn named_first(found: Option<Seq<Seq<Option<Seq<char>>>>>) -> Option<Seq<char>> {
    match found {
        Some(all) => if all.len() > 0 {
            patterns::numbered(all[0], 1)
        } else {
            None
        },
        None => None,
    }
}

/// The library name in the source of a runner.
pub open spec fn library_named(runner: Option<String>) -> Option<Seq<char>> {
    match runner {
        Some(t) => named_first(patterns::groups_in(LIBRARY_PATTERN@, t@)),
        None => None,
    }
}

/// What the first of some matches names.
pub fn first_named(found: &Option<Vec<Vec<Option<String>>>>) -> (r: Option<String>)
    ensures
        store::maybe(r) == named_first(
            match *found {
                Some(v) => Some(patterns::match_views(v@)),
                None => None,
            },
        ),
{
    match found {
        Some(v) => {
            let ghost all = patterns::match_views(v@);
            assert(all.len() == v@.len());
            if v.len() > 0 {
                assert(all[0] == patterns::group_views(v@[0]@));
                patterns::group_at(&v[0], 1)
            } else {
                None
            }
        },
        None => None,
    }
}

/// The library name in the source of a case's runner, where the case has one.
pub fn extract_lib_name(runner_main: &Option<String>) -> (r: Option<String>)
    ensures
        r is Some <==> library_named(*runner_main) is Some,
        r matches Some(s) ==> library_named(*runner_main) == Some(s@),
{
    match runner_main {
        Some(t) => first_named(&patterns::groups(LIBRARY_PATTERN, t.as_str())),
        None => None,
    }
}

/// A feature that the crate defines stays; another becomes the composite of the first feature and
/// itself, where the crate defines that; else it is dropped.
pub open spec fn resolved_one(
    defined: Seq<Seq<char>>,
    first: Seq<char>,
    feature: Seq<char>,
) -> Seq<Seq<char>> {
    let composite = "sphincs-"@ + first + "-"@ + feature;
    if defined.contains(feature) {
        seq![feature]
    } else if defined.contains(composite) {
        seq![composite]
    } else {
        Seq::empty()
    }
}

/// The features, each resolved.
pub open spec fn resolved_all(
    defined: Seq<Seq<char>>,
    first: Seq<char>,
    features: Seq<Seq<char>>,
) -> Seq<Seq<char>>
    decreases features.len(),
{
    if features.len() == 0 {
        Seq::empty()
    } else {
        resolved_all(defined, first, features.drop_last()) + resolved_one(
            defined,
            first,
            features.last(),
        )
    }
}

/// The first of some texts, or nothing.
pub open spec fn first_of(s: Seq<Seq<char>>) -> Seq<char> {
    if s.len() > 0 {
        s[0]
    } else {
        ""@
    }
}

/// Whether a list holds a text.
pub fn holds(list: &[String], s: &str) -> (r: bool)
    ensures
        r == text::views(list@).contains(s@),
{
    let mut i: usize = 0;
    while i < list.len()
        invariant
            i <= list.len(),
            forall|j: int| 0 <= j < i ==> text::views(list@)[j] != s@,
        decreases list.len() - i,
    {
        if text::same_text(list[i].as_str(), s) {
            assert(text::views(list@)[i as int] == s@);
            return true;
        }
        i = i + 1;
    }
    false
}

/// The features that a crate with the given ones defined is to be built with.
pub fn resolve_against(defined: &[String], raw_features: &[String]) -> (r: Vec<String>)
    ensures
        text::views(r@) == resolved_all(
            text::views(defined@),
            first_of(text::views(raw_features@)),
            text::views(raw_features@),
        ),
{
    let ghost d = text::views(defined@);
    let ghost all = text::views(raw_features@);
    let first = if raw_features.len() > 0 {
        text::copy(raw_features[0].as_str())
    } else {
        text::copy("")
    };
    assert(first@ == first_of(all));
    let mut out: Vec<String> = Vec::new();
    let mut i: usize = 0;
    assert(text::views(out@) =~= resolved_all(d, first@, all.subrange(0, 0)));
    while i < raw_features.len()
        invariant
            i <= raw_features.len(),
            d == text::views(defined@),
            all == text::views(raw_features@),
            first@ == first_of(all),
            text::views(out@) == resolved_all(d, first@, all.subrange(0, i as int)),
        decreases raw_features.len() - i,
    {
        broadcast use text::lemma_views_push;

        let ghost before = text::views(out@);
        assert(all.subrange(0, i + 1).drop_last() =~= all.subrange(0, i as int));
        assert(all.subrange(0, i + 1).last() == raw_features@[i as int]@);
        let feature = raw_features[i].as_str();
        let mut composite = text::join3("sphincs-", first.as_str(), "-");
        composite.append(feature);
        if holds(defined, feature) {
            out.push(text::copy(feature));
            assert(text::views(out@) =~= before + seq![feature@]);
        } else if holds(defined, composite.as_str()) {
            let ghost c = composite@;
            out.push(composite);
            assert(text::views(out@) =~= before + seq![c]);
        } else {
            assert(before =~= before + Seq::<Seq<char>>::empty());
        }
        i = i + 1;
    }
    assert(all.subrange(0, raw_features.len() as int) =~= all);
    out
}

/// Resolves features against those that the text of a `Cargo.toml` defines.
pub fn resolve_features(cargo_toml: &str, raw_features: &[String]) -> (r: Result<
    Vec<String>,
    String,
>)
    ensures
        r is Ok <==> toml::read(cargo_toml@) is Some,
        r matches Ok(v) ==> text::views(v@) == resolved_all(
            cargo_toml::features_in(toml::read(cargo_toml@)->0),
            first_of(text::views(raw_features@)),
            text::views(raw_features@),
        ),
        r matches Err(e) ==> e@ == "parsing Cargo.toml"@,
{
    match cargo_toml::CargoToml::open("Cargo.toml", cargo_toml) {
        Ok(m) => {
            let defined = m.defined_features();
            Ok(resolve_against(defined.as_slice(), raw_features))
        },
        Err(_) => Err(text::copy("parsing Cargo.toml")),
    }
}

// ---------------------------------------------------------------------------
// Discovery
// ---------------------------------------------------------------------------

/// Where the source of a case stands.
#[derive(Debug, Clone)]
pub enum Link {
    /// In the case's own directory.
    Own,
    /// Behind a link that leads nowhere.
    Broken,
    /// Behind a link to this path.
    To(String),
}

/// A directory of a battery, as it was found.
#[derive(Debug, Clone)]
pub struct CaseEntry {
    /// The name as the directory has it, by which the entries are ordered.
    pub file_name: Vec<u8>,
    /// The name as a text. Where names are no text, two entries can have one.
    pub name: String,
    /// It has a `test_case`, its own or behind a link.
    pub has_case: bool,
    /// It has a directory `test_vectors`.
    pub has_vectors: bool,
    pub link: Link,
    /// The text of the `CMakePresets.json` under its name.
    pub presets: Option<String>,
    /// The text of the `runner/src/main.rs` under its name.
    pub runner_main: Option<String>,
}

/// The filter lets the name through.
pub open spec fn passes(filter: Option<Seq<char>>, name: Seq<char>) -> bool {
    match filter {
        Some(f) => patterns::matching(f, name) == Some(true),
        None => true,
    }
}

/// The entry is a case that is asked for.
pub open spec fn counts(e: CaseEntry, filter: Option<Seq<char>>) -> bool {
    e.has_case && e.has_vectors && passes(filter, e.name@)
}

/// The first entry with a name.
pub open spec fn position(entries: Seq<CaseEntry>, name: Seq<char>) -> Option<int>
    decreases entries.len(),
{
    if entries.len() == 0 {
        None
    } else {
        match position(entries.drop_last(), name) {
            Some(i) => Some(i),
            None => if entries.last().name@ == name {
                Some(entries.len() - 1)
            } else {
                None
            },
        }
    }
}

/// One entry is listed no later than another: by their names as the directory has them.
pub open spec fn listing_order(entries: Seq<CaseEntry>) -> spec_fn(int, int) -> bool {
    |i: int, j: int|
        if entries[i].file_name@ == entries[j].file_name@ {
            i <= j
        } else {
            bytes::precedes(entries[i].file_name@, entries[j].file_name@)
        }
}

/// The entries, by their places, in the order in which they are listed.
pub open spec fn listed(entries: Seq<CaseEntry>) -> Seq<int> {
    Seq::new(entries.len(), |i: int| i).sort_by(listing_order(entries))
}

/// The entries that count, in the given order.
pub open spec fn selected(
    order: Seq<int>,
    entries: Seq<CaseEntry>,
    filter: Option<Seq<char>>,
) -> Seq<int>
    decreases order.len(),
{
    if order.len() == 0 {
        Seq::empty()
    } else if counts(entries[order.last()], filter) {
        selected(order.drop_last(), entries, filter).push(order.last())
    } else {
        selected(order.drop_last(), entries, filter)
    }
}

/// The cases that are asked for, in the order in which they are listed.
pub open spec fn chosen(entries: Seq<CaseEntry>, filter: Option<Seq<char>>) -> Seq<int> {
    selected(listed(entries), entries, filter)
}

/// The case whose source this one shares.
pub open spec fn real_of(e: CaseEntry) -> Option<Seq<char>> {
    match e.link {
        Link::To(p) => paths::holder_in(p@),
        _ => None,
    }
}

/// What is wrong with a link.
pub open spec fn link_fault(e: CaseEntry) -> Option<Seq<char>> {
    match e.link {
        Link::Own => None,
        Link::Broken => Some("resolving symlink for "@ + e.name@),
        Link::To(p) => if paths::holder_in(p@) is None {
            Some("extracting real case name from "@ + p@)
        } else {
            None
        },
    }
}

/// The first fault among the chosen cases.
pub open spec fn first_fault(at: Seq<int>, entries: Seq<CaseEntry>) -> Option<Seq<char>>
    decreases at.len(),
{
    if at.len() == 0 {
        None
    } else {
        match first_fault(at.drop_last(), entries) {
            Some(f) => Some(f),
            None => link_fault(entries[at.last()]),
        }
    }
}

/// A case whose name ends in `_lib` is a library.
pub open spec fn named_lib(name: Seq<char>) -> bool {
    text::ends(name, "_lib"@)
}

/// The configuration that an entry describes.
pub open spec fn config_of(e: CaseEntry) -> ConfigView {
    ConfigView {
        name: e.name@,
        features: match e.presets {
            Some(t) => match json::read(t@) {
                Some(j) => preset_features(j),
                None => Seq::empty(),
            },
            None => Seq::empty(),
        },
        is_lib: named_lib(e.name@),
        lib_name: library_named(e.runner_main),
    }
}

/// The entry behind a link that a name stands for: the last of the chosen ones that has it.
pub open spec fn linked_as(at: Seq<int>, entries: Seq<CaseEntry>, name: Seq<char>) -> Option<int>
    decreases at.len(),
{
    if at.len() == 0 {
        None
    } else if entries[at.last()].name@ == name && !(entries[at.last()].link is Own) {
        Some(at.last())
    } else {
        linked_as(at.drop_last(), entries, name)
    }
}

/// The names, among the first of the chosen cases, that stand behind a link to the source of `name`.
pub open spec fn sharers(
    first: Seq<int>,
    at: Seq<int>,
    entries: Seq<CaseEntry>,
    name: Seq<char>,
) -> Seq<Seq<char>>
    decreases first.len(),
{
    if first.len() == 0 {
        Seq::empty()
    } else {
        let before = sharers(first.drop_last(), at, entries, name);
        let e = entries[first.last()];
        if linked_as(at, entries, e.name@) == Some(first.last()) && real_of(e) == Some(name) {
            before.push(e.name@)
        } else {
            before
        }
    }
}

/// The configurations, among the chosen cases, that share the source of `name`, in the order of their
/// names.
pub open spec fn sharing(at: Seq<int>, entries: Seq<CaseEntry>, name: Seq<char>) -> Seq<ConfigView> {
    text::in_order(sharers(at, at, entries, name)).map_values(
        |n: Seq<char>| config_of(entries[linked_as(at, entries, n)->0]),
    )
}

/// The case that a name with a source of its own makes.
pub open spec fn case_at(at: Seq<int>, entries: Seq<CaseEntry>, name: Seq<char>) -> CaseView {
    let configs = sharing(at, entries, name);
    if configs.len() > 0 {
        CaseView::SharedSource { real_case: name, configs }
    } else {
        CaseView::Independent { name, is_lib: named_lib(name) }
    }
}

/// One of the entries has the name.
pub open spec fn named_in(at: Seq<int>, entries: Seq<CaseEntry>, name: Seq<char>) -> bool {
    exists|k: int| 0 <= k < at.len() && entries[#[trigger] at[k]].name@ == name
}

/// The cases that the first of the chosen entries make: one for each name. One behind a link stands in
/// the group of the case whose source it shares.
pub open spec fn grouped(
    first: Seq<int>,
    at: Seq<int>,
    entries: Seq<CaseEntry>,
) -> Seq<CaseView>
    decreases first.len(),
{
    if first.len() == 0 {
        Seq::empty()
    } else {
        let before = grouped(first.drop_last(), at, entries);
        let name = entries[first.last()].name@;
        if linked_as(at, entries, name) is None && !named_in(first.drop_last(), entries, name) {
            before.push(case_at(at, entries, name))
        } else {
            before
        }
    }
}

/// The cases of a battery.
pub open spec fn cases_in(entries: Seq<CaseEntry>, filter: Option<Seq<char>>) -> Seq<CaseView> {
    grouped(chosen(entries, filter), chosen(entries, filter), entries)
}

/// The view of an optional text.
pub open spec fn maybe_str(s: Option<&str>) -> Option<Seq<char>> {
    match s {
        Some(t) => Some(t@),
        None => None,
    }
}

/// The place of the first entry with a name.
pub fn place_of(entries: &[CaseEntry], name: &str) -> (r: Option<usize>)
    ensures
        r is Some <==> position(entries@, name@) is Some,
        r matches Some(i) ==> i < entries.len() && position(entries@, name@) == Some(i as int),
{
    let mut i: usize = 0;
    while i < entries.len()
        invariant
            i <= entries.len(),
            position(entries@.subrange(0, i as int), name@) is None,
        decreases entries.len() - i,
    {
        assert(entries@.subrange(0, i + 1).drop_last() =~= entries@.subrange(0, i as int));
        if text::same_text(entries[i].name.as_str(), name) {
            proof {
                lemma_position_extends(entries@, name@, i + 1);
            }
            return Some(i);
        }
        i = i + 1;
    }
    assert(entries@.subrange(0, entries.len() as int) =~= entries@);
    None
}

proof fn lemma_position_extends(entries: Seq<CaseEntry>, name: Seq<char>, n: int)
    requires
        0 <= n <= entries.len(),
        position(entries.subrange(0, n), name) is Some,
    ensures
        position(entries, name) == position(entries.subrange(0, n), name),
    decreases entries.len() - n,
{
    if n == entries.len() {
        assert(entries.subrange(0, n) =~= entries);
    } else {
        assert(entries.subrange(0, n + 1).drop_last() =~= entries.subrange(0, n));
        lemma_position_extends(entries, name, n + 1);
    }
}

/// The places as mathematical integers.
pub open spec fn places(v: Seq<usize>) -> Seq<int> {
    v.map_values(|i: usize| i as int)
}

/// The order in which entries are listed is total.
proof fn lemma_listing_order_total(entries: Seq<CaseEntry>)
    ensures
        total_ordering(listing_order(entries)),
{
    let r = listing_order(entries);
    let b = bytes::byte_order();
    bytes::lemma_byte_order_total();
    assert forall|i: int, j: int| #[trigger] r(i, j) && #[trigger] r(j, i) implies i == j by {
        let (x, y) = (entries[i].file_name@, entries[j].file_name@);
        assert(b(x, y) || b(y, x));
    }
    assert forall|i: int, j: int| #[trigger] r(i, j) || #[trigger] r(j, i) by {
        let (x, y) = (entries[i].file_name@, entries[j].file_name@);
        if x != y {
            assert(!(b(x, y) && b(y, x)));
        }
    }
    assert forall|i: int, j: int, k: int| #[trigger] r(i, j) && #[trigger] r(j, k) implies r(
        i,
        k,
    ) by {
        let (x, y, z) = (entries[i].file_name@, entries[j].file_name@, entries[k].file_name@);
        assert(b(x, y) || b(y, x));
        assert(b(y, z) || b(z, y));
        assert(b(x, z) || b(z, x));
        if x != y {
            assert(!(b(x, y) && b(y, x)));
        }
        if y != z {
            assert(!(b(y, z) && b(z, y)));
        }
        if x != z {
            assert(!(b(x, z) && b(z, x)));
        }
        assert(b(x, y) && b(y, z));
        assert(b(x, z));
    }
}

fn list_places(entries: &[CaseEntry]) -> (r: Vec<usize>)
    ensures
        places(r@) == listed(entries@),
        forall|k: int| 0 <= k < r@.len() ==> r@[k] < entries.len(),
{
    let ghost n = Seq::new(entries@.len(), |i: int| i);
    let ghost r = listing_order(entries@);
    let mut out: Vec<usize> = Vec::new();
    let mut i: usize = 0;
    assert(places(out@) =~= n.subrange(0, 0));
    while i < entries.len()
        invariant
            i <= entries.len(),
            out.len() == i,
            n == Seq::new(entries@.len(), |i: int| i),
            r == listing_order(entries@),
            forall|k: int| 0 <= k < out@.len() ==> #[trigger] out@[k] < i,
            sorted_by(places(out@), r),
            places(out@).to_multiset() == n.subrange(0, i as int).to_multiset(),
        decreases entries.len() - i,
    {
        let ghost before = out@;
        let mut at: usize = out.len();
        while at > 0 && bytes::less(&entries[i].file_name, &entries[out[at - 1]].file_name)
            invariant
                at <= out.len(),
                i < entries.len(),
                out@ == before,
                forall|k: int| 0 <= k < out@.len() ==> #[trigger] out@[k] < i,
                forall|k: int|
                    at <= k < out.len() ==> bytes::precedes(
                        entries@[i as int].file_name@,
                        entries@[#[trigger] out@[k] as int].file_name@,
                    ),
            decreases at,
        {
            at = at - 1;
        }
        out.insert(at, i);
        proof {
            lemma_listing_order_total(entries@);
            bytes::lemma_byte_order_total();
            let o = bytes::byte_order();
            let x = i as int;
            let a = places(before);
            let b = places(out@);
            assert(b =~= a.insert(at as int, x));
            assert forall|p: int, q: int| 0 <= p < q < b.len() implies #[trigger] r(b[p], b[q]) by {
                if q < at {
                    assert(r(a[p], a[q]));
                } else if q == at {
                    let (u, v) = (entries@[a[at - 1]].file_name@, entries@[x].file_name@);
                    assert(a[at - 1] == before[at - 1] as int);
                    assert(!bytes::precedes(v, u));
                    assert(o(u, v));
                    if u != v {
                        assert(!o(v, u));
                    }
                    assert(r(a[at - 1], x));
                    if p < at - 1 {
                        assert(r(a[p], a[at - 1]));
                    }
                } else if p < at {
                    assert(r(a[p], a[q - 1]));
                } else if p == at {
                    assert(a[q - 1] == before[q - 1] as int);
                    let (u, v) = (entries@[x].file_name@, entries@[a[q - 1]].file_name@);
                    assert(bytes::precedes(u, v));
                    assert(!o(v, u));
                    assert(o(u, u));
                    assert(u != v);
                } else {
                    assert(r(a[p - 1], a[q - 1]));
                }
            }
            assert(n.subrange(0, i + 1) =~= n.subrange(0, i as int).push(x));
            a.to_multiset_ensures();
            to_multiset_insert(a, at as int, x);
            n.subrange(0, i as int).to_multiset_ensures();
        }
        i = i + 1;
    }
    proof {
        assert(n.subrange(0, entries.len() as int) =~= n);
        lemma_listing_order_total(entries@);
        n.lemma_sort_by_ensures(r);
        lemma_sorted_unique(places(out@), listed(entries@), r);
    }
    out
}

fn choose_cases(entries: &[CaseEntry], filter: Option<&str>) -> (r: Vec<usize>)
    ensures
        places(r@) == chosen(entries@, maybe_str(filter)),
        forall|k: int| 0 <= k < r@.len() ==> r@[k] < entries.len(),
{
    let order = list_places(entries);
    let ghost o = listed(entries@);
    let ghost f = maybe_str(filter);
    let mut out: Vec<usize> = Vec::new();
    let mut i: usize = 0;
    assert(places(out@) =~= selected(o.subrange(0, 0), entries@, f));
    while i < order.len()
        invariant
            i <= order.len(),
            places(order@) == o,
            f == maybe_str(filter),
            forall|k: int| 0 <= k < order@.len() ==> order@[k] < entries.len(),
            places(out@) == selected(o.subrange(0, i as int), entries@, f),
            forall|k: int| 0 <= k < out@.len() ==> out@[k] < entries.len(),
        decreases order.len() - i,
    {
        let ghost before = out@;
        let p = order[i];
        assert(o.subrange(0, i + 1).drop_last() =~= o.subrange(0, i as int));
        assert(o.subrange(0, i + 1).last() == p as int);
        let through = match filter {
            Some(pattern) => match patterns::is_match(pattern, entries[p].name.as_str()) {
                Some(b) => b,
                None => false,
            },
            None => true,
        };
        if entries[p].has_case && entries[p].has_vectors && through {
            out.push(p);
            assert(places(out@) =~= places(before).push(p as int));
        }
        i = i + 1;
    }
    assert(o.subrange(0, order.len() as int) =~= o);
    out
}

fn fault_of(e: &CaseEntry) -> (r: Option<String>)
    ensures
        r is Some <==> link_fault(*e) is Some,
        r matches Some(s) ==> link_fault(*e) == Some(s@),
{
    match &e.link {
        Link::Own => None,
        Link::Broken => Some(text::join2("resolving symlink for ", e.name.as_str())),
        Link::To(p) => match paths::holder_name(p.as_str()) {
            Some(_) => None,
            None => Some(text::join2("extracting real case name from ", p.as_str())),
        },
    }
}

/// The configuration that an entry describes.
pub fn build_config(e: &CaseEntry) -> (r: Config)
    ensures
        r@ == config_of(*e),
{
    let name = text::chars_of(e.name.as_str());
    let features = match &e.presets {
        Some(t) => match json::parse(t.as_str()) {
            Some(j) => features_of(&j),
            None => Vec::new(),
        },
        None => Vec::new(),
    };
    let c = Config {
        name: text::copy(e.name.as_str()),
        features,
        is_lib: text::ends_with(&name, &text::chars_of("_lib")),
        lib_name: extract_lib_name(&e.runner_main),
    };
    assert(c@.features =~= config_of(*e).features);
    c
}

fn shares(e: &CaseEntry, name: &str) -> (r: bool)
    ensures
        r == (real_of(*e) == Some(name@)),
{
    match &e.link {
        Link::To(p) => match paths::holder_name(p.as_str()) {
            Some(h) => text::same_text(h.as_str(), name),
            None => false,
        },
        _ => false,
    }
}

fn find_linked(at: &[usize], entries: &[CaseEntry], name: &str) -> (r: Option<usize>)
    requires
        forall|k: int| 0 <= k < at@.len() ==> at@[k] < entries.len(),
    ensures
        r is Some <==> linked_as(places(at@), entries@, name@) is Some,
        r matches Some(p) ==> p < entries.len() && linked_as(places(at@), entries@, name@) == Some(
            p as int,
        ),
{
    let ghost all = places(at@);
    let mut n: usize = at.len();
    assert(all.subrange(0, n as int) =~= all);
    while n > 0
        invariant
            n <= at.len(),
            all == places(at@),
            forall|k: int| 0 <= k < at@.len() ==> at@[k] < entries.len(),
            linked_as(all, entries@, name@) == linked_as(
                all.subrange(0, n as int),
                entries@,
                name@,
            ),
        decreases n,
    {
        let p = at[n - 1];
        assert(all.subrange(0, n as int).drop_last() =~= all.subrange(0, n - 1));
        assert(all.subrange(0, n as int).last() == p as int);
        let behind = match entries[p].link {
            Link::Own => false,
            _ => true,
        };
        if behind && text::same_text(entries[p].name.as_str(), name) {
            return Some(p);
        }
        n = n - 1;
    }
    None
}

fn is_named(at: &[usize], n: usize, entries: &[CaseEntry], name: &str) -> (r: bool)
    requires
        n <= at.len(),
        forall|k: int| 0 <= k < at@.len() ==> at@[k] < entries.len(),
    ensures
        r == named_in(places(at@).subrange(0, n as int), entries@, name@),
{
    let ghost first = places(at@).subrange(0, n as int);
    let mut i: usize = 0;
    while i < n
        invariant
            i <= n <= at.len(),
            first == places(at@).subrange(0, n as int),
            forall|k: int| 0 <= k < at@.len() ==> at@[k] < entries.len(),
            forall|k: int| 0 <= k < i ==> entries@[#[trigger] first[k]].name@ != name@,
        decreases n - i,
    {
        assert(first[i as int] == at@[i as int] as int);
        if text::same_text(entries[at[i]].name.as_str(), name) {
            return true;
        }
        i = i + 1;
    }
    false
}

fn find_sharers(at: &[usize], entries: &[CaseEntry], name: &str) -> (r: Vec<String>)
    requires
        forall|k: int| 0 <= k < at@.len() ==> at@[k] < entries.len(),
    ensures
        text::views(r@) == sharers(places(at@), places(at@), entries@, name@),
{
    let ghost all = places(at@);
    let mut out: Vec<String> = Vec::new();
    let mut i: usize = 0;
    assert(text::views(out@) =~= sharers(all.subrange(0, 0), all, entries@, name@));
    while i < at.len()
        invariant
            i <= at.len(),
            all == places(at@),
            forall|k: int| 0 <= k < at@.len() ==> at@[k] < entries.len(),
            text::views(out@) == sharers(all.subrange(0, i as int), all, entries@, name@),
        decreases at.len() - i,
    {
        broadcast use text::lemma_views_push;

        let p = at[i];
        assert(all.subrange(0, i + 1).drop_last() =~= all.subrange(0, i as int));
        assert(all.subrange(0, i + 1).last() == p as int);
        let e = &entries[p];
        let stands = match find_linked(at, entries, e.name.as_str()) {
            Some(q) => p == q,
            None => false,
        };
        if stands && shares(e, name) {
            out.push(text::copy(e.name.as_str()));
        }
        i = i + 1;
    }
    assert(all.subrange(0, at.len() as int) =~= all);
    out
}

/// Every name that shares a source stands for an entry behind a link.
proof fn lemma_sharers_are_linked(
    first: Seq<int>,
    at: Seq<int>,
    entries: Seq<CaseEntry>,
    name: Seq<char>,
    i: int,
)
    requires
        0 <= i < sharers(first, at, entries, name).len(),
    ensures
        linked_as(at, entries, sharers(first, at, entries, name)[i]) is Some,
    decreases first.len(),
{
    let before = sharers(first.drop_last(), at, entries, name);
    if i < before.len() {
        lemma_sharers_are_linked(first.drop_last(), at, entries, name, i);
    }
}

/// Sorting loses no name and makes none.
proof fn lemma_in_order_holds(s: Seq<Seq<char>>, x: Seq<char>)
    ensures
        text::in_order(s).contains(x) <==> s.contains(x),
        text::in_order(s).len() == s.len(),
{
    let t = text::in_order(s);
    text::lemma_text_order_total();
    s.lemma_sort_by_ensures(text::text_order());
    s.to_multiset_ensures();
    t.to_multiset_ensures();
    assert(s.to_multiset() == t.to_multiset());
    assert(s.contains(x) <==> s.to_multiset().count(x) > 0);
    assert(t.contains(x) <==> t.to_multiset().count(x) > 0);
}

fn configs_sharing(at: &[usize], entries: &[CaseEntry], name: &str) -> (r: Vec<Config>)
    requires
        forall|k: int| 0 <= k < at@.len() ==> at@[k] < entries.len(),
    ensures
        config_views(r@) == sharing(places(at@), entries@, name@),
{
    let ghost all = places(at@);
    let found = find_sharers(at, entries, name);
    let names = text::sort_texts(found.as_slice());
    let ghost n = text::views(names@);
    proof {
        assert forall|k: int| 0 <= k < n.len() implies linked_as(
            all,
            entries@,
            #[trigger] n[k],
        ) is Some by {
            let s = sharers(all, all, entries@, name@);
            lemma_in_order_holds(s, n[k]);
            assert(text::in_order(s).contains(n[k]));
            let i = choose|i: int| 0 <= i < s.len() && s[i] == n[k];
            lemma_sharers_are_linked(all, all, entries@, name@, i);
        }
    }
    let mut out: Vec<Config> = Vec::new();
    let mut i: usize = 0;
    while i < names.len()
        invariant
            i <= names.len(),
            all == places(at@),
            n == text::views(names@),
            forall|k: int| 0 <= k < at@.len() ==> at@[k] < entries.len(),
            forall|k: int| 0 <= k < n.len() ==> linked_as(all, entries@, #[trigger] n[k]) is Some,
            out@.len() == i,
            forall|k: int|
                0 <= k < i ==> (#[trigger] out@[k])@ == config_of(
                    entries@[linked_as(all, entries@, n[k])->0],
                ),
        decreases names.len() - i,
    {
        assert(n[i as int] == names@[i as int]@);
        if let Some(p) = find_linked(at, entries, names[i].as_str()) {
            out.push(build_config(&entries[p]));
        }
        i = i + 1;
    }
    assert(config_views(out@) =~= sharing(all, entries@, name@));
    out
}

/// Whether a filter is a regular expression.
pub open spec fn is_pattern(filter: Option<Seq<char>>) -> bool {
    filter matches Some(f) ==> patterns::matching(f, ""@) is Some
}

/// Why a battery has no cases to give.
#[derive(Debug)]
pub enum DiscoverError {
    /// There is no directory of that name.
    NoBattery(String),
    /// The filter is no regular expression.
    BadFilter(String),
    /// A link of a case leads nowhere, or to no case.
    BadLink(String),
}

/// Discovers the cases of a battery from the entries of its directory, in any order: which are
/// asked for, and which of them share one source. A name makes one case, whatever entries have it.
pub fn discover(
    input_dir: &str,
    is_dir: bool,
    battery_name: &str,
    entries: &[CaseEntry],
    filter: Option<&str>,
) -> (r: Result<Battery, DiscoverError>)
    ensures
        match r {
            Ok(b) => {
                &&& is_dir
                &&& is_pattern(maybe_str(filter))
                &&& first_fault(chosen(entries@, maybe_str(filter)), entries@) is None
                &&& b@ == (battery_name@, cases_in(entries@, maybe_str(filter)))
            },
            Err(DiscoverError::NoBattery(m)) => !is_dir && m@ == "Battery not found: "@
                + input_dir@,
            Err(DiscoverError::BadFilter(f)) => is_dir && !is_pattern(maybe_str(filter))
                && maybe_str(filter) == Some(f@),
            Err(DiscoverError::BadLink(m)) => {
                &&& is_dir
                &&& is_pattern(maybe_str(filter))
                &&& first_fault(chosen(entries@, maybe_str(filter)), entries@) == Some(m@)
            },
        },
{
    if !is_dir {
        return Err(DiscoverError::NoBattery(text::join2("Battery not found: ", input_dir)));
    }
    if let Some(f) = filter {
        if patterns::is_match(f, "").is_none() {
            return Err(DiscoverError::BadFilter(text::copy(f)));
        }
    }
    let at = choose_cases(entries, filter);
    let ghost all = chosen(entries@, maybe_str(filter));
    let mut n: usize = 0;
    while n < at.len()
        invariant
            n <= at.len(),
            is_dir,
            is_pattern(maybe_str(filter)),
            all == chosen(entries@, maybe_str(filter)),
            all == places(at@),
            forall|k: int| 0 <= k < at@.len() ==> at@[k] < entries.len(),
            first_fault(all.subrange(0, n as int), entries@) is None,
        decreases at.len() - n,
    {
        assert(all.subrange(0, n + 1).drop_last() =~= all.subrange(0, n as int));
        assert(all.subrange(0, n + 1).last() == at@[n as int] as int);
        if let Some(m) = fault_of(&entries[at[n]]) {
            proof {
                lemma_first_fault_extends(all, entries@, n + 1);
            }
            return Err(DiscoverError::BadLink(m));
        }
        n = n + 1;
    }
    assert(all.subrange(0, at.len() as int) =~= all);
    let mut cases: Vec<Case> = Vec::new();
    let mut i: usize = 0;
    assert(case_views(cases@) =~= grouped(all.subrange(0, 0), all, entries@));
    while i < at.len()
        invariant
            i <= at.len(),
            all == places(at@),
            forall|k: int| 0 <= k < at@.len() ==> at@[k] < entries.len(),
            case_views(cases@) == grouped(all.subrange(0, i as int), all, entries@),
        decreases at.len() - i,
    {
        let ghost before = case_views(cases@);
        assert(all.subrange(0, i + 1).drop_last() =~= all.subrange(0, i as int));
        assert(all.subrange(0, i + 1).last() == at@[i as int] as int);
        let e = &entries[at[i]];
        let linked = find_linked(at.as_slice(), entries, e.name.as_str()).is_some();
        let handled = is_named(at.as_slice(), i, entries, e.name.as_str());
        if !linked && !handled {
            let configs = configs_sharing(at.as_slice(), entries, e.name.as_str());
            assert(config_views(configs@).len() == configs@.len());
            let case = if configs.len() > 0 {
                Case::SharedSource(
                    SharedSourceGroup { real_case: text::copy(e.name.as_str()), configs },
                )
            } else {
                let name = text::chars_of(e.name.as_str());
                Case::Independent(
                    IndependentCase {
                        name: text::copy(e.name.as_str()),
                        is_lib: text::ends_with(&name, &text::chars_of("_lib")),
                    },
                )
            };
            let ghost v = case@;
            cases.push(case);
            assert(case_views(cases@) =~= before.push(v));
        }
        i = i + 1;
    }
    Ok(Battery { name: text::copy(battery_name), cases })
}

proof fn lemma_first_fault_extends(at: Seq<int>, entries: Seq<CaseEntry>, n: int)
    requires
        0 <= n <= at.len(),
        first_fault(at.subrange(0, n), entries) is Some,
    ensures
        first_fault(at, entries) == first_fault(at.subrange(0, n), entries),
    decreases at.len() - n,
{
    if n == at.len() {
        assert(at.subrange(0, n) =~= at);
    } else {
        assert(at.subrange(0, n + 1).drop_last() =~= at.subrange(0, n));
        lemma_first_fault_extends(at, entries, n + 1);
    }
}

// ---------------------------------------------------------------------------
// Laws of discovery
// ---------------------------------------------------------------------------

proof fn lemma_case_in_group(first: Seq<int>, at: Seq<int>, entries: Seq<CaseEntry>, name: Seq<char>)
    requires
        named_in(first, entries, name),
        linked_as(at, entries, name) is None,
    ensures
        exists|c: int|
            0 <= c < grouped(first, at, entries).len() && #[trigger] grouped(first, at, entries)[c]
                == case_at(at, entries, name),
    decreases first.len(),
{
    let before = grouped(first.drop_last(), at, entries);
    let now = grouped(first, at, entries);
    if named_in(first.drop_last(), entries, name) {
        lemma_case_in_group(first.drop_last(), at, entries, name);
        let c = choose|c: int|
            0 <= c < before.len() && #[trigger] before[c] == case_at(at, entries, name);
        assert(now[c] == before[c]);
    } else {
        let k = choose|k: int| 0 <= k < first.len() && entries[#[trigger] first[k]].name@ == name;
        if k < first.len() - 1 {
            assert(first.drop_last()[k] == first[k]);
        }
        assert(now[before.len() as int] == case_at(at, entries, name));
    }
}

proof fn lemma_name_in_all(s: Seq<CaseView>, c: int, name: Seq<char>)
    requires
        0 <= c < s.len(),
        names_of(s[c]).contains(name),
    ensures
        names_of_all(s).contains(name),
    decreases s.len(),
{
    let before = names_of_all(s.drop_last());
    let last = names_of(s.last());
    if c < s.len() - 1 {
        assert(s.drop_last()[c] == s[c]);
        lemma_name_in_all(s.drop_last(), c, name);
        let i = choose|i: int| 0 <= i < before.len() && before[i] == name;
        assert((before + last)[i] == name);
    } else {
        let i = choose|i: int| 0 <= i < last.len() && last[i] == name;
        assert((before + last)[before.len() + i] == name);
    }
}

proof fn lemma_sharers_hold(
    first: Seq<int>,
    at: Seq<int>,
    entries: Seq<CaseEntry>,
    name: Seq<char>,
    k: int,
)
    requires
        0 <= k < first.len(),
        linked_as(at, entries, entries[first[k]].name@) == Some(first[k]),
        real_of(entries[first[k]]) == Some(name),
    ensures
        sharers(first, at, entries, name).contains(entries[first[k]].name@),
    decreases first.len(),
{
    let before = sharers(first.drop_last(), at, entries, name);
    let now = sharers(first, at, entries, name);
    if k < first.len() - 1 {
        assert(first.drop_last()[k] == first[k]);
        lemma_sharers_hold(first.drop_last(), at, entries, name, k);
        let c = choose|c: int| 0 <= c < before.len() && before[c] == entries[first[k]].name@;
        assert(now[c] == before[c]);
    } else {
        assert(now[before.len() as int] == entries[first[k]].name@);
    }
}

proof fn lemma_linked_is_chosen(at: Seq<int>, entries: Seq<CaseEntry>, name: Seq<char>) -> (k: int)
    requires
        linked_as(at, entries, name) is Some,
    ensures
        0 <= k < at.len(),
        linked_as(at, entries, name) == Some(at[k]),
        entries[at[k]].name@ == name,
    decreases at.len(),
{
    if entries[at.last()].name@ == name && !(entries[at.last()].link is Own) {
        at.len() - 1
    } else {
        lemma_linked_is_chosen(at.drop_last(), entries, name)
    }
}

/// Every chosen name with a source of its own is among the names of the battery, whatever other
/// cases share a source.
pub proof fn law_a_case_with_its_own_source_is_never_lost(
    entries: Seq<CaseEntry>,
    filter: Option<Seq<char>>,
    name: Seq<char>,
)
    requires
        named_in(chosen(entries, filter), entries, name),
        linked_as(chosen(entries, filter), entries, name) is None,
    ensures
        names_of_all(cases_in(entries, filter)).contains(name),
{
    let at = chosen(entries, filter);
    lemma_case_in_group(at, at, entries, name);
    let all = cases_in(entries, filter);
    let c = choose|c: int| 0 <= c < all.len() && #[trigger] all[c] == case_at(at, entries, name);
    assert(names_of(all[c])[0] == name);
    lemma_name_in_all(all, c, name);
}

/// Every chosen name behind a link is among the names of the battery, in the group of the case whose
/// source it shares, where that case is chosen too and has its own source.
pub proof fn law_a_sharing_case_follows_its_real_case(
    entries: Seq<CaseEntry>,
    filter: Option<Seq<char>>,
    name: Seq<char>,
    host: Seq<char>,
)
    requires
        linked_as(chosen(entries, filter), entries, name) is Some,
        real_of(entries[linked_as(chosen(entries, filter), entries, name)->0]) == Some(host),
        named_in(chosen(entries, filter), entries, host),
        linked_as(chosen(entries, filter), entries, host) is None,
    ensures
        names_of_all(cases_in(entries, filter)).contains(name),
        exists|c: int|
            0 <= c < cases_in(entries, filter).len()
                && #[trigger] cases_in(entries, filter)[c] is SharedSource
                && cases_in(entries, filter)[c]->real_case == host && names_of(
                cases_in(entries, filter)[c],
            ).contains(name),
{
    let at = chosen(entries, filter);
    let all = cases_in(entries, filter);
    lemma_case_in_group(at, at, entries, host);
    let k = lemma_linked_is_chosen(at, entries, name);
    lemma_sharers_hold(at, at, entries, host, k);
    let s = sharers(at, at, entries, host);
    lemma_in_order_holds(s, name);
    let o = text::in_order(s);
    let f = choose|f: int| 0 <= f < o.len() && o[f] == name;
    let c = choose|c: int| 0 <= c < all.len() && #[trigger] all[c] == case_at(at, entries, host);
    let shared = sharing(at, entries, host);
    assert(shared[f] == config_of(entries[at[k]]));
    assert(all[c] is SharedSource);
    let names = names_of(all[c]);
    assert(names[f + 1] == name);
    lemma_name_in_all(all, c, name);
}

/// A case is independent only where no chosen case shares its source: cases with their own source
/// are never drawn into the group of another.
pub proof fn law_independent_cases_are_not_grouped(
    entries: Seq<CaseEntry>,
    filter: Option<Seq<char>>,
    name: Seq<char>,
)
    ensures
        case_at(chosen(entries, filter), entries, name) is Independent <==> sharing(
            chosen(entries, filter),
            entries,
            name,
        ).len() == 0,
{
}

/// The name that a case has itself.
pub open spec fn own_name(c: CaseView) -> Seq<char> {
    match c {
        CaseView::Independent { name, is_lib: _ } => name,
        CaseView::SharedSource { real_case, configs: _ } => real_case,
    }
}

proof fn lemma_a_case_stands_once(first: Seq<int>, at: Seq<int>, entries: Seq<CaseEntry>)
    ensures
        forall|c: int|
            0 <= c < grouped(first, at, entries).len() ==> named_in(
                first,
                entries,
                own_name(#[trigger] grouped(first, at, entries)[c]),
            ),
        forall|c: int, d: int|
            0 <= c < d < grouped(first, at, entries).len() ==> own_name(
                #[trigger] grouped(first, at, entries)[c],
            ) != own_name(#[trigger] grouped(first, at, entries)[d]),
    decreases first.len(),
{
    if first.len() > 0 {
        let rest = first.drop_last();
        let before = grouped(rest, at, entries);
        let now = grouped(first, at, entries);
        lemma_a_case_stands_once(rest, at, entries);
        assert forall|c: int| 0 <= c < now.len() implies named_in(
            first,
            entries,
            own_name(#[trigger] now[c]),
        ) by {
            if c < before.len() {
                assert(now[c] == before[c]);
                let k = choose|k: int|
                    0 <= k < rest.len() && entries[#[trigger] rest[k]].name@ == own_name(before[c]);
                assert(first[k] == rest[k]);
            } else {
                assert(own_name(now[c]) == entries[first[first.len() - 1]].name@);
            }
        }
        assert forall|c: int, d: int| 0 <= c < d < now.len() implies own_name(#[trigger] now[c])
            != own_name(#[trigger] now[d]) by {
            assert(now[c] == before[c]);
            if d < before.len() {
                assert(now[d] == before[d]);
            }
        }
    }
}

/// Each name makes one case at most, also where two entries have it.
pub proof fn law_a_case_stands_once(
    entries: Seq<CaseEntry>,
    filter: Option<Seq<char>>,
    c: int,
    d: int,
)
    requires
        0 <= c < d < cases_in(entries, filter).len(),
    ensures
        own_name(cases_in(entries, filter)[c]) != own_name(cases_in(entries, filter)[d]),
{
    lemma_a_case_stands_once(chosen(entries, filter), chosen(entries, filter), entries);
}

// ---------------------------------------------------------------------------
// The corpus directory
// ---------------------------------------------------------------------------

/// The names of the directories among these, in their order.
pub open spec fn directory_names(found: Seq<(String, bool)>) -> Seq<Seq<char>>
    decreases found.len(),
{
    if found.len() == 0 {
        Seq::empty()
    } else if found.last().1 {
        directory_names(found.drop_last()).push(found.last().0@)
    } else {
        directory_names(found.drop_last())
    }
}

fn directories(found: &[(String, bool)]) -> (r: Vec<String>)
    ensures
        text::views(r@) == directory_names(found@),
{
    let mut out: Vec<String> = Vec::new();
    let mut i: usize = 0;
    assert(text::views(out@) =~= directory_names(found@.subrange(0, 0)));
    while i < found.len()
        invariant
            i <= found.len(),
            text::views(out@) == directory_names(found@.subrange(0, i as int)),
        decreases found.len() - i,
    {
        broadcast use text::lemma_views_push;

        assert(found@.subrange(0, i + 1).drop_last() =~= found@.subrange(0, i as int));
        if found[i].1 {
            out.push(text::copy(found[i].0.as_str()));
        }
        i = i + 1;
    }
    assert(found@.subrange(0, found.len() as int) =~= found@);
    out
}

/// The names of all batteries: those of the directories among what `Public-Tests` holds, where it
/// is a directory itself.
pub fn all_batteries(public_tests: &str, is_dir: bool, found: &[(String, bool)]) -> (r: Result<
    Vec<String>,
    String,
>)
    ensures
        r is Ok <==> is_dir,
        r matches Ok(v) ==> text::views(v@) == text::in_order(directory_names(found@)),
        r matches Err(e) ==> e@ == "Public-Tests not found: "@ + public_tests@,
{
    if !is_dir {
        return Err(text::join2("Public-Tests not found: ", public_tests));
    }
    let names = directories(found);
    Ok(text::sort_texts(names.as_slice()))
}

/// Whether any entry of a battery has its source behind a link.
pub fn has_shared_source_groups(entries: &[CaseEntry]) -> (r: bool)
    ensures
        r == exists|i: int| 0 <= i < entries@.len() && !((#[trigger] entries@[i]).link is Own),
{
    let mut i: usize = 0;
    while i < entries.len()
        invariant
            i <= entries.len(),
            forall|j: int| 0 <= j < i ==> (#[trigger] entries@[j]).link is Own,
        decreases entries.len() - i,
    {
        match entries[i].link {
            Link::Own => {},
            _ => {
                return true;
            },
        }
        i = i + 1;
    }
    false
}

// ---------------------------------------------------------------------------
// CRUST projects
// ---------------------------------------------------------------------------

/// The projects that are left out: their own tests cannot be passed.
pub open spec fn crust_skipped(name: Seq<char>) -> bool {
    ||| name == "Genetic_neural_network_for_simple_control"@
    ||| name == "Holdem_Odds"@
    ||| name == "VaultSync"@
    ||| name == "bitset"@
    ||| name == "clog"@
}

/// Whether a project is left out.
pub fn is_skipped(name: &str) -> (r: bool)
    ensures
        r == crust_skipped(name@),
{
    text::same_text(name, "Genetic_neural_network_for_simple_control") || text::same_text(
        name,
        "Holdem_Odds",
    ) || text::same_text(name, "VaultSync") || text::same_text(name, "bitset") || text::same_text(
        name,
        "clog",
    )
}

/// A validated CRUST project. Only `discover` and `validated` make one, and both keep the skip list
/// and resolve the paths.
#[derive(Debug, Clone)]
pub struct CrustProject {
    name: String,
    scaffold: String,
    c_source: String,
}

/// What a project is: its name, its scaffold and its C source.
pub struct CrustView {
    pub name: Seq<char>,
    pub scaffold: Seq<char>,
    pub c_source: Seq<char>,
}

/// The names under which the C source of a project may stand, in the order they are tried.
pub open spec fn cbench_candidates(project: Seq<char>) -> Seq<Seq<char>> {
    seq![
        project,
        text::exchanged(project, '_', '-'),
        text::exchanged(without_proj(project), '_', '-'),
    ]
}

/// A name without the `proj_` before it.
pub open spec fn without_proj(project: Seq<char>) -> Seq<char> {
    if text::begins(project, "proj_"@) {
        project.subrange("proj_"@.len() as int, project.len() as int)
    } else {
        project
    }
}

/// The first of the directories that is there.
pub open spec fn first_there(candidates: Seq<Seq<char>>, dirs: Seq<Seq<char>>) -> Option<Seq<char>>
    decreases candidates.len(),
{
    if candidates.len() == 0 {
        None
    } else {
        match first_there(candidates.drop_last(), dirs) {
            Some(c) => Some(c),
            None => if dirs.contains(candidates.last()) {
                Some(candidates.last())
            } else {
                None
            },
        }
    }
}

/// Where the C source of a project stands, among the directories that are there.
pub open spec fn cbench_in(
    datasets: Seq<char>,
    project: Seq<char>,
    dirs: Seq<Seq<char>>,
) -> Option<Seq<char>> {
    let cbench = paths::joined(datasets, "CBench"@);
    first_there(
        cbench_candidates(project).map_values(|c: Seq<char>| paths::joined(cbench, c)),
        dirs,
    )
}

/// The project as it resolves, or what is missing.
pub open spec fn crust_resolved(
    datasets: Seq<char>,
    name: Seq<char>,
    dirs: Seq<Seq<char>>,
) -> Result<CrustView, Seq<char>> {
    let scaffold = paths::joined(paths::joined(datasets, "RBench"@), name);
    if !dirs.contains(scaffold) {
        Err("RBench scaffold not found: "@ + scaffold)
    } else {
        match cbench_in(datasets, name, dirs) {
            Some(c_source) => Ok(CrustView { name, scaffold, c_source }),
            None => Err("CBench source not found for "@ + name),
        }
    }
}

/// The names that stay: not skipped.
pub open spec fn not_skipped(names: Seq<Seq<char>>) -> Seq<Seq<char>>
    decreases names.len(),
{
    if names.len() == 0 {
        Seq::empty()
    } else if crust_skipped(names.last()) {
        not_skipped(names.drop_last())
    } else {
        not_skipped(names.drop_last()).push(names.last())
    }
}

/// At most so many.
pub open spec fn limited(names: Seq<Seq<char>>, limit: Option<usize>) -> Seq<Seq<char>> {
    match limit {
        Some(n) => if n < names.len() {
            names.subrange(0, n as int)
        } else {
            names
        },
        None => names,
    }
}

/// The projects that discovery looks at.
pub open spec fn crust_names(found: Seq<(String, bool)>, limit: Option<usize>) -> Seq<Seq<char>> {
    limited(text::in_order(not_skipped(directory_names(found))), limit)
}

/// The projects, each resolved, up to the first that does not.
pub open spec fn crust_all(
    datasets: Seq<char>,
    names: Seq<Seq<char>>,
    dirs: Seq<Seq<char>>,
) -> Result<Seq<CrustView>, Seq<char>>
    decreases names.len(),
{
    if names.len() == 0 {
        Ok(Seq::empty())
    } else {
        match crust_all(datasets, names.drop_last(), dirs) {
            Err(e) => Err(e),
            Ok(before) => match crust_resolved(datasets, names.last(), dirs) {
                Ok(p) => Ok(before.push(p)),
                Err(e) => Err(e),
            },
        }
    }
}

impl View for CrustProject {
    type V = CrustView;

    closed spec fn view(&self) -> CrustView {
        CrustView { name: self.name@, scaffold: self.scaffold@, c_source: self.c_source@ }
    }
}

/// The views of projects.
pub open spec fn crust_views(s: Seq<CrustProject>) -> Seq<CrustView> {
    s.map_values(|p: CrustProject| p@)
}

impl CrustProject {
    /// The name.
    pub fn name(&self) -> (r: &str)
        ensures
            r@ == self@.name,
    {
        self.name.as_str()
    }

    /// Where the scaffold stands.
    pub fn scaffold(&self) -> (r: &str)
        ensures
            r@ == self@.scaffold,
    {
        self.scaffold.as_str()
    }

    /// Where the C source stands.
    pub fn c_source(&self) -> (r: &str)
        ensures
            r@ == self@.c_source,
    {
        self.c_source.as_str()
    }

    /// Where the C source of a project stands, among the directories that are there.
    pub fn find_cbench(datasets_dir: &str, project: &str, dirs: &[String]) -> (r: Option<String>)
        ensures
            r is Some <==> cbench_in(datasets_dir@, project@, text::views(dirs@)) is Some,
            r matches Some(s) ==> cbench_in(datasets_dir@, project@, text::views(dirs@)) == Some(
                s@,
            ),
    {
        let p = text::chars_of(project);
        let prefix = text::chars_of("proj_");
        let bare = if text::starts_with(&p, &prefix) {
            text::cut(&p, prefix.len(), p.len())
        } else {
            text::cut(&p, 0, p.len())
        };
        assert(bare@ =~= without_proj(project@));
        let cbench = paths::join(datasets_dir, "CBench");
        let first = paths::join(cbench.as_str(), project);
        let second = paths::join(
            cbench.as_str(),
            text::string_of(&text::exchange(&p, '_', '-')).as_str(),
        );
        let third = paths::join(
            cbench.as_str(),
            text::string_of(&text::exchange(&bare, '_', '-')).as_str(),
        );
        proof {
            let d = text::views(dirs@);
            let all = cbench_candidates(project@).map_values(
                |c: Seq<char>| paths::joined(cbench@, c),
            );
            assert(all =~= seq![first@, second@, third@]);
            assert(all.drop_last() =~= seq![first@, second@]);
            assert(all.drop_last().drop_last() =~= seq![first@]);
            assert(all.drop_last().drop_last().drop_last() =~= Seq::<Seq<char>>::empty());
            reveal_with_fuel(first_there, 4);
            assert(all.last() == third@);
            assert(all.drop_last().last() == second@);
            assert(all.drop_last().drop_last().last() == first@);
            assert(cbench_in(datasets_dir@, project@, d) == first_there(all, d));
        }
        if holds(dirs, first.as_str()) {
            return Some(first);
        }
        if holds(dirs, second.as_str()) {
            return Some(second);
        }
        if holds(dirs, third.as_str()) {
            return Some(third);
        }
        None
    }

    fn resolve(datasets_dir: &str, name: &str, dirs: &[String]) -> (r: Result<CrustProject, String>)
        ensures
            match crust_resolved(datasets_dir@, name@, text::views(dirs@)) {
                Ok(v) => r matches Ok(p) && p@ == v,
                Err(m) => r matches Err(e) && e@ == m,
            },
    {
        let scaffold = paths::join3(datasets_dir, "RBench", name);
        if !holds(dirs, scaffold.as_str()) {
            return Err(text::join2("RBench scaffold not found: ", scaffold.as_str()));
        }
        match Self::find_cbench(datasets_dir, name, dirs) {
            Some(c_source) => Ok(CrustProject { name: text::copy(name), scaffold, c_source }),
            None => Err(text::join2("CBench source not found for ", name)),
        }
    }

    /// The project with the given name, where it is not skipped and is there.
    pub fn validated(datasets_dir: &str, name: &str, dirs: &[String]) -> (r: Result<
        CrustProject,
        String,
    >)
        ensures
            crust_skipped(name@) ==> (r matches Err(e) && e@ == name@
                + " is in the CRUST skip list"@),
            !crust_skipped(name@) ==> match crust_resolved(
                datasets_dir@,
                name@,
                text::views(dirs@),
            ) {
                Ok(v) => r matches Ok(p) && p@ == v,
                Err(m) => r matches Err(e) && e@ == m,
            },
    {
        if is_skipped(name) {
            return Err(text::join2(name, " is in the CRUST skip list"));
        }
        Self::resolve(datasets_dir, name, dirs)
    }

    /// All projects, without the skipped ones, in the order of their names and at most `limit` of
    /// them. `found` is what `RBench` holds, and `dirs` the directories that are there.
    pub fn discover(
        datasets_dir: &str,
        rbench_is_dir: bool,
        found: &[(String, bool)],
        dirs: &[String],
        limit: Option<usize>,
    ) -> (r: Result<Vec<CrustProject>, String>)
        ensures
            !rbench_is_dir ==> (r matches Err(e) && e@ == "RBench not found: "@ + paths::joined(
                datasets_dir@,
                "RBench"@,
            )),
            rbench_is_dir ==> match crust_all(
                datasets_dir@,
                crust_names(found@, limit),
                text::views(dirs@),
            ) {
                Ok(v) => r matches Ok(p) && crust_views(p@) == v,
                Err(m) => r matches Err(e) && e@ == m,
            },
    {
        if !rbench_is_dir {
            return Err(
                text::join2("RBench not found: ", paths::join(datasets_dir, "RBench").as_str()),
            );
        }
        let names = directories(found);
        let ghost all = directory_names(found@);
        let mut kept: Vec<String> = Vec::new();
        let mut i: usize = 0;
        assert(text::views(kept@) =~= not_skipped(all.subrange(0, 0)));
        while i < names.len()
            invariant
                i <= names.len(),
                all == text::views(names@),
                text::views(kept@) == not_skipped(all.subrange(0, i as int)),
            decreases names.len() - i,
        {
            broadcast use text::lemma_views_push;

            assert(all.subrange(0, i + 1).drop_last() =~= all.subrange(0, i as int));
            assert(all.subrange(0, i + 1).last() == names@[i as int]@);
            if !is_skipped(names[i].as_str()) {
                kept.push(text::copy(names[i].as_str()));
            }
            i = i + 1;
        }
        assert(all.subrange(0, names.len() as int) =~= all);
        let sorted = text::sort_texts(kept.as_slice());
        let ghost order = text::in_order(not_skipped(all));
        let count: usize = match limit {
            Some(n) => if n < sorted.len() {
                n
            } else {
                sorted.len()
            },
            None => sorted.len(),
        };
        let ghost asked = crust_names(found@, limit);
        assert(order.len() == sorted@.len());
        assert(order.subrange(0, count as int) =~= asked);
        let ghost d = text::views(dirs@);
        let mut out: Vec<CrustProject> = Vec::new();
        let mut j: usize = 0;
        assert(crust_views(out@) =~= Seq::<CrustView>::empty());
        while j < count
            invariant
                j <= count <= sorted.len(),
                order == text::views(sorted@),
                asked == order.subrange(0, count as int),
                d == text::views(dirs@),
                asked == crust_names(found@, limit),
                rbench_is_dir,
                crust_all(datasets_dir@, asked.subrange(0, j as int), d) == Ok::<
                    Seq<CrustView>,
                    Seq<char>,
                >(crust_views(out@)),
            decreases count - j,
        {
            let ghost before = crust_views(out@);
            assert(asked.subrange(0, j + 1).drop_last() =~= asked.subrange(0, j as int));
            assert(asked.subrange(0, j + 1).last() == sorted@[j as int]@);
            match Self::resolve(datasets_dir, sorted[j].as_str(), dirs) {
                Ok(p) => {
                    let ghost v = p@;
                    out.push(p);
                    assert(crust_views(out@) =~= before.push(v));
                },
                Err(e) => {
                    proof {
                        lemma_crust_all_fails(datasets_dir@, asked, d, j + 1);
                    }
                    return Err(e);
                },
            }
            j = j + 1;
        }
        assert(asked.subrange(0, count as int) =~= asked);
        Ok(out)
    }
}

proof fn lemma_crust_all_fails(
    datasets: Seq<char>,
    names: Seq<Seq<char>>,
    dirs: Seq<Seq<char>>,
    n: int,
)
    requires
        0 <= n <= names.len(),
        crust_all(datasets, names.subrange(0, n), dirs) is Err,
    ensures
        crust_all(datasets, names, dirs) == crust_all(datasets, names.subrange(0, n), dirs),
    decreases names.len() - n,
{
    if n == names.len() {
        assert(names.subrange(0, n) =~= names);
    } else {
        assert(names.subrange(0, n + 1).drop_last() =~= names.subrange(0, n));
        lemma_crust_all_fails(datasets, names, dirs, n + 1);
    }
}

proof fn lemma_not_skipped(names: Seq<Seq<char>>)
    ensures
        forall|i: int| 0 <= i < not_skipped(names).len() ==> !crust_skipped(
            #[trigger] not_skipped(names)[i],
        ),
    decreases names.len(),
{
    if names.len() > 0 {
        lemma_not_skipped(names.drop_last());
        let before = not_skipped(names.drop_last());
        assert forall|i: int| 0 <= i < not_skipped(names).len() implies !crust_skipped(
            #[trigger] not_skipped(names)[i],
        ) by {
            if i < before.len() {
                assert(not_skipped(names)[i] == before[i]);
            }
        }
    }
}

/// No project that discovery looks at is one of the skipped.
pub proof fn law_discovery_keeps_the_skip_list(
    found: Seq<(String, bool)>,
    limit: Option<usize>,
    i: int,
)
    requires
        0 <= i < crust_names(found, limit).len(),
    ensures
        !crust_skipped(crust_names(found, limit)[i]),
{
    let kept = not_skipped(directory_names(found));
    let order = text::in_order(kept);
    text::lemma_text_order_total();
    kept.lemma_sort_by_ensures(text::text_order());
    let name = crust_names(found, limit)[i];
    assert(order[i] == name);
    assert(order.contains(name));
    assert(kept.contains(name));
    lemma_not_skipped(directory_names(found));
    let k = choose|k: int| 0 <= k < kept.len() && kept[k] == name;
    assert(!crust_skipped(kept[k]));
}

// ---------------------------------------------------------------------------
// What a run cost
// ---------------------------------------------------------------------------

/// What the log of an agent run says of its cost. The credits are kept as they are written.
#[derive(Debug, Clone)]
pub struct AgentRunMeta {
    pub credits: String,
    pub wall_secs: u64,
}

/// How the last line of an agent log states the cost.
pub const COST_PATTERN: &'static str = "Credits:\\s*([0-9.]+).*?Time:\\s*(.+)";

/// The natural number that a text writes, with or without a plus sign before it, where it fits in 64
/// bits; zero otherwise.
pub open spec fn number_or_zero(s: Seq<char>) -> nat {
    let digits = if s.len() > 0 && s[0] == '+' {
        s.subrange(1, s.len() as int)
    } else {
        s
    };
    if digits.len() > 0 && text::all_digits(digits) && text::numeral_value(digits) <= u64::MAX {
        text::numeral_value(digits)
    } else {
        0
    }
}

/// The seconds that one word of a duration stands for: `3m` are minutes, `4s` are seconds.
pub open spec fn word_seconds(w: Seq<char>) -> nat {
    if w.len() > 0 && w.last() == 'm' {
        number_or_zero(w.drop_last()) * 60
    } else if w.len() > 0 && w.last() == 's' {
        number_or_zero(w.drop_last())
    } else {
        0
    }
}

/// The seconds that the words stand for together.
pub open spec fn words_seconds(ws: Seq<Seq<char>>) -> nat
    decreases ws.len(),
{
    if ws.len() == 0 {
        0
    } else {
        words_seconds(ws.drop_last()) + word_seconds(ws.last())
    }
}

/// The seconds that a duration such as `3m 4s` stands for.
pub open spec fn duration_seconds(s: Seq<char>) -> nat {
    words_seconds(text::words(s))
}

fn read_number(h: &[char]) -> (r: u64)
    ensures
        r == number_or_zero(h@),
{
    let digits = if h.len() > 0 && h[0] == '+' {
        text::cut(h, 1, h.len())
    } else {
        text::cut(h, 0, h.len())
    };
    assert(h@.subrange(0, h.len() as int) =~= h@);
    match text::read_digits(&digits) {
        Some(n) => n,
        None => 0,
    }
}

proof fn lemma_words_seconds_grow(ws: Seq<Seq<char>>, n: int)
    requires
        0 <= n <= ws.len(),
    ensures
        words_seconds(ws.subrange(0, n)) <= words_seconds(ws),
    decreases ws.len() - n,
{
    if n == ws.len() {
        assert(ws.subrange(0, n) =~= ws);
    } else {
        assert(ws.subrange(0, n + 1).drop_last() =~= ws.subrange(0, n));
        lemma_words_seconds_grow(ws, n + 1);
    }
}

/// The seconds that a duration stands for, where they can be counted.
pub fn checked_duration(s: &str) -> (r: Option<u64>)
    ensures
        r is Some <==> duration_seconds(s@) <= u64::MAX,
        r matches Some(n) ==> n == duration_seconds(s@),
{
    let words = text::words_of(&text::chars_of(s));
    let ghost ws = text::words(s@);
    let mut secs: u64 = 0;
    let mut i: usize = 0;
    while i < words.len()
        invariant
            i <= words.len(),
            ws == text::char_views(words@),
            ws == text::words(s@),
            secs == words_seconds(ws.subrange(0, i as int)),
        decreases words.len() - i,
    {
        assert(ws.subrange(0, i + 1).drop_last() =~= ws.subrange(0, i as int));
        assert(ws.subrange(0, i + 1).last() == words@[i as int]@);
        proof {
            lemma_words_seconds_grow(ws, i + 1);
        }
        let w = &words[i];
        let n: usize = w.len();
        if n > 0 {
            assert(w@.subrange(0, n - 1) =~= w@.drop_last());
            let number: u64 = read_number(&text::cut(w, 0, n - 1));
            let unit: u64 = if w[n - 1] == 'm' {
                60
            } else if w[n - 1] == 's' {
                1
            } else {
                0
            };
            assert(number * unit == word_seconds(w@)) by (nonlinear_arith)
                requires
                    number == number_or_zero(w@.drop_last()),
                    unit == 60 || unit == 1 || unit == 0,
                    unit == 60 <==> w@.last() == 'm',
                    unit == 1 <==> w@.last() == 's',
                    w@.len() > 0,
                    word_seconds(w@) == (if w@.len() > 0 && w@.last() == 'm' {
                        number_or_zero(w@.drop_last()) * 60
                    } else if w@.len() > 0 && w@.last() == 's' {
                        number_or_zero(w@.drop_last())
                    } else {
                        0
                    }),
            ;
            let part: u64 = match number.checked_mul(unit) {
                Some(p) => p,
                None => {
                    return None;
                },
            };
            secs = match secs.checked_add(part) {
                Some(t) => t,
                None => {
                    return None;
                },
            };
        }
        i = i + 1;
    }
    assert(ws.subrange(0, words.len() as int) =~= ws);
    Some(secs)
}

/// The seconds that a duration such as `3m 4s` stands for.
pub fn parse_duration(s: &str) -> (r: u64)
    requires
        duration_seconds(s@) <= u64::MAX,
    ensures
        r == duration_seconds(s@),
{
    match checked_duration(s) {
        Some(n) => n,
        None => 0,
    }
}

/// The text is a decimal number: digits, one at least, and one point at most among or around them.
pub open spec fn is_decimal(s: Seq<char>) -> bool {
    &&& forall|i: int| 0 <= i < s.len() ==> text::is_digit(#[trigger] s[i]) || s[i] == '.'
    &&& exists|i: int| 0 <= i < s.len() && text::is_digit(#[trigger] s[i])
    &&& text::times(s, '.') <= 1
}

fn decimal(s: &str) -> (r: bool)
    ensures
        r == is_decimal(s@),
{
    let v = text::chars_of(s);
    let mut some: bool = false;
    let mut i: usize = 0;
    while i < v.len()
        invariant
            i <= v.len(),
            v@ == s@,
            forall|k: int| 0 <= k < i ==> text::is_digit(#[trigger] s@[k]) || s@[k] == '.',
            some <==> exists|k: int| 0 <= k < i && text::is_digit(#[trigger] s@[k]),
        decreases v.len() - i,
    {
        let d = text::digit(v[i]);
        if !d && v[i] != '.' {
            assert(!(text::is_digit(s@[i as int]) || s@[i as int] == '.'));
            return false;
        }
        if d {
            some = true;
            assert(text::is_digit(s@[i as int]));
        } else {
            assert(!text::is_digit(s@[i as int]));
        }
        i = i + 1;
    }
    some && text::count_char(&v, '.') <= 1
}

/// The credits and the time that the last of some cost lines names.
pub open spec fn last_cost(found: Option<Seq<Seq<Option<Seq<char>>>>>) -> Option<
    (Seq<char>, Seq<char>),
> {
    match found {
        Some(all) => if all.len() > 0 {
            match (patterns::numbered(all.last(), 1), patterns::numbered(all.last(), 2)) {
                (Some(credits), Some(time)) => Some((credits, time)),
                _ => None,
            }
        } else {
            None
        },
        None => None,
    }
}

/// What a run cost, by what the last cost line names: nothing where its credits are no number, or where
/// its duration cannot be counted.
pub open spec fn is_cost(r: Option<AgentRunMeta>, named: Option<(Seq<char>, Seq<char>)>) -> bool {
    match named {
        Some(g) => {
            &&& r is Some <==> is_decimal(g.0) && duration_seconds(g.1) <= u64::MAX
            &&& r matches Some(m) ==> m.credits@ == g.0 && m.wall_secs == duration_seconds(g.1)
        },
        None => r is None,
    }
}

/// What a run cost, by the cost lines of its log.
pub fn cost_of(found: &Option<Vec<Vec<Option<String>>>>) -> (r: Option<AgentRunMeta>)
    ensures
        is_cost(
            r,
            last_cost(
                match *found {
                    Some(v) => Some(patterns::match_views(v@)),
                    None => None,
                },
            ),
        ),
{
    let v = match found {
        Some(v) => v,
        None => {
            return None;
        },
    };
    let ghost all = patterns::match_views(v@);
    assert(all.len() == v@.len());
    if v.len() == 0 {
        return None;
    }
    let last: usize = v.len() - 1;
    assert(all.last() == patterns::group_views(v@[last as int]@));
    match (patterns::group_at(&v[last], 1), patterns::group_at(&v[last], 2)) {
        (Some(credits), Some(time)) => if decimal(credits.as_str()) {
            match checked_duration(time.as_str()) {
                Some(wall_secs) => Some(AgentRunMeta { credits, wall_secs }),
                None => None,
            }
        } else {
            None
        },
        _ => None,
    }
}

/// What the last cost line of an agent log says: nothing where there is none, where its credits are
/// no number, or where its duration cannot be counted.
pub fn extract_agent_meta(log: &str) -> (r: Option<AgentRunMeta>)
    ensures
        is_cost(r, last_cost(patterns::groups_in(COST_PATTERN@, log@))),
{
    cost_of(&patterns::groups(COST_PATTERN, log))
}

// ---------------------------------------------------------------------------
// Unsafe code, by the lengths of its regions
// ---------------------------------------------------------------------------

/// Unsafe constructs, and the lengths of their regions together.
#[derive(Debug, Copy, Clone, PartialEq, Eq, Structural)]
pub struct UnsafeCounts {
    /// `unsafe { .. }` blocks.
    pub blocks: usize,
    /// `unsafe fn` declarations.
    pub fns: usize,
    /// `unsafe impl` blocks.
    pub impls: usize,
    /// The lines of each region, added up: what nests is counted again.
    pub lines: usize,
}

impl Default for UnsafeCounts {
    fn default() -> (r: UnsafeCounts)
        ensures
            r == (UnsafeCounts { blocks: 0, fns: 0, impls: 0, lines: 0 }),
    {
        UnsafeCounts { blocks: 0, fns: 0, impls: 0, lines: 0 }
    }
}

impl UnsafeCounts {
    /// All constructs together.
    pub fn total(&self) -> (r: usize)
        requires
            self.blocks + self.fns + self.impls <= usize::MAX,
        ensures
            r == self.blocks + self.fns + self.impls,
    {
        self.blocks + self.fns + self.impls
    }
}

/// The length of a region in lines: one at least.
pub open spec fn region_lines(r: metrics::Region) -> int {
    metrics::last_line(r) - r.start + 1
}

/// The lengths of regions together.
pub open spec fn lines_of_regions(regions: Seq<metrics::Region>) -> int
    decreases regions.len(),
{
    if regions.len() == 0 {
        0
    } else {
        lines_of_regions(regions.drop_last()) + region_lines(regions.last())
    }
}

/// The lengths of the regions of all files together.
pub open spec fn lines_of_files(all: Seq<Seq<metrics::Region>>) -> int
    decreases all.len(),
{
    if all.len() == 0 {
        0
    } else {
        lines_of_files(all.drop_last()) + lines_of_regions(all.last())
    }
}

/// The length of a region in lines.
pub fn span_lines(start: usize, end: usize) -> (r: usize)
    requires
        end - start < usize::MAX,
    ensures
        r == (if end >= start {
            end - start + 1
        } else {
            1
        }),
{
    if end >= start {
        end - start + 1
    } else {
        1
    }
}

proof fn lemma_lines_of_regions_grow(regions: Seq<metrics::Region>, n: int)
    requires
        0 <= n <= regions.len(),
    ensures
        0 <= lines_of_regions(regions.subrange(0, n)) <= lines_of_regions(regions),
    decreases regions.len() - n, regions.len(),
{
    if n == regions.len() {
        assert(regions.subrange(0, n) =~= regions);
        if n > 0 {
            lemma_lines_of_regions_grow(regions.drop_last(), n - 1);
            assert(regions.drop_last().subrange(0, n - 1) =~= regions.drop_last());
        }
    } else {
        assert(regions.subrange(0, n + 1).drop_last() =~= regions.subrange(0, n));
        lemma_lines_of_regions_grow(regions, n + 1);
        lemma_lines_of_regions_grow(regions.subrange(0, n), n);
        assert(regions.subrange(0, n).subrange(0, n) =~= regions.subrange(0, n));
    }
}

proof fn lemma_lines_of_files_grow(all: Seq<Seq<metrics::Region>>, n: int)
    requires
        0 <= n <= all.len(),
    ensures
        0 <= lines_of_files(all.subrange(0, n)) <= lines_of_files(all),
    decreases all.len() - n, all.len(),
{
    if n == all.len() {
        assert(all.subrange(0, n) =~= all);
        if n > 0 {
            lemma_lines_of_files_grow(all.drop_last(), n - 1);
            assert(all.drop_last().subrange(0, n - 1) =~= all.drop_last());
            lemma_lines_of_regions_grow(all.last(), 0);
        }
    } else {
        assert(all.subrange(0, n + 1).drop_last() =~= all.subrange(0, n));
        lemma_lines_of_files_grow(all, n + 1);
        lemma_lines_of_regions_grow(all[n], 0);
        lemma_lines_of_files_grow(all.subrange(0, n), n);
        assert(all.subrange(0, n).subrange(0, n) =~= all.subrange(0, n));
    }
}

/// Adds the lengths of regions, where the sum can be counted.
fn add_region_lines(regions: &[metrics::Region], base: usize) -> (r: Option<usize>)
    ensures
        r is Some <==> base + lines_of_regions(regions@) <= usize::MAX,
        r matches Some(n) ==> n == base + lines_of_regions(regions@),
{
    let mut n: usize = base;
    let mut i: usize = 0;
    while i < regions.len()
        invariant
            i <= regions.len(),
            n == base + lines_of_regions(regions@.subrange(0, i as int)),
        decreases regions.len() - i,
    {
        let g = regions[i];
        proof {
            assert(regions@.subrange(0, i + 1).drop_last() =~= regions@.subrange(0, i as int));
            lemma_lines_of_regions_grow(regions@, i + 1);
        }
        if g.start == 0 && g.end == usize::MAX {
            return None;
        }
        n = match n.checked_add(span_lines(g.start, g.end)) {
            Some(m) => m,
            None => {
                return None;
            },
        };
        i = i + 1;
    }
    assert(regions@.subrange(0, regions.len() as int) =~= regions@);
    Some(n)
}

/// Every sum of the count below can be counted.
pub open spec fn counts_fit(all: Seq<Seq<metrics::Region>>) -> bool {
    &&& metrics::total_of_kind(all, metrics::RegionKind::Block) <= usize::MAX
    &&& metrics::total_of_kind(all, metrics::RegionKind::Fn) <= usize::MAX
    &&& metrics::total_of_kind(all, metrics::RegionKind::Impl) <= usize::MAX
    &&& lines_of_files(all) <= usize::MAX
}

/// The unsafe code below a source directory, its lines counted by region, where it can be counted.
pub fn try_count_unsafe(files: &[metrics::SourceFile]) -> (r: Option<UnsafeCounts>)
    ensures
        r is Some <==> counts_fit(metrics::regions_by_file(files@)),
        r matches Some(c) ==> {
            let all = metrics::regions_by_file(files@);
            &&& c.blocks == metrics::total_of_kind(all, metrics::RegionKind::Block)
            &&& c.fns == metrics::total_of_kind(all, metrics::RegionKind::Fn)
            &&& c.impls == metrics::total_of_kind(all, metrics::RegionKind::Impl)
            &&& c.lines == lines_of_files(all)
        },
{
    let ghost all = metrics::regions_by_file(files@);
    let mut c = UnsafeCounts { blocks: 0, fns: 0, impls: 0, lines: 0 };
    let mut i: usize = 0;
    while i < files.len()
        invariant
            i <= files.len(),
            all == metrics::regions_by_file(files@),
            c.blocks == metrics::total_of_kind(
                all.subrange(0, i as int),
                metrics::RegionKind::Block,
            ),
            c.fns == metrics::total_of_kind(all.subrange(0, i as int), metrics::RegionKind::Fn),
            c.impls == metrics::total_of_kind(
                all.subrange(0, i as int),
                metrics::RegionKind::Impl,
            ),
            c.lines == lines_of_files(all.subrange(0, i as int)),
        decreases files.len() - i,
    {
        let v = metrics::regions_for(&files[i]);
        proof {
            assert(all.subrange(0, i + 1).drop_last() =~= all.subrange(0, i as int));
            assert(all.subrange(0, i + 1).last() == all[i as int]);
            assert(all[i as int] == v@);
            metrics::lemma_kinds_grow(all, metrics::RegionKind::Block, i + 1);
            metrics::lemma_kinds_grow(all, metrics::RegionKind::Fn, i + 1);
            metrics::lemma_kinds_grow(all, metrics::RegionKind::Impl, i + 1);
            lemma_lines_of_files_grow(all, i + 1);
        }
        c.blocks = match c.blocks.checked_add(metrics::count_kind(v, metrics::RegionKind::Block)) {
            Some(n) => n,
            None => {
                return None;
            },
        };
        c.fns = match c.fns.checked_add(metrics::count_kind(v, metrics::RegionKind::Fn)) {
            Some(n) => n,
            None => {
                return None;
            },
        };
        c.impls = match c.impls.checked_add(metrics::count_kind(v, metrics::RegionKind::Impl)) {
            Some(n) => n,
            None => {
                return None;
            },
        };
        c.lines = match add_region_lines(v, c.lines) {
            Some(n) => n,
            None => {
                return None;
            },
        };
        i = i + 1;
    }
    assert(all.subrange(0, files.len() as int) =~= all);
    Some(c)
}

/// The unsafe code below a source directory, its lines counted by region.
pub fn count_unsafe(files: &[metrics::SourceFile]) -> (r: UnsafeCounts)
    requires
        counts_fit(metrics::regions_by_file(files@)),
    ensures
        r.blocks == metrics::total_of_kind(
            metrics::regions_by_file(files@),
            metrics::RegionKind::Block,
        ),
        r.fns == metrics::total_of_kind(metrics::regions_by_file(files@), metrics::RegionKind::Fn),
        r.impls == metrics::total_of_kind(
            metrics::regions_by_file(files@),
            metrics::RegionKind::Impl,
        ),
        r.lines == lines_of_files(metrics::regions_by_file(files@)),
{
    match try_count_unsafe(files) {
        Some(c) => c,
        None => vstd::pervasive::unreached(),
    }
}

/// The unsafe code of Rust sources, each given by its path from the source directory on and by its
/// text, its lines counted by region; nothing where it is more than can be counted.
pub fn count_unsafe_in(sources: &[(String, Option<String>)]) -> (r: Option<UnsafeCounts>)
    ensures
        r is Some <==> counts_fit(metrics::regions_by_source(sources@)),
        r matches Some(c) ==> {
            let all = metrics::regions_by_source(sources@);
            &&& c.blocks == metrics::total_of_kind(all, metrics::RegionKind::Block)
            &&& c.fns == metrics::total_of_kind(all, metrics::RegionKind::Fn)
            &&& c.impls == metrics::total_of_kind(all, metrics::RegionKind::Impl)
            &&& c.lines == lines_of_files(all)
        },
{
    let files = metrics::source_files(sources);
    try_count_unsafe(files.as_slice())
}

// ---------------------------------------------------------------------------
// Where results go
// ---------------------------------------------------------------------------

/// Who produced a results tree.
#[derive(Debug, Copy, Clone, PartialEq, Eq, Structural)]
pub enum Agent {
    Kiro,
    KiroTranslate,
    Claude,
    C2rust,
}

/// Which corpus the results are of.
#[derive(Debug, Copy, Clone, PartialEq, Eq, Structural)]
pub enum Dataset {
    TestCorpus,
    Crust,
    BlindCrust,
}

/// The directory of an agent.
pub open spec fn agent_name(a: Agent) -> Seq<char> {
    match a {
        Agent::Kiro => "kiro"@,
        Agent::KiroTranslate => "kiro-translate"@,
        Agent::Claude => program::program(),
        Agent::C2rust => "c2rust"@,
    }
}

/// The corpus directory of a dataset.
pub open spec fn corpus_name(d: Dataset) -> Seq<char> {
    match d {
        Dataset::TestCorpus => "test-corpus"@,
        Dataset::Crust => "crust-bench/datasets"@,
        Dataset::BlindCrust => "crust-bench/datasets"@,
    }
}

/// The results directory of a dataset.
pub open spec fn results_name(d: Dataset) -> Seq<char> {
    match d {
        Dataset::TestCorpus => "results/Test-Corpus"@,
        Dataset::Crust => "results/CRUST"@,
        Dataset::BlindCrust => "results/CRUST-blind"@,
    }
}

/// The prompts directory of an agent.
pub open spec fn prompts_name(a: Agent) -> Seq<char> {
    if a == Agent::Claude {
        "scripts/prompts/"@ + program::program()
    } else {
        "scripts/prompts"@
    }
}

/// The output of a translation: made once and never changed after.
#[derive(Debug, Clone)]
pub struct TranslateDir(String);

/// The workspace of a verification: it can be wiped and made again from a [`TranslateDir`].
#[derive(Debug, Clone)]
pub struct VerifyDir(String);

impl View for TranslateDir {
    type V = Seq<char>;

    closed spec fn view(&self) -> Seq<char> {
        self.0@
    }
}

impl View for VerifyDir {
    type V = Seq<char>;

    closed spec fn view(&self) -> Seq<char> {
        self.0@
    }
}

impl TranslateDir {
    /// A path in this directory.
    pub fn join(&self, path: &str) -> (r: String)
        ensures
            r@ == paths::joined(self@, path@),
    {
        paths::join(self.0.as_str(), path)
    }

    /// The directory itself.
    pub fn as_path(&self) -> (r: &str)
        ensures
            r@ == self@,
    {
        self.0.as_str()
    }
}

impl VerifyDir {
    /// A path in this directory.
    pub fn join(&self, path: &str) -> (r: String)
        ensures
            r@ == paths::joined(self@, path@),
    {
        paths::join(self.0.as_str(), path)
    }

    /// The directory itself.
    pub fn as_path(&self) -> (r: &str)
        ensures
            r@ == self@,
    {
        self.0.as_str()
    }
}

/// Where a run reads and writes.
#[derive(Debug, Clone)]
pub struct Paths {
    pub corpus_dir: String,
    pub results_dir: String,
    pub prompts_dir: String,
    pub agent: Agent,
    pub dataset: Dataset,
}

impl Paths {
    /// The directories of an agent and a dataset in a repository.
    pub fn new(repo_root: &str, agent: Agent, dataset: Dataset) -> (r: Paths)
        ensures
            r.corpus_dir@ == paths::joined(repo_root@, corpus_name(dataset)),
            r.results_dir@ == paths::joined(
                paths::joined(repo_root@, results_name(dataset)),
                agent_name(agent),
            ),
            r.prompts_dir@ == paths::joined(repo_root@, prompts_name(agent)),
            r.agent == agent,
            r.dataset == dataset,
    {
        let agent_dir = match agent {
            Agent::Kiro => text::copy("kiro"),
            Agent::KiroTranslate => text::copy("kiro-translate"),
            Agent::Claude => program::program_name(),
            Agent::C2rust => text::copy("c2rust"),
        };
        let (corpus, results) = match dataset {
            Dataset::TestCorpus => ("test-corpus", "results/Test-Corpus"),
            Dataset::Crust => ("crust-bench/datasets", "results/CRUST"),
            Dataset::BlindCrust => ("crust-bench/datasets", "results/CRUST-blind"),
        };
        let prompts = match agent {
            Agent::Claude => text::join2("scripts/prompts/", program::program_name().as_str()),
            _ => text::copy("scripts/prompts"),
        };
        Paths {
            corpus_dir: paths::join(repo_root, corpus),
            results_dir: paths::join3(repo_root, results, agent_dir.as_str()),
            prompts_dir: paths::join(repo_root, prompts.as_str()),
            agent,
            dataset,
        }
    }

    /// The directory of a battery in the corpus.
    pub fn input_dir(&self, battery: &str) -> (r: String)
        ensures
            r@ == paths::joined(paths::joined(self.corpus_dir@, "Public-Tests"@), battery@),
    {
        paths::join3(self.corpus_dir.as_str(), "Public-Tests", battery)
    }

    /// The results directory of a battery or project.
    pub fn output_dir(&self, name: &str) -> (r: String)
        ensures
            r@ == paths::joined(self.results_dir@, name@),
    {
        paths::join(self.results_dir.as_str(), name)
    }

    /// The output of a project's translation.
    pub fn translate_dir(&self, name: &str) -> (r: TranslateDir)
        ensures
            r@ == paths::joined(paths::joined(self.results_dir@, name@), "translate"@),
    {
        TranslateDir(paths::join3(self.results_dir.as_str(), name, "translate"))
    }

    /// The workspace of a project's verification.
    pub fn verify_dir(&self, name: &str) -> (r: VerifyDir)
        ensures
            r@ == paths::joined(paths::joined(self.results_dir@, name@), "verify"@),
    {
        VerifyDir(paths::join3(self.results_dir.as_str(), name, "verify"))
    }

    /// The results directory of a case.
    pub fn case_dir(&self, battery: &str, case: &str) -> (r: String)
        ensures
            r@ == paths::joined(paths::joined(self.results_dir@, battery@), case@),
    {
        paths::join3(self.results_dir.as_str(), battery, case)
    }
}

/// The translation and the verification of a project never share a directory, so wiping the one
/// leaves the other.
pub proof fn law_translation_and_verification_stand_apart(results: Seq<char>, name: Seq<char>)
    ensures
        paths::joined(paths::joined(results, name), "translate"@) != paths::joined(
            paths::joined(results, name),
            "verify"@,
        ),
{
    let dir = paths::joined(results, name);
    reveal_strlit("translate");
    reveal_strlit("verify");
    reveal_strlit("/");
    let a = paths::joined(dir, "translate"@);
    let b = paths::joined(dir, "verify"@);
    assert(a.len() == b.len() + 3);
}

/// A case that stands alone is a library exactly where its name ends in `_lib`, and so is a follower;
/// a follower has the features that its presets select and the name that its runner loads.
pub proof fn law_a_library_is_known_by_the_end_of_its_name(
    at: Seq<int>,
    entries: Seq<CaseEntry>,
    name: Seq<char>,
    e: CaseEntry,
)
    ensures
        case_at(at, entries, name) matches CaseView::Independent { name: n, is_lib } ==> n == name
            && (is_lib <==> name.len() >= 4 && name.subrange(name.len() - 4, name.len() as int)
            == "_lib"@),
        case_at(at, entries, name) matches CaseView::SharedSource { real_case, configs } ==> real_case
            == name,
        config_of(e).name == e.name@,
        config_of(e).is_lib <==> e.name@.len() >= 4 && e.name@.subrange(
            e.name@.len() - 4,
            e.name@.len() as int,
        ) == "_lib"@,
        e.runner_main is None ==> config_of(e).lib_name is None,
        e.presets is None ==> config_of(e).features.len() == 0,
        e.presets is Some && json::read(e.presets->0@) is Some ==> config_of(e).features
            == preset_features(json::read(e.presets->0@)->0),
{
    reveal_strlit("_lib");
}

/// The features of a case are what its second preset sets its three variables to, in lower case and in
/// the order of the variables; one that is not set, or set to nothing, gives none.
pub proof fn law_features_are_read_from_the_second_preset(
    data: json::JsonView,
    presets: Seq<json::JsonView>,
    vars: Map<Seq<char>, json::JsonView>,
)
    requires
        json::member(data, "configurePresets"@) == Some(json::JsonView::List(presets)),
        presets.len() >= 2,
        json::member(presets[1], "cacheVariables"@) == Some(json::JsonView::Object(vars)),
    ensures
        ({
            let set = |key: Seq<char>|
                if vars.dom().contains(key) && vars[key] is Text {
                    text::lowercase_form(vars[key]->Text_0)
                } else {
                    Seq::empty()
                };
            let all = seq![set("HASH_BACKEND"@), set("THASH"@), set("SECPAR"@)];
            preset_features(data) == all.filter(|f: Seq<char>| f.len() > 0)
        }),
{
    let set = |key: Seq<char>|
        if vars.dom().contains(key) && vars[key] is Text {
            text::lowercase_form(vars[key]->Text_0)
        } else {
            Seq::empty()
        };
    let a = set("HASH_BACKEND"@);
    let b = set("THASH"@);
    let c = set("SECPAR"@);
    let all = seq![a, b, c];
    let p = |f: Seq<char>| f.len() > 0;
    reveal(Seq::filter);
    assert(all.drop_last() =~= seq![a, b]);
    assert(all.drop_last().drop_last() =~= seq![a]);
    assert(all.drop_last().drop_last().drop_last() =~= Seq::<Seq<char>>::empty());
    assert(Seq::<Seq<char>>::empty().filter(p) =~= Seq::empty());
    let none = Seq::<Seq<char>>::empty();
    let fa = if a.len() > 0 {
        none.push(a)
    } else {
        none
    };
    let fb = if b.len() > 0 {
        fa.push(b)
    } else {
        fa
    };
    let fc = if c.len() > 0 {
        fb.push(c)
    } else {
        fb
    };
    assert(seq![a].filter(p) =~= fa);
    assert(seq![a, b].filter(p) =~= fb);
    assert(all.filter(p) =~= fc);
    assert(preset_features(data) =~= fc);
}

/// Without a second preset there are no features.
pub proof fn law_one_preset_selects_no_features(data: json::JsonView, presets: Seq<json::JsonView>)
    requires
        json::member(data, "configurePresets"@) == Some(json::JsonView::List(presets)),
        presets.len() < 2,
    ensures
        preset_features(data).len() == 0,
{
}

/// A library is named by the first group of the first match, and by none where nothing matches or the
/// group took no part.
pub proof fn law_a_library_is_named_by_the_first_group_of_the_first_match(
    first: Seq<Option<Seq<char>>>,
    rest: Seq<Seq<Option<Seq<char>>>>,
)
    ensures
        first.len() > 1 ==> named_first(Some(seq![first] + rest)) == first[1],
        first.len() <= 1 ==> named_first(Some(seq![first] + rest)) is None,
        named_first(Some(Seq::empty())) is None,
        named_first(None) is None,
{
    assert((seq![first] + rest)[0] == first);
}

/// The cost of a run is that of the last match: its first group and its second.
pub proof fn law_the_cost_is_that_of_the_last_match(
    before: Seq<Seq<Option<Seq<char>>>>,
    whole: Option<Seq<char>>,
    credits: Seq<char>,
    time: Seq<char>,
)
    ensures
        last_cost(Some(before.push(seq![whole, Some(credits), Some(time)]))) == Some(
            (credits, time),
        ),
        last_cost(Some(Seq::empty())) is None,
        last_cost(None) is None,
{
    let m = seq![whole, Some(credits), Some(time)];
    assert(before.push(m).last() == m);
    assert(m[1] == Some(credits) && m[2] == Some(time));
}

/// A feature that the manifest defines is taken as it is; one that it does not is taken in the composite
/// name with the first feature, where that is defined, and otherwise left out. Nothing that the
/// manifest does not define is ever taken.
pub proof fn law_only_defined_features_are_taken(
    defined: Seq<Seq<char>>,
    first: Seq<char>,
    features: Seq<Seq<char>>,
    f: Seq<char>,
)
    ensures
        defined.contains(f) ==> resolved_one(defined, first, f) == seq![f],
        !defined.contains(f) && defined.contains("sphincs-"@ + first + "-"@ + f) ==> resolved_one(
            defined,
            first,
            f,
        ) == seq!["sphincs-"@ + first + "-"@ + f],
        !defined.contains(f) && !defined.contains("sphincs-"@ + first + "-"@ + f) ==> resolved_one(
            defined,
            first,
            f,
        ).len() == 0,
        resolved_all(defined, first, features.push(f)) == resolved_all(defined, first, features)
            + resolved_one(defined, first, f),
        resolved_all(defined, first, Seq::empty()).len() == 0,
        forall|i: int|
            0 <= i < resolved_all(defined, first, features).len() ==> defined.contains(
                #[trigger] resolved_all(defined, first, features)[i],
            ),
    decreases features.len(),
{
    assert(features.push(f).drop_last() =~= features);
    if features.len() > 0 {
        law_only_defined_features_are_taken(defined, first, features.drop_last(), f);
        let a = resolved_all(defined, first, features.drop_last());
        let b = resolved_one(defined, first, features.last());
        let all = resolved_all(defined, first, features);
        assert forall|i: int| 0 <= i < all.len() implies defined.contains(#[trigger] all[i]) by {
            if i < a.len() {
                assert(all[i] == a[i]);
            } else {
                assert(all[i] == b[i - a.len()]);
            }
        }
    }
}

/// A case is asked for where it has C and vectors and the filter, if there is one, matches its name.
pub proof fn law_a_case_is_asked_for_by_the_filter(e: CaseEntry, f: Seq<char>)
    ensures
        counts(e, None) <==> e.has_case && e.has_vectors,
        counts(e, Some(f)) <==> e.has_case && e.has_vectors && patterns::matching(f, e.name@)
            == Some(true),
{
}

proof fn lemma_selected(
    order: Seq<int>,
    entries: Seq<CaseEntry>,
    filter: Option<Seq<char>>,
    i: int,
)
    ensures
        selected(order, entries, filter).contains(i) <==> order.contains(i) && counts(
            entries[i],
            filter,
        ),
    decreases order.len(),
{
    let all = selected(order, entries, filter);
    if order.len() > 0 {
        let d = order.drop_last();
        let before = selected(d, entries, filter);
        lemma_selected(d, entries, filter, i);
        if all.contains(i) {
            let k = choose|k: int| 0 <= k < all.len() && all[k] == i;
            if k < before.len() {
                assert(before[k] == i);
                let j = choose|j: int| 0 <= j < d.len() && d[j] == i;
                assert(order[j] == i);
            } else {
                assert(order[order.len() - 1] == i);
            }
        }
        if order.contains(i) && counts(entries[i], filter) {
            let j = choose|j: int| 0 <= j < order.len() && order[j] == i;
            if j < d.len() {
                assert(d[j] == i);
                let k = choose|k: int| 0 <= k < before.len() && before[k] == i;
                assert(all[k] == i);
            } else {
                assert(all[all.len() - 1] == i);
            }
        }
    }
}


/// Of the entries of a battery those are chosen that have C and vectors and pass the filter, and no
/// others.
pub proof fn law_the_chosen_entries_are_those_asked_for(
    entries: Seq<CaseEntry>,
    filter: Option<Seq<char>>,
    i: int,
)
    ensures
        chosen(entries, filter).contains(i) <==> {
            &&& 0 <= i < entries.len()
            &&& entries[i].has_case
            &&& entries[i].has_vectors
            &&& filter matches Some(f) ==> patterns::matching(f, entries[i].name@) == Some(true)
        },
{
    let ids = Seq::new(entries.len(), |i: int| i);
    let l = listed(entries);
    lemma_listing_order_total(entries);
    ids.lemma_sort_by_ensures(listing_order(entries));
    lemma_selected(l, entries, filter, i);
    ids.to_multiset_ensures();
    l.to_multiset_ensures();
    assert(ids.to_multiset() == l.to_multiset());
    vstd::seq_lib::to_multiset_contains(ids, i);
    vstd::seq_lib::to_multiset_contains(l, i);
    assert(ids.contains(i) <==> l.contains(i));
    if 0 <= i < entries.len() {
        assert(ids[i] == i);
    }
}

/// The entries are taken in the order of their file names, by their bytes.
pub proof fn law_entries_are_taken_by_their_file_names(entries: Seq<CaseEntry>, p: int, q: int)
    requires
        0 <= p < q < listed(entries).len(),
    ensures
        ({
            let a = entries[listed(entries)[p]].file_name@;
            let b = entries[listed(entries)[q]].file_name@;
            a == b || bytes::precedes(a, b)
        }),
{
    let ids = Seq::new(entries.len(), |i: int| i);
    let l = listed(entries);
    lemma_listing_order_total(entries);
    ids.lemma_sort_by_ensures(listing_order(entries));
    assert(listing_order(entries)(l[p], l[q]));
}

/// A link that leads nowhere, or to no case, is a fault, and a case with a source of its own has none;
/// what a case is linked to is the directory that holds the source.
pub proof fn law_a_broken_link_is_a_fault(e: CaseEntry)
    ensures
        e.link is Own ==> link_fault(e) is None && real_of(e) is None,
        e.link is Broken ==> link_fault(e) is Some && real_of(e) is None,
        e.link matches Link::To(p) ==> {
            &&& real_of(e) == paths::holder_in(p@)
            &&& link_fault(e) is None <==> paths::holder_in(p@) is Some
        },
{
}

/// Discovery goes on only where no chosen entry has a fault.
pub proof fn law_a_fault_stops_discovery(at: Seq<int>, entries: Seq<CaseEntry>, k: int)
    requires
        first_fault(at, entries) is None,
        0 <= k < at.len(),
    ensures
        link_fault(entries[at[k]]) is None,
    decreases at.len(),
{
    if k < at.len() - 1 {
        law_a_fault_stops_discovery(at.drop_last(), entries, k);
    }
}

/// The followers of a case stand in the order of their names.
pub proof fn law_followers_stand_in_order(
    at: Seq<int>,
    entries: Seq<CaseEntry>,
    name: Seq<char>,
)
    ensures
        sharing(at, entries, name).len() == sharers(at, at, entries, name).len(),
        text::in_order(sharers(at, at, entries, name)).to_multiset() == sharers(
            at,
            at,
            entries,
            name,
        ).to_multiset(),
{
    text::lemma_text_order_total();
    let s = sharers(at, at, entries, name);
    s.lemma_sort_by_ensures(text::text_order());
    s.to_multiset_ensures();
    text::in_order(s).to_multiset_ensures();
}

/// A battery is a directory among what is found; what is none is left out.
pub proof fn law_only_directories_are_batteries(found: Seq<(String, bool)>, name: Seq<char>)
    ensures
        directory_names(found).contains(name) <==> exists|k: int| 0 <= k < found.len() && (#[trigger] found[k]).0@ == name && found[k].1,
    decreases found.len(),
{
    let all = directory_names(found);
    if found.len() > 0 {
        let d = found.drop_last();
        let before = directory_names(d);
        law_only_directories_are_batteries(d, name);
        if all.contains(name) {
            let i = choose|i: int| 0 <= i < all.len() && all[i] == name;
            if i < before.len() {
                assert(before[i] == name);
                let k = choose|k: int| 0 <= k < d.len() && (#[trigger] d[k]).0@ == name && d[k].1;
                assert(found[k] == d[k]);
            } else {
                assert(found[found.len() - 1] == found.last());
            }
        }
        if exists|k: int| 0 <= k < found.len() && (#[trigger] found[k]).0@ == name && found[k].1 {
            let k = choose|k: int| 0 <= k < found.len() && (#[trigger] found[k]).0@ == name && found[k].1;
            if k < d.len() {
                assert(d[k] == found[k]);
                let i = choose|i: int| 0 <= i < before.len() && before[i] == name;
                assert(all[i] == name);
            } else {
                assert(all[all.len() - 1] == name);
            }
        }
    }
}

/// A project is kept unless it is one of the five that are left out.
pub proof fn law_five_projects_are_left_out(names: Seq<Seq<char>>, name: Seq<char>)
    ensures
        not_skipped(names).contains(name) <==> exists|k: int| 0 <= k < names.len() && (#[trigger] names[k]) == name && name != "Genetic_neural_network_for_simple_control"@ && name != "Holdem_Odds"@ && name != "VaultSync"@ && name != "bitset"@ && name != "clog"@,
    decreases names.len(),
{
    let all = not_skipped(names);
    if names.len() > 0 {
        let d = names.drop_last();
        let before = not_skipped(d);
        law_five_projects_are_left_out(d, name);
        if all.contains(name) {
            let i = choose|i: int| 0 <= i < all.len() && all[i] == name;
            if i < before.len() {
                assert(before[i] == name);
                let k = choose|k: int| 0 <= k < d.len() && (#[trigger] d[k]) == name && name != "Genetic_neural_network_for_simple_control"@ && name != "Holdem_Odds"@ && name != "VaultSync"@ && name != "bitset"@ && name != "clog"@;
                assert(names[k] == d[k]);
            } else {
                assert(names[names.len() - 1] == names.last());
            }
        }
        if exists|k: int| 0 <= k < names.len() && (#[trigger] names[k]) == name && name != "Genetic_neural_network_for_simple_control"@ && name != "Holdem_Odds"@ && name != "VaultSync"@ && name != "bitset"@ && name != "clog"@ {
            let k = choose|k: int| 0 <= k < names.len() && (#[trigger] names[k]) == name && name != "Genetic_neural_network_for_simple_control"@ && name != "Holdem_Odds"@ && name != "VaultSync"@ && name != "bitset"@ && name != "clog"@;
            if k < d.len() {
                assert(d[k] == names[k]);
                let i = choose|i: int| 0 <= i < before.len() && before[i] == name;
                assert(all[i] == name);
            } else {
                assert(all[all.len() - 1] == name);
            }
        }
    }
}

/// A limit takes the first names, as many as it says, and no limit takes all.
pub proof fn law_a_limit_takes_the_first(names: Seq<Seq<char>>, limit: Option<usize>, i: int)
    ensures
        limit is None ==> limited(names, limit) == names,
        limit matches Some(n) ==> limited(names, limit).len() == if n < names.len() {
            n as nat
        } else {
            names.len()
        },
        0 <= i < limited(names, limit).len() ==> limited(names, limit)[i] == names[i],
{
}

proof fn lemma_first_there(candidates: Seq<Seq<char>>, dirs: Seq<Seq<char>>)
    ensures
        match first_there(candidates, dirs) {
            Some(c) => dirs.contains(c) && exists|k: int|
                0 <= k < candidates.len() && #[trigger] candidates[k] == c && forall|j: int|
                    0 <= j < k ==> !dirs.contains(#[trigger] candidates[j]),
            None => forall|j: int|
                0 <= j < candidates.len() ==> !dirs.contains(#[trigger] candidates[j]),
        },
    decreases candidates.len(),
{
    if candidates.len() > 0 {
        let d = candidates.drop_last();
        lemma_first_there(d, dirs);
        match first_there(d, dirs) {
            Some(c) => {
                let k = choose|k: int|
                    0 <= k < d.len() && #[trigger] d[k] == c && forall|j: int|
                        0 <= j < k ==> !dirs.contains(#[trigger] d[j]);
                assert(candidates[k] == c);
                assert forall|j: int| 0 <= j < k implies !dirs.contains(
                    #[trigger] candidates[j],
                ) by {
                    assert(candidates[j] == d[j]);
                }
            },
            None => {
                assert forall|j: int| 0 <= j < d.len() implies !dirs.contains(
                    #[trigger] candidates[j],
                ) by {
                    assert(candidates[j] == d[j]);
                }
                assert(candidates[candidates.len() - 1] == candidates.last());
            },
        }
    }
}

/// The source of a project is looked for under its own name, then with hyphens, and then with hyphens
/// and without `proj_`; the first that is there is taken, and nothing that is not there.
pub proof fn law_the_source_of_a_project_is_the_first_that_is_there(
    datasets: Seq<char>,
    project: Seq<char>,
    dirs: Seq<Seq<char>>,
)
    ensures
        ({
            let cbench = paths::joined(datasets, "CBench"@);
            let own = paths::joined(cbench, project);
            let hyphens = paths::joined(cbench, text::exchanged(project, '_', '-'));
            &&& dirs.contains(own) ==> cbench_in(datasets, project, dirs) == Some(own)
            &&& !dirs.contains(own) && dirs.contains(hyphens) ==> cbench_in(datasets, project, dirs)
                == Some(hyphens)
            &&& cbench_in(datasets, project, dirs) matches Some(c) ==> dirs.contains(c)
            &&& !text::begins(project, "proj_"@) && !dirs.contains(own) && !dirs.contains(hyphens)
                ==> cbench_in(datasets, project, dirs) is None
        }),
{
    let cbench = paths::joined(datasets, "CBench"@);
    let cs = cbench_candidates(project).map_values(|c: Seq<char>| paths::joined(cbench, c));
    lemma_first_there(cs, dirs);
    assert(cs.len() == 3);
    assert(cs[0] == paths::joined(cbench, project));
    assert(cs[1] == paths::joined(cbench, text::exchanged(project, '_', '-')));
    assert(cs[2] == paths::joined(cbench, text::exchanged(without_proj(project), '_', '-')));
}

/// A project whose name begins with `proj_` is also looked for without that, with hyphens.
pub proof fn law_a_prefix_of_a_project_is_dropped(
    datasets: Seq<char>,
    rest: Seq<char>,
    dirs: Seq<Seq<char>>,
)
    requires
        ({
            let cbench = paths::joined(datasets, "CBench"@);
            &&& !dirs.contains(paths::joined(cbench, "proj_"@ + rest))
            &&& !dirs.contains(paths::joined(cbench, text::exchanged("proj_"@ + rest, '_', '-')))
            &&& dirs.contains(paths::joined(cbench, text::exchanged(rest, '_', '-')))
        }),
    ensures
        cbench_in(datasets, "proj_"@ + rest, dirs) == Some(
            paths::joined(paths::joined(datasets, "CBench"@), text::exchanged(rest, '_', '-')),
        ),
{
    let project = "proj_"@ + rest;
    let cbench = paths::joined(datasets, "CBench"@);
    assert(project.subrange(0, "proj_"@.len() as int) =~= "proj_"@);
    assert(without_proj(project) =~= rest);
    let cs = cbench_candidates(project).map_values(|c: Seq<char>| paths::joined(cbench, c));
    lemma_first_there(cs, dirs);
    assert(cs.len() == 3);
    assert(cs[0] == paths::joined(cbench, project));
    assert(cs[1] == paths::joined(cbench, text::exchanged(project, '_', '-')));
    assert(cs[2] == paths::joined(cbench, text::exchanged(rest, '_', '-')));
}

/// A project is taken only where both its scaffold and its source are there.
pub proof fn law_a_project_has_a_scaffold_and_a_source(
    datasets: Seq<char>,
    name: Seq<char>,
    dirs: Seq<Seq<char>>,
)
    ensures
        crust_resolved(datasets, name, dirs) matches Ok(p) ==> {
            &&& p.name == name
            &&& p.scaffold == paths::joined(paths::joined(datasets, "RBench"@), name)
            &&& dirs.contains(p.scaffold)
            &&& dirs.contains(p.c_source)
        },
        crust_resolved(datasets, name, dirs) is Ok <==> dirs.contains(
            paths::joined(paths::joined(datasets, "RBench"@), name),
        ) && cbench_in(datasets, name, dirs) is Some,
{
    let cbench = paths::joined(datasets, "CBench"@);
    lemma_first_there(
        cbench_candidates(name).map_values(|c: Seq<char>| paths::joined(cbench, c)),
        dirs,
    );
}

/// A duration is the sum of its words: minutes count sixty seconds each and seconds one, and any other
/// word nothing.
pub proof fn law_a_duration_is_the_sum_of_its_words(ws: Seq<Seq<char>>, w: Seq<char>, n: u64)
    ensures
        word_seconds(text::numeral(n as nat) + "m"@) == n * 60,
        word_seconds(text::numeral(n as nat) + "s"@) == n,
        w.len() == 0 || (w.last() != 'm' && w.last() != 's') ==> word_seconds(w) == 0,
        words_seconds(ws.push(w)) == words_seconds(ws) + word_seconds(w),
        words_seconds(Seq::empty()) == 0,
{
    assert(ws.push(w).drop_last() =~= ws);
    reveal_strlit("m");
    reveal_strlit("s");
    let d = text::numeral(n as nat);
    text::lemma_numeral_value(n as nat);
    assert((d + "m"@).drop_last() =~= d);
    assert((d + "s"@).drop_last() =~= d);
    assert(text::is_digit(d[0]));
}

/// A region counts its lines from the first to the last, both of them; regions are added up, also those
/// that lie in one another.
pub proof fn law_regions_are_added_up(
    all: Seq<Seq<metrics::Region>>,
    regions: Seq<metrics::Region>,
    r: metrics::Region,
)
    ensures
        r.start <= r.end ==> region_lines(r) == r.end - r.start + 1,
        r.end < r.start ==> region_lines(r) == 1,
        lines_of_regions(regions.push(r)) == lines_of_regions(regions) + region_lines(r),
        lines_of_files(all.push(regions)) == lines_of_files(all) + lines_of_regions(regions),
        lines_of_regions(Seq::empty()) == 0,
        lines_of_files(Seq::empty()) == 0,
{
    assert(regions.push(r).drop_last() =~= regions);
    assert(all.push(regions).drop_last() =~= all);
}

/// Each dataset has results of its own, and the two that share a corpus do not share results.
pub proof fn law_each_dataset_has_its_own_results()
    ensures
        corpus_name(Dataset::TestCorpus) == "test-corpus"@,
        corpus_name(Dataset::Crust) == "crust-bench/datasets"@,
        corpus_name(Dataset::BlindCrust) == corpus_name(Dataset::Crust),
        results_name(Dataset::TestCorpus) == "results/Test-Corpus"@,
        results_name(Dataset::Crust) == "results/CRUST"@,
        results_name(Dataset::BlindCrust) == results_name(Dataset::Crust) + "-blind"@,
        agent_name(Agent::KiroTranslate) == agent_name(Agent::Kiro) + "-translate"@,
        agent_name(Agent::Kiro) == "kiro"@,
        agent_name(Agent::C2rust) == "c2rust"@,
{
    reveal_strlit("results/CRUST");
    reveal_strlit("results/CRUST-blind");
    reveal_strlit("-blind");
    reveal_strlit("kiro");
    reveal_strlit("kiro-translate");
    reveal_strlit("-translate");
    assert("results/CRUST-blind"@ =~= "results/CRUST"@ + "-blind"@);
    assert("kiro-translate"@ =~= "kiro"@ + "-translate"@);
}

/// A number is of digits with one point at most, and has a digit.
pub proof fn law_a_decimal_has_one_point_at_most(s: Seq<char>, c: char)
    ensures
        !is_decimal(Seq::empty()),
        text::is_digit(c) ==> is_decimal(seq![c]),
        !is_decimal(seq!['.']),
        is_decimal(s) && text::is_digit(c) ==> is_decimal(s.push(c)),
        is_decimal(s) && text::times(s, '.') == 0 ==> is_decimal(s.push('.')),
        is_decimal(s) && text::times(s, '.') == 1 ==> !is_decimal(s.push('.')),
        !text::is_digit(c) && c != '.' ==> !is_decimal(s.push(c)),
{
    reveal_with_fuel(text::times, 3);
    let t = s.push(c);
    let p = s.push('.');
    assert(t.drop_last() =~= s);
    assert(p.drop_last() =~= s);
    assert(t[s.len() as int] == c);
    let one = seq![c];
    assert(one.drop_last() =~= Seq::<char>::empty());
    assert(one[0] == c);
    assert(seq!['.'][0] == '.');
    assert forall|i: int| 0 <= i < s.len() implies t[i] == #[trigger] s[i] && p[i] == s[i] by {}
    if is_decimal(s) {
        let k = choose|k: int| 0 <= k < s.len() && text::is_digit(#[trigger] s[k]);
        assert(text::is_digit(t[k]) && text::is_digit(p[k]));
    }
}

/// A cost is what was named: the credits as they were written, and the seconds of the duration. There
/// is none where none was named, where the credits are no number, or where the duration is too long.
pub proof fn law_a_cost_is_what_was_named(
    m: AgentRunMeta,
    credits: Seq<char>,
    duration: Seq<char>,
)
    ensures
        is_cost(None, None),
        !is_cost(Some(m), None),
        is_cost(Some(m), Some((credits, duration))) <==> is_decimal(credits) && m.credits@
            == credits && m.wall_secs == duration_seconds(duration),
        is_cost(None, Some((credits, duration))) <==> !is_decimal(credits) || duration_seconds(
            duration,
        ) > u64::MAX,
{
}

/// Prompts are kept together, but for those of the default agent, which has a directory of its own.
pub proof fn law_the_default_agent_has_its_own_prompts(a: Agent)
    ensures
        a == Agent::Claude ==> prompts_name(a) == "scripts/prompts/"@ + program::program(),
        a != Agent::Claude ==> prompts_name(a) == "scripts/prompts"@,
{
}

/// A filter is one where it can be read as a pattern, and where there is none nothing is wrong.
pub proof fn law_a_filter_is_a_pattern(f: Seq<char>, s: Seq<Seq<char>>)
    ensures
        is_pattern(None),
        is_pattern(Some(f)) <==> patterns::matching(f, ""@) is Some,
        s.len() > 0 ==> first_of(s) == s[0],
        s.len() == 0 ==> first_of(s) == ""@,
{
}

} // verus!
