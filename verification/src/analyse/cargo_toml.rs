//! The manifest of a translated crate, and the edits that fit it to the runner.

use crate::paths;
use crate::text;
use crate::toml;
use crate::toml::Kind;
use vstd::prelude::*;
use vstd::string::*;

verus! {

/// A `Cargo.toml` and where it stands.
pub struct CargoToml {
    doc: toml_edit::DocumentMut,
    path: String,
}

/// The document with an empty table under `name`, where nothing stood there.
pub open spec fn with_table(c: toml::Entries, name: Seq<char>) -> toml::Entries {
    if toml::find(c, name) is None {
        toml::put(c, name, toml::TomlItem::Table(Seq::empty()))
    } else {
        c
    }
}

/// The document with `value` at `key` of the table under `name`; unchanged where no table stands
/// there.
pub open spec fn with_value(
    c: toml::Entries,
    name: Seq<char>,
    key: Seq<char>,
    value: toml::TomlItem,
) -> toml::Entries {
    match toml::table_in(c, name) {
        Some(t) => toml::put(c, name, toml::TomlItem::Table(toml::put(t, key, value))),
        None => c,
    }
}

/// The document as the manifest of a C library with the given name.
pub open spec fn as_lib(c: toml::Entries, name: Seq<char>) -> toml::Entries {
    with_value(
        with_value(with_table(c, "lib"@), "lib"@, "name"@, toml::TomlItem::Text(name)),
        "lib"@,
        "crate-type"@,
        toml::TomlItem::Other(toml::array_form(seq!["cdylib"@])),
    )
}

/// The document with its first binary named `driver`; where it has none, with one of that name.
pub open spec fn as_driver(c: toml::Entries) -> toml::Entries {
    match toml::find(c, "bin"@) {
        Some(toml::TomlItem::Tables(t)) => if t.len() > 0 {
            toml::put(
                c,
                "bin"@,
                toml::TomlItem::Tables(
                    t.update(0, toml::put(t[0], "name"@, toml::TomlItem::Text("driver"@))),
                ),
            )
        } else {
            with_driver(c)
        },
        _ => with_driver(c),
    }
}

/// The document with one binary, the driver.
pub open spec fn with_driver(c: toml::Entries) -> toml::Entries {
    toml::put(
        c,
        "bin"@,
        toml::TomlItem::Tables(
            seq![
                seq![
                    ("name"@, toml::TomlItem::Text("driver"@)),
                    ("path"@, toml::TomlItem::Text("src/main.rs"@)),
                ],
            ],
        ),
    )
}

/// The document with these default features.
pub open spec fn with_default_features(
    c: toml::Entries,
    features: Seq<Seq<char>>,
) -> toml::Entries {
    with_value(
        with_table(c, "features"@),
        "features"@,
        "default"@,
        toml::TomlItem::Other(toml::array_form(features)),
    )
}

/// The features that a document defines: the names of its `features` table but `default`.
pub open spec fn features_in(c: toml::Entries) -> Seq<Seq<char>> {
    match toml::table_in(c, "features"@) {
        Some(t) => toml::names(t).filter(|k: Seq<char>| k != "default"@),
        None => Seq::empty(),
    }
}

impl View for CargoToml {
    type V = toml::Entries;

    closed spec fn view(&self) -> toml::Entries {
        toml::contents(self.doc)
    }
}

impl CargoToml {
    /// Where the manifest stands.
    pub closed spec fn place(&self) -> Seq<char> {
        self.path@
    }

    /// How the manifest is written.
    pub closed spec fn form(&self) -> Seq<char> {
        toml::written(self.doc)
    }

    /// The manifest at `path` with the given text, where the text is TOML.
    pub fn open(path: &str, content: &str) -> (r: Result<CargoToml, String>)
        ensures
            r is Ok <==> toml::read(content@) is Some,
            r matches Ok(m) ==> toml::read(content@) == Some(m@) && m.place() == path@,
            r matches Err(e) ==> e@ == "parsing "@ + path@,
    {
        match toml::parse(content) {
            Some(doc) => Ok(CargoToml { doc, path: text::copy(path) }),
            None => Err(text::join2("parsing ", path)),
        }
    }

    /// The text of the manifest, to be written where it stands.
    pub fn text(&self) -> (r: String)
        ensures
            r@ == self.form(),
    {
        toml::write(&self.doc)
    }

    /// Where the manifest stands.
    pub fn path(&self) -> (r: &str)
        ensures
            r@ == self.place(),
    {
        self.path.as_str()
    }

    fn table(&mut self, name: &str)
        ensures
            final(self)@ == with_table(old(self)@, name@),
            final(self).place() == old(self).place(),
    {
        if toml::kind_at(&self.doc, name) == Kind::Nothing {
            toml::insert_table(&mut self.doc, name);
        }
    }

    /// Makes the crate a C library with the given name.
    pub fn set_lib(&mut self, name: &str)
        ensures
            final(self)@ == as_lib(old(self)@, name@),
            final(self).place() == old(self).place(),
    {
        self.table("lib");
        if toml::kind_at(&self.doc, "lib") == Kind::Table {
            let ghost c = self@;
            toml::insert_text(&mut self.doc, "lib", "name", name);
            let mut types: Vec<String> = Vec::new();
            types.push(text::copy("cdylib"));
            proof {
                let t = toml::table_in(c, "lib"@)->0;
                toml::lemma_put_find(
                    c,
                    "lib"@,
                    toml::TomlItem::Table(toml::put(t, "name"@, toml::TomlItem::Text(name@))),
                    "lib"@,
                );
                assert(text::views(types@) =~= seq!["cdylib"@]);
            }
            toml::insert_array(&mut self.doc, "lib", "crate-type", types.as_slice());
        }
    }

    /// Names the first binary `driver`, or adds one of that name.
    pub fn set_bin_driver(&mut self)
        ensures
            final(self)@ == as_driver(old(self)@),
            final(self).place() == old(self).place(),
    {
        if let Kind::Tables(n) = toml::kind_at(&self.doc, "bin") {
            if n > 0 {
                toml::insert_in_first(&mut self.doc, "bin", "name", "driver");
                return;
            }
        }
        proof {
            reveal_strlit("name");
            reveal_strlit("path");
            assert("name"@[0] != "path"@[0]);
        }
        toml::insert_tables(&mut self.doc, "bin", ("name", "driver"), ("path", "src/main.rs"));
    }

    /// Drops every binary.
    pub fn remove_bin(&mut self)
        ensures
            final(self)@ == toml::without(old(self)@, "bin"@),
            final(self).place() == old(self).place(),
    {
        toml::remove(&mut self.doc, "bin");
    }

    /// Makes the crate its own workspace, where it names none.
    pub fn add_workspace(&mut self)
        ensures
            final(self)@ == with_table(old(self)@, "workspace"@),
            final(self).place() == old(self).place(),
    {
        self.table("workspace");
    }

    /// Sets the default features.
    pub fn set_default_features(&mut self, features: &[String])
        ensures
            final(self)@ == with_default_features(old(self)@, text::views(features@)),
            final(self).place() == old(self).place(),
    {
        self.table("features");
        if toml::kind_at(&self.doc, "features") == Kind::Table {
            toml::insert_array(&mut self.doc, "features", "default", features);
        }
    }

    /// The features that the crate defines, without `default`.
    pub fn defined_features(&self) -> (r: Vec<String>)
        ensures
            text::views(r@) == features_in(self@),
    {
        let mut out: Vec<String> = Vec::new();
        let ghost keep = |k: Seq<char>| k != "default"@;
        match toml::table_names(&self.doc, "features") {
            Some(all) => {
                let ghost names = text::views(all@);
                let mut i: usize = 0;
                proof {
                    assert(names.subrange(0, 0).filter(keep) =~= Seq::empty()) by {
                        reveal(Seq::filter);
                    }
                    assert(text::views(out@) =~= Seq::empty());
                }
                while i < all.len()
                    invariant
                        i <= all.len(),
                        names == text::views(all@),
                        keep == (|k: Seq<char>| k != "default"@),
                        text::views(out@) == names.subrange(0, i as int).filter(keep),
                    decreases all.len() - i,
                {
                    broadcast use text::lemma_views_push;

                    proof {
                        let next = names.subrange(0, i + 1);
                        assert(next.drop_last() =~= names.subrange(0, i as int));
                        assert(next.last() == all@[i as int]@);
                        reveal(Seq::filter);
                    }
                    if !text::same_text(all[i].as_str(), "default") {
                        out.push(text::copy(all[i].as_str()));
                    }
                    i = i + 1;
                }
                assert(names.subrange(0, all.len() as int) =~= names);
            },
            None => {
                assert(text::views(out@) =~= Seq::<Seq<char>>::empty());
            },
        }
        out
    }
}

// ---------------------------------------------------------------------------
// What a library does without
// ---------------------------------------------------------------------------

/// What is removed from a crate that becomes a library: its program and its tests, where it has them.
pub open spec fn beyond_a_library(dir: Seq<char>, main: bool, tests: bool) -> Seq<Seq<char>> {
    (if main {
        seq![paths::joined(dir, "src/main.rs"@)]
    } else {
        Seq::empty()
    }) + (if tests {
        seq![paths::joined(dir, "tests"@)]
    } else {
        Seq::empty()
    })
}

/// What is removed from a crate that becomes a library. `main` and `tests` say whether its
/// `src/main.rs` and its `tests` are there.
pub fn strip_for_lib(dir: &str, main: bool, tests: bool) -> (r: Vec<String>)
    ensures
        text::views(r@) == beyond_a_library(dir@, main, tests),
{
    let mut out: Vec<String> = Vec::new();
    if main {
        out.push(paths::join(dir, "src/main.rs"));
    }
    if tests {
        out.push(paths::join(dir, "tests"));
    }
    assert(text::views(out@) =~= beyond_a_library(dir@, main, tests));
    out
}

// ---------------------------------------------------------------------------
// Laws
// ---------------------------------------------------------------------------

/// A second workspace is never added: the edit is idempotent.
pub proof fn law_add_workspace_is_idempotent(c: toml::Entries)
    ensures
        with_table(with_table(c, "workspace"@), "workspace"@) == with_table(c, "workspace"@),
        toml::find(with_table(c, "workspace"@), "workspace"@) is Some,
{
    toml::lemma_put_find(
        c,
        "workspace"@,
        toml::TomlItem::Table(Seq::empty()),
        "workspace"@,
    );
}

/// After `remove_bin` the document has no binary, and everything else is as it was.
pub proof fn law_remove_bin_leaves_no_bin(c: toml::Entries, other: Seq<char>)
    ensures
        toml::find(toml::without(c, "bin"@), "bin"@) is None,
        other != "bin"@ ==> toml::find(toml::without(c, "bin"@), other) == toml::find(c, other),
    decreases c.len(),
{
    reveal(Seq::filter);
    if c.len() > 0 {
        law_remove_bin_leaves_no_bin(c.drop_last(), other);
        let rest = toml::without(c.drop_last(), "bin"@);
        if c.last().0 != "bin"@ {
            assert(toml::without(c, "bin"@) =~= rest.push(c.last()));
            assert(rest.push(c.last()).drop_last() =~= rest);
        }
    }
}

/// The library that `set_lib` made has the name asked for, whatever the document held before, as
/// long as no value that is no table stood under `lib`.
pub proof fn law_set_lib_names_the_library(c: toml::Entries, name: Seq<char>)
    requires
        toml::find(c, "lib"@) is None || toml::find(c, "lib"@)->0 is Table,
    ensures
        toml::value_in(as_lib(c, name), "lib"@, "name"@) == Some(toml::TomlItem::Text(name)),
{
    reveal_strlit("name");
    reveal_strlit("crate-type");
    assert("name"@.len() != "crate-type"@.len());
    let c1 = with_table(c, "lib"@);
    toml::lemma_put_find(c, "lib"@, toml::TomlItem::Table(Seq::empty()), "lib"@);
    let t1 = toml::table_in(c1, "lib"@)->0;
    let t2 = toml::put(t1, "name"@, toml::TomlItem::Text(name));
    let c2 = with_value(c1, "lib"@, "name"@, toml::TomlItem::Text(name));
    toml::lemma_put_find(c1, "lib"@, toml::TomlItem::Table(t2), "lib"@);
    let kind = toml::TomlItem::Other(toml::array_form(seq!["cdylib"@]));
    toml::lemma_put_find(
        c2,
        "lib"@,
        toml::TomlItem::Table(toml::put(t2, "crate-type"@, kind)),
        "lib"@,
    );
    toml::lemma_put_find(t1, "name"@, toml::TomlItem::Text(name), "name"@);
    toml::lemma_put_find(t2, "crate-type"@, kind, "name"@);
}

/// A manifest is made one of a shared library, and nothing but its library changes.
pub proof fn law_a_library_is_built_to_be_loaded(
    c: toml::Entries,
    name: Seq<char>,
    other: Seq<char>,
)
    requires
        toml::find(c, "lib"@) is None || toml::find(c, "lib"@)->0 is Table,
    ensures
        toml::value_in(as_lib(c, name), "lib"@, "crate-type"@) == Some(
            toml::TomlItem::Other(toml::array_form(seq!["cdylib"@])),
        ),
        toml::value_in(as_lib(c, name), "lib"@, "name"@) == Some(toml::TomlItem::Text(name)),
        other != "lib"@ ==> toml::find(as_lib(c, name), other) == toml::find(c, other),
{
    let a = with_table(c, "lib"@);
    toml::law_what_is_put_is_found(c, "lib"@, toml::TomlItem::Table(Seq::empty()), "lib"@);
    toml::law_what_is_put_is_found(c, "lib"@, toml::TomlItem::Table(Seq::empty()), other);
    let t = toml::table_in(a, "lib"@)->0;
    let kind = toml::TomlItem::Other(toml::array_form(seq!["cdylib"@]));
    lemma_with_value(a, "lib"@, "name"@, toml::TomlItem::Text(name), other);
    let b = with_value(a, "lib"@, "name"@, toml::TomlItem::Text(name));
    lemma_with_value(b, "lib"@, "crate-type"@, kind, other);
    let u = toml::table_in(b, "lib"@)->0;
    reveal_strlit("name");
    reveal_strlit("crate-type");
    assert("name"@.len() == 4 && "crate-type"@.len() == 10);
    toml::law_what_is_put_is_found(u, "crate-type"@, kind, "name"@);
    toml::law_what_is_put_is_found(t, "name"@, toml::TomlItem::Text(name), "name"@);
}

proof fn lemma_with_value(
    c: toml::Entries,
    name: Seq<char>,
    key: Seq<char>,
    value: toml::TomlItem,
    other: Seq<char>,
)
    requires
        toml::table_in(c, name) is Some,
    ensures
        toml::table_in(with_value(c, name, key, value), name) == Some(
            toml::put(toml::table_in(c, name)->0, key, value),
        ),
        other != name ==> toml::find(with_value(c, name, key, value), other) == toml::find(c, other),
{
    let t = toml::table_in(c, name)->0;
    toml::law_what_is_put_is_found(
        c,
        name,
        toml::TomlItem::Table(toml::put(t, key, value)),
        other,
    );
}

/// A manifest is made one of a program named `driver`: the first program is, or one is added with the
/// usual source. Nothing but its programs changes.
pub proof fn law_a_program_is_named_driver(c: toml::Entries, other: Seq<char>)
    ensures
        toml::find(as_driver(c), "bin"@) matches Some(toml::TomlItem::Tables(t)) && t.len() > 0
            && toml::find(t[0], "name"@) == Some(toml::TomlItem::Text("driver"@)),
        toml::find(c, "bin"@) is None ==> (toml::find(as_driver(c), "bin"@) matches Some(
            toml::TomlItem::Tables(t),
        ) && t.len() == 1 && toml::find(t[0], "path"@) == Some(
            toml::TomlItem::Text("src/main.rs"@),
        )),
        other != "bin"@ ==> toml::find(as_driver(c), other) == toml::find(c, other),
{
    let one = seq![
        ("name"@, toml::TomlItem::Text("driver"@)),
        ("path"@, toml::TomlItem::Text("src/main.rs"@)),
    ];
    reveal_strlit("name");
    reveal_strlit("path");
    assert("name"@[0] == 'n' && "path"@[0] == 'p');
    assert(one.drop_last() =~= seq![("name"@, toml::TomlItem::Text("driver"@))]);
    assert(one.last().0 == "path"@);
    assert(toml::find(one.drop_last(), "name"@) == Some(toml::TomlItem::Text("driver"@)));
    assert(toml::find(one, "name"@) == Some(toml::TomlItem::Text("driver"@)));
    assert(toml::find(one, "path"@) == Some(toml::TomlItem::Text("src/main.rs"@)));
    toml::law_what_is_put_is_found(c, "bin"@, toml::TomlItem::Tables(seq![one]), "bin"@);
    toml::law_what_is_put_is_found(c, "bin"@, toml::TomlItem::Tables(seq![one]), other);
    assert(seq![one][0] == one);
    if let Some(toml::TomlItem::Tables(t)) = toml::find(c, "bin"@) {
        if t.len() > 0 {
            let first = toml::put(t[0], "name"@, toml::TomlItem::Text("driver"@));
            toml::law_what_is_put_is_found(
                t[0],
                "name"@,
                toml::TomlItem::Text("driver"@),
                "name"@,
            );
            let u = toml::TomlItem::Tables(t.update(0, first));
            toml::law_what_is_put_is_found(c, "bin"@, u, "bin"@);
            toml::law_what_is_put_is_found(c, "bin"@, u, other);
            assert(t.update(0, first)[0] == first);
        }
    }
}

/// The features that are on by default are those that are asked for, and nothing but the features
/// changes.
pub proof fn law_the_default_features_are_those_asked_for(
    c: toml::Entries,
    features: Seq<Seq<char>>,
    other: Seq<char>,
)
    requires
        toml::find(c, "features"@) is None || toml::find(c, "features"@)->0 is Table,
    ensures
        toml::value_in(with_default_features(c, features), "features"@, "default"@) == Some(
            toml::TomlItem::Other(toml::array_form(features)),
        ),
        other != "features"@ ==> toml::find(with_default_features(c, features), other)
            == toml::find(c, other),
{
    let a = with_table(c, "features"@);
    toml::law_what_is_put_is_found(c, "features"@, toml::TomlItem::Table(Seq::empty()), other);
    toml::law_what_is_put_is_found(
        c,
        "features"@,
        toml::TomlItem::Table(Seq::empty()),
        "features"@,
    );
    let v = toml::TomlItem::Other(toml::array_form(features));
    lemma_with_value(a, "features"@, "default"@, v, other);
    toml::law_what_is_put_is_found(
        toml::table_in(a, "features"@)->0,
        "default"@,
        v,
        "default"@,
    );
}

/// A feature is defined where the manifest names it among its features; the default is none.
pub proof fn law_a_feature_is_defined_by_its_name(c: toml::Entries, f: Seq<char>)
    ensures
        toml::table_in(c, "features"@) is None ==> features_in(c).len() == 0,
        toml::table_in(c, "features"@) matches Some(t) ==> (features_in(c).contains(f)
            <==> toml::names(t).contains(f) && f != "default"@),
{
    if let Some(t) = toml::table_in(c, "features"@) {
        text::lemma_kept(toml::names(t), |k: Seq<char>| k != "default"@, f);
    }
}

/// What a library does not need is removed where it is there: its program and its tests.
pub proof fn law_a_library_keeps_no_program(dir: Seq<char>, main: bool, tests: bool)
    ensures
        main ==> beyond_a_library(dir, main, tests)[0] == paths::joined(dir, "src/main.rs"@),
        tests ==> beyond_a_library(dir, main, tests).last() == paths::joined(dir, "tests"@),
        beyond_a_library(dir, main, tests).len() == (if main {
            1int
        } else {
            0int
        }) + (if tests {
            1int
        } else {
            0int
        }),
{
}

} // verus!
