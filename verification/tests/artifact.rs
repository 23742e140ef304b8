//! Artifacts: which files they carry, what they hash to, and when one may be sealed.

use harvest_tools::artifact;
use harvest_tools::artifact::clear_phase;
use harvest_tools::artifact::digest_tree;
use harvest_tools::artifact::is_build_product;
use harvest_tools::artifact::phase_log;
use harvest_tools::artifact::phase_metrics;
use harvest_tools::artifact::scrub;
use harvest_tools::artifact::scrub_text;
use harvest_tools::artifact::seal;
use harvest_tools::artifact::seed;
use harvest_tools::artifact::visit;
use harvest_tools::artifact::Admit;
use harvest_tools::artifact::CDir;
use harvest_tools::artifact::Corpus;
use harvest_tools::artifact::Entry;
use harvest_tools::artifact::Node;
use harvest_tools::artifact::Oracle;
use harvest_tools::artifact::OracleChange;
use harvest_tools::artifact::Refusal;
use harvest_tools::artifact::Sealed;
use harvest_tools::artifact::Sealing;
use harvest_tools::artifact::SeedAt;
use harvest_tools::artifact::SeededBy;
use harvest_tools::artifact::Translate;
use harvest_tools::artifact::Verify;
use harvest_tools::digest;
use harvest_tools::domain::contents::classify;
use harvest_tools::domain::contents::Carry;
use harvest_tools::domain::contents::Disposition;
use harvest_tools::domain::health;
use harvest_tools::domain::health::Completed;
use harvest_tools::domain::health::Exit;
use harvest_tools::domain::health::LogFormat;
use harvest_tools::domain::relpath::RelPath;

fn rel(s: &str) -> RelPath {
    RelPath::new(s).unwrap()
}

// Puts a file into a tree, with the directories on its way.
fn put(into: &mut Vec<Entry>, path: &[u8], body: &[u8]) {
    let slash = path.iter().position(|b| *b == b'/');
    let name = match slash {
        Some(i) => &path[..i],
        None => path,
    };
    if let Some(i) = into.iter().position(|e| e.name == name) {
        match (&mut into[i].node, slash) {
            (Node::Dir(below), Some(at)) => put(below, &path[at + 1..], body),
            (node, _) => *node = Node::File(body.to_vec()),
        }
        return;
    }
    let node = match slash {
        Some(at) => {
            let mut below = Vec::new();
            put(&mut below, &path[at + 1..], body);
            Node::Dir(below)
        }
        None => Node::File(body.to_vec()),
    };
    into.push(Entry { name: name.to_vec(), link: false, node });
}

fn tree(files: &[(&str, &str)]) -> Vec<Entry> {
    let mut out = Vec::new();
    for (p, c) in files {
        put(&mut out, p.as_bytes(), c.as_bytes());
    }
    out
}

fn remove(from: &mut Vec<Entry>, path: &str) {
    match path.split_once('/') {
        None => from.retain(|e| e.name != path.as_bytes()),
        Some((dir, rest)) => {
            for e in from.iter_mut().filter(|e| e.name == dir.as_bytes()) {
                if let Node::Dir(below) = &mut e.node {
                    remove(below, rest);
                }
            }
        }
    }
}

// The copy of a tree that carries what is admitted.
fn carried(from: &Vec<Entry>, how: Carry) -> Vec<Entry> {
    let mut out = Vec::new();
    for f in visit(from, Admit::Carried(how)) {
        put(&mut out, &f.path, f.content);
    }
    out
}

fn holds(t: &Vec<Entry>, path: &str) -> bool {
    let (name, rest) = match path.split_once('/') {
        Some((d, r)) => (d, Some(r)),
        None => (path, None),
    };
    t.iter().any(|e| {
        e.name == name.as_bytes()
            && match (&e.node, rest) {
                (Node::Dir(below), Some(r)) => holds(below, r),
                (_, None) => true,
                _ => false,
            }
    })
}

fn finished() -> Completed {
    health::classify("done\n", LogFormat::Opaque, Exit::Success).completed().unwrap()
}

fn reference() -> Vec<(&'static str, &'static str)> {
    vec![
        ("src/lib.c", "int a(void){return 0;}"),
        ("include/a.h", "int a(void);"),
        ("doc/footer.html.bak", "upstream"),
    ]
}

// The crate as it was handed over, and the reference as it was read from it.
fn seeded_oracle() -> (Vec<Entry>, Oracle, String) {
    let c = CDir { link: false, entries: Some(tree(&reference())) };
    let before = c.snapshot().unwrap();
    assert_eq!(c.contents().unwrap().len(), 3);
    let digest = c.digest().as_str().to_string();
    let mut krate = tree(&[("Cargo.toml", "[package]")]);
    for (p, b) in reference() {
        put(&mut krate, format!("c_src/{p}").as_bytes(), b.as_bytes());
    }
    (krate, before, digest)
}

fn c_digest(krate: &Vec<Entry>) -> String {
    let below = krate
        .iter()
        .find(|e| e.name == b"c_src")
        .and_then(|e| match &e.node {
            Node::Dir(es) => Some(visit(es, Admit::Oracle)),
            Node::File(_) => None,
        })
        .unwrap();
    let mut copy = Vec::new();
    for f in below {
        put(&mut copy, &f.path, f.content);
    }
    CDir { link: false, entries: Some(copy) }.digest().as_str().to_string()
}

// Seals as a finished run, deleting what building the reference left.
fn seal_as_completed(krate: &mut Vec<Entry>, before: &Oracle) -> Result<Sealed<Translate>, Refusal> {
    loop {
        match seal::<Translate>(&finished(), before, &scrub(krate, "/scratch/w", "/scratch"))? {
            Sealing::Done(s) => return Ok(s),
            Sealing::Drop(left) => {
                for p in left {
                    let at = format!("c_src/{}", String::from_utf8(p).unwrap());
                    assert!(holds(krate, &at), "{at}");
                    remove(krate, &at);
                }
            }
        }
    }
}

fn assert_modified(got: Result<Sealed<Translate>, Refusal>, want: OracleChange, named: &str) {
    match got {
        Err(Refusal::OracleModified { change, file }) => {
            assert_eq!(change, want, "{named}");
            assert_eq!(String::from_utf8(file).unwrap(), named);
        }
        other => panic!("{named}: {other:?}"),
    }
}

#[test]
fn from_artifact_keeps_everything_the_digest_covers() {
    let src = tree(&[
        ("Cargo.toml", "[package]"),
        ("src/lib.rs", "pub fn a() {}"),
        (".cargo/config.toml", "[build]"),
        ("c_src/src/lib.c", "int a(void){0;}"),
        ("c_src/doc/footer.html.bak", "upstream"),
        ("build.rs", "fn main() {}"),
        ("logs/verify.log", "transcript"),
        ("target/debug/junk", "build output"),
    ]);
    let out = carried(&src, Carry::FromArtifact);
    for hashed in [
        "Cargo.toml",
        "src/lib.rs",
        ".cargo/config.toml",
        "c_src/src/lib.c",
        "c_src/doc/footer.html.bak",
        "build.rs",
    ] {
        assert_eq!(classify(&rel(hashed), false), Disposition::StoreAndHash, "{hashed}");
        assert!(
            holds(&out, hashed),
            "{hashed} is hashed, so an export that drops it makes the digest unverifiable"
        );
    }
    assert!(!holds(&out, "target"), "build output must not be stored");
    assert_eq!(
        digest_tree(&src).as_str(),
        digest_tree(&out).as_str(),
        "an exported artifact must hash identically to the artifact it came from"
    );
}

#[test]
fn a_stale_cmake_cache_does_not_reach_the_agent() {
    let src = tree(&[
        ("Cargo.toml", "[package]"),
        ("c_src/src/lib.c", "int a(void){return 0;}"),
        (
            "c_src/build/CMakeCache.txt",
            "CMAKE_CACHEFILE_DIR:INTERNAL=/tmp/harvest-translate-w1nAAq/x",
        ),
        ("c_src/build/CMakeFiles/junk", "cmake internals"),
        ("logs/translate.log", "transcript"),
    ]);
    let out = carried(&src, Carry::IntoWorkTree);
    assert!(holds(&out, "c_src/src/lib.c"), "the C oracle must travel");
    assert!(holds(&out, "logs/translate.log"), "logs must still travel");
    assert!(!holds(&out, "c_src/build"), "a nested cmake build tree must NOT travel");
}

#[test]
fn feed_is_injective_where_nul_separators_are_not() {
    let hash = |fields: &[&[u8]]| {
        let owned: Vec<Vec<u8>> = fields.iter().map(|f| f.to_vec()).collect();
        digest::digest_of(&digest::frame_all(&owned))
    };
    assert_ne!(hash(&[b"a\0b", b""]), hash(&[b"a", b"b"]));
    assert_eq!(hash(&[b"a", b"b"]), hash(&[b"a", b"b"]));
}

#[test]
fn lossless_path_encoding_does_not_change_an_existing_digest() {
    let t = tree(&[
        ("src/lib.rs", "pub fn f() {}\n"),
        ("Cargo.toml", "[package]\nname=\"x\"\n"),
        ("c_src/nested/a.c", "int a;\n"),
    ]);
    assert_eq!(
        digest_tree(&t).as_str(),
        "sha256:bb95dbd7dfe0089c8568c8421bcca59e4d32bc0f406fb65d9f3bd8ab6302a6df"
    );
}

#[test]
fn paths_differing_only_outside_utf8_digest_differently() {
    let digest_of = |name: &[u8]| {
        let mut t = Vec::new();
        put(&mut t, name, b"same content");
        digest_tree(&t).as_str().to_owned()
    };
    assert_ne!(digest_of(b"a\xff"), digest_of(b"a\xfe"));
}

#[test]
fn the_oracle_guard_sees_a_bak_file_change() {
    let (mut krate, before, _) = seeded_oracle();
    assert_eq!(
        (
            classify(&rel("doc/footer.html.bak"), false),
            classify(&rel("c_src/doc/footer.html.bak"), false),
        ),
        (Disposition::Ignore, Disposition::StoreAndHash),
    );
    put(&mut krate, b"c_src/doc/footer.html.bak", b"the agent edited the oracle");
    let got = seal_as_completed(&mut krate, &before);
    assert_modified(got, OracleChange::Edited, "doc/footer.html.bak");
}

#[test]
fn an_absent_corpus_is_refused_rather_than_keyed_as_absent() {
    let err = Corpus::adopt("/corpus/nope", CDir { link: false, entries: None })
        .err()
        .expect("must refuse an absent corpus");
    assert!(err.contains("no C corpus at"), "{err}");
    assert!(err.contains("/corpus/nope"), "{err}");
}

#[test]
fn two_corpora_differing_only_in_an_ignored_file_get_different_digests() {
    let files = |note: &'static str| {
        tree(&[("src/lib.c", "int f(void){return 1;}"), ("doc/footer.html.bak", note)])
    };
    let digest = |note| {
        let c = CDir { link: false, entries: Some(files(note)) };
        Corpus::adopt("/c", c).unwrap().digest().as_str().to_string()
    };
    assert_ne!(
        digest("one"),
        digest("two"),
        "an ignored-at-root file still changes what the agent sees"
    );
    assert_eq!(
        digest_tree(&files("one")).as_str(),
        digest_tree(&files("two")).as_str(),
        "digest_tree is the hashing that drops it"
    );
}

#[test]
fn a_corpus_seeds_the_oracle_and_a_sealed_artifact_seeds_the_crate_root() {
    assert_eq!(<Translate as SeededBy<Corpus>>::at(), SeedAt::COracle);
    assert_eq!(<Verify as SeededBy<Sealed<Translate>>>::at(), SeedAt::CrateRoot);
    assert_eq!(seed("/work", SeedAt::COracle), "/work/translated_rust/c_src");
    assert_eq!(seed("/work", SeedAt::CrateRoot), "/work/translated_rust");
}

#[test]
fn digest_ignores_build_output_and_logs() {
    let a = tree(&[("src/lib.rs", "fn a() {}"), ("logs/verify.log", "noise")]);
    let b = tree(&[
        ("src/lib.rs", "fn a() {}"),
        ("logs/verify.log", "COMPLETELY different noise"),
        ("target/debug/blob", "junk"),
        ("c_src/build/CMakeCache.txt", "/tmp/harvest-translate-XXXX"),
    ]);
    assert_eq!(
        digest_tree(&a).as_str(),
        digest_tree(&b).as_str(),
        "logs and build output must not affect identity"
    );
}

#[test]
fn digest_changes_when_a_source_byte_changes() {
    let a = tree(&[("src/lib.rs", "fn a() {}")]);
    let b = tree(&[("src/lib.rs", "fn b() {}")]);
    assert_ne!(digest_tree(&a).as_str(), digest_tree(&b).as_str());
}

#[test]
fn digest_is_path_independent() {
    let a = tree(&[("src/lib.rs", "fn a() {}"), ("Cargo.toml", "[package]")]);
    let b = tree(&[("Cargo.toml", "[package]"), ("src/lib.rs", "fn a() {}")]);
    assert_eq!(digest_tree(&a).as_str(), digest_tree(&b).as_str());
}

#[test]
fn lifecycle_round_trips_from_translated_to_verified() {
    let translated = tree(&[
        ("Cargo.toml", "[package]\nname=\"x\""),
        ("src/lib.rs", "pub fn a() {}"),
        ("c_src/src/lib.c", "int a(void){return 0;}"),
        ("logs/translation.log", "agent transcript"),
        ("target/debug/junk", "build output"),
    ]);
    Sealed::<Translate>::adopt("/case", Some(&translated)).expect("adopt");
    let mut work = carried(&translated, Carry::IntoWorkTree);
    assert!(holds(&work, "src/lib.rs"), "source must be copied");
    assert!(holds(&work, "c_src/src/lib.c"), "C oracle must be copied");
    assert!(holds(&work, "logs/translation.log"), "logs must still reach the agent");
    assert!(!holds(&work, "target"), "build output must NOT be copied");

    let c = CDir { link: false, entries: Some(tree(&[("src/lib.c", "int a(void){return 0;}")])) };
    let before = c.snapshot().unwrap();
    put(&mut work, b"src/lib.rs", b"pub fn a() { /* verified */ }");
    put(&mut work, b"SYMBOLS.md", b"built in /scratch/w-1/translated_rust\n");

    let scrubbed = scrub::<Verify>(&work, "/scratch/w-1", "/scratch");
    let rewritten = scrubbed.rewritten();
    assert_eq!(rewritten.len(), 1);
    assert_eq!(rewritten[0].0, b"SYMBOLS.md");
    assert_eq!(rewritten[0].1, "built in $HARVEST_WORKDIR/translated_rust\n");
    assert!(scrub::<Verify>(scrubbed.artifact(), "/scratch/w-1", "/scratch").rewritten().is_empty());

    match seal::<Verify>(&finished(), &before, &scrubbed).unwrap() {
        Sealing::Done(s) => {
            let out = carried(scrubbed.artifact(), Carry::FromArtifact);
            assert_ne!(s.digest().as_str(), digest_tree(&work).as_str());
            assert_eq!(s.digest().as_str(), digest_tree(&out).as_str());
            assert!(holds(&out, "c_src/src/lib.c"));
            assert!(!holds(&out, "target"), "build output must not be published");
        }
        Sealing::Drop(left) => panic!("nothing was built: {left:?}"),
    }
}

#[test]
fn a_verification_is_laid_over_the_translation() {
    assert_eq!(
        artifact::assembly::<Verify>(true),
        [Carry::FromPreviousPhase, Carry::FromArtifact],
    );
    assert_eq!(artifact::assembly::<Verify>(false), [Carry::FromArtifact]);
    assert_eq!(artifact::assembly::<Translate>(true), [Carry::FromArtifact]);
}

#[test]
fn an_edited_oracle_source_is_still_refused() {
    let (mut krate, before, _) = seeded_oracle();
    put(&mut krate, b"c_src/src/lib.c", b"int a(void){return 1;}");
    let got = seal_as_completed(&mut krate, &before);
    assert_modified(got, OracleChange::Edited, "src/lib.c");
}

#[test]
fn an_added_object_file_beside_its_source_is_not_an_oracle_modification() {
    let (mut krate, before, digest_before) = seeded_oracle();
    assert_eq!(digest_before, c_digest(&krate));
    put(&mut krate, b"c_src/src/foo.o", b"not even ELF, just object bytes");
    assert_ne!(digest_before, c_digest(&krate));
    seal_as_completed(&mut krate, &before).expect("a compiled artefact is not tampering");
}

#[test]
fn an_extensionless_compiled_binary_at_the_oracle_root_is_not_an_oracle_modification() {
    let (mut krate, before, digest_before) = seeded_oracle();
    put(&mut krate, b"c_src/test_runner", b"\x7fELF\x02\x01\x01\x00 and the rest of a binary");
    assert_ne!(digest_before, c_digest(&krate));
    assert!(
        !is_build_product(&rel("test_runner"), b"#!/bin/sh\n"),
        "the acceptance must come from the content, not from the bare name"
    );
    seal_as_completed(&mut krate, &before).expect("building the oracle is what the prompt asks");
}

#[test]
fn gcov_output_from_building_the_reference_is_not_an_oracle_modification() {
    for (name, magic) in [
        ("src/lib.gcda", &b"adcg\x42\x30\x37\x2a"[..]),
        ("src/lib-cov-2", &b"oncg\x42\x30\x37\x2a"[..]),
    ] {
        let (mut krate, before, digest_before) = seeded_oracle();
        put(&mut krate, format!("c_src/{name}").as_bytes(), magic);
        assert_ne!(digest_before, c_digest(&krate), "{name}");
        assert_eq!(
            is_build_product(&rel(name), b"whatever text"),
            name.ends_with(".gcda"),
            "{name}: the second case must be carried by the magic, not by its name"
        );
        seal_as_completed(&mut krate, &before).expect(name);
    }
}

#[test]
fn a_deleted_oracle_source_is_refused_and_says_so() {
    let (mut krate, before, _) = seeded_oracle();
    remove(&mut krate, "c_src/include/a.h");
    let got = seal_as_completed(&mut krate, &before);
    assert_modified(got, OracleChange::Removed, "include/a.h");
}

#[test]
fn an_added_header_is_still_refused() {
    let (mut krate, before, _) = seeded_oracle();
    put(&mut krate, b"c_src/include/shim.h", b"#define a() 1");
    let got = seal_as_completed(&mut krate, &before);
    assert_modified(got, OracleChange::Added, "include/shim.h");
}

#[test]
fn a_run_that_makes_the_reference_read_as_build_output_is_refused() {
    for (left_behind, hidden) in [
        ("CMakeFiles/TargetDirectories.txt", "doc/footer.html.bak"),
        ("CMakeCache.txt", "doc/footer.html.bak"),
        ("src/CMakeFiles/dep.make", "src/lib.c"),
        ("src/CMakeCache.txt", "src/lib.c"),
    ] {
        let (mut krate, before, _) = seeded_oracle();
        put(&mut krate, format!("c_src/{left_behind}").as_bytes(), b"cmake internals");
        assert!(holds(&krate, &format!("c_src/{hidden}")));
        let published = carried(&krate, Carry::FromArtifact);
        assert!(!holds(&published, &format!("c_src/{hidden}")), "{left_behind}");
        let got = seal_as_completed(&mut krate, &before);
        assert_modified(got, OracleChange::Hidden, hidden);
    }
}

#[test]
fn a_build_product_the_scrub_cannot_reach_reaches_neither_digest_nor_store() {
    let seal_after_building = |built: Option<&str>| {
        let (mut krate, before, _) = seeded_oracle();
        if let Some(scratch) = built {
            let mut object = b"\x7fELF\x02\x01\x01\x00\xff".to_vec();
            object.extend_from_slice(scratch.as_bytes());
            object.extend_from_slice(b"/c_src/src/lib.gcda");
            put(&mut krate, b"c_src/src/lib.o", &object);
            assert!(scrub::<Translate>(&krate, scratch, "/scratch").rewritten().is_empty());
        }
        let s = seal_as_completed(&mut krate, &before).unwrap();
        (s.into_digest(), carried(&krate, Carry::FromArtifact))
    };
    let (one, stored) = seal_after_building(Some("/scratch/w-1"));
    let (two, _) = seal_after_building(Some("/scratch/w-2"));
    let (none, _) = seal_after_building(None);
    assert_eq!(one.as_str(), two.as_str());
    assert_eq!(none.as_str(), one.as_str());
    assert!(holds(&stored, "c_src/src/lib.c"), "the reference itself must still be stored");
    assert!(!holds(&stored, "c_src/src/lib.o"));
}

#[test]
fn a_symlink_inside_the_oracle_is_refused_rather_than_followed() {
    let theirs = [("keep.o", "somebody else's file")];
    let unadmitted = [("build/keep.o", "in a BUILD_DIR, so never emitted")];
    for behind in [&theirs[..], &unadmitted[..], &[][..]] {
        let (mut krate, before, _) = seeded_oracle();
        for e in krate.iter_mut().filter(|e| e.name == b"c_src") {
            if let Node::Dir(below) = &mut e.node {
                below.push(Entry {
                    name: b"out".to_vec(),
                    link: true,
                    node: Node::Dir(tree(behind)),
                });
            }
        }
        let got = seal_as_completed(&mut krate, &before);
        assert_modified(got, OracleChange::Symlinked, "out");
    }
    let (mut krate, before, _) = seeded_oracle();
    for e in krate.iter_mut().filter(|e| e.name == b"c_src") {
        e.link = true;
    }
    let got = seal_as_completed(&mut krate, &before);
    assert_modified(got, OracleChange::Symlinked, "c_src");
}

#[test]
fn an_empty_oracle_snapshot_cannot_seal() {
    let c = CDir { link: false, entries: Some(Vec::new()) };
    assert!(c.contents().unwrap().is_empty());
    assert!(matches!(c.snapshot(), Err(Refusal::OracleEmpty)));

    let c = CDir { link: false, entries: Some(tree(&[("src/lib.c", "int a(void){return 0;}")])) };
    let before = c.snapshot().unwrap();
    let mut krate =
        tree(&[("Cargo.toml", "[package]"), ("c_src/src/lib.c", "int a(void){return 0;}")]);
    seal_as_completed(&mut krate, &before).expect("one file is enough");
}

#[test]
fn a_tree_that_never_had_an_oracle_seals_but_may_not_invent_one() {
    let before = CDir { link: false, entries: None }.snapshot().unwrap();
    let mut krate = tree(&[("Cargo.toml", "[package]"), ("src/lib.rs", "pub fn a() {}")]);
    seal_as_completed(&mut krate, &before)
        .expect("a translation that never had a reference must still seal");
    put(&mut krate, b"c_src/src/mine.c", b"int a(void){return 1;}");
    let got = seal_as_completed(&mut krate, &before);
    assert_modified(got, OracleChange::Added, "src/mine.c");
}

#[test]
fn debug_on_sealed_reveals_the_digest_not_the_location() {
    let s = artifact::shorten("sha256:abc123def456");
    assert!(s.starts_with("sha256:"), "{s}");
    assert!(!s.contains('/'), "a digest must not look like a path: {s}");
    let t = tree(&[("src/lib.rs", "fn a() {}")]);
    let sealed = Sealed::<Verify>::adopt("/case/place", Some(&t)).unwrap();
    let said = sealed.describe();
    assert!(said.starts_with("Sealed<verified>(sha256:"), "{said}");
    assert!(!said.contains("place"), "{said}");
}

#[test]
fn a_phase_that_is_not_there_is_not_adopted() {
    assert_eq!(
        Sealed::<Verify>::adopt("/case", None).unwrap_err(),
        "no verified phase dir at /case"
    );
    assert_eq!(
        Sealed::<Verify>::from_cache("/entry", None).unwrap_err(),
        "cache entry has no code/ at /entry"
    );
}

#[test]
fn a_fresh_result_keeps_the_logs_and_removes_what_was_made_from_the_old_one() {
    let names: Vec<String> =
        ["src", "logs", "Cargo.toml"].iter().map(|s| s.to_string()).collect();
    assert_eq!(
        clear_phase::<Translate>("/case", &names),
        ["/case/verified", "/case/translated/src", "/case/translated/Cargo.toml"],
    );
    assert_eq!(
        clear_phase::<Verify>("/case", &names),
        ["/case/verified/src", "/case/verified/Cargo.toml"],
    );
    assert_eq!(phase_log::<Translate>("/case"), "/case/translated/logs/translation.log");
    assert_eq!(phase_metrics::<Verify>("/case"), "/case/verified/verification.json");
}

#[test]
fn the_working_directory_is_put_as_its_token_before_the_one_it_was_made_in() {
    assert_eq!(
        scrub_text("in /s/w-1/x and /s/w-2", "/s/w-1", "/s"),
        "in $HARVEST_WORKDIR/x and $HARVEST_WORKDIR/w-2",
    );
}

#[test]
fn where_a_run_worked_does_not_reach_its_digest() {
    let sealed_in = |place: &str| {
        let (mut krate, before, _) = seeded_oracle();
        put(&mut krate, b"NOTES.md", format!("built in {place}/x, next to /scratch\n").as_bytes());
        put(&mut krate, b"logs/run.log", format!("{place}\n").as_bytes());
        let scrubbed = scrub::<Translate>(&krate, place, "/scratch");
        assert_eq!(scrubbed.rewritten().len(), 1, "what is not hashed is left as it is");
        assert!(holds(scrubbed.artifact(), "logs/run.log"));
        match seal(&finished(), &before, &scrubbed).unwrap() {
            Sealing::Done(s) => (s.into_digest(), digest_tree(&krate)),
            Sealing::Drop(left) => panic!("{left:?}"),
        }
    };
    let (one, raw_one) = sealed_in("/scratch/w-1");
    let (two, raw_two) = sealed_in("/scratch/w-2");
    assert_eq!(one.as_str(), two.as_str());
    assert_ne!(raw_one.as_str(), raw_two.as_str(), "the raw output varies with the run");
}

#[test]
fn a_reference_that_names_the_run_is_judged_as_it_will_be_stored() {
    let (mut krate, before, _) = seeded_oracle();
    put(&mut krate, b"c_src/src/lib.c", b"/* /scratch/w */");
    let got = seal_as_completed(&mut krate, &before);
    assert_modified(got, OracleChange::Edited, "src/lib.c");
}

#[test]
fn a_backup_counts_in_a_corpus_and_a_build_tree_does_not() {
    let corpus = |extra: &[(&str, &str)]| {
        let mut files = vec![("src/lib.c", "int a;"), ("doc/footer.html.bak", "one")];
        files.extend_from_slice(extra);
        CDir { link: false, entries: Some(tree(&files)) }.digest()
    };
    let plain = corpus(&[]);
    assert_eq!(plain.as_str().len(), 71);
    assert!(plain.as_str()[7..].chars().all(|c| c.is_ascii_digit() || ('a'..='f').contains(&c)));
    assert_eq!(plain.as_str(), corpus(&[("target/debug/x", "1")]).as_str());
    assert_eq!(plain.as_str(), corpus(&[("target/debug/x", "2"), ("target/y.bak", "")]).as_str());
    let edited = CDir {
        link: false,
        entries: Some(tree(&[("src/lib.c", "int a;"), ("doc/footer.html.bak", "two")])),
    };
    assert_ne!(plain.as_str(), edited.digest().as_str());
    assert_eq!(CDir { link: false, entries: None }.digest().as_str(), "sha256:absent");
}
