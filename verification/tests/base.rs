//! Text, paths, sets of names, digests and JSON.

use harvest_tools::analyse::report::Invariant;
use harvest_tools::digest;
use harvest_tools::json;
use harvest_tools::json::Json;
use harvest_tools::names::Names;
use harvest_tools::paths;
use harvest_tools::text;
use std::path::Path;

fn owned(names: &[&str]) -> Vec<String> {
    names.iter().map(|s| s.to_string()).collect()
}

fn chars(s: &str) -> Vec<char> {
    s.chars().collect()
}

#[test]
fn a_digest_is_the_hash_in_hex() {
    assert_eq!(
        digest::digest_of(b""),
        "sha256:e3b0c44298fc1c149afbf4c8996fb92427ae41e4649b934ca495991b7852b855"
    );
    assert_eq!(
        digest::digest_of(b"abc"),
        "sha256:ba7816bf8f01cfea414140de5dae2223b00361a396177a9cb410ff61f20015ad"
    );
    assert_eq!(digest::hex_of(&[0, 15, 255]), "000fff");
}

#[test]
fn a_field_is_framed_by_its_length() {
    let mut h = vec![9];
    digest::feed(&mut h, b"ab");
    assert_eq!(h, [9, 2, 0, 0, 0, 0, 0, 0, 0, b'a', b'b']);
}

#[test]
fn text_is_searched_split_and_replaced_as_std_does() {
    for (h, n) in [("banana", "an"), ("banana", "x"), ("", ""), ("aaa", "aa"), ("añb", "ñ")] {
        assert_eq!(text::contains(&chars(h), &chars(n)), h.contains(n), "{h} {n}");
        assert_eq!(text::starts_with(&chars(h), &chars(n)), h.starts_with(n));
        assert_eq!(text::ends_with(&chars(h), &chars(n)), h.ends_with(n));
        if !n.is_empty() {
            let got = text::string_of(&text::replace_all(&chars(h), &chars(n), &chars("<>")));
            assert_eq!(got, h.replace(n, "<>"), "{h} {n}");
        }
    }
    for s in ["", "a", "a\nb", "a\r\nb\n", "\n\n", "a\n\r\n"] {
        let got: Vec<String> =
            text::lines_of(&chars(s)).iter().map(|l| l.iter().collect()).collect();
        assert_eq!(got, s.lines().collect::<Vec<_>>(), "{s:?}");
        let got: Vec<String> =
            text::words_of(&chars(s)).iter().map(|l| l.iter().collect()).collect();
        assert_eq!(got, s.split_whitespace().collect::<Vec<_>>(), "{s:?}");
    }
    for s in ["", "a/b", "/a//b/", "/"] {
        let got: Vec<String> =
            text::split_on(&chars(s), '/').iter().map(|l| l.iter().collect()).collect();
        assert_eq!(got, s.split('/').collect::<Vec<_>>(), "{s:?}");
    }
    for s in ["", "  a b\t", "\u{a0}x\u{2003}", "\u{200b}"] {
        let got: String = text::trim(&chars(s)).iter().collect();
        assert_eq!(got, s.trim(), "{s:?}");
    }
}

#[test]
fn whitespace_is_that_of_unicode() {
    for n in 0..0x11_0000u32 {
        if let Some(c) = char::from_u32(n) {
            assert_eq!(text::space(c), c.is_whitespace(), "{n:x}");
        }
    }
}

#[test]
fn texts_are_ordered_as_std_orders_them() {
    let v = owned(&["b", "a", "", "ab", "é", "Z", "a"]);
    let mut want = v.clone();
    want.sort();
    assert_eq!(text::sort_texts(&v), want);
    assert!(text::less_text("a", "é") && !text::less_text("é", "a"));
}

#[test]
fn numerals_are_read_back() {
    for n in [0, 7, 10, 65_535, u64::MAX] {
        assert_eq!(text::numeral_of(n), n.to_string());
        assert_eq!(text::read_digits(&chars(&n.to_string())), Some(n));
    }
    assert_eq!(text::read_digits(&chars("18446744073709551616")), None);
    assert_eq!(text::read_digits(&chars("")), None);
    assert_eq!(text::signed_numeral_of(i32::MIN), i32::MIN.to_string());
}

#[test]
fn paths_are_joined_and_taken_apart_as_std_does() {
    for (a, b) in [("/a", "b"), ("/a/", "b"), ("a", "/b"), ("", "b"), ("a", "")] {
        assert_eq!(paths::join(a, b), Path::new(a).join(b).to_str().unwrap(), "{a} {b}");
    }
    for p in ["/a/b", "/a", "/", "a", "a/b/", "/a//b", "", "a/.."] {
        let want = Path::new(p).parent().map(|x| x.to_str().unwrap().to_string());
        assert_eq!(paths::parent(p), want, "{p}");
        let want = Path::new(p).file_name().map(|x| x.to_str().unwrap().to_string());
        assert_eq!(paths::file_name(p), want, "{p}");
        for e in ["rs", "so"] {
            let q = format!("{p}x.rs");
            let has = Path::new(&q).extension().is_some_and(|x| x == e);
            assert_eq!(paths::has_extension(&q, e), has, "{q}");
        }
    }
    for p in ["/a/b", "/a/bc", "a/b", "/", "/a/./b/c", ""] {
        for d in ["/a/b", "/a", "/", "a", "", "./a"] {
            assert_eq!(paths::is_within(p, d), Path::new(p).starts_with(d), "{p} {d}");
        }
    }
}

#[test]
fn a_set_of_names_forgets_order_and_repeats() {
    let a = Names::new(&owned(&["c", "a", "b", "a"]));
    assert_eq!(a.as_slice(), ["a", "b", "c"]);
    let b = Names::new(&owned(&["b", "x"]));
    assert_eq!(a.intersection(&b).as_slice(), ["b"]);
    assert_eq!(a.difference(&b).as_slice(), ["a", "c"]);
    assert_eq!(Names::none().len(), 0);
}

#[test]
fn json_is_read_and_written() {
    let j = json::parse(r#"{"b":[1,-2,1.5,"x",null,true],"a":{"n":18446744073709551615}}"#).unwrap();
    assert_eq!(j.get("a").and_then(|a| a.get("n")).and_then(|n| n.as_u64()), Some(u64::MAX));
    assert_eq!(j.get("b").and_then(|b| b.at(0)).and_then(|n| n.as_u64()), Some(1));
    assert_eq!(j.get("b").and_then(|b| b.at(1)).and_then(|n| n.as_u64()), None);
    assert_eq!(j.get("b").and_then(|b| b.at(3)).and_then(|s| s.as_str()), Some("x"));
    assert!(j.get("b").and_then(|b| b.at(6)).is_none());
    assert_eq!(
        json::compact(&j),
        r#"{"a":{"n":18446744073709551615},"b":[1,-2,1.5,"x",null,true]}"#
    );
    assert!(json::parse("{").is_none());
    assert!(json::parse("{} x").is_none());
    let mut m = Vec::new();
    json::set(&mut m, "k", json::integer(-3));
    json::set(&mut m, "k", json::words("v"));
    assert_eq!(json::pretty(&Json::Object(m)), "{\n  \"k\": \"v\"\n}");
}

#[test]
fn a_list_of_texts_is_quoted() {
    let said = Invariant::MissingMacros { names: owned(&["A", "B\"C"]) }.message();
    assert!(said.contains(r#"["A", "B\"C"]"#), "{said}");
}
