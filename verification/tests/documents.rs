//! Documents, dictionaries and addresses.
use reaper::address::Address;
use reaper::dict::{names_of, Dict};
use reaper::json::{read_json, read_toml, read_yaml, write_pretty, Json};

#[test]
fn a_document_is_written_and_read_back() {
    let text = "{\n  \"a\": 1.5,\n  \"b\": [\n    1,\n    -2,\n    18446744073709551615\n  ],\n  \"c\": null,\n  \"d\": true,\n  \"e\": \"x\\\"y\"\n}";
    let tree = read_json(text).ok().expect("JSON");
    // Fractions are carried as they are, through a copy too.
    assert_eq!(write_pretty(&tree.copy()).unwrap(), text);
    assert!(matches!(tree.get("a"), Some(Json::Other(_))));
    assert_eq!(tree.get_text("e").unwrap(), "x\"y");
    match tree.get("b") {
        Some(Json::Array(v)) => {
            assert!(matches!(v[0], Json::Int(1)));
            assert!(matches!(v[1], Json::Int(-2)));
            assert_eq!(v[2].as_uint(), Some(u64::MAX));
            assert_eq!(v[1].as_uint(), None);
        }
        _ => panic!("a list"),
    }
}

#[test]
fn the_three_formats_read_into_one_kind_of_tree() {
    let json = read_json(r#"{"name": "n", "list": [1, 2]}"#).ok().expect("JSON");
    let yaml = read_yaml("name: n\nlist: [1, 2]\n").ok().expect("YAML");
    let toml = read_toml("name = \"n\"\nlist = [1, 2]\n").ok().expect("TOML");
    let written = write_pretty(&json).unwrap();
    assert_eq!(write_pretty(&yaml).unwrap(), written);
    assert_eq!(write_pretty(&toml).unwrap(), written);
    assert!(read_json("name: n").is_err());
    assert!(read_yaml("[unclosed").is_err());
    assert!(read_toml("name: n").is_err());
}

#[test]
fn members_keep_their_order_until_they_are_tidied_up() {
    let names = |j: &Json| -> Vec<String> {
        j.as_members().unwrap().iter().map(|(k, _)| k.clone()).collect()
    };
    let tree = read_json(r#"{"b": {"y": 1, "x": 2}, "a": [{"q": 1, "p": 2}], "c": 3}"#)
        .ok()
        .expect("JSON");
    assert_eq!(names(&tree), vec!["b", "a", "c"]);
    assert!(write_pretty(&tree).unwrap().starts_with("{\n  \"b\": {\n    \"y\": 1,"));
    let tidy = tree.tidy_up();
    assert_eq!(names(&tidy), vec!["a", "b", "c"]);
    assert_eq!(names(tidy.get("b").unwrap()), vec!["x", "y"]);
    assert_eq!(names(&tidy.get("a").unwrap().as_items().unwrap()[0]), vec!["p", "q"]);
}

#[test]
fn a_dictionary_keeps_each_name_once_and_in_order() {
    let mut d: Dict<String> = Dict::new();
    for (k, v) in [("b", "1"), ("a", "2"), ("b", "3")] {
        d.insert(k.to_string(), v.to_string());
    }
    assert_eq!(names_of(&d), vec!["a", "b"]);
    assert_eq!(d.get("b").unwrap(), "3");
    assert_eq!(d.remove("b").unwrap(), "3");
    assert!(d.get("b").is_none());
    assert_eq!(d.len(), 1);
}

#[test]
fn addresses_read_back_as_they_are_written() {
    for text in [
        "0.0.0.0", "192.0.2.42", "255.255.255.255", "::", "::1", "2001:db8::7", "fe80::1",
        "2001:db8:1:2:3:4:5:6", "1:0:0:2::3", "::ffff:192.0.2.1",
    ] {
        let a = Address::parse(text).unwrap_or_else(|| panic!("{text} should parse"));
        assert_eq!(Address::parse(&a.text()), Some(a), "{text}");
    }
    assert_eq!(Address::parse("2001:0db8:0:0:0:0:0:7").unwrap().text(), "2001:db8::7");
}

#[test]
fn what_is_no_address_does_not_parse() {
    for text in [
        "", "1.2.3", "1.2.3.4.5", "256.0.0.1", "01.2.3.4", "1.2.3.4 ", "a.b.c.d", ":", ":::",
        "1::2::3", "12345::", "2001:db8::g",
    ] {
        assert_eq!(Address::parse(text), None, "{text:?}");
    }
}

#[test]
fn addresses_know_where_they_reach() {
    let is = |t: &str| Address::parse(t).unwrap();
    assert!(is("127.0.0.1").is_loopback() && is("127.255.0.1").is_loopback());
    assert!(is("::1").is_loopback() && !is("::2").is_loopback());
    assert!(is("169.254.3.4").is_link_local() && is("fe80::1").is_link_local());
    assert!(!is("192.0.2.1").is_link_local() && is("192.0.2.1").is_v4() && !is("::1").is_v4());
}
