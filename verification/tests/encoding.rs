use onto16::digest::hex_lower;
use onto16::{OntoNode, OntoProfile, ProfileOverrides, Scalar};

fn numeral(text: &str) -> Scalar {
    Scalar::from_text(text).unwrap()
}

fn node_with(id: &str, content: &str, links: Vec<String>) -> OntoNode {
    OntoNode::new(id.to_string(), false, content.to_string(), numeral("0.5"), links)
}

#[test]
fn node_text_is_compact_json() {
    let n = node_with("a", "b", vec!["c".to_string(), "d".to_string(), "e".to_string()]);
    assert_eq!(
        n.encode(),
        "{\"id\":\"a\",\"rational\":false,\"content\":\"b\",\"stability\":0.5,\"links\":[\"c\",\"d\",\"e\"]}"
    );
}

#[test]
fn one_link_has_no_comma() {
    let n = node_with("a", "b", vec!["c".to_string()]);
    assert_eq!(
        n.encode(),
        "{\"id\":\"a\",\"rational\":false,\"content\":\"b\",\"stability\":0.5,\"links\":[\"c\"]}"
    );
}

#[test]
fn quotes_and_backslashes_are_escaped() {
    let n = node_with("say \"hi\"", "a\\b", vec!["\"".to_string()]);
    assert_eq!(
        n.encode(),
        "{\"id\":\"say \\\"hi\\\"\",\"rational\":false,\"content\":\"a\\\\b\",\"stability\":0.5,\"links\":[\"\\\"\"]}"
    );
}

#[test]
fn control_characters_are_escaped() {
    let n = node_with("\u{8}\t\n\u{c}\r", "\u{0}\u{1}\u{b}\u{1f}", vec![]);
    assert_eq!(
        n.encode(),
        "{\"id\":\"\\b\\t\\n\\f\\r\",\"rational\":false,\"content\":\"\\u0000\\u0001\\u000b\\u001f\",\"stability\":0.5,\"links\":[]}"
    );
}

#[test]
fn other_letters_stand_for_themselves() {
    let n = node_with(" /'\u{7f}", "é 水 \u{1f600} \u{2028}", vec![]);
    assert_eq!(
        n.encode(),
        "{\"id\":\" /'\u{7f}\",\"rational\":false,\"content\":\"é 水 \u{1f600} \u{2028}\",\"stability\":0.5,\"links\":[]}"
    );
}

#[test]
fn strings_are_written_as_serde_json_writes_them() {
    for s in ["", "plain", "\"", "\\", "\u{0}\u{1f} ~\u{7f}\u{80}", "a\nb", "действие", "\u{10ffff}"] {
        let n = node_with(s, "", vec![]);
        let expected = format!(
            "{{\"id\":{},\"rational\":false,\"content\":\"\",\"stability\":0.5,\"links\":[]}}",
            serde_json::to_string(s).unwrap()
        );
        assert_eq!(n.encode(), expected);
    }
}

#[test]
fn profile_text_of_no_nodes() {
    let p = OntoProfile::new(vec![], numeral("1.0"), 0);
    assert_eq!(p.encode(), "{\"nodes\":[],\"energy_state\":1.0,\"version\":0}");
    assert_eq!(p.hash(), "4604ced9dcc07b5e0803f118aeb83d358f879bbd378f1465924fb702eae5b023");
}

#[test]
fn profile_text_of_two_nodes() {
    let p = OntoProfile::new(
        vec![node_with("a", "", vec![]), node_with("b", "", vec![])],
        numeral("-2.5e-3"),
        10,
    );
    assert_eq!(
        p.encode(),
        "{\"nodes\":[{\"id\":\"a\",\"rational\":false,\"content\":\"\",\"stability\":0.5,\"links\":[]},{\"id\":\"b\",\"rational\":false,\"content\":\"\",\"stability\":0.5,\"links\":[]}],\"energy_state\":-2.5e-3,\"version\":10}"
    );
}

#[test]
fn version_is_written_in_decimal() {
    let text = |version: u32| OntoProfile::new(vec![], numeral("0"), version).encode();
    assert_eq!(text(0), "{\"nodes\":[],\"energy_state\":0,\"version\":0}");
    assert_eq!(text(9), "{\"nodes\":[],\"energy_state\":0,\"version\":9}");
    assert_eq!(text(10), "{\"nodes\":[],\"energy_state\":0,\"version\":10}");
    assert_eq!(text(1203), "{\"nodes\":[],\"energy_state\":0,\"version\":1203}");
    assert_eq!(text(u32::MAX), "{\"nodes\":[],\"energy_state\":0,\"version\":4294967295}");
}

#[test]
fn a_quantity_that_is_not_finite_is_null() {
    let p = OntoProfile::new(vec![], numeral("null"), u32::MAX);
    assert_eq!(p.encode(), "{\"nodes\":[],\"energy_state\":null,\"version\":4294967295}");
    assert_eq!(p.hash(), "1931468d37084b611fcdb26890eb91250d17aa35fa3fc72442ef37ffa0e90760");
}

#[test]
fn hex_of_bytes() {
    assert_eq!(hex_lower(&[]), "");
    assert_eq!(hex_lower(&[0x00]), "00");
    assert_eq!(hex_lower(&[0x0a, 0x14, 0x1e]), "0a141e");
    assert_eq!(hex_lower(&[0xff, 0x10, 0x01, 0xab, 0xcd, 0xef]), "ff1001abcdef");
}

#[test]
fn overrides_replace_the_named_fields_only() {
    let p = OntoProfile::new(vec![node_with("a", "", vec![])], numeral("1.0"), 4);
    let same = p.with_overrides(ProfileOverrides::none());
    assert_eq!(same.encode(), p.encode());
    assert_eq!(p.with_overrides(ProfileOverrides::default()).encode(), p.encode());

    let energy = p.with_overrides(ProfileOverrides {
        energy_state: Some(numeral("0.85")),
        ..ProfileOverrides::none()
    });
    assert_eq!(
        energy.encode(),
        "{\"nodes\":[{\"id\":\"a\",\"rational\":false,\"content\":\"\",\"stability\":0.5,\"links\":[]}],\"energy_state\":0.85,\"version\":4}"
    );

    let version = p.with_overrides(ProfileOverrides { version: Some(5), ..ProfileOverrides::none() });
    assert_eq!(
        version.encode(),
        "{\"nodes\":[{\"id\":\"a\",\"rational\":false,\"content\":\"\",\"stability\":0.5,\"links\":[]}],\"energy_state\":1.0,\"version\":5}"
    );

    let nodes = p.with_overrides(ProfileOverrides { nodes: Some(vec![]), ..ProfileOverrides::none() });
    assert_eq!(nodes.encode(), "{\"nodes\":[],\"energy_state\":1.0,\"version\":4}");

    let all = p.with_overrides(ProfileOverrides {
        nodes: Some(vec![]),
        energy_state: Some(numeral("null")),
        version: Some(0),
    });
    assert_eq!(all.encode(), "{\"nodes\":[],\"energy_state\":null,\"version\":0}");
    assert_eq!(p.encode(), same.encode());
}

#[test]
fn constructors_keep_what_they_are_given() {
    let n = OntoNode::new(
        "id".to_string(),
        true,
        "content".to_string(),
        numeral("0.25"),
        vec!["l1".to_string(), "l2".to_string()],
    );
    assert_eq!(n.id, "id");
    assert!(n.rational);
    assert_eq!(n.content, "content");
    assert_eq!(n.stability.as_str(), "0.25");
    assert_eq!(n.links, vec!["l1".to_string(), "l2".to_string()]);
    let p = OntoProfile::new(vec![n], numeral("7"), 3);
    assert_eq!(p.nodes.len(), 1);
    assert_eq!(p.energy_state.as_str(), "7");
    assert_eq!(p.version, 3);
}
