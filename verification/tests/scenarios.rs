use onto16::{OntoNode, OntoProfile, ProfileOverrides, Scalar};

fn scalar(value: f32) -> Scalar {
    let text = serde_json::to_string(&value).unwrap();
    Scalar::from_text(&text).unwrap()
}

fn node(id: &str) -> OntoNode {
    OntoNode::new(id.to_string(), true, "x".to_string(), scalar(0.9), vec![])
}

fn ratio(profile: &OntoProfile, other: &OntoProfile) -> f32 {
    let distance = profile.jaccard_distance(other);
    if distance.total == 0 {
        0.0
    } else {
        1.0 - (distance.shared as f32 / distance.total as f32)
    }
}

fn profile_a() -> OntoProfile {
    OntoProfile::new(vec![node("n1")], scalar(1.0), 1)
}

fn profile_b() -> OntoProfile {
    OntoProfile::new(vec![node("n1"), node("n2")], scalar(1.0 * 0.85), 1)
}

#[test]
fn one_node_added_is_half_way() {
    let a = profile_a();
    let b = profile_b();
    let distance = a.jaccard_distance(&b);
    assert_eq!(distance.shared, 1);
    assert_eq!(distance.total, 2);
    assert_eq!(ratio(&a, &b), 0.5);
    assert_ne!(a.hash(), b.hash());
}

#[test]
fn recovered_energy_changes_the_hash_only() {
    let b = profile_b();
    let c = b.with_overrides(ProfileOverrides {
        energy_state: Some(scalar(1.0 * 0.85 * 1.1)),
        ..ProfileOverrides::none()
    });
    assert_eq!(ratio(&b, &c), 0.0);
    assert!(b.jaccard_distance(&c).is_zero());
    assert_ne!(b.hash(), c.hash());
    assert_eq!(c.nodes.len(), 2);
    assert_eq!(c.version, 1);
}

#[test]
fn hash_of_the_one_node_profile() {
    let a = profile_a();
    assert_eq!(
        a.encode(),
        "{\"nodes\":[{\"id\":\"n1\",\"rational\":true,\"content\":\"x\",\"stability\":0.9,\"links\":[]}],\"energy_state\":1.0,\"version\":1}"
    );
    assert_eq!(a.hash(), "cf2cab10db818a9de47d0deee2a09774b5eee79284897afcd8b7726b34e922cd");
}

#[test]
fn hash_of_a_profile_with_foreign_letters() {
    let n = OntoNode::new(
        "base-n1".to_string(),
        true,
        "действие должно быть безопасным".to_string(),
        scalar(0.9),
        vec![],
    );
    let p = OntoProfile::new(vec![n], scalar(1.0), 1);
    assert_eq!(p.hash(), "1b68b2c81429414eb8decae0338c5be6f56d7571545ecf1b8dab1bd64f77feb3");
}

#[test]
fn distance_is_symmetric() {
    let a = OntoProfile::new(vec![node("a"), node("b"), node("c")], scalar(1.0), 1);
    let b = OntoProfile::new(vec![node("c"), node("d")], scalar(2.0), 9);
    let ab = a.jaccard_distance(&b);
    let ba = b.jaccard_distance(&a);
    assert_eq!(ab.shared, ba.shared);
    assert_eq!(ab.total, ba.total);
    assert_eq!(ab.shared, 1);
    assert_eq!(ab.total, 4);
    assert_eq!(ratio(&a, &b), ratio(&b, &a));
    assert_eq!(ratio(&a, &b), 0.75);
}

#[test]
fn distance_to_itself_is_zero() {
    let a = OntoProfile::new(vec![node("a"), node("b"), node("c")], scalar(1.0), 1);
    let d = a.jaccard_distance(&a);
    assert_eq!(d.shared, 3);
    assert_eq!(d.total, 3);
    assert!(d.is_zero());
    assert!(!d.is_one());
    assert_eq!(ratio(&a, &a), 0.0);
}

#[test]
fn empty_profiles_are_at_distance_zero() {
    let e = OntoProfile::new(vec![], scalar(1.0), 0);
    let d = e.jaccard_distance(&e);
    assert_eq!(d.shared, 0);
    assert_eq!(d.total, 0);
    assert!(d.is_zero());
    assert!(!d.is_one());
    assert_eq!(ratio(&e, &e), 0.0);
    let f = OntoProfile::new(vec![], scalar(3.5), 7);
    assert_eq!(ratio(&e, &f), 0.0);
}

#[test]
fn disjoint_profiles_are_at_distance_one() {
    let a = OntoProfile::new(vec![node("a"), node("b")], scalar(1.0), 1);
    let b = OntoProfile::new(vec![node("c")], scalar(1.0), 1);
    let d = a.jaccard_distance(&b);
    assert_eq!(d.shared, 0);
    assert_eq!(d.total, 3);
    assert!(d.is_one());
    assert_eq!(ratio(&a, &b), 1.0);
    let e = OntoProfile::new(vec![], scalar(1.0), 1);
    assert!(a.jaccard_distance(&e).is_one());
    assert!(e.jaccard_distance(&a).is_one());
}

#[test]
fn a_third_shared() {
    let a = OntoProfile::new(vec![node("a"), node("b")], scalar(1.0), 1);
    let b = OntoProfile::new(vec![node("b"), node("c")], scalar(1.0), 1);
    let d = a.jaccard_distance(&b);
    assert_eq!(d.shared, 1);
    assert_eq!(d.total, 3);
    assert_eq!(ratio(&a, &b), 1.0 - (1.0f32 / 3.0f32));
}

#[test]
fn repeated_identifiers_count_once() {
    let a = OntoProfile::new(vec![node("a"), node("a"), node("b"), node("a")], scalar(1.0), 1);
    let b = OntoProfile::new(vec![node("b"), node("b"), node("a")], scalar(1.0), 1);
    let d = a.jaccard_distance(&b);
    assert_eq!(d.shared, 2);
    assert_eq!(d.total, 2);
    assert!(d.is_zero());
}

#[test]
fn distance_sees_identifiers_only() {
    let a = OntoProfile::new(vec![node("a"), node("b")], scalar(1.0), 1);
    let other_b = OntoNode::new(
        "b".to_string(),
        false,
        "something else".to_string(),
        scalar(0.1),
        vec!["a".to_string(), "nowhere".to_string()],
    );
    let b = OntoProfile::new(vec![other_b, node("a")], scalar(0.5), 3);
    assert!(a.jaccard_distance(&b).is_zero());
    assert_ne!(a.hash(), b.hash());
}

#[test]
fn a_copy_has_the_same_hash() {
    let a = profile_b();
    let copy = a.clone();
    assert_eq!(a.hash(), copy.hash());
    assert_eq!(a.encode(), copy.encode());
}

#[test]
fn a_copy_is_independent() {
    let a = profile_b();
    let before = a.hash();
    let mut copy = a.clone();
    copy.nodes.push(node("n3"));
    copy.nodes[0].links.push("n3".to_string());
    copy.version = 2;
    assert_eq!(a.hash(), before);
    assert_ne!(copy.hash(), before);
    assert_eq!(a.nodes.len(), 2);
    assert_eq!(a.nodes[0].links.len(), 0);
}

#[test]
fn order_of_nodes_changes_the_hash_not_the_distance() {
    let a = OntoProfile::new(vec![node("n1"), node("n2")], scalar(1.0), 1);
    let b = OntoProfile::new(vec![node("n2"), node("n1")], scalar(1.0), 1);
    assert_ne!(a.hash(), b.hash());
    assert!(a.jaccard_distance(&b).is_zero());
    assert_eq!(ratio(&a, &b), 0.0);
}

#[test]
fn order_of_links_changes_the_hash() {
    let links = |first: &str, second: &str| {
        let n = OntoNode::new(
            "n".to_string(),
            true,
            "x".to_string(),
            scalar(0.9),
            vec![first.to_string(), second.to_string()],
        );
        OntoProfile::new(vec![n], scalar(1.0), 1)
    };
    assert_ne!(links("a", "b").hash(), links("b", "a").hash());
    assert_eq!(links("a", "b").hash(), links("a", "b").hash());
}

#[test]
fn every_field_changes_the_hash() {
    let make = |id: &str, rational: bool, content: &str, stability: f32, energy: f32, version: u32| {
        let n = OntoNode::new(id.to_string(), rational, content.to_string(), scalar(stability), vec![]);
        OntoProfile::new(vec![n], scalar(energy), version)
    };
    let base = make("n", true, "x", 0.9, 1.0, 1).hash();
    assert_eq!(make("n", true, "x", 0.9, 1.0, 1).hash(), base);
    assert_ne!(make("m", true, "x", 0.9, 1.0, 1).hash(), base);
    assert_ne!(make("n", false, "x", 0.9, 1.0, 1).hash(), base);
    assert_ne!(make("n", true, "y", 0.9, 1.0, 1).hash(), base);
    assert_ne!(make("n", true, "x", 0.8, 1.0, 1).hash(), base);
    assert_ne!(make("n", true, "x", 0.9, 1.5, 1).hash(), base);
    assert_ne!(make("n", true, "x", 0.9, 1.0, 2).hash(), base);
}

#[test]
fn hash_is_sixty_four_lower_case_hex_digits() {
    let h = profile_b().hash();
    assert_eq!(h.len(), 64);
    assert!(h.chars().all(|c| c.is_ascii_digit() || ('a'..='f').contains(&c)));
}

fn read_scalar(value: &serde_json::Value) -> Scalar {
    match value.as_f64() {
        Some(number) => scalar(number as f32),
        None => Scalar::from_text("null").unwrap(),
    }
}

fn read_profile(text: &str) -> OntoProfile {
    let value: serde_json::Value = serde_json::from_str(text).unwrap();
    let mut nodes = Vec::new();
    for n in value["nodes"].as_array().unwrap() {
        let mut links = Vec::new();
        for l in n["links"].as_array().unwrap() {
            links.push(l.as_str().unwrap().to_string());
        }
        nodes.push(OntoNode::new(
            n["id"].as_str().unwrap().to_string(),
            n["rational"].as_bool().unwrap(),
            n["content"].as_str().unwrap().to_string(),
            read_scalar(&n["stability"]),
            links,
        ));
    }
    OntoProfile::new(
        nodes,
        read_scalar(&value["energy_state"]),
        value["version"].as_u64().unwrap() as u32,
    )
}

#[test]
fn reading_the_text_back_gives_the_same_hash() {
    let first = OntoNode::new(
        "n \"1\"".to_string(),
        false,
        "line one\nline two\t\\ \u{1} \u{7f} é 水".to_string(),
        scalar(0.1),
        vec!["n2".to_string(), "".to_string(), "n \"1\"".to_string()],
    );
    let second = OntoNode::new("n2".to_string(), true, "".to_string(), scalar(-1.5e-7), vec![]);
    let p = OntoProfile::new(vec![first, second], scalar(1.0 * 0.85 * 0.85), u32::MAX);
    let text = p.encode();
    let back = read_profile(&text);
    assert_eq!(back.encode(), text);
    assert_eq!(back.hash(), p.hash());
    for q in [profile_a(), profile_b(), OntoProfile::new(vec![], scalar(0.0), 0)] {
        assert_eq!(read_profile(&q.encode()).hash(), q.hash());
    }
}
