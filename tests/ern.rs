use std::cmp::Ordering;

use acton_ern::{
    Account, Category, Component, Domain, Ern, ErnBuilder, ErnError, ErnParser, Part, Parts, Root,
    RootGenerator,
};

fn make(root: &str, parts: &[&str]) -> Ern {
    let mut v = Vec::new();
    for p in parts {
        v.push(Part::new(p).unwrap());
    }
    Ern::new(
        Domain::new("acton-internal").unwrap(),
        Category::new("hr").unwrap(),
        Account::new("company123").unwrap(),
        Root::new(root).unwrap(),
        Parts::new(v),
    )
}

fn part_texts(e: &Ern) -> Vec<String> {
    let mut out = Vec::new();
    for i in 0..e.parts.len() {
        out.push(e.parts.get(i).as_str().to_string());
    }
    out
}

#[test]
fn generated_roots_are_unique_and_ordered() {
    let mut g = RootGenerator::new();
    let r1 = g.generate("root_b", 5).unwrap();
    let r2 = g.generate("root_a", 5).unwrap();
    let r3 = g.generate("root_a", 5).unwrap();
    assert_eq!(r1.name(), "root_b_00000000000000000005");
    assert_eq!(r2.name(), "root_a_00000000000000000006");
    assert_ne!(r2.name(), r3.name());
    let e1 = Ern::new(Domain::default(), Category::default(), Account::default(), r1, Parts::default());
    let e2 = Ern::new(Domain::default(), Category::default(), Account::default(), r2, Parts::default());
    let e3 = Ern::new(Domain::default(), Category::default(), Account::default(), r3, Parts::default());
    assert!(e1 < e2);
    assert!(e2 < e3);
    assert!(e1 < e3);
    assert!(e3 > e1);
    assert_eq!(e1.clone(), e1);
}

#[test]
fn generator_follows_the_clock() {
    let mut g = RootGenerator::new();
    assert_eq!(g.next_token(100), 100);
    assert_eq!(g.next_token(50), 101);
    assert_eq!(g.next_token(500), 500);
    assert!(g.can_issue());
}

#[test]
fn generated_root_rejects_bad_base() {
    let mut g = RootGenerator::new();
    assert_eq!(g.generate("", 1), Err(ErnError::EmptyValue(Component::Root)));
    assert_eq!(g.generate("a/b", 1), Err(ErnError::InvalidFormat));
    assert_eq!(g.next_token(0), 1);
}

#[test]
fn parent_and_child() {
    let parent = make("rootp", &["a", "b"]);
    let child = make("rootp", &["a", "b", "c"]);
    assert!(child.is_child_of(&parent));
    assert!(!parent.is_child_of(&child));
    assert!(!child.is_child_of(&child));
    let up = child.parent().unwrap();
    assert_eq!(part_texts(&up), vec!["a", "b"]);
    assert_eq!(up, parent);
    assert!(make("rootp", &[]).parent().is_none());
    let other_root = make("rootq", &["a", "b", "c"]);
    assert!(!other_root.is_child_of(&parent));
}

#[test]
fn combine_keeps_parent_identity() {
    let parent = make("rootp", &["a"]);
    let child = make("rootc", &["x"]);
    let combined = parent.combine(&child);
    assert_eq!(part_texts(&combined), vec!["a", "x"]);
    assert_eq!(combined.root, parent.root);
    assert_eq!(combined.domain, parent.domain);
    assert_eq!(combined.to_string(), "ern:acton-internal:hr:company123:rootp/a/x");
}

#[test]
fn combine_with_empty_paths() {
    let parent = make("rootp", &["department_a"]);
    let empty_child = make("rootc", &[]);
    assert_eq!(part_texts(&parent.combine(&empty_child)), vec!["department_a"]);
    let empty_parent = make("rootp", &[]);
    let child = make("rootc", &["role_x"]);
    assert_eq!(part_texts(&empty_parent.combine(&child)), vec!["role_x"]);
}

#[test]
fn formatting() {
    let e = make("rootp", &[]);
    assert_eq!(e.to_string(), "ern:acton-internal:hr:company123:rootp");
    let e = make("root", &["resource", "subresource"]);
    assert_eq!(e.to_string(), "ern:acton-internal:hr:company123:root/resource/subresource");
}

#[test]
fn parse_example() {
    let text = "ern:custom:service:account123:root/resource/subresource";
    let e = ErnParser::new(text.to_string()).parse().unwrap();
    assert_eq!(e.domain.as_str(), "custom");
    assert_eq!(e.category.as_str(), "service");
    assert_eq!(e.account.as_str(), "account123");
    assert_eq!(e.root.as_str(), "root");
    assert_eq!(part_texts(&e), vec!["resource", "subresource"]);
    assert_eq!(e.to_string(), text);
}

#[test]
fn parse_failures() {
    let p = |s: &str| ErnParser::new(s.to_string()).parse();
    assert_eq!(p("invalid:ern:format"), Err(ErnError::InvalidFormat));
    assert_eq!(p("urn:d:c:a:root"), Err(ErnError::InvalidFormat));
    assert_eq!(p("ern:d:c:a:root/bad:part"), Err(ErnError::InvalidFormat));
    assert_eq!(p("ern:domain:category:account:root/invalid:part"), Err(ErnError::InvalidFormat));
    assert_eq!(p("ern::c:a:root"), Err(ErnError::EmptyValue(Component::Domain)));
    assert_eq!(p("ern:d::a:root"), Err(ErnError::EmptyValue(Component::Category)));
    assert_eq!(p("ern:d:c::root"), Err(ErnError::EmptyValue(Component::Account)));
    assert_eq!(p("ern:d:c:a:"), Err(ErnError::EmptyValue(Component::Root)));
    assert_eq!(p("ern:d:c:a:root/x//y"), Err(ErnError::EmptyValue(Component::Part)));
    assert_eq!(p("ern:d:c:a:root/"), Err(ErnError::EmptyValue(Component::Part)));
}

#[test]
fn parse_round_trip() {
    let mut g = RootGenerator::new();
    let e = Ern::with_root("custom_root", &mut g, 42).unwrap();
    let e = e.add_part("resource").unwrap().add_part("sub").unwrap();
    let back = ErnParser::new(e.to_string()).parse().unwrap();
    assert_eq!(back, e);
    let bare = make("r", &[]);
    assert_eq!(ErnParser::new(bare.to_string()).parse().unwrap(), bare);
}

#[test]
fn with_constructors_use_defaults() {
    let mut g = RootGenerator::new();
    let e = Ern::with_root("custom_root", &mut g, 7).unwrap();
    assert_eq!(e.root.as_str(), "custom_root_00000000000000000007");
    assert_eq!(e.domain, Domain::default());
    assert_eq!(e.category, Category::default());
    assert_eq!(e.account, Account::default());
    assert_eq!(e.parts, Parts::default());
    let d = Ern::with_domain("tenant", &mut g, 7).unwrap();
    assert_eq!(d.domain.as_str(), "tenant");
    assert_eq!(d.root.as_str(), "root_00000000000000000008");
    let c = Ern::with_category("svc", &mut g, 100).unwrap();
    assert_eq!(c.category.as_str(), "svc");
    assert_eq!(c.to_string(), "ern:acton:svc:default:root_00000000000000000100");
    let a = Ern::with_account("acct", &mut g, 100).unwrap();
    assert_eq!(a.account.as_str(), "acct");
    assert_eq!(Ern::with_domain("", &mut g, 1), Err(ErnError::EmptyValue(Component::Domain)));
    assert_eq!(Ern::with_root("a:b", &mut g, 1), Err(ErnError::InvalidFormat));
}

#[test]
fn with_new_root_keeps_the_rest() {
    let mut g = RootGenerator::new();
    let source = make("rootp", &["x"]);
    let moved = source.with_new_root("new_root", &mut g, 3).unwrap();
    assert_eq!(moved.root.as_str(), "new_root_00000000000000000003");
    assert_eq!(moved.domain, source.domain);
    assert_eq!(moved.parts, source.parts);
}

#[test]
fn add_and_replace_parts() {
    let e = make("rootp", &["a"]);
    assert_eq!(e.add_part(":invalid"), Err(ErnError::InvalidFormat));
    let replaced = e.with_parts(&["x", "y"]).unwrap();
    assert_eq!(part_texts(&replaced), vec!["x", "y"]);
    assert_eq!(e.with_parts(&["x", "", "a/b"]), Err(ErnError::EmptyValue(Component::Part)));
    assert_eq!(e.with_parts(&["x", "a/b", ""]), Err(ErnError::InvalidFormat));
    assert_eq!(part_texts(&e.with_parts(&[]).unwrap()), Vec::<String>::new());
}

#[test]
fn builder_builds_and_validates() {
    let mut g = RootGenerator::new();
    let e = ErnBuilder::new()
        .with_domain("custom").unwrap()
        .with_category("service").unwrap()
        .with_account("account123").unwrap()
        .with_root("res").unwrap()
        .add_part("a").unwrap()
        .build(&mut g, 9);
    assert_eq!(e.to_string(), "ern:custom:service:account123:res_00000000000000000009/a");
    assert!(ErnBuilder::new().with_account("").is_err());
    assert_eq!(ErnBuilder::new().add_part("a:b").err(), Some(ErnError::InvalidFormat));
    let d = ErnBuilder::new().build(&mut g, 0);
    assert_eq!(d.to_string(), "ern:acton:system:default:root_00000000000000000010");
}

#[test]
fn defaults_everywhere() {
    let mut g = RootGenerator::new();
    let e = Ern::with_defaults(&mut g, 12);
    assert_eq!(e.to_string(), "ern:acton:system:default:root_00000000000000000012");
    assert!(e.parent().is_none());
}

#[test]
fn order_by_root_alone() {
    let mut g = RootGenerator::new();
    let early = Ern::with_domain("zeta", &mut g, 1).unwrap();
    let late = Ern::with_domain("alpha", &mut g, 1).unwrap();
    assert_eq!(early.cmp_by_root(&late), Ordering::Less);
    assert_eq!(late.cmp_by_root(&early), Ordering::Greater);
    assert_eq!(early.cmp_by_root(&early.clone()), Ordering::Equal);
    assert!(early < late);
    let a = Ern::with_root("zzz", &mut g, 1).unwrap();
    let b = Ern::with_root("aaa", &mut g, 1).unwrap();
    assert_eq!(a.cmp_by_root(&b), Ordering::Less);
    // plain names order as text and come before generated ones
    let plain = make("zzz", &[]);
    assert_eq!(plain.cmp_by_root(&a), Ordering::Less);
    assert_eq!(make("abc", &[]).cmp_by_root(&make("abd", &[])), Ordering::Less);
    let same_root_other_domain = Ern::new(
        Domain::new("other").unwrap(),
        Category::default(),
        Account::default(),
        Root::new(a.root.as_str()).unwrap(),
        Parts::default(),
    );
    assert_eq!(a.cmp_by_root(&same_root_other_domain), Ordering::Equal);
}
