use acton_ern::{Account, Category, Component, Domain, ErnError};

#[test]
fn domain_creation_and_default() {
    assert_eq!(Domain::new("test").unwrap().as_str(), "test");
    assert_eq!(Domain::default().as_str(), "acton");
    assert_eq!(Domain::new("example").unwrap().to_string(), "example");
    let parsed: Domain = "test".parse().unwrap();
    assert_eq!(parsed.as_str(), "test");
    assert_eq!(Domain::new("test").unwrap().into_owned().as_str(), "test");
}

#[test]
fn domain_equality() {
    let d1 = Domain::new("test").unwrap();
    let d2 = Domain::new("test").unwrap();
    let d3 = Domain::new("other").unwrap();
    assert_eq!(d1, d2);
    assert_ne!(d1, d3);
}

#[test]
fn empty_components_are_refused() {
    assert_eq!(Domain::new(""), Err(ErnError::EmptyValue(Component::Domain)));
    assert_eq!(Category::new(""), Err(ErnError::EmptyValue(Component::Category)));
    assert_eq!(Account::new(""), Err(ErnError::EmptyValue(Component::Account)));
}

#[test]
fn category_and_account_defaults() {
    assert_eq!(Category::default().as_str(), "system");
    assert_eq!(Account::default().as_str(), "default");
    assert_eq!(Category::new("hr").unwrap().as_str(), "hr");
    assert_eq!(Account::new("company123").unwrap().as_str(), "company123");
}

#[test]
fn component_names() {
    assert_eq!(Component::Domain.name(), "Domain");
    assert_eq!(Component::Part.name(), "Part");
}

#[test]
fn domain_into_string_and_parse() {
    let s: String = Domain::new("test").unwrap().into();
    assert_eq!(s, "test");
    let s: String = Category::new("hr").unwrap().into();
    assert_eq!(s, "hr");
    let s: String = Account::new("acct").unwrap().into();
    assert_eq!(s, "acct");
    assert_eq!("".parse::<Domain>(), Err(ErnError::EmptyValue(Component::Domain)));
    assert_eq!("".parse::<Account>(), Err(ErnError::EmptyValue(Component::Account)));
    assert_eq!("svc".parse::<Category>().unwrap().as_str(), "svc");
    assert_eq!("a/b".parse::<acton_ern::Part>(), Err(ErnError::InvalidFormat));
    assert_eq!(Component::Category.name(), "Category");
}
