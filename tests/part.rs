use acton_ern::{Component, ErnError, Part};

#[test]
fn test_part_creation() {
    let part = Part::new("segment").unwrap();
    assert_eq!(part.as_str(), "segment");
}

#[test]
fn test_part_display() {
    let part = Part::new("example").unwrap();
    assert_eq!(part.to_string(), "example");
}

#[test]
fn test_part_from_str() {
    let part: Part = "test".parse().unwrap();
    assert_eq!(part.as_str(), "test");
}

#[test]
fn test_part_equality() {
    let part1 = Part::new("segment1").unwrap();
    let part2 = Part::new("segment1").unwrap();
    let part3 = Part::new("segment2").unwrap();
    assert_eq!(part1, part2);
    assert_ne!(part1, part3);
}

#[test]
fn test_part_into_string() {
    let part = Part::new("segment").unwrap();
    let string: String = part.into();
    assert_eq!(string, "segment");
}

#[test]
fn part_rejects_empty_and_delimiters() {
    assert_eq!(Part::new(""), Err(ErnError::EmptyValue(Component::Part)));
    assert_eq!(Part::new("a:b"), Err(ErnError::InvalidFormat));
    assert_eq!(Part::new("a/b"), Err(ErnError::InvalidFormat));
    assert_eq!(Part::new(":invalid"), Err(ErnError::InvalidFormat));
}

#[test]
fn part_into_owned_keeps_text() {
    let part = Part::new("segment").unwrap();
    assert_eq!(part.into_owned().as_str(), "segment");
}
