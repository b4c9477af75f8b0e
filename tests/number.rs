use rebos::error::GenError;
use rebos::listing::{get_list_vector_names, sort_list_vector};
use rebos::number::{list_gen_nums, names_generation, parse_usize, usize_from_gen_name};

#[test]
fn parse_numbers() {
    assert_eq!(parse_usize("42"), Some(42));
    assert_eq!(parse_usize("+7"), Some(7));
    assert_eq!(parse_usize("007"), Some(7));
    assert_eq!(parse_usize(""), None);
    assert_eq!(parse_usize("+"), None);
    assert_eq!(parse_usize("4a"), None);
    assert_eq!(parse_usize("-1"), None);
    assert_eq!(parse_usize("18446744073709551615"), Some(usize::MAX));
    assert_eq!(parse_usize("18446744073709551616"), None);
}

#[test]
fn generation_names_are_trimmed() {
    assert_eq!(usize_from_gen_name("  12\n"), Ok(12));
    assert_eq!(usize_from_gen_name("built"), Err(GenError::InvalidNumber));
    assert_eq!(list_gen_nums(&vec!["3".to_string(), " 10 ".to_string()]), Ok(vec![3, 10]));
    assert_eq!(list_gen_nums(&vec!["3".to_string(), "x".to_string()]), Err(GenError::InvalidNumber));
}

#[test]
fn decimal_names() {
    assert!(names_generation("12", 12));
    assert!(names_generation("0", 0));
    assert!(!names_generation("012", 12));
    assert!(!names_generation("+12", 12));
    assert!(!names_generation("13", 12));
    assert!(!names_generation("", 0));
}

#[test]
fn listing_sorted_by_number() {
    let entry = |n: &str, m: &str| (n.to_string(), m.to_string(), false, false);
    let list = vec![entry("10", "ten"), entry("2", "two"), entry("7", "seven")];
    let sorted = sort_list_vector(&list).unwrap();
    assert_eq!(get_list_vector_names(&sorted), vec!["2", "7", "10"]);
    assert_eq!(sorted[2].1, "ten");
    let bad = vec![entry("1", "a"), entry("current", "b")];
    assert_eq!(sort_list_vector(&bad).err(), Some(GenError::InvalidNumber));
    assert!(sort_list_vector(&Vec::new()).unwrap().is_empty());
}
