use xivdata::strorder::{lex_sort, str_lex_le};

#[test]
fn test_str_lex_le_basic() {
    assert!(str_lex_le("Alpha", "Cerberus"));
    assert!(!str_lex_le("Cerberus", "Alpha"));
    assert!(str_lex_le("Alpha", "Alpha"));
    // a proper prefix precedes the longer string
    assert!(str_lex_le("Al", "Alpha"));
    assert!(!str_lex_le("Alpha", "Al"));
    // the empty string precedes everything
    assert!(str_lex_le("", "A"));
    assert!(!str_lex_le("A", ""));
}

#[test]
fn test_lex_sort_scrambled() {
    let mut v = vec![
        "Zodiark".to_string(),
        "Alpha".to_string(),
        "Lich".to_string(),
        "Cerberus".to_string(),
    ];
    lex_sort(&mut v);
    assert_eq!(v, vec!["Alpha", "Cerberus", "Lich", "Zodiark"]);
}

#[test]
fn test_lex_sort_empty() {
    let mut v: Vec<String> = vec![];
    lex_sort(&mut v);
    assert!(v.is_empty());
}

#[test]
fn test_lex_sort_duplicates() {
    let mut v = vec![
        "Moogle".to_string(),
        "Alpha".to_string(),
        "Moogle".to_string(),
    ];
    lex_sort(&mut v);
    assert_eq!(v, vec!["Alpha", "Moogle", "Moogle"]);
}
