use lisp_interp::table::Table;
use lisp_interp::text::{chars_of, same_text, text_of};

#[test]
fn a_table_binds_names_to_values() {
    let mut t: Table<u32> = Table::new();
    assert_eq!(t.len(), 0);
    assert_eq!(t.get("a"), None);
    t.insert("a".to_string(), 1);
    t.insert("b".to_string(), 2);
    assert_eq!(t.get("a"), Some(&1));
    assert_eq!(t.get("b"), Some(&2));
    assert_eq!(t.get("c"), None);
    assert_eq!(t.get(""), None);
    assert_eq!(t.len(), 2);
    assert_eq!(t.name_list(), vec!["a".to_string(), "b".to_string()]);
}

#[test]
fn binding_a_name_again_replaces_its_value_and_keeps_its_place() {
    let mut t: Table<u32> = Table::new();
    t.insert("a".to_string(), 1);
    t.insert("b".to_string(), 2);
    t.insert("a".to_string(), 3);
    assert_eq!(t.get("a"), Some(&3));
    assert_eq!(t.get("b"), Some(&2));
    assert_eq!(t.len(), 2);
    assert_eq!(t.name_list(), vec!["a".to_string(), "b".to_string()]);
}

#[test]
fn texts_and_their_characters() {
    assert_eq!(chars_of("a\u{e9}("), vec!['a', '\u{e9}', '(']);
    assert_eq!(chars_of(""), Vec::<char>::new());
    let chars = vec!['a', 'b', 'c', 'd'];
    assert_eq!(text_of(&chars, 1, 3), "bc");
    assert_eq!(text_of(&chars, 0, 4), "abcd");
    assert_eq!(text_of(&chars, 2, 2), "");
    assert!(same_text("abc", "abc"));
    assert!(same_text("", ""));
    assert!(!same_text("abc", "abd"));
    assert!(!same_text("abc", "ab"));
    assert!(!same_text("", "a"));
}
