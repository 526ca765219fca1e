use forth_core::dictionary::{DefineItem, Dictionary};
use forth_core::stack::Stack;
use forth_core::word::{ForthWord, WordFunc, WordType};

fn prim(name: &str, func: WordFunc) -> ForthWord {
    ForthWord { name: name.to_string(), func, wtype: WordType::Primv, immediate: false, define_ptr: 999 }
}

#[test]
fn stack_pop_after_push() {
    let mut s = Stack::new();
    s.push(3);
    s.push(-8);
    assert_eq!(s.len(), 2);
    assert_eq!(s.pop(), -8);
    assert_eq!(s.to_vec(), vec![3]);
    assert_eq!(s.pop(), 3);
    assert_eq!(s.len(), 0);
}

#[test]
fn new_dictionary_is_empty() {
    let d = Dictionary::new();
    assert!(d.find("dup").is_none());
    assert_eq!(d.tod(), 0);
    assert_eq!(d.get_define_len(), 0);
    assert!(d.list_words().is_empty());
    assert!(d.last_word_name().is_none());
    assert!(!d.has_last_word());
}

#[test]
fn find_after_create_gives_new_word() {
    let mut d = Dictionary::new();
    d.create_primv_word(prim("dup", WordFunc::Dup));
    d.compile_lit(5);
    d.create_word("sq".to_string());
    let w = d.find("sq").unwrap();
    assert_eq!(w.name, "sq");
    assert_eq!(w.func, WordFunc::Colon);
    assert_eq!(w.wtype, WordType::Dict);
    assert!(!w.immediate);
    assert_eq!(w.define_ptr, 1);
    assert_eq!(d.find("dup").unwrap().func, WordFunc::Dup);
    assert_eq!(d.last_word_name(), Some("sq".to_string()));
    assert!(d.has_last_word());
}

#[test]
fn create_replaces_word_of_same_name() {
    let mut d = Dictionary::new();
    d.create_word("x".to_string());
    d.compile_lit(1);
    d.create_word("y".to_string());
    d.create_word("x".to_string());
    let names: Vec<String> = d.list_words().into_iter().map(|w| w.name).collect();
    assert_eq!(names, vec!["x".to_string(), "y".to_string()]);
    assert_eq!(d.find("x").unwrap().define_ptr, 1);
}

#[test]
fn set_last_changes_only_last_word() {
    let mut d = Dictionary::new();
    d.create_word("a".to_string());
    d.create_word("b".to_string());
    d.set_last_func(WordFunc::Const);
    d.set_last_type(WordType::Const);
    d.set_last_immediate();
    let b = d.find("b").unwrap();
    assert_eq!(b.func, WordFunc::Const);
    assert_eq!(b.wtype, WordType::Const);
    assert!(b.immediate);
    let a = d.find("a").unwrap();
    assert_eq!(a.func, WordFunc::Colon);
    assert!(!a.immediate);
}

#[test]
fn compile_appends_calls() {
    let mut d = Dictionary::new();
    d.create_primv_word(prim("dup", WordFunc::Dup));
    d.compile_lit(7);
    d.create_word("w".to_string());
    assert!(d.compile("dup"));
    assert!(d.compile("w"));
    assert!(!d.compile("nope"));
    assert_eq!(d.code_space(), vec![DefineItem::Lit(7), DefineItem::Func(WordFunc::Dup), DefineItem::Addr(1)]);
    assert_eq!(d.tod(), 3);
    assert_eq!(d.get_define_len(), 3);
}

#[test]
fn get_lit_after_put_lit() {
    let mut d = Dictionary::new();
    d.compile_lit(1);
    d.compile_lit(2);
    d.put_lit(0, 42);
    assert_eq!(d.get_lit(0), 42);
    assert_eq!(d.get_lit(1), 2);
    assert_eq!(*d.get_define(1), DefineItem::Lit(2));
    d.put_lit(1, usize::MAX);
    assert_eq!(d.get_lit(1), -1);
}
