use moon::display::{BoxDisplay, ComponentValue, Display, InnerDisplayType, OuterDisplayType};
use moon::open_elements::{OpenElement, StackOfOpenElements};
use moon::token_list::DOMTokenList;

fn el(id: u64, tag: &str) -> OpenElement {
    OpenElement { id, tag_name: tag.to_string() }
}

fn stack(tags: &[&str]) -> StackOfOpenElements {
    let mut s = StackOfOpenElements::new();
    for (i, t) in tags.iter().enumerate() {
        s.0.push(el(i as u64, t));
    }
    s
}

fn tags(s: &StackOfOpenElements) -> Vec<String> {
    s.0.iter().map(|e| e.tag_name.clone()).collect()
}

#[test]
fn token_list_add_contains_item_value() {
    let mut l = DOMTokenList::new();
    assert_eq!(l.length(), 0);
    assert_eq!(l.value(), "");
    l.add(vec!["a".to_string(), "b".to_string()]);
    l.add(vec!["c".to_string()]);
    assert_eq!(l.length(), 3);
    assert!(l.contains("b"));
    assert!(!l.contains("d"));
    assert_eq!(l.item(0), Some("a".to_string()));
    assert_eq!(l.item(2), Some("c".to_string()));
    assert_eq!(l.item(3), None);
    assert_eq!(l.value(), "a b c");
}

#[test]
fn token_list_remove_keeps_order() {
    let mut l = DOMTokenList::new();
    l.add(vec!["x".to_string(), "y".to_string(), "x".to_string(), "z".to_string()]);
    l.remove(vec!["x".to_string(), "w".to_string()]);
    assert_eq!(l.value(), "y z");
    assert_eq!(l.length(), 2);
}

#[test]
fn stack_current_get_len() {
    let s = stack(&["html", "body", "div"]);
    assert_eq!(s.len(), 3);
    assert_eq!(s.current_node().unwrap().tag_name, "div");
    assert_eq!(s.get(1).tag_name, "body");
    assert!(StackOfOpenElements::new().current_node().is_none());
}

#[test]
fn stack_last_element_with_tag_name() {
    let s = stack(&["html", "div", "p", "div", "span"]);
    let (e, i) = s.last_element_with_tag_name("div").unwrap();
    assert_eq!(e.id, 3);
    assert_eq!(i, 1);
    assert!(s.last_element_with_tag_name("table").is_none());
}

#[test]
fn stack_pop_until() {
    let mut s = stack(&["html", "div", "p", "span"]);
    s.pop_until("p");
    assert_eq!(tags(&s), vec!["html", "div"]);
    s.pop_until("table");
    assert_eq!(s.len(), 0);
}

#[test]
fn stack_pop_until_match() {
    let mut s = stack(&["html", "div", "p", "span"]);
    s.pop_until_match(|e: &OpenElement| e.tag_name == "div");
    assert_eq!(tags(&s), vec!["html"]);
}

#[test]
fn stack_clear_back_to_table_context() {
    let mut s = stack(&["html", "table", "tbody", "tr"]);
    s.clear_back_to_table_context();
    assert_eq!(tags(&s), vec!["html", "table"]);
}

#[test]
fn stack_remove_first_matching_takes_topmost() {
    let mut s = stack(&["html", "b", "i", "b"]);
    s.remove_first_matching(|e: &OpenElement| e.tag_name == "b");
    assert_eq!(tags(&s), vec!["html", "b", "i"]);
    assert_eq!(s.0[1].id, 1);
    s.remove_first_matching(|e: &OpenElement| e.tag_name == "u");
    assert_eq!(s.len(), 3);
}

#[test]
fn stack_any_contains() {
    let s = stack(&["html", "body"]);
    assert!(s.any(|e: &OpenElement| e.id == 1));
    assert!(!s.any(|e: &OpenElement| e.id == 7));
    assert!(s.contains("body"));
    assert!(!s.contains("p"));
    assert!(s.contains_node(&el(0, "whatever")));
    assert!(!s.contains_node(&el(5, "html")));
}

#[test]
fn stack_scopes() {
    let s = stack(&["html", "p", "table", "td", "b"]);
    assert!(s.has_element_name_in_scope("b"));
    assert!(s.has_element_name_in_scope("td"));
    assert!(!s.has_element_name_in_scope("p"));
    assert!(!s.has_element_name_in_scope("table"));

    let s = stack(&["html", "p", "button", "span"]);
    assert!(s.has_element_name_in_scope("p"));
    assert!(!s.has_element_name_in_button_scope("p"));

    let s = stack(&["html", "li", "ul", "span"]);
    assert!(s.has_element_name_in_scope("li"));
    assert!(!s.has_element_name_in_list_item_scope("li"));

    let s = stack(&["html", "table", "div", "p"]);
    assert!(s.has_element_name_in_table_scope("div"));
    assert!(!s.has_element_name_in_table_scope("html"));

    let s = stack(&["select", "optgroup", "option"]);
    assert!(s.has_element_name_in_select_scope("select"));
    let s = stack(&["select", "div", "option"]);
    assert!(!s.has_element_name_in_select_scope("select"));
}

#[test]
fn stack_element_scope_by_handle() {
    let s = stack(&["html", "p", "table", "td"]);
    assert!(s.has_element_in_scope(&el(3, "td")));
    assert!(!s.has_element_in_scope(&el(1, "p")));
    assert!(s.has_element_in_specific_scope(&el(1, "p"), vec!["td"]) == false);
    assert!(s.has_element_in_specific_scope(&el(1, "p"), vec!["object"]));
}

#[test]
fn display_constructors() {
    match Display::new_block() {
        Display::Full(f) => {
            assert_eq!(*f.outer(), OuterDisplayType::Block);
            assert_eq!(*f.inner(), InnerDisplayType::Flow);
        }
        _ => panic!("expected a full display"),
    }
    match Display::new_inline() {
        Display::Full(f) => assert_eq!(*f.outer(), OuterDisplayType::Inline),
        _ => panic!("expected a full display"),
    }
    assert!(Display::new_inline().is_inline());
    assert!(!Display::new_block().is_inline());
}

#[test]
fn display_parse_keywords() {
    let one = |s: &str| vec![ComponentValue::Ident(s.to_string())];
    assert_eq!(Display::parse(&one("none")), Some(Display::Box(BoxDisplay::NoBox)));
    assert_eq!(Display::parse(&one("Contents")), Some(Display::Box(BoxDisplay::Contents)));
    assert_eq!(Display::parse(&one("BLOCK")), Some(Display::new_block()));
    assert_eq!(Display::parse(&one("inline")), Some(Display::new_inline()));
    assert_eq!(Display::parse(&one("flex")), None);
    assert_eq!(Display::parse(&one("blocks")), None);
    assert_eq!(Display::parse(&[ComponentValue::Other]), None);
    assert_eq!(Display::parse(&[]), None);
    let two = vec![ComponentValue::Ident("block".to_string()), ComponentValue::Ident("flow".to_string())];
    assert_eq!(Display::parse(&two), None);
}
