use rightkeys::element::{
    area, deduplicate, generate_labels, overlap_area, Element, HintSession, Role, HINT_CHARS,
};

fn make_element(label: &str, x: i32, y: i32, width: i32, height: i32) -> Element {
    Element {
        height,
        label: label.to_owned(),
        width,
        x,
        y,
        bus_name: String::new(),
        node_path: "/stub".to_owned(),
        role: Role::PushButton,
    }
}

#[test]
fn element_clone_preserves_label() {
    let e = make_element("button", 10, 10, 80, 20);
    assert_eq!(e.clone().label, "button");
}

#[test]
fn generate_labels_single_char_when_few() {
    let labels = generate_labels(3, "asdf");
    assert_eq!(labels, &["a", "s", "d"]);
}

#[test]
fn generate_labels_two_char_beyond_pool() {
    let labels = generate_labels(4, "ab");
    assert_eq!(labels.len(), 4);
    assert!(labels.iter().all(|l| l.len() == 2));
}

#[test]
fn generate_labels_empty_pool_returns_empty_strings() {
    let labels = generate_labels(3, "");
    assert_eq!(labels, &["", "", ""]);
}

#[test]
fn nested_child_inside_parent_is_dropped() {
    let parent = make_element("cell", 0, 0, 100, 100);
    let child = make_element("icon", 40, 40, 20, 20);
    let result = deduplicate(vec![parent, child]);
    assert_eq!(result.len(), 1);
    assert_eq!(result[0].label, "cell");
}

#[test]
fn disjoint_elements_are_kept() {
    let a = make_element("a", 0, 0, 50, 50);
    let b = make_element("b", 200, 200, 50, 50);
    let result = deduplicate(vec![a, b]);
    assert_eq!(result.len(), 2);
}

#[test]
fn low_overlap_neighbours_are_kept() {
    // 50x50 boxes overlapping only 10x10 — far below half of either.
    let a = make_element("a", 0, 0, 50, 50);
    let b = make_element("b", 40, 40, 50, 50);
    let result = deduplicate(vec![a, b]);
    assert_eq!(result.len(), 2);
}

#[test]
fn mostly_overlapping_neighbour_is_dropped() {
    // Second box covers more than half of the first — collapse to one.
    let a = make_element("a", 0, 0, 50, 50);
    let b = make_element("b", 10, 10, 50, 50);
    let result = deduplicate(vec![a, b]);
    assert_eq!(result.len(), 1);
}

#[test]
fn empty_input_returns_empty() {
    assert!(deduplicate(vec![]).is_empty());
}

#[test]
fn overlap_area_and_area_geometry() {
    let a = make_element("a", 0, 0, 100, 100);
    let b = make_element("b", 50, 50, 100, 100);
    assert_eq!(area(&a), 100 * 100);
    assert_eq!(overlap_area(&a, &b), 50 * 50);
    assert_eq!(overlap_area(&a, &a), 100 * 100);
}

#[test]
fn labels_grow_as_long_as_they_have_to() {
    assert_eq!(generate_labels(5, "ab"), vec!["aaa", "aab", "aba", "abb", "baa"]);
    assert_eq!(generate_labels(2, "ab"), vec!["a", "b"]);
    let labels = generate_labels(1000, "asdfghjklqwertyuiopzxcvbnm");
    assert_eq!(labels.len(), 1000);
    assert!(labels.iter().all(|l| l.chars().count() == 3));
    let mut sorted = labels.clone();
    sorted.sort();
    sorted.dedup();
    assert_eq!(sorted.len(), 1000);
    assert_eq!(generate_labels(1, "x"), vec!["x"]);
    assert_eq!(generate_labels(3, "x"), vec!["xx", "xxx", "xxxx"]);
    assert_eq!(generate_labels(0, "x"), Vec::<String>::new());
    assert_eq!(generate_labels(3, "aba"), vec!["aa", "ab", "ba"]);
    assert_eq!(generate_labels(2, "xx"), vec!["xx", "xxx"]);
}

#[test]
fn every_element_gets_a_hint() {
    let elements = (0..700).map(|i| make_element("b", i * 20, 0, 10, 10)).collect();
    let (_, pairs) = HintSession::new(elements, HINT_CHARS);
    assert_eq!(pairs.len(), 700);
    assert_eq!(pairs[699].1.len(), 3);
}
