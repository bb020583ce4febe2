use hej::labels::{has_label, has_name, removed_labels};

fn opt(labels: &[Option<&str>]) -> Vec<Option<String>> {
    labels.iter().map(|l| l.map(|s| s.to_string())).collect()
}

#[test]
fn an_unchanged_view_closes_nothing() {
    let labels = opt(&[Some("bar.left"), None, Some("menu")]);
    assert_eq!(removed_labels(&labels, &labels), Vec::<String>::new());
}

#[test]
fn a_label_that_is_gone_is_closed_once() {
    let previous = opt(&[Some("bar.left"), Some("menu")]);
    let current = opt(&[Some("menu")]);
    assert_eq!(removed_labels(&previous, &current), vec!["bar.left".to_string()]);
}

#[test]
fn a_label_that_occurred_twice_is_still_closed_once() {
    let previous = opt(&[Some("a"), Some("b"), Some("a")]);
    let current = opt(&[Some("b")]);
    assert_eq!(removed_labels(&previous, &current), vec!["a".to_string()]);
}

#[test]
fn labels_are_closed_in_the_order_of_the_previous_view() {
    let previous = opt(&[Some("c"), None, Some("a"), Some("b")]);
    let current = opt(&[None]);
    assert_eq!(
        removed_labels(&previous, &current),
        vec!["c".to_string(), "a".to_string(), "b".to_string()]
    );
}

#[test]
fn elements_without_a_label_are_never_closed() {
    let previous = opt(&[None, None]);
    let current = opt(&[]);
    assert_eq!(removed_labels(&previous, &current), Vec::<String>::new());
}

#[test]
fn new_labels_close_nothing() {
    let previous = opt(&[]);
    let current = opt(&[Some("a")]);
    assert_eq!(removed_labels(&previous, &current), Vec::<String>::new());
}

#[test]
fn has_label_and_has_name_compare_texts() {
    let labels = opt(&[None, Some("a")]);
    assert!(has_label(&labels, &"a".to_string()));
    assert!(!has_label(&labels, &"b".to_string()));
    let names = vec!["x".to_string()];
    assert!(has_name(&names, &"x".to_string()));
    assert!(!has_name(&names, &"".to_string()));
}
