use linked_list::render::render_labels;

#[test]
fn render_no_labels() {
    assert_eq!(render_labels(&Vec::new()), "[null]");
}

#[test]
fn render_some_labels() {
    let labels = vec![String::from("3"), String::from("2"), String::from("1")];
    assert_eq!(render_labels(&labels), "[3 -> 2 -> 1 -> null]");
}

#[test]
fn render_keeps_labels_as_they_are() {
    let labels = vec![String::from(""), String::from("a -> b"), String::from("null]")];
    assert_eq!(render_labels(&labels), "[ -> a -> b -> null] -> null]");
}
