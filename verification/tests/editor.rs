use lib_myfltk::editor::EditorBuffer;
use lib_myfltk::error::ErrorKind;

fn chars(s: &str) -> Vec<char> {
    s.chars().collect()
}

#[test]
fn replace_highlighted_middle() {
    let mut buf = EditorBuffer::new();
    buf.set_text(chars("Hello world"));
    buf.select_range(6, 11).unwrap();
    buf.replace_selection(&chars("there")).unwrap();
    assert_eq!(buf.text(), &chars("Hello there"));
    assert_eq!(buf.selection_position(), None);
}

#[test]
fn replace_with_longer_text() {
    let mut buf = EditorBuffer::new();
    buf.set_text(chars("ab"));
    buf.select_range(1, 1).unwrap();
    buf.replace_selection(&chars("XYZ")).unwrap();
    assert_eq!(buf.text(), &chars("aXYZb"));
}

#[test]
fn replace_with_empty_text_deletes() {
    let mut buf = EditorBuffer::new();
    buf.set_text(chars("Hello world"));
    buf.select_range(0, 6).unwrap();
    buf.replace_selection(&chars("")).unwrap();
    assert_eq!(buf.text(), &chars("world"));
}

#[test]
fn replace_without_selection_fails() {
    let mut buf = EditorBuffer::new();
    buf.set_text(chars("Hello"));
    assert_eq!(buf.replace_selection(&chars("x")), Err(ErrorKind::NoSelection));
    assert_eq!(buf.text(), &chars("Hello"));
}

#[test]
fn replace_after_unselect_fails() {
    let mut buf = EditorBuffer::new();
    buf.set_text(chars("Hello"));
    buf.select_range(0, 2).unwrap();
    buf.unselect();
    assert_eq!(buf.replace_selection(&chars("x")), Err(ErrorKind::NoSelection));
}

#[test]
fn select_backwards_range_fails() {
    let mut buf = EditorBuffer::new();
    buf.set_text(chars("Hello"));
    assert_eq!(buf.select_range(3, 1), Err(ErrorKind::InvalidInput));
}

#[test]
fn select_past_end_fails() {
    let mut buf = EditorBuffer::new();
    buf.set_text(chars("Hello"));
    assert_eq!(buf.select_range(2, 9), Err(ErrorKind::InvalidInput));
}

#[test]
fn set_text_drops_selection() {
    let mut buf = EditorBuffer::new();
    buf.set_text(chars("Hello"));
    buf.select_range(0, 5).unwrap();
    buf.set_text(chars("bye"));
    assert_eq!(buf.selection_position(), None);
    assert_eq!(buf.text(), &chars("bye"));
}
