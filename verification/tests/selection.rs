use lib_myfltk::selection::{CheckboxMenu, RadioMenu, ShiftMenu};

fn labels(names: &[&str]) -> Vec<String> {
    names.iter().map(|s| s.to_string()).collect()
}

#[test]
fn checkbox_submit_in_order() {
    let mut menu = CheckboxMenu::new(labels(&["flamingo", "tiger", "lion"]));
    menu.toggle(2);
    menu.toggle(0);
    assert_eq!(menu.submit(), labels(&["flamingo", "lion"]));
}

#[test]
fn checkbox_none_yields_empty() {
    let menu = CheckboxMenu::new(labels(&["flamingo", "tiger", "lion"]));
    assert_eq!(menu.submit(), Vec::<String>::new());
}

#[test]
fn checkbox_empty_label_list() {
    let menu = CheckboxMenu::new(Vec::new());
    assert_eq!(menu.submit(), Vec::<String>::new());
}

#[test]
fn checkbox_keeps_duplicates() {
    let mut menu = CheckboxMenu::new(labels(&["a", "a", "b"]));
    menu.toggle(0);
    menu.toggle(1);
    assert_eq!(menu.submit(), labels(&["a", "a"]));
}

#[test]
fn checkbox_toggle_twice_is_off() {
    let mut menu = CheckboxMenu::new(labels(&["a", "b"]));
    menu.toggle(1);
    menu.toggle(1);
    assert_eq!(menu.submit(), Vec::<String>::new());
}

#[test]
fn checkbox_set_checked_overrides() {
    let mut menu = CheckboxMenu::new(labels(&["a", "b"]));
    menu.set_checked(0, true);
    menu.set_checked(1, true);
    menu.set_checked(0, false);
    assert_eq!(menu.submit(), labels(&["b"]));
}

#[test]
fn radio_single_selection_wins() {
    let mut menu = RadioMenu::new(labels(&["flamingo", "tiger", "lion"]));
    menu.select(1);
    assert_eq!(menu.submit(), "tiger".to_string());
}

#[test]
fn radio_nothing_selected_is_empty() {
    let menu = RadioMenu::new(labels(&["flamingo", "tiger", "lion"]));
    assert_eq!(menu.submit(), String::new());
}

#[test]
fn radio_reselect_is_exclusive() {
    let mut menu = RadioMenu::new(labels(&["flamingo", "tiger", "lion"]));
    menu.select(0);
    menu.select(2);
    assert_eq!(menu.submit(), "lion".to_string());
}

#[test]
fn shift_accumulates_across_shifts() {
    let mut menu = ShiftMenu::new(labels(&["a", "b"]));
    menu.toggle(0);
    let first = menu.shift();
    assert_eq!(first, "a\n".to_string());
    menu.toggle(1);
    let second = menu.shift();
    assert_eq!(second, "a\nb\n".to_string());
    assert_eq!(menu.take_kept(), labels(&["a", "a", "b"]));
    assert_eq!(menu.take_kept(), Vec::<String>::new());
}

#[test]
fn shift_set_checked_mirrors_widget_state() {
    let mut menu = ShiftMenu::new(labels(&["a", "b", "c"]));
    menu.set_checked(0, true);
    menu.set_checked(2, true);
    menu.set_checked(0, false);
    assert_eq!(menu.shift(), "c\n".to_string());
    assert_eq!(menu.take_kept(), labels(&["c"]));
}

#[test]
fn shift_with_nothing_checked_shows_nothing() {
    let mut menu = ShiftMenu::new(labels(&["a", "b"]));
    assert_eq!(menu.shift(), String::new());
    assert_eq!(menu.take_kept(), Vec::<String>::new());
}
