use lib_myfltk::geometry::{
    fltk_center_button_in_win, fltk_find_center_wndw, radio_menu_extents, size_around_label, Rect,
};

#[test]
fn center_of_window_is_local() {
    let win = Rect { x: 1000, y: 100, w: 700, h: 850 };
    assert_eq!(fltk_find_center_wndw(&win), (350, 425));
}

#[test]
fn center_ignores_window_origin() {
    let at_origin = Rect { x: 0, y: 0, w: 700, h: 850 };
    let moved = Rect { x: -40, y: 2000, w: 700, h: 850 };
    assert_eq!(fltk_find_center_wndw(&at_origin), fltk_find_center_wndw(&moved));
}

#[test]
fn center_of_window_rounds_down() {
    let win = Rect { x: 0, y: 0, w: 5, h: 3 };
    assert_eq!(fltk_find_center_wndw(&win), (2, 1));
}

#[test]
fn centered_button_centers_coincide() {
    let win = Rect { x: 0, y: 0, w: 400, h: 200 };
    let (x, y) = fltk_center_button_in_win(&win, 100, 40);
    assert_eq!((x, y), (150, 80));
    assert_eq!(x + 100 / 2, 400 / 2);
    assert_eq!(y + 40 / 2, 200 / 2);
}

#[test]
fn centered_button_in_moved_window() {
    // The window's screen position plays no part: children are placed
    // in the window's own frame.
    let win = Rect { x: 1000, y: 100, w: 400, h: 200 };
    assert_eq!(fltk_center_button_in_win(&win, 100, 40), (150, 80));
}

#[test]
fn centered_popup_local_position() {
    // The popup driver adds the reference window's origin to this
    // local position before placing the popup on the screen.
    let primwin = Rect { x: 1000, y: 100, w: 700, h: 850 };
    let (x, y) = fltk_center_button_in_win(&primwin, 575, 100);
    assert_eq!((x, y), (350 - 287, 425 - 50));
}

#[test]
fn size_fits_measured_label() {
    assert_eq!(size_around_label(120, 20, 10), (140, 40));
}

#[test]
fn size_grows_with_wider_measurement() {
    let (narrow, _) = size_around_label(120, 20, 10);
    let (wide, _) = size_around_label(130, 20, 10);
    assert!(narrow <= wide);
}

#[test]
fn radio_extents_follow_longest_label() {
    let items = vec!["a".to_string(), "abc".to_string(), "zz".to_string()];
    assert_eq!(radio_menu_extents(&items), (3, 13));
}

#[test]
fn radio_extents_of_empty_list() {
    let items: Vec<String> = Vec::new();
    assert_eq!(radio_menu_extents(&items), (0, 10));
}

#[test]
fn radio_extents_count_bytes_not_chars() {
    let items = vec!["\u{e9}\u{e9}".to_string()];
    assert_eq!(radio_menu_extents(&items), (4, 14));
}
