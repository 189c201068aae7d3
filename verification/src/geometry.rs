//! Geometry for placing widgets: the center of a window in its own
//! local coordinates, the top-left corner that centers a button
//! inside it, and the extent of a button sized to a measured label.
//!
//! Everything here is in the window's local frame, where (0, 0) is
//! its top-left corner: that is the frame the toolkit positions
//! children in.  A driver that places a whole popup window on the
//! screen adds the reference window's own origin afterwards.
//!
//! Text measurement itself belongs to the toolkit (it depends on the
//! fonts of the machine); the functions here take measured extents as
//! plain numbers and do the arithmetic.

use vstd::prelude::*;

verus! {

/// A widget's placement: top-left corner and size, in pixels.
#[derive(Clone, Copy, Debug, PartialEq, Eq, Structural)]
pub struct Rect {
    pub x: i32,
    pub y: i32,
    pub w: i32,
    pub h: i32,
}

impl Rect {
    /// A drawable rectangle has positive width and height.
    pub open spec fn well_formed(self) -> bool {
        self.w > 0 && self.h > 0
    }

    /// The horizontal center in the rectangle's own local frame: half
    /// the width, rounded down.
    pub open spec fn center_x(self) -> int {
        self.w / 2
    }

    /// The vertical center in the local frame.
    pub open spec fn center_y(self) -> int {
        self.h / 2
    }
}

/// The coordinates of the center of `win`, in the window's own local
/// frame: (0, 0) is its top-left corner, whatever the window's
/// position on the screen.
pub fn fltk_find_center_wndw(win: &Rect) -> (c: (i32, i32))
    requires
        win.well_formed(),
    ensures
        c.0 == win.center_x(),
        c.1 == win.center_y(),
{
    let center_x = win.w / 2;
    let center_y = win.h / 2;
    (center_x, center_y)
}

/// The top-left position, in the window's local frame, that centers a
/// button of size `bttn_w` by `bttn_h` inside `win`: at the returned
/// position the button's center coincides with the window's center,
/// both measured with the same rounded-down halves.
pub fn fltk_center_button_in_win(win: &Rect, bttn_w: i32, bttn_h: i32) -> (pos: (i32, i32))
    requires
        win.well_formed(),
        bttn_w > 0,
        bttn_h > 0,
    ensures
        pos.0 + bttn_w / 2 == win.center_x(),
        pos.1 + bttn_h / 2 == win.center_y(),
        pos.0 == win.center_x() - bttn_w / 2,
        pos.1 == win.center_y() - bttn_h / 2,
{
    let (centerx, centery) = fltk_find_center_wndw(win);
    let xxx = centerx - bttn_w / 2;
    let yyy = centery - bttn_h / 2;
    (xxx, yyy)
}

/// The extent of a label once `padding` is added on every side.
pub open spec fn padded_extent(measured: int, padding: int) -> int {
    measured + 2 * padding
}

/// The size of a button that fits a label measured at
/// `label_w` by `label_h`, with `padding` pixels around it.
pub fn size_around_label(label_w: i32, label_h: i32, padding: i32) -> (dims: (i32, i32))
    requires
        label_w >= 0,
        label_h >= 0,
        padding >= 0,
        padded_extent(label_w as int, padding as int) <= i32::MAX,
        padded_extent(label_h as int, padding as int) <= i32::MAX,
    ensures
        dims.0 == padded_extent(label_w as int, padding as int),
        dims.1 == padded_extent(label_h as int, padding as int),
{
    let bttn_width = label_w + padding * 2;
    let bttn_height = label_h + padding * 2;
    (bttn_width, bttn_height)
}

/// The number of bytes a character takes in UTF-8.
pub open spec fn char_utf8_len(c: char) -> nat {
    if (c as u32) < 0x80 {
        1
    } else if (c as u32) < 0x800 {
        2
    } else if (c as u32) < 0x10000 {
        3
    } else {
        4
    }
}

/// The number of bytes a text takes in UTF-8.
pub open spec fn text_byte_len(s: Seq<char>) -> nat
    decreases s.len(),
{
    if s.len() == 0 {
        0
    } else {
        text_byte_len(s.drop_last()) + char_utf8_len(s.last())
    }
}

/// The byte length of the longest label, zero when there are none.
pub open spec fn longest_label_len(labels: Seq<Seq<char>>) -> nat
    decreases labels.len(),
{
    if labels.len() == 0 {
        0
    } else {
        let rest = longest_label_len(labels.drop_last());
        let lastlen = text_byte_len(labels.last());
        if lastlen > rest {
            lastlen
        } else {
            rest
        }
    }
}

/// Relies on lib_utils::vec::vec_longest_str_len: the byte length of
/// the longest string in the vector, zero for an empty vector.
#[verifier::external_body]
fn longest_label_byte_len(labels: &Vec<String>) -> (r: usize)
    ensures
        r as nat == longest_label_len(labels.deep_view()),
{
    lib_utils::vec::vec_longest_str_len(labels)
}

/// The widget extents the radio menu is laid out with: toggle
/// controls as wide as the longest label's byte count, inside a pack
/// ten pixels beyond that, the width clamped so that both fit the
/// toolkit's signed coordinates.
pub fn radio_menu_extents(items: &Vec<String>) -> (r: (i32, i32))
    ensures
        ({
            let l = longest_label_len(items.deep_view());
            &&& r.0 == if l > i32::MAX - 10 {
                i32::MAX - 10
            } else {
                l as int
            }
            &&& r.1 == r.0 + 10
        }),
{
    let l = longest_label_byte_len(items);
    let cap: usize = (i32::MAX - 10) as usize;
    let w: i32 = if l > cap {
        i32::MAX - 10
    } else {
        l as i32
    };
    (w, w + 10)
}

/// A button sized around a label never gets narrower when the label
/// measures wider: whichever label measures at least as wide at the
/// same font and padding fits in a button at least as wide.
pub proof fn lemma_size_around_label_monotonic(
    narrow: int,
    wide: int,
    padding: int,
)
    requires
        narrow <= wide,
    ensures
        padded_extent(narrow, padding) <= padded_extent(wide, padding),
{
}

} // verus!
