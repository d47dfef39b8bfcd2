use vstd::prelude::*;

verus! {

/// Half of `v`, rounded toward zero, as integer division does.
pub open spec fn half_toward_zero(v: int) -> int {
    if v >= 0 {
        v / 2
    } else {
        -((-v) / 2)
    }
}

/// Where a popup of `width` by `height` pixels is placed over a window at
/// (`win_x`, `win_y`) of `win_width` by `win_height` pixels: so that it is
/// centred on the window, the offsets rounded toward zero.
pub fn centered_position(
    win_x: i32,
    win_y: i32,
    win_width: i32,
    win_height: i32,
    width: i32,
    height: i32,
) -> (res: (i32, i32))
    requires
        i32::MIN <= win_width - width <= i32::MAX,
        i32::MIN <= win_height - height <= i32::MAX,
        i32::MIN <= win_x + half_toward_zero(win_width - width) <= i32::MAX,
        i32::MIN <= win_y + half_toward_zero(win_height - height) <= i32::MAX,
    ensures
        res.0 == win_x + half_toward_zero(win_width - width),
        res.1 == win_y + half_toward_zero(win_height - height),
{
    let dx = win_width - width;
    let dy = win_height - height;
    (win_x + dx / 2, win_y + dy / 2)
}

/// The popup is centred on the window up to half a pixel: twice the
/// distance between the two centres is at most one pixel, and none where
/// the sizes differ by an even number.
pub proof fn law_popup_is_centered(win_pos: int, win_size: int, size: int)
    ensures
        ({
            let pos = win_pos + half_toward_zero(win_size - size);
            let gap = (2 * pos + size) - (2 * win_pos + win_size);
            &&& -1 <= gap <= 1
            &&& (win_size - size) % 2 == 0 ==> gap == 0
        }),
{
}

} // verus!
