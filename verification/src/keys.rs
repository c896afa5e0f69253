//! Keyboard mapping: which keycode produces a keysym, as read from the X
//! server's keyboard mapping, for simulating Ctrl+V.

use vstd::prelude::*;

verus! {

/// X11 keysym of the left Control key.
pub const XK_CONTROL_L: u32 = 0xffe3;

/// X11 keysym of the lowercase letter v.
pub const XK_V: u32 = 0x0076;

/// Position of the first occurrence of `keysym` in `keysyms`.
pub open spec fn is_first_occurrence(keysyms: Seq<u32>, keysym: u32, j: int) -> bool {
    &&& 0 <= j < keysyms.len()
    &&& keysyms[j] == keysym
    &&& forall|k: int| 0 <= k < j ==> keysyms[k] != keysym
}

/// The keycode whose group of `per_keycode` keysyms (the mapping lists
/// `per_keycode` keysyms per keycode, from keycode `min_keycode` on) holds
/// `keysym` first; `None` when no group does, when `per_keycode` is 0, or when
/// the keycode would exceed 255.
pub fn keycode_for(min_keycode: u8, per_keycode: u8, keysyms: &Vec<u32>, keysym: u32) -> (res:
    Option<u8>)
    ensures
        per_keycode == 0 ==> res is None,
        per_keycode > 0 ==> match res {
            Some(code) => exists|j: int|
                is_first_occurrence(keysyms@, keysym, j) && code == min_keycode + j
                    / per_keycode as int,
            None => forall|j: int|
                is_first_occurrence(keysyms@, keysym, j) ==> min_keycode + j / per_keycode as int
                    > 255,
        },
{
    if per_keycode == 0 {
        return None;
    }
    let per = per_keycode as usize;
    let mut j: usize = 0;
    while j < keysyms.len()
        invariant
            j <= keysyms@.len(),
            per == per_keycode,
            per > 0,
            forall|k: int| 0 <= k < j ==> keysyms@[k] != keysym,
        decreases keysyms@.len() - j,
    {
        if keysyms[j] == keysym {
            let group = j / per;
            assert(is_first_occurrence(keysyms@, keysym, j as int));
            if group <= 255 - (min_keycode as usize) {
                return Some(min_keycode + group as u8);
            } else {
                proof {
                    assert forall|i: int| is_first_occurrence(keysyms@, keysym, i) implies
                        min_keycode + i / per_keycode as int > 255 by {
                        if i < j {
                            assert(keysyms@[i] != keysym);
                        } else if i > j {
                            assert(keysyms@[j as int] != keysym);
                        }
                    }
                }
                return None;
            }
        }
        j = j + 1;
    }
    None
}

/// How many keycodes to ask the keyboard mapping for, from `min_keycode`
/// to `max_keycode` inclusive (1 when the range is empty, at most 255).
pub fn mapping_count(min_keycode: u8, max_keycode: u8) -> (res: u8)
    ensures
        res == if max_keycode <= min_keycode {
            1
        } else if max_keycode - min_keycode + 1 > 255 {
            255
        } else {
            max_keycode - min_keycode + 1
        },
{
    let span: u8 = if max_keycode <= min_keycode { 0 } else { max_keycode - min_keycode };
    if span == 255 {
        255
    } else {
        span + 1
    }
}

} // verus!
