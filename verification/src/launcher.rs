//! Launcher window rules: where the panel goes on a monitor, and the
//! show / hide decisions of the shortcut, the tray and focus loss. The
//! window system calls themselves happen outside the library.

use std::sync::atomic::{AtomicIsize, Ordering};

use vstd::prelude::*;

use crate::text::same_text;

verus! {

/// Label of the main window.
pub const MAIN_WINDOW: &'static str = "main";

/// Id of the tray icon.
pub const TRAY_ID: &'static str = "z-tools-tray";

/// Default global shortcut that toggles the launcher.
pub const DEFAULT_TOGGLE_SHORTCUT: &'static str = "alt+enter";

/// Event: the panel is shown and focused.
pub const LAUNCHER_OPENED: &'static str = "launcher://open";

/// Event: the panel is hidden.
pub const LAUNCHER_CLOSED: &'static str = "launcher://close";

/// Work area of a monitor (without the task bar), in physical pixels.
#[derive(Debug, Clone, Copy, PartialEq, Eq, Structural)]
pub struct WorkArea {
    /// Left edge (may be negative on multi-monitor setups).
    pub x: i32,
    /// Top edge.
    pub y: i32,
    /// Width.
    pub width: u32,
    /// Height.
    pub height: u32,
}

/// `n / d` rounded to the nearest integer, halves away from zero (`f64::round`).
pub open spec fn round_div(n: int, d: int) -> int {
    if n >= 0 {
        (n + d / 2) / d
    } else {
        -((-n + d / 2) / d)
    }
}

/// `v` saturated to the `i32` range (as a float-to-int cast does).
pub open spec fn saturate_i32(v: int) -> int {
    if v > i32::MAX {
        i32::MAX as int
    } else if v < i32::MIN {
        i32::MIN as int
    } else {
        v
    }
}

/// Top-left corner of the launcher: horizontally centred in the work area but
/// never left of it, top edge at a quarter of the work area's height.
pub open spec fn anchor_spec(work: WorkArea, window_width: u32) -> (int, int) {
    let x2 = 2 * work.x + work.width - window_width;
    let x2 = if x2 < 2 * work.x {
        2 * work.x
    } else {
        x2
    };
    (saturate_i32(round_div(x2, 2)), saturate_i32(round_div(4 * work.y + work.height, 4)))
}

fn round_div_i64(n: i64, d: i64) -> (res: i64)
    requires
        d == 2 || d == 4,
        -0x1_0000_0000_0000 <= n <= 0x1_0000_0000_0000,
    ensures
        res == round_div(n as int, d as int),
{
    if n >= 0 {
        (n + d / 2) / d
    } else {
        -((-n + d / 2) / d)
    }
}

fn saturate(v: i64) -> (res: i32)
    ensures
        res == saturate_i32(v as int),
{
    if v > i32::MAX as i64 {
        i32::MAX
    } else if v < i32::MIN as i64 {
        i32::MIN
    } else {
        v as i32
    }
}

/// Physical position of the launcher's top-left corner: centred horizontally,
/// top edge at a quarter of the work area's height; when the work area is
/// narrower than the window the panel sticks to its left edge.
pub fn anchor_position(work: WorkArea, window: (u32, u32)) -> (res: (i32, i32))
    ensures
        (res.0 as int, res.1 as int) == anchor_spec(work, window.0),
        res.0 >= work.x,
{
    let (win_w, _win_h) = window;
    let x2 = 2 * (work.x as i64) + (work.width as i64) - (win_w as i64);
    let x2 = if x2 < 2 * (work.x as i64) {
        2 * (work.x as i64)
    } else {
        x2
    };
    let y4 = 4 * (work.y as i64) + (work.height as i64);
    (saturate(round_div_i64(x2, 2)), saturate(round_div_i64(y4, 4)))
}

/// What a toggle asks of the panel.
#[derive(Debug, Clone, Copy, PartialEq, Eq, Structural)]
pub enum LauncherAction {
    /// Show and focus the panel.
    Show,
    /// Hide the panel.
    Hide,
}

/// The global shortcut's decision: hide a panel known to be visible and
/// focused, show it otherwise.
pub open spec fn toggle_decision(visible: Option<bool>, focused: Option<bool>) -> LauncherAction {
    if visible == Some(true) && focused == Some(true) {
        LauncherAction::Hide
    } else {
        LauncherAction::Show
    }
}

/// The tray click's decision: hide a panel known to be visible, show it otherwise.
pub open spec fn tray_decision(visible: Option<bool>) -> LauncherAction {
    if visible == Some(true) {
        LauncherAction::Hide
    } else {
        LauncherAction::Show
    }
}

/// Whether focus loss hides the panel: not while the cursor is on the tray
/// icon, and only a panel known to be visible.
pub open spec fn blur_hides(cursor_on_tray: bool, visible: Option<bool>) -> bool {
    !cursor_on_tray && visible == Some(true)
}

/// Global shortcut: hide only a panel that is visible and focused; otherwise
/// show it (a visible but unfocused panel is called back). An unknown state
/// counts as not visible / not focused.
pub fn toggle_action(visible: Option<bool>, focused: Option<bool>) -> (res: LauncherAction)
    ensures
        res == toggle_decision(visible, focused),
{
    let visible = match visible {
        Some(v) => v,
        None => false,
    };
    let focused = match focused {
        Some(f) => f,
        None => false,
    };
    if visible && focused {
        LauncherAction::Hide
    } else {
        LauncherAction::Show
    }
}

/// Tray click: hide a visible panel, show a hidden one (unknown counts as hidden).
pub fn tray_toggle_action(visible: Option<bool>) -> (res: LauncherAction)
    ensures
        res == tray_decision(visible),
{
    match visible {
        Some(true) => LauncherAction::Hide,
        _ => LauncherAction::Show,
    }
}

/// Whether `hide` acts (hides the panel and sends the close event) given
/// the panel's visibility: not for a panel known to be hidden; unknown
/// visibility counts as visible.
pub open spec fn hide_acts(visible: Option<bool>) -> bool {
    visible != Some(false)
}

/// Whether `hide` acts: it skips a panel known to be hidden (so the close
/// event is not sent twice) and hides when visibility is unknown.
pub fn hide_needed(visible: Option<bool>) -> (res: bool)
    ensures
        res == hide_acts(visible),
{
    match visible {
        Some(false) => false,
        _ => true,
    }
}

/// Focus loss hides the panel unless the cursor is on the tray icon (the
/// coming tray click decides) or the panel is not known to be visible.
pub fn hide_on_blur_needed(cursor_on_tray: bool, visible: Option<bool>) -> (res: bool)
    ensures
        res == blur_hides(cursor_on_tray, visible),
{
    !cursor_on_tray && match visible {
        Some(v) => v,
        None => false,
    }
}

/// Whether the foreground window seen when the panel opens is remembered as
/// the paste target: not when there is none (0), when it is the task bar
/// (opened from the tray) or the launcher itself; the previous one stays then.
pub fn should_remember_foreground(foreground: isize, is_taskbar: bool, is_self: bool) -> (res:
    bool)
    ensures
        res == (foreground != 0 && !is_taskbar && !is_self),
{
    foreground != 0 && !is_taskbar && !is_self
}

/// A window handle, with 0 meaning none.
pub fn handle_of(raw: isize) -> (res: Option<isize>)
    ensures
        res == (if raw != 0 {
            Some(raw)
        } else {
            None::<isize>
        }),
{
    if raw != 0 {
        Some(raw)
    } else {
        None
    }
}

/// The foreground window recorded before the panel was shown (0 = none); the
/// paste goes back to it.
pub struct PreviousForeground(pub AtomicIsize);

impl PreviousForeground {
    /// Nothing recorded yet.
    pub fn new() -> Self {
        PreviousForeground(AtomicIsize::new(0))
    }

    /// The last recorded window; `None` when none was recorded.
    pub fn get(&self) -> (res: Option<isize>)
        ensures
            res matches Some(h) ==> h != 0,
    {
        handle_of(self.0.load(Ordering::SeqCst))
    }

    /// Records `hwnd` as the window to paste into.
    pub fn remember(&self, hwnd: isize) {
        self.0.store(hwnd, Ordering::SeqCst);
    }
}

/// State of the clipboard watcher: the handle of its message window, so that
/// it can be asked to stop on exit (0 = not running).
pub struct ClipboardWatcher {
    hwnd: AtomicIsize,
}

impl ClipboardWatcher {
    /// A watcher that is not running.
    pub fn new() -> Self {
        ClipboardWatcher { hwnd: AtomicIsize::new(0) }
    }

    /// The watcher's window handle; `None` while it is not running.
    pub fn hwnd(&self) -> (res: Option<isize>)
        ensures
            res matches Some(h) ==> h != 0,
    {
        handle_of(self.hwnd.load(Ordering::SeqCst))
    }

    /// Records the handle of the running watcher (0 when it stops).
    pub fn set_hwnd(&self, hwnd: isize) {
        self.hwnd.store(hwnd, Ordering::SeqCst);
    }
}

/// Window class of the task bar on the primary monitor.
pub open spec fn primary_taskbar_class() -> Seq<char> {
    seq!['S', 'h', 'e', 'l', 'l', '_', 'T', 'r', 'a', 'y', 'W', 'n', 'd']
}

/// Window class of the task bar on the other monitors.
pub open spec fn secondary_taskbar_class() -> Seq<char> {
    seq![
        'S', 'h', 'e', 'l', 'l', '_', 'S', 'e', 'c', 'o', 'n', 'd', 'a', 'r', 'y', 'T', 'r', 'a',
        'y', 'W', 'n', 'd',
    ]
}

/// Whether a window class is the task bar's (`Shell_TrayWnd` on the primary
/// monitor, `Shell_SecondaryTrayWnd` on the others).
pub fn is_taskbar_class(class: &str) -> (res: bool)
    ensures
        res == (class@ == primary_taskbar_class() || class@ == secondary_taskbar_class()),
{
    proof {
        reveal_strlit("Shell_TrayWnd");
        reveal_strlit("Shell_SecondaryTrayWnd");
    }
    let a = same_text(class, "Shell_TrayWnd");
    let b = same_text(class, "Shell_SecondaryTrayWnd");
    assert("Shell_TrayWnd"@ =~= primary_taskbar_class());
    assert("Shell_SecondaryTrayWnd"@ =~= secondary_taskbar_class());
    a || b
}

/// Installs the hook against the system menu that Alt opens on a borderless
/// window. Only Windows has that menu; elsewhere there is nothing to install.
pub fn suppress_alt_sysmenu(_hwnd: isize) {
}

/// Hiding twice sends the close event at most once: the second `hide` reads
/// the visibility that the first left, and once the window reports hidden
/// (`Some(false)`) it does nothing.
pub proof fn lemma_hide_twice_closes_once(first: Option<bool>, second: Option<bool>)
    requires
        hide_acts(first) ==> second == Some(false),
    ensures
        !(hide_acts(first) && hide_acts(second)),
{
}

/// Every rule that decides to hide the panel leads to a hide that acts: the
/// shortcut, a tray click and focus loss decide to hide only a panel seen
/// as visible, and `hide` then hides it and sends the close event. A hide
/// skips only a panel known to be hidden, so it acts on a visible panel and
/// on one whose visibility is unknown.
pub proof fn lemma_hide_acts_on_visible_panel(
    visible: Option<bool>,
    focused: Option<bool>,
    cursor_on_tray: bool,
)
    ensures
        toggle_decision(visible, focused) == LauncherAction::Hide ==> hide_acts(visible),
        tray_decision(visible) == LauncherAction::Hide ==> hide_acts(visible),
        blur_hides(cursor_on_tray, visible) ==> hide_acts(visible),
        hide_acts(visible) <==> !(visible == Some(false)),
        visible == Some(true) ==> hide_acts(visible),
{
}

} // verus!
