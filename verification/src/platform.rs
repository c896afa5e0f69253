//! Decisions of the platform layers around the clipboard and the launcher:
//! the keystrokes of a paste, which change notifications are new, how the
//! watcher loops react to what the window system delivers, how writing falls
//! back under Wayland, and when a window activation has taken effect. The
//! calls into the window systems themselves stay with the caller.

use vstd::prelude::*;

use crate::clipboard::Captured;
use crate::error::{error_message, AppError};
use crate::text::{
    append_str, contains_text, eq_ignore_ascii_case, occurs_in, push_char,
    same_ignoring_ascii_case,
};

verus! {

// ---------------------------------------------------------------------------
// Paste keystrokes
// ---------------------------------------------------------------------------

/// One injected key event: the key (an X11 keycode or a Windows virtual key)
/// and whether it is released (`up`) or pressed.
#[derive(Clone, Copy, Debug, PartialEq, Eq, Structural)]
pub struct KeyStroke {
    pub key: u32,
    pub up: bool,
}

/// A paste chord: modifier down, key down, key up, modifier up.
pub open spec fn paste_sequence(modifier: u32, key: u32) -> Seq<KeyStroke> {
    seq![
        KeyStroke { key: modifier, up: false },
        KeyStroke { key: key, up: false },
        KeyStroke { key: key, up: true },
        KeyStroke { key: modifier, up: true },
    ]
}

/// The key events of one paste chord (Ctrl+V): `modifier` down, `key` down,
/// `key` up, `modifier` up.
pub fn paste_keystrokes(modifier: u32, key: u32) -> (res: Vec<KeyStroke>)
    ensures
        res@ == paste_sequence(modifier, key),
{
    let mut v: Vec<KeyStroke> = Vec::new();
    v.push(KeyStroke { key: modifier, up: false });
    v.push(KeyStroke { key: key, up: false });
    v.push(KeyStroke { key: key, up: true });
    v.push(KeyStroke { key: modifier, up: true });
    assert(v@ =~= paste_sequence(modifier, key));
    v
}

/// A paste chord leaves no key held: every key event that presses a key is
/// followed later in the chord by the release of that key, and the modifier
/// is down for as long as the key is.
pub proof fn lemma_paste_chord_releases_every_key(modifier: u32, key: u32)
    ensures
        forall|i: int|
            0 <= i < paste_sequence(modifier, key).len() && !(#[trigger] paste_sequence(
                modifier,
                key,
            )[i]).up ==> exists|j: int|
                i < j < paste_sequence(modifier, key).len() && paste_sequence(modifier, key)[j]
                    == (KeyStroke { key: paste_sequence(modifier, key)[i].key, up: true }),
        paste_sequence(modifier, key)[0] == (KeyStroke { key: modifier, up: false }),
        paste_sequence(modifier, key).last() == (KeyStroke { key: modifier, up: true }),
{
    let s = paste_sequence(modifier, key);
    assert forall|i: int| 0 <= i < s.len() && !(#[trigger] s[i]).up implies exists|j: int|
        i < j < s.len() && s[j] == (KeyStroke { key: s[i].key, up: true }) by {
        if i == 0 {
            assert(s[3] == (KeyStroke { key: s[0].key, up: true }));
        } else {
            assert(i == 1);
            assert(s[2] == (KeyStroke { key: s[1].key, up: true }));
        }
    }
}

// ---------------------------------------------------------------------------
// Change notifications
// ---------------------------------------------------------------------------

/// The step of a change counter: whether `current` is new against the last
/// seen number, and the number it then remembers.
pub open spec fn counter_step(last: i64, current: i64) -> (bool, i64) {
    (current != last, current)
}

/// The clipboard's change number (Windows `GetClipboardSequenceNumber`,
/// macOS `NSPasteboard.changeCount`) that the watcher saw last; a
/// notification whose number equals it carries nothing new.
#[derive(Clone, Copy, Debug)]
pub struct ChangeCounter {
    pub last: i64,
}

impl ChangeCounter {
    /// A counter that has seen `initial` (read when the watcher starts).
    pub fn new(initial: i64) -> (res: Self)
        ensures
            res.last == initial,
    {
        ChangeCounter { last: initial }
    }

    /// Whether `current` differs from the number seen last; `current` is
    /// then the number seen last.
    pub fn observe(&mut self, current: i64) -> (changed: bool)
        ensures
            (changed, final(self).last) == counter_step(old(self).last, current),
    {
        let changed = current != self.last;
        self.last = current;
        changed
    }
}

/// A change number is acted on once: after it has been observed, observing
/// it again reports nothing new, whatever the counter held before.
pub proof fn lemma_change_reported_once(last: i64, current: i64)
    ensures
        !counter_step(counter_step(last, current).1, current).0,
        counter_step(last, current).0 == (current != last),
{
}

// ---------------------------------------------------------------------------
// Watcher loops
// ---------------------------------------------------------------------------

/// What a watcher loop does with one delivered event.
#[derive(Clone, Copy, Debug, PartialEq, Eq, Structural)]
pub enum MonitorAction {
    /// The clipboard changed: read a snapshot and record it.
    Capture,
    /// Leave the loop and clean up.
    Stop,
    /// Nothing for the watcher (on Windows: hand the message to the default
    /// window procedure).
    Skip,
}

/// The X11 events that the clipboard watcher tells apart.
#[derive(Clone, Copy, Debug)]
pub enum X11Event {
    /// XFixes: the owner of the CLIPBOARD selection changed to `owner`.
    SelectionNotify { owner: u32 },
    /// A client message of type `message_type` sent to `window`.
    ClientMessage { window: u32, message_type: u32 },
    /// Any other event.
    Other,
}

/// The watcher's reaction to an X11 event; `helper` is its own window and
/// `stop_atom` the message type that asks it to stop.
pub open spec fn x11_action(event: X11Event, helper: u32, stop_atom: u32) -> MonitorAction {
    match event {
        X11Event::SelectionNotify { owner } => if owner != helper {
            MonitorAction::Capture
        } else {
            MonitorAction::Skip
        },
        X11Event::ClientMessage { window, message_type } => if window == helper && message_type
            == stop_atom {
            MonitorAction::Stop
        } else {
            MonitorAction::Skip
        },
        X11Event::Other => MonitorAction::Skip,
    }
}

/// Reacts to an X11 event: a new selection owner other than the watcher's
/// own window (its own writes back also change the owner) is a change to
/// capture; the stop message sent to the watcher's window ends the loop.
pub fn x11_monitor_action(event: X11Event, helper: u32, stop_atom: u32) -> (res: MonitorAction)
    ensures
        res == x11_action(event, helper, stop_atom),
{
    match event {
        X11Event::SelectionNotify { owner } => {
            if owner != helper {
                MonitorAction::Capture
            } else {
                MonitorAction::Skip
            }
        },
        X11Event::ClientMessage { window, message_type } => {
            if window == helper && message_type == stop_atom {
                MonitorAction::Stop
            } else {
                MonitorAction::Skip
            }
        },
        X11Event::Other => MonitorAction::Skip,
    }
}

/// Windows message that closes a window.
pub const WM_CLOSE: u32 = 0x0010;

/// Windows message sent to clipboard format listeners on every change.
pub const WM_CLIPBOARDUPDATE: u32 = 0x031D;

/// The watcher's reaction to a Windows message.
pub open spec fn windows_action(got: i32, message: u32, target: isize, window: isize) -> MonitorAction {
    if got <= 0 {
        MonitorAction::Stop
    } else if message == WM_CLIPBOARDUPDATE {
        MonitorAction::Capture
    } else if message == WM_CLOSE && target == window {
        MonitorAction::Stop
    } else {
        MonitorAction::Skip
    }
}

/// Reacts to what `GetMessageW` returned (`got`: 0 for `WM_QUIT`, -1 on
/// error) and the message it filled in (`message`, sent to `target`);
/// `window` is the watcher's own message window. A clipboard update is a
/// change to capture (after the sequence number check); `WM_CLOSE` to the
/// watcher's window, `WM_QUIT` and errors end the loop.
pub fn windows_monitor_action(got: i32, message: u32, target: isize, window: isize) -> (res:
    MonitorAction)
    ensures
        res == windows_action(got, message, target, window),
{
    if got <= 0 {
        MonitorAction::Stop
    } else if message == WM_CLIPBOARDUPDATE {
        MonitorAction::Capture
    } else if message == WM_CLOSE && target == window {
        MonitorAction::Stop
    } else {
        MonitorAction::Skip
    }
}

/// Windows message of a system command (menu, move, close, ...).
pub const WM_SYSCOMMAND: u32 = 0x0112;

/// System command that enters menu mode (sent when Alt is pressed alone).
pub const SC_KEYMENU: usize = 0xF100;

/// Whether a message to the launcher window is the system command that would
/// open the system menu of the borderless window on Alt; the low four bits
/// of the command belong to the system and are ignored. Other system
/// commands (such as Alt+F4's close) pass.
pub fn is_alt_menu_command(message: u32, command: usize) -> (res: bool)
    ensures
        res == (message == WM_SYSCOMMAND && command & 0xFFF0 == SC_KEYMENU),
{
    message == WM_SYSCOMMAND && command & 0xFFF0 == SC_KEYMENU
}

// ---------------------------------------------------------------------------
// Wayland sessions and writing
// ---------------------------------------------------------------------------

/// The session type that names Wayland.
pub open spec fn wayland_name() -> Seq<char> {
    seq!['w', 'a', 'y', 'l', 'a', 'n', 'd']
}

/// Whether the session is a Wayland one (native or with XWayland):
/// `WAYLAND_DISPLAY` is set, or `XDG_SESSION_TYPE` is `wayland` in any ASCII
/// case. `session_type` is `None` when the variable is unset or not Unicode.
pub fn is_wayland(wayland_display_set: bool, session_type: Option<&str>) -> (res: bool)
    ensures
        res == (wayland_display_set || match session_type {
            Some(t) => same_ignoring_ascii_case(t@, wayland_name()),
            None => false,
        }),
{
    if wayland_display_set {
        return true;
    }
    match session_type {
        Some(t) => {
            proof {
                reveal_strlit("wayland");
            }
            assert("wayland"@ =~= wayland_name());
            eq_ignore_ascii_case(t, "wayland")
        },
        None => false,
    }
}

/// Whether the session is Wayland without X11: Wayland, and `DISPLAY` unset
/// (XWayland sessions set it).
pub fn is_pure_wayland(wayland: bool, display_set: bool) -> (res: bool)
    ensures
        res == (wayland && !display_set),
{
    wayland && !display_set
}

/// How writing continues after the native clipboard write.
#[derive(Debug)]
pub enum WriteStep {
    /// Writing is over, with this outcome.
    Finished(Result<(), AppError>),
    /// The native write failed with this error under Wayland: try `wl-copy`.
    TryWlCopy(AppError),
}

/// After the native write: success ends it; a failure under Wayland moves on
/// to `wl-copy`; any other failure is the outcome.
pub fn after_native_write(native: Result<(), AppError>, wayland: bool) -> (res: WriteStep)
    ensures
        match native {
            Ok(()) => res matches WriteStep::Finished(Ok(())),
            Err(e) => if wayland {
                res == WriteStep::TryWlCopy(e)
            } else {
                res == WriteStep::Finished(Err(e))
            },
        },
{
    match native {
        Ok(()) => WriteStep::Finished(Ok(())),
        Err(e) => {
            if wayland {
                WriteStep::TryWlCopy(e)
            } else {
                WriteStep::Finished(Err(e))
            }
        },
    }
}

/// What the user is told when neither the native write nor `wl-copy`
/// worked, depending on whether X11 is missing altogether.
pub open spec fn wl_copy_hint(pure_wayland: bool) -> Seq<char> {
    if pure_wayland {
        "纯 Wayland 环境无法写入剪贴板：arboard 未能连接到剪贴板，且未找到可用 wl-copy 工具。请启用 XWayland 或安装 wl-clipboard。"@
    } else {
        "当前 Wayland 环境无法写入剪贴板：arboard 写入失败且未找到可用 wl-copy 工具。请检查剪贴板权限或安装 wl-clipboard。"@
    }
}

/// The detail of the error when both writes failed: the hint, then both
/// causes.
pub open spec fn wl_copy_failure_detail(
    pure_wayland: bool,
    native: Seq<char>,
    wl_copy: Seq<char>,
) -> Seq<char> {
    wl_copy_hint(pure_wayland) + "（arboard: "@ + native + "，wl-copy: "@ + wl_copy + "）"@
}

/// After `wl-copy`: its success is the outcome; its failure gives an
/// `Unsupported` error that carries the hint and both causes.
pub fn after_wl_copy(native_error: AppError, wl_copy: Result<(), String>, pure_wayland: bool) -> (res:
    Result<(), AppError>)
    ensures
        match wl_copy {
            Ok(()) => res is Ok,
            Err(w) => match res {
                Err(AppError::Unsupported(m)) => m@ == wl_copy_failure_detail(
                    pure_wayland,
                    error_message(native_error),
                    w@,
                ),
                _ => false,
            },
        },
{
    match wl_copy {
        Ok(()) => Ok(()),
        Err(w) => {
            let hint = if pure_wayland {
                "纯 Wayland 环境无法写入剪贴板：arboard 未能连接到剪贴板，且未找到可用 wl-copy 工具。请启用 XWayland 或安装 wl-clipboard。"
            } else {
                "当前 Wayland 环境无法写入剪贴板：arboard 写入失败且未找到可用 wl-copy 工具。请检查剪贴板权限或安装 wl-clipboard。"
            };
            let native = native_error.message();
            let mut m = String::new();
            append_str(&mut m, hint);
            append_str(&mut m, "（arboard: ");
            append_str(&mut m, native.as_str());
            append_str(&mut m, "，wl-copy: ");
            append_str(&mut m, w.as_str());
            append_str(&mut m, "）");
            Err(AppError::Unsupported(m))
        },
    }
}

/// The MIME type that `wl-copy` is given for a snapshot (`--type`); text
/// goes without one.
pub fn wl_copy_type(captured: &Captured) -> (res: Option<&'static str>)
    ensures
        match captured {
            Captured::Text(_) => res is None,
            Captured::Image { .. } => res matches Some(t) && t@ == "image/png"@,
            Captured::Files(_) => res matches Some(t) && t@ == "text/uri-list"@,
        },
{
    match captured {
        Captured::Text(_) => None,
        Captured::Image { .. } => Some("image/png"),
        Captured::Files(_) => Some("text/uri-list"),
    }
}

/// A `text/uri-list` body: each URI followed by CR LF.
pub open spec fn uri_list_of(uris: Seq<Seq<char>>) -> Seq<char>
    decreases uris.len(),
{
    if uris.len() == 0 {
        Seq::empty()
    } else {
        uri_list_of(uris.drop_last()) + uris.last() + seq!['\r', '\n']
    }
}

/// The `text/uri-list` body for the given file URIs.
pub fn uri_list(uris: &Vec<String>) -> (res: String)
    ensures
        res@ == uri_list_of(uris.deep_view()),
{
    let mut out = String::new();
    let mut i: usize = 0;
    while i < uris.len()
        invariant
            i <= uris@.len(),
            out@ == uri_list_of(uris.deep_view().take(i as int)),
        decreases uris@.len() - i,
    {
        let ghost before = uris.deep_view().take(i as int);
        append_str(&mut out, uris[i].as_str());
        push_char(&mut out, '\r');
        push_char(&mut out, '\n');
        proof {
            let now = uris.deep_view().take(i + 1);
            assert(now.drop_last() =~= before);
            assert(now.last() == uris@[i as int]@);
            assert(out@ =~= uri_list_of(before) + now.last() + seq!['\r', '\n']);
        }
        i = i + 1;
    }
    assert(uris.deep_view().take(uris@.len() as int) =~= uris.deep_view());
    out
}

// ---------------------------------------------------------------------------
// Simulated paste under X11
// ---------------------------------------------------------------------------

/// The part of the error message that says the X11 display was unreachable.
pub open spec fn x11_connect_marker() -> Seq<char> {
    "连接 X11"@
}

/// The outcome of a paste after simulating it under X11: success, or a
/// failure to reach the display (taken as no display to paste into: the
/// content is on the clipboard already), is success; any other failure is a
/// clipboard error with the same detail.
pub fn x11_paste_outcome(attempt: Result<(), String>) -> (res: Result<(), AppError>)
    ensures
        match attempt {
            Ok(()) => res is Ok,
            Err(e) => if occurs_in(e@, x11_connect_marker()) {
                res is Ok
            } else {
                res matches Err(AppError::Clipboard(m)) && m@ == e@
            },
        },
{
    match attempt {
        Ok(()) => Ok(()),
        Err(e) => {
            if contains_text(e.as_str(), "连接 X11") {
                Ok(())
            } else {
                Err(AppError::Clipboard(e))
            }
        },
    }
}

// ---------------------------------------------------------------------------
// Window activation under X11
// ---------------------------------------------------------------------------

/// The data words of an EWMH `_NET_ACTIVE_WINDOW` request: source 1 (an
/// application), time 0 (now), the window active now (0 when unknown), 0, 0.
pub fn activation_request_data(current_active: Option<u32>) -> (res: [u32; 5])
    ensures
        res@ == seq![
            1u32,
            0u32,
            match current_active {
                Some(w) => w,
                None => 0u32,
            },
            0u32,
            0u32,
        ],
{
    let active = match current_active {
        Some(w) => w,
        None => 0,
    };
    let res: [u32; 5] = [1, 0, active, 0, 0];
    assert(res@ =~= seq![1u32, 0u32, active, 0u32, 0u32]);
    res
}

/// How long to wait for the window manager to activate a window.
pub const ACTIVATION_TIMEOUT_MS: u64 = 60;

/// Pause between two reads of the active window while waiting.
pub const ACTIVATION_POLL_MS: u64 = 5;

/// The next move while waiting for an activation.
#[derive(Clone, Copy, Debug, PartialEq, Eq, Structural)]
pub enum ActivationStep {
    /// The target is the active window.
    Done,
    /// Sleep one poll interval and read the active window again.
    Wait,
    /// The window manager did not comply in time (focus stealing prevention
    /// may have refused silently).
    TimedOut,
}

/// The next move: `active` is the active window as last read (`None` when
/// not read yet or unreadable), `elapsed_ms` the time since the request.
pub open spec fn activation_next(active: Option<u32>, target: u32, elapsed_ms: u64) -> ActivationStep {
    if active == Some(target) {
        ActivationStep::Done
    } else if elapsed_ms < ACTIVATION_TIMEOUT_MS {
        ActivationStep::Wait
    } else {
        ActivationStep::TimedOut
    }
}

/// Decides the next move of the wait for the window manager: done once
/// `target` is the active window, else wait while the timeout has not passed.
pub fn activation_progress(active: Option<u32>, target: u32, elapsed_ms: u64) -> (res:
    ActivationStep)
    ensures
        res == activation_next(active, target, elapsed_ms),
{
    let is_target = match active {
        Some(w) => w == target,
        None => false,
    };
    if is_target {
        ActivationStep::Done
    } else if elapsed_ms < ACTIVATION_TIMEOUT_MS {
        ActivationStep::Wait
    } else {
        ActivationStep::TimedOut
    }
}

} // verus!
