//! The system tray that keeps the program running when the main window is
//! minimized to it: the state of the tray host, and the decisions taken on
//! its window messages. The Windows calls themselves are made by the caller,
//! which hands their results back here.

use vstd::prelude::*;

verus! {

/// `WM_APP + 1`: the message the tray icon calls back with.
pub open spec fn wm_tray_callback() -> u32 {
    0x8001
}

pub open spec fn wm_destroy() -> u32 {
    0x0002
}

pub open spec fn wm_contextmenu() -> u32 {
    0x007b
}

pub open spec fn wm_lbuttondown() -> u32 {
    0x0201
}

pub open spec fn wm_lbuttonup() -> u32 {
    0x0202
}

pub open spec fn wm_rbuttondown() -> u32 {
    0x0204
}

pub open spec fn wm_rbuttonup() -> u32 {
    0x0205
}

/// What the tray asks of the application.
#[derive(Clone, Copy, Debug, PartialEq, Eq, Structural)]
pub enum TrayAction {
    /// Bring the main window back (left click).
    Show,
    /// Open the tray menu at this screen position (right click).
    OpenMenu { x: i32, y: i32 },
}

/// The tray host of the UI thread: the platform, the hidden message window
/// (0 while there is none), whether the last icon registration succeeded,
/// the registered icon handle, the mouse hook and menu window while the tray
/// menu is open (0 when closed), the installed callback (by the number the
/// application gave it), and how many tray handles are held (the tray lives
/// while one is).
pub struct TrayHost {
    pub windows: bool,
    pub host_hwnd: isize,
    pub tray_ok: bool,
    pub last_icon: isize,
    pub menu_hook: isize,
    pub menu_hwnd: isize,
    pub sink: Option<u64>,
    pub handles: u64,
}

impl TrayHost {
    /// The state before any tray exists.
    pub fn new(windows: bool) -> (h: TrayHost)
        ensures
            h == (TrayHost {
                windows,
                host_hwnd: 0,
                tray_ok: false,
                last_icon: 0,
                menu_hook: 0,
                menu_hwnd: 0,
                sink: None,
                handles: 0,
            }),
    {
        TrayHost {
            windows,
            host_hwnd: 0,
            tray_ok: false,
            last_icon: 0,
            menu_hook: 0,
            menu_hwnd: 0,
            sink: None,
            handles: 0,
        }
    }
}

/// Whether the tray icon can be used: the host window exists and the last
/// registration of the icon succeeded.
pub fn icon_ok(host: &TrayHost) -> (r: bool)
    ensures
        r == icon_usable(*host),
{
    if host.host_hwnd == 0 {
        return false;
    }
    host.tray_ok
}

/// The host window (0 while there is none).
pub fn host_hwnd(host: &TrayHost) -> (r: isize)
    ensures
        r == host.host_hwnd,
{
    host.host_hwnd
}

/// The callback to hand the action to: the one installed last; `None` when
/// there is none.
pub fn emit(host: &TrayHost, action: TrayAction) -> (r: Option<(u64, TrayAction)>)
    ensures
        r == match host.sink {
            Some(id) => Some((id, action)),
            None => None,
        },
{
    match host.sink {
        Some(id) => Some((id, action)),
        None => None,
    }
}

/// What creating the tray takes.
#[derive(Clone, Copy, Debug, PartialEq, Eq, Structural)]
pub enum EnsureStep {
    /// The host window exists already: keep it, only the callback changes.
    Reuse(isize),
    /// Create the host window and register the icon, then report with
    /// [`host_created`].
    CreateHost,
    /// No tray on this platform.
    Nothing,
}

/// The step [`ensure`] takes in state `h`.
pub open spec fn ensure_step_of(h: TrayHost) -> EnsureStep {
    if h.host_hwnd != 0 {
        EnsureStep::Reuse(h.host_hwnd)
    } else {
        EnsureStep::CreateHost
    }
}

/// The state after [`ensure`]: the callback is installed and one more
/// handle is held.
pub open spec fn after_ensure(h: TrayHost, sink: u64) -> TrayHost {
    TrayHost { sink: Some(sink), handles: (h.handles + 1) as u64, ..h }
}

/// The state after [`host_created`].
pub open spec fn after_host_created(h: TrayHost, hwnd: isize, ok: bool) -> TrayHost {
    TrayHost { host_hwnd: hwnd, tray_ok: ok, ..h }
}

/// Whether the tray icon can be used in state `h`.
pub open spec fn icon_usable(h: TrayHost) -> bool {
    h.host_hwnd != 0 && h.tray_ok
}

/// Installs the callback, hands out one more handle, and says whether the
/// host window must be created; a second call never registers the icon
/// again.
pub fn ensure(host: &mut TrayHost, sink: u64) -> (r: EnsureStep)
    requires
        old(host).handles < u64::MAX,
    ensures
        *final(host) == after_ensure(*old(host), sink),
        r == ensure_step_of(*old(host)),
{
    host.sink = Some(sink);
    host.handles = host.handles + 1;
    if host.host_hwnd != 0 {
        EnsureStep::Reuse(host.host_hwnd)
    } else {
        EnsureStep::CreateHost
    }
}

/// Records the new host window and the result of registering the icon.
pub fn host_created(host: &mut TrayHost, hwnd: isize, ok: bool)
    ensures
        *final(host) == after_host_created(*old(host), hwnd, ok),
{
    host.host_hwnd = hwnd;
    host.tray_ok = ok;
}

/// The state after [`icon_added`].
pub open spec fn after_icon_added(h: TrayHost, ok: bool, icon: isize) -> TrayHost {
    TrayHost {
        tray_ok: ok,
        last_icon: if ok {
            icon
        } else {
            h.last_icon
        },
        ..h
    }
}

/// Records the result of registering the icon, the first time or again
/// after the taskbar was recreated: the latest result decides whether the
/// icon is usable, and a registered icon's handle is kept for refreshing
/// it. Returns whether registration succeeded.
pub fn icon_added(host: &mut TrayHost, ok: bool, icon: isize) -> (r: bool)
    ensures
        r == ok,
        *final(host) == after_icon_added(*old(host), ok, icon),
{
    host.tray_ok = ok;
    if ok {
        host.last_icon = icon;
    }
    ok
}

/// The size the tray icon is loaded at: the system's small-icon metric, at
/// least 16.
pub fn small_icon_extent(metric: i32) -> (r: i32)
    ensures
        r == (if metric >= 16 {
            metric
        } else {
            16
        }),
{
    if metric >= 16 {
        metric
    } else {
        16
    }
}

/// The window and icon to re-register so that the shell redraws the icon;
/// `None` while either is missing.
pub fn refresh_target(host: &TrayHost) -> (r: Option<(isize, isize)>)
    ensures
        r == (if host.host_hwnd == 0 || host.last_icon == 0 {
            None
        } else {
            Some((host.host_hwnd, host.last_icon))
        }),
{
    if host.host_hwnd == 0 || host.last_icon == 0 {
        None
    } else {
        Some((host.host_hwnd, host.last_icon))
    }
}

/// The state after [`handle_dropped`].
pub open spec fn after_handle_dropped(h: TrayHost, sink_busy: bool) -> TrayHost {
    if h.handles == 1 {
        TrayHost {
            handles: 0,
            host_hwnd: 0,
            sink: if sink_busy {
                h.sink
            } else {
                None
            },
            ..h
        }
    } else {
        TrayHost { handles: (h.handles - 1) as u64, ..h }
    }
}

/// A tray handle was dropped. Returns whether it was the last one: then the
/// icon and the host window go (the caller removes them), there is no host
/// any more, and the callback is dropped unless it is running right now
/// (`sink_busy`); while other handles are held, only the count goes down.
pub fn handle_dropped(host: &mut TrayHost, sink_busy: bool) -> (last: bool)
    requires
        old(host).handles > 0,
    ensures
        last == (old(host).handles == 1),
        *final(host) == after_handle_dropped(*old(host), sink_busy),
{
    host.handles = host.handles - 1;
    if host.handles == 0 {
        host.host_hwnd = 0;
        if !sink_busy {
            host.sink = None;
        }
        true
    } else {
        false
    }
}

// ---------------------------------------------------------------------------
// Window messages
// ---------------------------------------------------------------------------

/// The mouse event in a tray callback's `lParam`: its low 16 bits.
pub open spec fn tray_event_of(lparam: int) -> int {
    lparam % 0x10000
}

/// What the host window does with a message.
#[derive(Clone, Copy, Debug, PartialEq, Eq, Structural)]
pub enum TrayMessage {
    /// Left click on the icon: [`TrayAction::Show`].
    Show,
    /// Right click or context menu: open the menu at the cursor.
    OpenMenuAtCursor,
    /// Another tray callback: handled, nothing to do.
    Ignored,
    /// The taskbar was recreated: register the icon again.
    ReAddIcon,
    /// The host window is being destroyed: handled.
    Destroyed,
    /// Any other message: default processing.
    Default,
}

pub open spec fn tray_message_of(msg: u32, lparam: int, taskbar_created: u32) -> TrayMessage {
    if msg == wm_tray_callback() {
        let evt = tray_event_of(lparam);
        if evt == wm_lbuttonup() {
            TrayMessage::Show
        } else if evt == wm_rbuttonup() || evt == wm_contextmenu() {
            TrayMessage::OpenMenuAtCursor
        } else {
            TrayMessage::Ignored
        }
    } else if msg == taskbar_created {
        TrayMessage::ReAddIcon
    } else if msg == wm_destroy() {
        TrayMessage::Destroyed
    } else {
        TrayMessage::Default
    }
}

/// The low 16 bits of a callback's `lParam`.
pub fn tray_event(lparam: isize) -> (r: u32)
    ensures
        r == tray_event_of(lparam as int),
{
    let u: u64 = if lparam >= 0 {
        lparam as u64
    } else {
        (lparam as i128 + 0x1_0000_0000_0000_0000i128) as u64
    };
    assert((lparam as int + 0x1_0000_0000_0000_0000) % 0x10000 == (lparam as int) % 0x10000);
    (u % 0x10000) as u32
}

/// Dispatches a message of the host window; `taskbar_created` is the
/// registered id of the shell's "TaskbarCreated" broadcast.
pub fn tray_message(msg: u32, lparam: isize, taskbar_created: u32) -> (r: TrayMessage)
    ensures
        r == tray_message_of(msg, lparam as int, taskbar_created),
{
    if msg == 0x8001 {
        let evt = tray_event(lparam);
        if evt == 0x0202 {
            TrayMessage::Show
        } else if evt == 0x0205 || evt == 0x007b {
            TrayMessage::OpenMenuAtCursor
        } else {
            TrayMessage::Ignored
        }
    } else if msg == taskbar_created {
        TrayMessage::ReAddIcon
    } else if msg == 0x0002 {
        TrayMessage::Destroyed
    } else {
        TrayMessage::Default
    }
}

// ---------------------------------------------------------------------------
// The tray menu's outside-click hook
// ---------------------------------------------------------------------------

/// Screen rectangle of a window: left and top inclusive, right and bottom
/// exclusive.
#[derive(Clone, Copy, Debug, PartialEq, Eq, Structural)]
pub struct WindowRect {
    pub left: i32,
    pub top: i32,
    pub right: i32,
    pub bottom: i32,
}

pub open spec fn inside_rect(x: int, y: int, r: WindowRect) -> bool {
    r.left <= x < r.right && r.top <= y < r.bottom
}

/// Whether a point lies outside a window's rectangle.
pub fn click_outside(x: i32, y: i32, rect: WindowRect) -> (r: bool)
    ensures
        r == !inside_rect(x as int, y as int, rect),
{
    let inside = x >= rect.left && x < rect.right && y >= rect.top && y < rect.bottom;
    !inside
}

/// The menu window whose rectangle a mouse event must be tested against:
/// for a left or right button press (in the low 32 bits of `wparam`) while
/// the menu is open and the hook code is not negative.
pub fn menu_hook_target(host: &TrayHost, code: i32, wparam: usize) -> (r: Option<isize>)
    ensures
        r == (if code >= 0 && (wparam as int % 0x1_0000_0000 == wm_lbuttondown() || wparam as int
            % 0x1_0000_0000 == wm_rbuttondown()) && host.menu_hwnd != 0 {
            Some(host.menu_hwnd)
        } else {
            None
        }),
{
    if code < 0 {
        return None;
    }
    let msg = ((wparam as u64) % 0x1_0000_0000) as u32;
    if (msg == 0x0201 || msg == 0x0204) && host.menu_hwnd != 0 {
        Some(host.menu_hwnd)
    } else {
        None
    }
}

/// The state after [`install_menu_hook`].
pub open spec fn after_install(h: TrayHost, menu_hwnd: isize, hook: Option<isize>) -> TrayHost {
    TrayHost {
        menu_hwnd,
        menu_hook: match hook {
            Some(k) => k,
            None => h.menu_hook,
        },
        ..h
    }
}

/// The state after [`remove_menu_hook`].
pub open spec fn after_remove(h: TrayHost) -> TrayHost {
    TrayHost { menu_hook: 0, menu_hwnd: 0, ..h }
}

/// The hook [`remove_menu_hook`] hands back for uninstalling.
pub open spec fn hook_to_remove(h: TrayHost) -> Option<isize> {
    if h.menu_hook != 0 {
        Some(h.menu_hook)
    } else {
        None
    }
}

/// Records the tray menu window while it is open, and the mouse hook when
/// one could be installed (`hook`); a failed installation keeps the old
/// hook value.
pub fn install_menu_hook(host: &mut TrayHost, menu_hwnd: isize, hook: Option<isize>)
    ensures
        *final(host) == after_install(*old(host), menu_hwnd, hook),
{
    host.menu_hwnd = menu_hwnd;
    if let Some(h) = hook {
        host.menu_hook = h;
    }
}

/// Forgets the menu window and the hook; returns the hook to uninstall, if
/// one was installed.
pub fn remove_menu_hook(host: &mut TrayHost) -> (r: Option<isize>)
    ensures
        *final(host) == after_remove(*old(host)),
        r == hook_to_remove(*old(host)),
{
    let hook = host.menu_hook;
    host.menu_hook = 0;
    host.menu_hwnd = 0;
    if hook != 0 {
        Some(hook)
    } else {
        None
    }
}

// ---------------------------------------------------------------------------
// The tray handle
// ---------------------------------------------------------------------------

/// The tray as the application holds it: the host window it belongs to (0
/// on platforms without a tray).
pub struct Tray {
    pub hwnd: isize,
}

impl Tray {
    /// Creates the tray, or only replaces the callback when it exists;
    /// nothing on platforms without a tray.
    pub fn ensure(host: &mut TrayHost, sink: u64) -> (r: EnsureStep)
        requires
            old(host).windows ==> old(host).handles < u64::MAX,
        ensures
            !old(host).windows ==> r == EnsureStep::Nothing && *final(host) == *old(host),
            old(host).windows ==> *final(host) == after_ensure(*old(host), sink) && r == ensure_step_of(*old(host)),
    {
        if !host.windows {
            return EnsureStep::Nothing;
        }
        ensure(host, sink)
    }

    /// Whether minimizing to the tray leaves a way back; always on
    /// platforms without a tray.
    pub fn icon_ok(host: &TrayHost) -> (r: bool)
        ensures
            r == (!host.windows || (host.host_hwnd != 0 && host.tray_ok)),
    {
        if host.windows {
            icon_ok(host)
        } else {
            true
        }
    }

    /// The window and icon to re-register so that the icon is redrawn.
    pub fn refresh_icon(host: &TrayHost) -> (r: Option<(isize, isize)>)
        ensures
            r == (if host.windows && host.host_hwnd != 0 && host.last_icon != 0 {
                Some((host.host_hwnd, host.last_icon))
            } else {
                None
            }),
    {
        if host.windows {
            refresh_target(host)
        } else {
            None
        }
    }

    /// The host window, which pop-ups take as their owner (0: none).
    pub fn host_hwnd(host: &TrayHost) -> (r: isize)
        ensures
            r == (if host.windows {
                host.host_hwnd
            } else {
                0
            }),
    {
        if host.windows {
            host_hwnd(host)
        } else {
            0
        }
    }

    /// See [`install_menu_hook`]; nothing on platforms without a tray.
    pub fn install_menu_hook(host: &mut TrayHost, menu_hwnd: isize, hook: Option<isize>)
        ensures
            !old(host).windows ==> *final(host) == *old(host),
            old(host).windows ==> *final(host) == after_install(*old(host), menu_hwnd, hook),
    {
        if host.windows {
            install_menu_hook(host, menu_hwnd, hook);
        }
    }

    /// See [`remove_menu_hook`]; nothing on platforms without a tray.
    pub fn remove_menu_hook(host: &mut TrayHost) -> (r: Option<isize>)
        ensures
            !old(host).windows ==> *final(host) == *old(host) && r is None,
            old(host).windows ==> *final(host) == after_remove(*old(host)) && r == hook_to_remove(
                *old(host),
            ),
    {
        if host.windows {
            remove_menu_hook(host)
        } else {
            None
        }
    }
}

// ---------------------------------------------------------------------------
// Cursor positions
// ---------------------------------------------------------------------------

/// A 16-bit two's-complement value read as a signed number.
pub open spec fn sign_extend16(v: int) -> int {
    if v >= 0x8000 {
        v - 0x10000
    } else {
        v
    }
}

/// The packed position `GetMessagePos` returns: x in the low 16 bits and y
/// in the high 16 bits, each in two's complement.
pub open spec fn packed_pos(x: int, y: int) -> int {
    (x % 0x10000) + (y % 0x10000) * 0x10000
}

/// Unpacks a `GetMessagePos` value into screen coordinates, sign-extending
/// both halves (screens left of or above the primary one are negative).
pub fn split_message_pos(pos: u32) -> (r: (i32, i32))
    ensures
        r.0 == sign_extend16(pos as int % 0x10000),
        r.1 == sign_extend16(pos as int / 0x10000),
{
    let lo = pos % 0x10000;
    let hi = pos / 0x10000;
    let x: i32 = if lo >= 0x8000 {
        lo as i32 - 0x10000
    } else {
        lo as i32
    };
    let y: i32 = if hi >= 0x8000 {
        hi as i32 - 0x10000
    } else {
        hi as i32
    };
    (x, y)
}

// ---------------------------------------------------------------------------
// Laws
// ---------------------------------------------------------------------------

/// Unpacking gives back any pair of 16-bit signed coordinates that was
/// packed.
pub proof fn law_split_message_pos_round_trip(x: int, y: int)
    requires
        -0x8000 <= x < 0x8000,
        -0x8000 <= y < 0x8000,
    ensures
        0 <= packed_pos(x, y) < 0x1_0000_0000,
        sign_extend16(packed_pos(x, y) % 0x10000) == x,
        sign_extend16(packed_pos(x, y) / 0x10000) == y,
{
    let lx = x % 0x10000;
    let ly = y % 0x10000;
    assert(0 <= lx < 0x10000);
    assert(0 <= ly < 0x10000);
    assert(lx == if x >= 0 { x } else { x + 0x10000 });
    assert(ly == if y >= 0 { y } else { y + 0x10000 });
    let p = lx + ly * 0x10000;
    assert(p % 0x10000 == lx && p / 0x10000 == ly) by (nonlinear_arith)
        requires
            p == lx + ly * 0x10000,
            0 <= lx < 0x10000,
            0 <= ly < 0x10000,
    ;
}

/// Creating the tray twice registers the icon once: after the first call
/// created the host window, the second one reuses it, and the icon is usable
/// exactly when its registration succeeded.
pub proof fn law_ensure_reuses_host(h: TrayHost, hwnd: isize, ok: bool, s1: u64, s2: u64)
    requires
        h.host_hwnd == 0,
        h.handles == 0,
        hwnd != 0,
    ensures
        ensure_step_of(h) == EnsureStep::CreateHost,
        ensure_step_of(after_host_created(after_ensure(h, s1), hwnd, ok)) == EnsureStep::Reuse(hwnd),
        icon_usable(after_host_created(after_ensure(h, s1), hwnd, ok)) == ok,
{
}

/// Whenever a host window exists, creating the tray again only installs the
/// new callback and hands out another handle: the window and the icon stay,
/// and from then on actions go to the new callback alone.
pub proof fn law_ensure_with_host_only_replaces_callback(h: TrayHost, sink: u64, action: TrayAction)
    requires
        h.host_hwnd != 0,
        h.handles < u64::MAX,
    ensures
        ensure_step_of(h) == EnsureStep::Reuse(h.host_hwnd),
        after_ensure(h, sink).host_hwnd == h.host_hwnd,
        after_ensure(h, sink).tray_ok == h.tray_ok,
        after_ensure(h, sink).last_icon == h.last_icon,
        after_ensure(h, sink).handles == h.handles + 1,
        after_ensure(h, sink).sink == Some(sink),
{
}

/// The tray lives while a handle is held: with two handles out, dropping
/// one keeps the host window and the callback; dropping the last one
/// removes the host, and the callback unless it is running.
pub proof fn law_tray_lives_while_a_handle_is_held(
    h: TrayHost,
    hwnd: isize,
    ok: bool,
    busy: bool,
    s1: u64,
    s2: u64,
)
    requires
        h.host_hwnd == 0,
        h.handles == 0,
        hwnd != 0,
    ensures
        ({
            let one = after_host_created(after_ensure(h, s1), hwnd, ok);
            let two = after_ensure(one, s2);
            let dropped = after_handle_dropped(two, busy);
            &&& two.handles == 2
            &&& dropped.host_hwnd == hwnd && dropped.sink == Some(s2) && dropped.handles == 1
            &&& after_handle_dropped(dropped, busy).host_hwnd == 0
            &&& after_handle_dropped(dropped, busy).sink == (if busy {
                Some(s2)
            } else {
                None
            })
            &&& after_handle_dropped(dropped, busy).handles == 0
        }),
{
}

/// The most recent registration of the icon decides whether it is usable,
/// also after a first one succeeded.
pub proof fn law_last_registration_decides(h: TrayHost, ok: bool, icon: isize)
    ensures
        icon_usable(after_icon_added(h, ok, icon)) == (h.host_hwnd != 0 && ok),
{
}

/// Removing the menu hook after a successful installation hands that hook
/// back for uninstalling and leaves no menu window behind; the rest of the
/// state is untouched.
pub proof fn law_remove_returns_installed_hook(h: TrayHost, menu: isize, hook: isize)
    requires
        hook != 0,
    ensures
        hook_to_remove(after_install(h, menu, Some(hook))) == Some(hook),
        after_remove(after_install(h, menu, Some(hook))) == after_remove(h),
{
}

} // verus!
