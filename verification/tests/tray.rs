use meatshell::tray::{
    click_outside, emit, ensure, handle_dropped, host_created, host_hwnd, icon_added, icon_ok,
    menu_hook_target, refresh_target, small_icon_extent, split_message_pos, tray_event,
    tray_message, EnsureStep, Tray, TrayAction, TrayHost, TrayMessage, WindowRect,
};

#[test]
fn splits_positive_screen_coords() {
    let pos: u32 = 500 | (300 << 16);
    assert_eq!(split_message_pos(pos), (500, 300));
}

#[test]
fn sign_extends_negative_virtual_desktop_coords() {
    let pos: u32 = ((-320i32) as u16 as u32) | (((-192i32) as u16 as u32) << 16);
    assert_eq!(split_message_pos(pos), (-320, -192));
}

#[test]
fn splits_i16_boundary_coords() {
    let pos: u32 = 32767u32 | (u32::from((-32768i16) as u16) << 16);
    assert_eq!(split_message_pos(pos), (32767, -32768));
}

#[test]
fn packing_and_splitting_round_trip() {
    for (x, y) in [(0i32, 0i32), (-1, 1), (-32768, 32767), (1234, -4321)] {
        let pos: u32 = (x as i16 as u16 as u32) | ((y as i16 as u16 as u32) << 16);
        assert_eq!(split_message_pos(pos), (x, y));
    }
}

#[test]
fn ensure_creates_the_host_once() {
    let mut host = TrayHost::new(true);
    assert!(!icon_ok(&host));
    assert_eq!(emit(&host, TrayAction::Show), None);
    assert_eq!(ensure(&mut host, 1), EnsureStep::CreateHost);
    assert_eq!(host.sink, Some(1));
    host_created(&mut host, 77, true);
    assert!(icon_ok(&host));
    assert_eq!(host_hwnd(&host), 77);
    assert_eq!(ensure(&mut host, 1), EnsureStep::Reuse(77));
    assert_eq!(emit(&host, TrayAction::OpenMenu { x: 3, y: -4 }), Some((1, TrayAction::OpenMenu { x: 3, y: -4 })));
}

#[test]
fn failed_registration_leaves_the_icon_unusable() {
    let mut host = TrayHost::new(true);
    let _ = Tray::ensure(&mut host, 1);
    host_created(&mut host, 5, false);
    assert!(!Tray::icon_ok(&host));
    assert!(!icon_added(&mut host, false, 9));
    assert_eq!(refresh_target(&host), None);
    assert!(icon_added(&mut host, true, 9));
    assert_eq!(Tray::refresh_icon(&host), Some((5, 9)));
}

#[test]
fn no_tray_without_windows() {
    let mut host = TrayHost::new(false);
    assert_eq!(Tray::ensure(&mut host, 1), EnsureStep::Nothing);
    assert!(Tray::icon_ok(&host));
    assert_eq!(Tray::host_hwnd(&host), 0);
    assert_eq!(Tray::refresh_icon(&host), None);
    Tray::install_menu_hook(&mut host, 3, Some(4));
    assert_eq!(host.menu_hook, 0);
    assert_eq!(Tray::remove_menu_hook(&mut host), None);
}

#[test]
fn menu_hook_is_handed_back_on_removal() {
    let mut host = TrayHost::new(true);
    Tray::install_menu_hook(&mut host, 30, None);
    assert_eq!(host.menu_hwnd, 30);
    assert_eq!(host.menu_hook, 0);
    Tray::install_menu_hook(&mut host, 31, Some(40));
    assert_eq!(menu_hook_target(&host, 0, 0x0201), Some(31));
    assert_eq!(menu_hook_target(&host, 0, 0x0204), Some(31));
    assert_eq!(menu_hook_target(&host, 0, 0x0200), None);
    assert_eq!(menu_hook_target(&host, -1, 0x0201), None);
    assert_eq!(Tray::remove_menu_hook(&mut host), Some(40));
    assert_eq!((host.menu_hook, host.menu_hwnd), (0, 0));
    assert_eq!(menu_hook_target(&host, 0, 0x0201), None);
    assert_eq!(Tray::remove_menu_hook(&mut host), None);
}

#[test]
fn clicks_outside_the_menu() {
    let r = WindowRect { left: 10, top: 20, right: 30, bottom: 40 };
    assert!(!click_outside(10, 20, r));
    assert!(!click_outside(29, 39, r));
    assert!(click_outside(30, 25, r));
    assert!(click_outside(15, 40, r));
    assert!(click_outside(-5, 25, r));
}

#[test]
fn window_messages() {
    assert_eq!(tray_event(0x1_0202), 0x0202);
    assert_eq!(tray_event(-1), 0xffff);
    assert_eq!(tray_message(0x8001, 0x0202, 0xc123), TrayMessage::Show);
    assert_eq!(tray_message(0x8001, 0x0205, 0xc123), TrayMessage::OpenMenuAtCursor);
    assert_eq!(tray_message(0x8001, 0x007b, 0xc123), TrayMessage::OpenMenuAtCursor);
    assert_eq!(tray_message(0x8001, 0x0201, 0xc123), TrayMessage::Ignored);
    assert_eq!(tray_message(0xc123, 0, 0xc123), TrayMessage::ReAddIcon);
    assert_eq!(tray_message(0x0002, 0, 0xc123), TrayMessage::Destroyed);
    assert_eq!(tray_message(0x0010, 0, 0xc123), TrayMessage::Default);
}

#[test]
fn the_tray_lives_while_a_handle_is_held() {
    let mut host = TrayHost::new(true);
    let _ = ensure(&mut host, 1);
    host_created(&mut host, 8, true);
    assert_eq!(ensure(&mut host, 2), EnsureStep::Reuse(8));
    assert_eq!(host.handles, 2);
    assert_eq!(emit(&host, TrayAction::Show), Some((2, TrayAction::Show)));
    assert!(!handle_dropped(&mut host, false));
    assert_eq!(host.host_hwnd, 8);
    assert_eq!(host.sink, Some(2));
    assert!(handle_dropped(&mut host, true));
    assert_eq!(host.host_hwnd, 0);
    assert_eq!(host.sink, Some(2));
    let _ = ensure(&mut host, 1);
    host_created(&mut host, 9, true);
    assert!(handle_dropped(&mut host, false));
    assert_eq!(host.sink, None);
    assert_eq!(emit(&host, TrayAction::Show), None);
    assert_eq!(small_icon_extent(0), 16);
    assert_eq!(small_icon_extent(24), 24);
}

#[test]
fn the_latest_icon_registration_decides() {
    let mut host = TrayHost::new(true);
    let _ = ensure(&mut host, 1);
    assert!(icon_added(&mut host, true, 3));
    host_created(&mut host, 8, true);
    assert!(icon_ok(&host));
    assert!(!icon_added(&mut host, false, 4));
    assert!(!icon_ok(&host));
    assert_eq!(host.last_icon, 3);
    assert!(icon_added(&mut host, true, 5));
    assert!(icon_ok(&host));
}
