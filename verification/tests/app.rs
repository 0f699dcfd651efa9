use baduhan::app::{
    create_window, create_window_restored, save_session, windows_to_open, Aftermath, App,
    HotkeyStep, Mtimes, NewPlace, Place, QuakeStep, MOD_ALT, MOD_CONTROL, MOD_NOREPEAT, MOD_SHIFT,
};
use baduhan::session::{Session, WindowState};

fn state(x: i32) -> WindowState {
    WindowState { x, y: 2, w: 100, h: 700, active: 0, tabs: vec![] }
}

#[test]
fn windows_come_and_go() {
    let mut a = App::new();
    a.register(5);
    a.register(6);
    assert!(a.is_registered(5) && !a.is_registered(7));
    assert!(!a.unregister(5));
    assert!(!a.is_registered(5) && a.is_registered(6));
    assert!(a.unregister(6));
}

#[test]
fn numbers_are_handed_out_in_turn() {
    let mut a = App::new();
    assert_eq!((a.next_id(), a.next_id(), a.next_id()), (1, 2, 3));
    a.next = u64::MAX;
    assert_eq!((a.next_id(), a.next_id()), (u64::MAX, 0));
}

#[test]
fn the_hotkey_is_taken_once_and_passes_on() {
    let mut a = App::new();
    a.register(5);
    a.register(6);
    assert_eq!(a.ensure_quake_hotkey(5, ""), HotkeyStep::Nothing);
    assert_eq!(a.ensure_quake_hotkey(5, "ctrl+banana"), HotkeyStep::Bad);
    assert_eq!(
        a.ensure_quake_hotkey(5, "ctrl+shift+alt+g"),
        HotkeyStep::Register {
            host: 5,
            mods: MOD_NOREPEAT | MOD_CONTROL | MOD_SHIFT | MOD_ALT,
            vk: 0x47
        }
    );
    a.hotkey_taken(5, false);
    assert_eq!(a.hotkey_host, None);
    a.hotkey_taken(5, true);
    assert_eq!(a.ensure_quake_hotkey(6, "ctrl+g"), HotkeyStep::Nothing);
    assert_eq!(
        a.window_destroyed(5),
        Aftermath { release: true, heir: Some(6), quit: false }
    );
    assert_eq!(a.hotkey_host, None);
    assert_eq!(a.window_destroyed(6), Aftermath { release: false, heir: None, quit: true });
}

#[test]
fn the_drop_down_window_is_made_once() {
    let mut a = App::new();
    assert_eq!(
        a.toggle_quake(false, 10, 20, 1930, 1060),
        QuakeStep::Create(Place { x: 10, y: 20, w: 1920, h: 468 })
    );
    a.register(9);
    a.quake_created(9);
    assert_eq!(a.toggle_quake(true, 0, 0, 1, 1), QuakeStep::Hide(9));
    assert_eq!(a.toggle_quake(false, 0, 0, 1, 1), QuakeStep::Show(9));
    a.window_destroyed(9);
    assert_eq!(a.quake, None);
    assert!(matches!(a.toggle_quake(true, 0, 0, 1, 1), QuakeStep::Create(_)));
}

#[test]
fn changed_settings_are_noticed_once() {
    let mut a = App::new();
    let now = Mtimes { settings: 3, script: 0 };
    assert!(a.poll_config_change(now));
    assert!(!a.poll_config_change(now));
    assert!(a.poll_config_change(Mtimes { settings: 3, script: 1 }));
}

#[test]
fn new_windows_have_a_place() {
    assert_eq!(create_window(None), NewPlace { at: None, w: 1180, h: 760 });
    assert_eq!(create_window(Some((100, 50))), NewPlace { at: Some((20, 34)), w: 1180, h: 760 });
    assert_eq!(
        create_window_restored(&state(7)),
        NewPlace { at: Some((7, 2)), w: 200, h: 700 }
    );
}

#[test]
fn a_tab_is_dropped_on_another_window() {
    let mut a = App::new();
    a.register(5);
    a.register(6);
    assert_eq!(a.tabbar_hit(Some(6), 5, Some(2)), Some((6, 2)));
    assert_eq!(a.tabbar_hit(Some(5), 5, Some(2)), None);
    assert_eq!(a.tabbar_hit(Some(7), 5, Some(2)), None);
    assert_eq!(a.tabbar_hit(None, 5, Some(2)), None);
    assert_eq!(a.tabbar_hit(Some(6), 5, None), None);
}

#[test]
fn a_session_is_kept_only_where_it_is_wanted() {
    assert!(save_session(false, vec![Some(state(1))]).is_none());
    let s = save_session(true, vec![Some(state(1)), None, Some(state(3))]).unwrap();
    let xs: Vec<i32> = s.windows.iter().map(|w| w.x).collect();
    assert_eq!(xs, vec![1, 3]);
    assert_eq!(windows_to_open(true, Some(s)).len(), 2);
    assert_eq!(windows_to_open(false, Some(Session { windows: vec![state(1)] })).len(), 0);
    assert_eq!(windows_to_open(true, None).len(), 0);
}
