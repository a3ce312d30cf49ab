use fluxplay::browse::Tab;
use fluxplay::nav::{
    art_warm_active, art_warm_target, browse_focus_step, escape_action, focus_after_rebuild,
    hotkey_seek_secs,
    load_more_limit, nav_back, next_sleep_mins, player_hotkey, remote_nav, sleep_status,
    tab_entry, BackAction, EscapeAction, KeyPress, PlayerHotkey, RemoteNav, SearchDebounce,
    TabEntry,
};

#[test]
fn back_key_priorities() {
    assert_eq!(nav_back(true, true, true), BackAction::PlayerEscape);
    assert_eq!(nav_back(false, true, true), BackAction::CloseSeriesDetail);
    assert_eq!(nav_back(false, false, true), BackAction::CloseVodDetail);
    assert_eq!(nav_back(false, false, false), BackAction::FinishActivity);
}

#[test]
fn focus_steps_saturate() {
    assert_eq!(browse_focus_step(0, 0, 1), None);
    assert_eq!(browse_focus_step(10, 3, 4), Some(7));
    assert_eq!(browse_focus_step(10, 3, 40), Some(9));
    assert_eq!(browse_focus_step(10, 3, -2), Some(1));
    assert_eq!(browse_focus_step(10, 3, -20), Some(0));
    assert_eq!(browse_focus_step(10, 3, i32::MIN), Some(0));
    assert_eq!(browse_focus_step(10, 15, 1), Some(9));
    // Backwards from beyond the end is not clamped to the end first.
    assert_eq!(browse_focus_step(10, 15, -1), Some(14));
}

#[test]
fn paging_caps_at_ten_thousand() {
    assert_eq!(load_more_limit(48), 96);
    assert_eq!(load_more_limit(9_990), 10_000);
    assert_eq!(load_more_limit(usize::MAX), 10_000);
}

#[test]
fn tab_entry_effects() {
    assert_eq!(
        tab_entry(Tab::Vod, false, false),
        TabEntry {
            detect_backends: false,
            vod_all: true,
            series_all: false,
            start_vod_enrich: true,
            fetch_epg: false
        }
    );
    assert!(!tab_entry(Tab::Vod, false, true).start_vod_enrich);
    assert!(tab_entry(Tab::Settings, false, false).detect_backends);
    assert!(!tab_entry(Tab::Settings, true, false).detect_backends);
    assert!(tab_entry(Tab::Epg, true, true).fetch_epg);
    assert!(tab_entry(Tab::Series, true, true).series_all);
}

#[test]
fn debounce_keeps_latest_only() {
    let mut d = SearchDebounce::new();
    let g1 = d.changed();
    let g2 = d.changed();
    assert!(!d.is_current(g1));
    assert!(d.is_current(g2));
    let mut w = SearchDebounce { generation: u64::MAX };
    assert_eq!(w.changed(), 0);
}

#[test]
fn sleep_timer_cycle() {
    assert_eq!(next_sleep_mins(None), Some(15));
    assert_eq!(next_sleep_mins(Some(15)), Some(30));
    assert_eq!(next_sleep_mins(Some(30)), Some(60));
    assert_eq!(next_sleep_mins(Some(60)), None);
    assert_eq!(next_sleep_mins(Some(7)), None);
    assert_eq!(sleep_status(Some(30)), "Veille dans 30 min");
    assert_eq!(sleep_status(None), "Veille off");
}

#[test]
fn player_shortcuts() {
    assert_eq!(player_hotkey(&KeyPress::Space, false, false, false), Some(PlayerHotkey::TogglePause));
    assert_eq!(player_hotkey(&KeyPress::Space, false, false, true), None);
    assert_eq!(player_hotkey(&KeyPress::ArrowLeft, true, false, false), Some(PlayerHotkey::SeekBackBig));
    assert_eq!(player_hotkey(&KeyPress::ArrowRight, false, false, false), Some(PlayerHotkey::SeekFwd));
    assert_eq!(player_hotkey(&KeyPress::GoBack, false, false, false), Some(PlayerHotkey::Escape));
    assert_eq!(
        player_hotkey(&KeyPress::Character("M".to_string()), false, false, false),
        Some(PlayerHotkey::Mute)
    );
    assert_eq!(player_hotkey(&KeyPress::Character("s".to_string()), false, false, false), None);
    assert_eq!(
        player_hotkey(&KeyPress::Character("s".to_string()), false, true, false),
        Some(PlayerHotkey::Screenshot)
    );
    assert_eq!(player_hotkey(&KeyPress::Character("mm".to_string()), false, false, false), None);
    assert_eq!(player_hotkey(&KeyPress::Other, false, false, false), None);
    assert_eq!(hotkey_seek_secs(PlayerHotkey::SeekBackBig), Some(-30));
    assert_eq!(hotkey_seek_secs(PlayerHotkey::Mute), None);
    assert_eq!(escape_action(true, true), EscapeAction::LeaveFullscreen);
    assert_eq!(escape_action(false, true), EscapeAction::ClosePanel);
    assert_eq!(escape_action(false, false), EscapeAction::StopAndClose);
}

#[test]
fn remote_keys() {
    assert_eq!(remote_nav(&KeyPress::Escape, false), Some(RemoteNav::Back));
    assert_eq!(remote_nav(&KeyPress::ArrowLeft, false), Some(RemoteNav::FocusDelta(-1)));
    assert_eq!(remote_nav(&KeyPress::ArrowDown, false), Some(RemoteNav::FocusDelta(1)));
    assert_eq!(remote_nav(&KeyPress::Enter, false), Some(RemoteNav::Activate));
    assert_eq!(remote_nav(&KeyPress::Space, false), None);
    assert_eq!(remote_nav(&KeyPress::Enter, true), None);
}

#[test]
fn art_warm_rules() {
    assert_eq!(art_warm_target(1, 10_000), 160);
    assert_eq!(art_warm_target(5, 10_000), 280);
    assert_eq!(art_warm_target(20, 10_000), 560);
    assert_eq!(art_warm_target(0, 100), 100);
    assert_eq!(art_warm_target(usize::MAX, 1_000), 560);
    assert!(art_warm_active(3, false, Tab::Vod, true));
    assert!(!art_warm_active(3, false, Tab::Series, true));
    assert!(!art_warm_active(3, true, Tab::Live, false));
    assert!(!art_warm_active(0, false, Tab::Live, false));
}

#[test]
fn focus_kept_within_new_index() {
    assert_eq!(focus_after_rebuild(3, 10), 3);
    assert_eq!(focus_after_rebuild(12, 10), 9);
    assert_eq!(focus_after_rebuild(5, 0), 0);
}
