use tsck_kee::kee::{pair_keys, route_hotkey_event, Event, KeeAction};
use tsck_kee::kee_keys::TKeePair;
use tsck_kee::kee_manager::{HotkeyEvent, Modifier};

fn pairs() -> Vec<TKeePair> {
    vec![
        TKeePair::new("M-1", "app::Move"),
        TKeePair::new("M-2", "app::Minimize"),
        TKeePair::new("C-S-b", "app::ControlShiftB"),
        TKeePair::new("M-1", "app::Shadowed"),
    ]
}

#[test]
fn fired_chord_is_delivered_with_its_function() {
    match route_hotkey_event(&pairs(), &HotkeyEvent::OnKey("C-S-b".to_string())) {
        KeeAction::Emit(Event::Keys(k, f)) => {
            assert_eq!(k, "C-S-b");
            assert_eq!(f, "app::ControlShiftB");
        }
        other => panic!("unexpected {:?}", other),
    }
    match route_hotkey_event(&pairs(), &HotkeyEvent::OnKey("M-1".to_string())) {
        KeeAction::Emit(Event::Keys(k, f)) => {
            assert_eq!(k, "M-1");
            assert_eq!(f, "app::Move");
        }
        other => panic!("unexpected {:?}", other),
    }
}

#[test]
fn unknown_chord_is_ignored() {
    assert!(matches!(
        route_hotkey_event(&pairs(), &HotkeyEvent::OnKey("M-9".to_string())),
        KeeAction::Ignore
    ));
    assert!(matches!(route_hotkey_event(&Vec::new(), &HotkeyEvent::OnKey("M-1".to_string())), KeeAction::Ignore));
}

#[test]
fn windows_key_drives_the_tone() {
    assert!(matches!(
        route_hotkey_event(&pairs(), &HotkeyEvent::OnModifier(Modifier::Win, true)),
        KeeAction::StartBeep
    ));
    assert!(matches!(
        route_hotkey_event(&pairs(), &HotkeyEvent::OnModifier(Modifier::Win, false)),
        KeeAction::StopBeep
    ));
    assert!(matches!(
        route_hotkey_event(&pairs(), &HotkeyEvent::OnModifier(Modifier::Ctrl, true)),
        KeeAction::Ignore
    ));
    assert!(matches!(
        route_hotkey_event(&pairs(), &HotkeyEvent::OnModifier(Modifier::Alt, false)),
        KeeAction::Ignore
    ));
}

#[test]
fn only_shutdown_ends_delivery() {
    assert!(Event::Shutdown.is_shutdown());
    assert!(!Event::Keys("M-1".to_string(), "app::Move".to_string()).is_shutdown());
}

#[test]
fn keys_of_pairs_are_listed_in_order() {
    assert_eq!(pair_keys(&pairs()), vec!["M-1", "M-2", "C-S-b", "M-1"]);
    assert!(pair_keys(&Vec::new()).is_empty());
}

#[test]
fn events_clone_to_equal_values() {
    let e = HotkeyEvent::OnKey("M-1".to_string());
    assert_eq!(e.clone(), e);
    let e = HotkeyEvent::OnModifier(Modifier::Shift, false);
    assert_eq!(e.clone(), e);
    match Event::Keys("a".to_string(), "b".to_string()).clone() {
        Event::Keys(k, f) => assert_eq!((k.as_str(), f.as_str()), ("a", "b")),
        Event::Shutdown => panic!("clone changed the variant"),
    }
}
