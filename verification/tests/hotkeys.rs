use tsck_kee::kee_manager::{
    collect_bindings, modifier_for_key, modifiers_of_flags, HotkeyBinding, HotkeyState, Modifier, ModifierState, MOD_ALT,
    MOD_CONTROL, MOD_SHIFT, MOD_WIN, VK_ESCAPE, VK_LCONTROL, VK_LSHIFT, VK_LWIN, VK_MENU, VK_RWIN, VK_TAB,
    WM_KEYDOWN, WM_KEYUP, WM_SYSKEYDOWN, WM_SYSKEYUP,
};

fn binding(vk: u16, flags: u32, name: &str) -> HotkeyBinding {
    HotkeyBinding::new(vk, flags, name.to_string())
}

fn matched_name(state: &mut HotkeyState, msg: u32, vk: u16) -> Option<String> {
    state.handle_key_message(msg, vk).matched.map(|b| b.name)
}

#[test]
fn modifier_keys_are_classified() {
    assert_eq!(modifier_for_key(0xA2), Some(Modifier::Ctrl));
    assert_eq!(modifier_for_key(0xA3), Some(Modifier::Ctrl));
    assert_eq!(modifier_for_key(0xA0), Some(Modifier::Shift));
    assert_eq!(modifier_for_key(0xA1), Some(Modifier::Shift));
    assert_eq!(modifier_for_key(0x12), Some(Modifier::Alt));
    assert_eq!(modifier_for_key(0x5B), Some(Modifier::Win));
    assert_eq!(modifier_for_key(0x5C), Some(Modifier::Win));
    assert_eq!(modifier_for_key(0x41), None);
    assert_eq!(modifier_for_key(0x11), None);
}

#[test]
fn flags_decode_to_modifiers() {
    assert_eq!(
        modifiers_of_flags(MOD_CONTROL | MOD_SHIFT),
        ModifierState { ctrl: true, shift: true, alt: false, meta: false }
    );
    assert_eq!(
        modifiers_of_flags(MOD_ALT | MOD_WIN | 0x4000),
        ModifierState { ctrl: false, shift: false, alt: true, meta: true }
    );
    assert_eq!(modifiers_of_flags(0), ModifierState { ctrl: false, shift: false, alt: false, meta: false });
}

#[test]
fn win_chord_fires_and_is_swallowed() {
    let mut st = HotkeyState::new();
    st.register(binding(0x31, MOD_WIN, "M-1"));
    let d = st.handle_key_message(WM_KEYDOWN, VK_LWIN);
    assert_eq!(d.modifier_event, Some((Modifier::Win, true)));
    assert!(d.matched.is_none());
    assert!(!d.block);
    let d = st.handle_key_message(WM_KEYDOWN, 0x31);
    assert_eq!(d.modifier_event, None);
    let b = d.matched.expect("chord fires");
    assert_eq!((b.vk, b.flags, b.name.as_str()), (0x31, MOD_WIN, "M-1"));
    assert!(d.block);
    let d = st.handle_key_message(WM_KEYUP, 0x31);
    assert!(d.matched.is_none() && !d.block && d.modifier_event.is_none());
    let d = st.handle_key_message(WM_KEYUP, VK_LWIN);
    assert_eq!(d.modifier_event, Some((Modifier::Win, false)));
    assert!(!d.block);
    // with the Windows key up, the plain key does not fire
    assert_eq!(matched_name(&mut st, WM_KEYDOWN, 0x31), None);
}

#[test]
fn repeated_modifier_press_reports_once() {
    let mut st = HotkeyState::new();
    let d = st.handle_key_message(WM_KEYDOWN, VK_LCONTROL);
    assert_eq!(d.modifier_event, Some((Modifier::Ctrl, true)));
    let d = st.handle_key_message(WM_KEYDOWN, VK_LCONTROL);
    assert_eq!(d.modifier_event, None);
    let d = st.handle_key_message(WM_SYSKEYUP, VK_LCONTROL);
    assert_eq!(d.modifier_event, Some((Modifier::Ctrl, false)));
    let d = st.handle_key_message(WM_KEYDOWN, VK_LCONTROL);
    assert_eq!(d.modifier_event, Some((Modifier::Ctrl, true)));
}

#[test]
fn chord_needs_exactly_its_modifiers() {
    let mut st = HotkeyState::new();
    st.register(binding(0x42, MOD_CONTROL | MOD_SHIFT, "C-S-b"));
    st.handle_key_message(WM_KEYDOWN, VK_LCONTROL);
    assert_eq!(matched_name(&mut st, WM_KEYDOWN, 0x42), None);
    st.handle_key_message(WM_KEYDOWN, VK_LSHIFT);
    assert_eq!(matched_name(&mut st, WM_KEYDOWN, 0x42), Some("C-S-b".to_string()));
    st.handle_key_message(WM_SYSKEYDOWN, VK_MENU);
    assert_eq!(matched_name(&mut st, WM_KEYDOWN, 0x42), None);
}

#[test]
fn system_keys_are_not_swallowed() {
    let mut st = HotkeyState::new();
    st.register(binding(VK_TAB, MOD_ALT, "A-tab"));
    st.register(binding(VK_ESCAPE, MOD_ALT, "A-esc"));
    st.register(binding(VK_ESCAPE, 0, "esc"));
    st.register(binding(VK_RWIN, MOD_WIN, "win"));
    st.handle_key_message(WM_SYSKEYDOWN, VK_MENU);
    let d = st.handle_key_message(WM_SYSKEYDOWN, VK_TAB);
    assert_eq!(d.matched.map(|b| b.name), Some("A-tab".to_string()));
    assert!(!d.block);
    let d = st.handle_key_message(WM_SYSKEYDOWN, VK_ESCAPE);
    assert_eq!(d.matched.map(|b| b.name), Some("A-esc".to_string()));
    assert!(!d.block);
    st.handle_key_message(WM_SYSKEYUP, VK_MENU);
    st.handle_key_message(WM_KEYUP, VK_ESCAPE);
    let d = st.handle_key_message(WM_KEYDOWN, VK_ESCAPE);
    assert_eq!(d.matched.map(|b| b.name), Some("esc".to_string()));
    assert!(d.block);
    let d = st.handle_key_message(WM_KEYDOWN, VK_RWIN);
    assert_eq!(d.matched.map(|b| b.name), Some("win".to_string()));
    assert!(!d.block);
}

#[test]
fn registering_again_replaces_the_name() {
    let mut st = HotkeyState::new();
    st.register(binding(0x41, MOD_CONTROL, "C-a"));
    st.register(binding(0x41, MOD_CONTROL, "ctrl+a"));
    st.handle_key_message(WM_KEYDOWN, VK_LCONTROL);
    assert_eq!(matched_name(&mut st, WM_KEYDOWN, 0x41), Some("ctrl+a".to_string()));
}

#[test]
fn register_hotkeys_keeps_order_and_last_name() {
    let mut st = HotkeyState::new();
    st.register_hotkeys(vec![
        binding(0x41, MOD_CONTROL, "first"),
        binding(0x41, MOD_CONTROL | 0x4000, "second"),
        binding(0x41, MOD_CONTROL, "third"),
    ]);
    st.handle_key_message(WM_KEYDOWN, VK_LCONTROL);
    // both entries fire on Ctrl+A; the one registered first (now named "third") wins
    assert_eq!(matched_name(&mut st, WM_KEYDOWN, 0x41), Some("third".to_string()));
}

#[test]
fn other_messages_change_nothing() {
    let mut st = HotkeyState::new();
    st.register(binding(0x41, 0, "a"));
    let d = st.handle_key_message(0x0200, 0x41);
    assert!(d.matched.is_none() && !d.block && d.modifier_event.is_none());
    let d = st.handle_key_message(0x0200, 0x1234);
    assert!(d.matched.is_none() && !d.block && d.modifier_event.is_none());
    let d = st.handle_key_message(WM_KEYDOWN, 0x41);
    assert!(d.block);
    assert_eq!(d.matched.map(|b| b.name), Some("a".to_string()));
}

#[test]
fn non_modifier_keys_report_no_modifier_event() {
    let mut st = HotkeyState::new();
    let d = st.handle_key_message(WM_KEYDOWN, 0x41);
    assert_eq!(d.modifier_event, None);
    let d = st.handle_key_message(WM_KEYUP, 0x41);
    assert_eq!(d.modifier_event, None);
}

#[test]
fn bindings_are_collected_only_when_every_chord_parsed() {
    let names = vec!["M-1".to_string(), "C-S-b".to_string()];
    let ok: Vec<Result<(u16, u32), String>> = vec![Ok((0x31, MOD_WIN)), Ok((0x42, MOD_CONTROL | MOD_SHIFT))];
    let bs = collect_bindings(names.clone(), ok).expect("all parsed");
    assert_eq!(bs.len(), 2);
    assert_eq!((bs[0].vk, bs[0].flags, bs[0].name.as_str()), (0x31, MOD_WIN, "M-1"));
    assert_eq!((bs[1].vk, bs[1].flags, bs[1].name.as_str()), (0x42, MOD_CONTROL | MOD_SHIFT, "C-S-b"));
    let names3 = vec!["a".to_string(), "b".to_string(), "c".to_string()];
    let bad: Vec<Result<(u16, u32), String>> = vec![Ok((1, 0)), Err("first".to_string()), Err("second".to_string())];
    assert_eq!(collect_bindings(names3, bad).err(), Some("first".to_string()));
    let none: Vec<Result<(u16, u32), String>> = Vec::new();
    assert!(collect_bindings(Vec::new(), none).expect("nothing to parse").is_empty());
}
