use tsck_kee::kee_windows::{
    contains_text, find_window_by_exe_name, find_window_by_title, find_windows_by_exe_name,
    find_windows_by_title, check_window_handle, threads_to_attach, bring_to_front_step, FrontAction, FrontEvent, WindowInfo,
};

fn window(hwnd: usize, title: &str, exe: &str) -> WindowInfo {
    WindowInfo::new(hwnd, title.to_string(), exe.to_string(), "Class".to_string())
}

fn desktop() -> Vec<WindowInfo> {
    vec![
        window(1, "Untitled - Notepad", "/apps/notepad.exe"),
        window(2, "Inbox - Mail", "/apps/mail.exe"),
        window(3, "notes.txt - Notepad", "/apps/NotePad.exe"),
        window(4, "Terminal", ""),
    ]
}

#[test]
fn test_find_and_focus() {
    // Find a window by exe name
    let windows = desktop();
    if let Some(window) = find_window_by_exe_name(&windows, "notepad") {
        println!("Found Notepad: {}", window.title());
        assert_eq!(window.hwnd(), 1);
    } else {
        panic!("Notepad not found");
    }
}

#[test]
fn title_becomes_a_lowercase_slug() {
    assert_eq!(window(1, "Untitled - Notepad", "x").title(), "untitled---notepad");
    assert_eq!(window(1, "ÉCOLE Straße", "x").title(), "école-straße");
    assert_eq!(window(1, "", "x").title(), "");
}

#[test]
fn name_is_the_executable_stem() {
    assert_eq!(window(1, "t", "/usr/bin/notepad.exe").name(), "notepad");
    assert_eq!(window(1, "t", "/usr/bin/archive.tar.gz").name(), "archive.tar");
    assert_eq!(window(1, "t", "").name(), "UNKNOWN");
    assert_eq!(window(1, "t", "/").name(), "UNKNOWN");
    assert_eq!(window(1, "t", "notepad").name(), "notepad");
    assert_eq!(window(1, "t", ".bashrc").name(), ".bashrc");
    assert_eq!(window(1, "t", "..a").name(), ".");
    assert_eq!(window(1, "t", "a.").name(), "a");
    assert_eq!(window(1, "t", "dir/app.exe/.").name(), "app");
    assert_eq!(window(1, "t", "dir/app.exe/").name(), "app");
    assert_eq!(window(1, "t", "./x.y").name(), "x");
    assert_eq!(window(1, "t", "a//b.c").name(), "b");
    assert_eq!(window(1, "t", "a/..").name(), "UNKNOWN");
    assert_eq!(window(1, "t", ".").name(), "UNKNOWN");
}

#[test]
fn getters_give_the_texts_read() {
    let w = window(7, "A B", "/x/y.exe");
    assert_eq!(w.class(), "Class");
    assert_eq!(w.exe_path(), "/x/y.exe");
    assert_eq!(w.clone().hwnd(), 7);
}

#[test]
fn substring_search() {
    assert!(contains_text("hello world", "lo w"));
    assert!(contains_text("hello", ""));
    assert!(contains_text("", ""));
    assert!(!contains_text("", "a"));
    assert!(!contains_text("hello", "hello!"));
    assert!(contains_text("hello", "hello"));
    assert!(!contains_text("hello", "oh"));
}

#[test]
fn find_by_title_ignores_case() {
    let found = find_windows_by_title(&desktop(), "NOTEPAD");
    assert_eq!(found.iter().map(|w| w.hwnd()).collect::<Vec<_>>(), vec![1, 3]);
    assert_eq!(find_window_by_title(&desktop(), "inbox").map(|w| w.hwnd()), Some(2));
    assert!(find_window_by_title(&desktop(), "calculator").is_none());
    assert!(find_windows_by_title(&desktop(), "calculator").is_empty());
    assert_eq!(find_windows_by_title(&desktop(), "").len(), 4);
}

#[test]
fn find_by_exe_name_ignores_case() {
    let found = find_windows_by_exe_name(&desktop(), "NOTEPAD");
    assert_eq!(found.iter().map(|w| w.hwnd()).collect::<Vec<_>>(), vec![1, 3]);
    assert_eq!(find_window_by_exe_name(&desktop(), "mail").map(|w| w.hwnd()), Some(2));
    assert_eq!(find_window_by_exe_name(&desktop(), "unknown").map(|w| w.hwnd()), Some(4));
    assert!(find_window_by_exe_name(&desktop(), "calc").is_none());
}

#[test]
fn attach_foreground_then_target() {
    assert_eq!(threads_to_attach(10, 20, 30), vec![10, 20]);
    assert_eq!(threads_to_attach(30, 20, 30), vec![20]);
    assert_eq!(threads_to_attach(10, 10, 30), vec![10]);
    assert_eq!(threads_to_attach(10, 30, 30), vec![10]);
    assert_eq!(threads_to_attach(30, 30, 30), Vec::<u32>::new());
}

#[test]
fn listed_windows_need_a_title() {
    assert!(WindowInfo::listed(1, Some("C".to_string()), None, Some("/a.exe".to_string())).is_none());
    assert!(WindowInfo::listed(1, Some("C".to_string()), Some(String::new()), None).is_none());
    let w = WindowInfo::listed(5, None, Some("Doc".to_string()), None).expect("titled window is listed");
    assert_eq!(w.hwnd(), 5);
    assert_eq!(w.class(), "UNKNOWN_CLASS");
    assert_eq!(w.exe_path(), "UNKNOWN_EXE_PATH");
    assert_eq!(w.title(), "doc");
    let w = WindowInfo::listed(6, Some("Edit".to_string()), Some("A".to_string()), Some("/x/y.exe".to_string())).unwrap();
    assert_eq!(w.class(), "Edit");
    assert_eq!(w.exe_path(), "/x/y.exe");
}

#[test]
fn searches_ignore_ascii_case_and_empty_text_selects_all() {
    let ws = desktop();
    let a: Vec<usize> = find_windows_by_title(&ws, "NoTePaD").iter().map(|w| w.hwnd()).collect();
    let b: Vec<usize> = find_windows_by_title(&ws, "notepad").iter().map(|w| w.hwnd()).collect();
    assert_eq!(a, b);
    assert_eq!(find_windows_by_exe_name(&ws, "").len(), 4);
    assert_eq!(find_windows_by_title(&ws, "").len(), 4);
    assert_eq!(
        find_window_by_exe_name(&ws, "notepad").map(|w| w.hwnd()),
        find_windows_by_exe_name(&ws, "notepad").first().map(|w| w.hwnd())
    );
}

#[test]
fn titles_decide_listing_and_handles_are_checked() {
    assert!(!WindowInfo::is_listed_title(&None));
    assert!(!WindowInfo::is_listed_title(&Some(String::new())));
    assert!(WindowInfo::is_listed_title(&Some("x".to_string())));
    assert_eq!(check_window_handle(true), Ok(()));
    assert_eq!(check_window_handle(false), Err("Invalid window handle".to_string()));
}

#[test]
fn names_of_windows_style_paths() {
    let w = window(1, "t", r"C:\Windows\System32\notepad.exe");
    let n = w.name();
    // the stem under Windows rules, or under the rules where only `/` separates
    assert!(n == "notepad" || n == r"C:\Windows\System32\notepad", "{}", n);
    assert_ne!(n, "UNKNOWN");
    assert_eq!(w.name(), w.clone().name());
}

#[test]
fn bringing_to_front_goes_step_by_step() {
    assert!(matches!(bring_to_front_step(FrontEvent::Started), FrontAction::CheckWindow));
    match bring_to_front_step(FrontEvent::WindowChecked(false)) {
        FrontAction::Finish(Err(e)) => assert_eq!(e, "Invalid window handle"),
        other => panic!("unexpected {:?}", other),
    }
    assert!(matches!(bring_to_front_step(FrontEvent::WindowChecked(true)), FrontAction::CheckMinimized));
    assert!(matches!(bring_to_front_step(FrontEvent::MinimizedChecked(true)), FrontAction::Restore));
    assert!(matches!(bring_to_front_step(FrontEvent::MinimizedChecked(false)), FrontAction::SetForeground));
    assert!(matches!(bring_to_front_step(FrontEvent::Restored), FrontAction::SetForeground));
    assert!(matches!(bring_to_front_step(FrontEvent::ForegroundSet(true)), FrontAction::Finish(Ok(()))));
    assert!(matches!(bring_to_front_step(FrontEvent::ForegroundSet(false)), FrontAction::Force));
    assert!(matches!(bring_to_front_step(FrontEvent::Forced), FrontAction::Finish(Ok(()))));
}

#[test]
fn names_of_network_and_rooted_paths() {
    for (path, windows_stem) in [
        (r"\\server\share\tools\app.exe", "app"),
        (r"\Windows\notepad.exe", "notepad"),
        (r"tools\run.bat", "run"),
    ] {
        let n = window(1, "t", path).name();
        let whole = path.rsplit_once('.').map(|(a, _)| a).unwrap_or(path);
        assert!(n == windows_stem || n == whole, "{} -> {}", path, n);
        assert_ne!(n, "UNKNOWN");
    }
}
