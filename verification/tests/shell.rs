use webview_app::pattern::compile_patterns;
use webview_app::shell::{
    activation, data_dir_plan, data_dir_prefix, disable_drag_drop_script, favicon_file_name,
    favicon_layout, install_windows_notifications, keep_alive_on_close, menu_action,
    navigation_action, needs_profile_keeper, new_window_action, next_window_label,
    permission_response, should_exit_after_close, tray_event_activates, Activation,
    DataDirBase, MenuAction, NavigationAction, NewWindowAction, PermissionResponse,
};
use webview_app::urls::{AppUrl, UrlPolicy};

fn policy() -> UrlPolicy {
    UrlPolicy {
        app_urls: vec![AppUrl { name: "main".to_string(), url: "https://app.example.com/".to_string() }],
        internal_prefixes: vec![],
        internal_patterns: compile_patterns(&vec![r"^https://auth\.example\.com/".to_string()]),
    }
}

#[test]
fn window_labels() {
    assert_eq!(next_window_label(7), "window-7");
    assert_eq!(next_window_label(0), "window-0");
    assert_eq!(next_window_label(1234567), "window-1234567");
    assert_ne!(next_window_label(1), next_window_label(10));
    assert_ne!(next_window_label(12), next_window_label(21));
}

#[test]
fn profile_directories() {
    assert_eq!(data_dir_prefix("My App"), "My-App-");
    let temp = data_dir_plan(true, "My App", 4242);
    assert_eq!(temp.base, DataDirBase::Temp);
    assert_eq!(temp.components, vec!["My-App-4242".to_string()]);
    let kept = data_dir_plan(false, "My App", 4242);
    assert_eq!(kept.base, DataDirBase::LocalData);
    assert_eq!(kept.components, vec!["nest".to_string(), "My-App".to_string()]);
}

#[test]
fn notifications_setup() {
    assert!(install_windows_notifications(false, "a", "t").is_none());
    let plan = install_windows_notifications(true, "a", "T?").unwrap();
    assert_eq!(plan.file_name, "T-.lnk");
}

#[test]
fn navigation_and_new_windows() {
    let p = policy();
    assert_eq!(navigation_action(&p, "https://app.example.com/x"), NavigationAction::Load);
    assert_eq!(navigation_action(&p, "https://auth.example.com/login"), NavigationAction::Load);
    assert_eq!(navigation_action(&p, "https://other.com/"), NavigationAction::OpenExternal);
    assert_eq!(new_window_action(false, &p, "https://app.example.com/"), NewWindowAction::Ignore);
    assert_eq!(new_window_action(true, &p, "https://app.example.com/"), NewWindowAction::OpenInApp);
    assert_eq!(new_window_action(true, &p, "https://other.com/"), NewWindowAction::OpenExternal);
}

#[test]
fn permission_requests() {
    let p = policy();
    assert_eq!(permission_response(&p, false, "https://app.example.com/"), PermissionResponse::Ignore);
    assert_eq!(permission_response(&p, true, "https://app.example.com/"), PermissionResponse::Allow);
    assert_eq!(permission_response(&p, true, "https://auth.example.com/"), PermissionResponse::Allow);
    assert_eq!(permission_response(&p, true, "https://ads.example.net/"), PermissionResponse::Deny);
}

#[test]
fn lifetime_decisions() {
    assert!(keep_alive_on_close(true, true));
    assert!(!keep_alive_on_close(true, false));
    assert!(!keep_alive_on_close(false, true));
    assert!(needs_profile_keeper(true, true));
    assert!(!needs_profile_keeper(false, true));
    assert!(should_exit_after_close(0, false));
    assert!(!should_exit_after_close(0, true));
    assert!(!should_exit_after_close(2, false));
    assert_eq!(activation(0), Activation::CreateWindow);
    assert_eq!(activation(3), Activation::ShowWindows);
}

#[test]
fn tray_and_menu_events() {
    assert!(tray_event_activates(true, false, true));
    assert!(tray_event_activates(true, true, false));
    assert!(!tray_event_activates(true, false, false));
    assert!(!tray_event_activates(false, true, true));
    assert_eq!(menu_action("1", Some("1"), Some("2")), MenuAction::NewWindow);
    assert_eq!(menu_action("2", Some("1"), Some("2")), MenuAction::Quit);
    assert_eq!(menu_action("3", Some("1"), Some("2")), MenuAction::Nothing);
    assert_eq!(menu_action("1", None, None), MenuAction::Nothing);
    assert_eq!(menu_action("x", Some("x"), Some("x")), MenuAction::NewWindow);
}

#[test]
fn favicons() {
    assert_eq!(favicon_file_name(0xabc), "0000000000000abc.png");
    assert_eq!(favicon_file_name(u64::MAX), "ffffffffffffffff.png");
    assert_eq!(favicon_file_name(0x0123456789abcdef), format!("{:016x}.png", 0x0123456789abcdefu64));
    assert_eq!(favicon_layout(16, 16), Some((64, 1024)));
    assert_eq!(favicon_layout(512, 512), Some((2048, 1048576)));
    assert_eq!(favicon_layout(0, 5), None);
    assert_eq!(favicon_layout(5, 0), None);
    assert_eq!(favicon_layout(513, 1), None);
    assert_eq!(favicon_layout(1, 513), None);
}

#[test]
fn drag_drop_script_blocks_events() {
    let s = disable_drag_drop_script();
    for ev in ["dragstart", "dragenter", "dragover", "drop"] {
        assert!(s.contains(&format!("window.addEventListener('{ev}', block, true);")));
    }
}
