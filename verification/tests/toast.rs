use webview_app::toast::{
    download_notification, install, notify, path_to_file_uri, safe_filename, START_MENU_FOLDER,
};

#[test]
fn file_names_lose_reserved_characters() {
    assert_eq!(safe_filename("a<b>:c\"d/e\\f|g?h*i\u{7}j\u{85}"), "a-b--c-d-e-f-g-h-i-j-");
    assert_eq!(safe_filename("My App"), "My App");
    assert_eq!(safe_filename("   "), "Nest");
    assert_eq!(safe_filename(""), "Nest");
    assert_eq!(safe_filename("\u{2003} "), "Nest");
    assert_eq!(safe_filename("\u{2003}\t"), "\u{2003}-");
    assert_eq!(safe_filename("<>"), "--");
}

#[test]
fn install_plans_the_shortcut() {
    let plan = install("com.example.app", "My: App");
    assert_eq!(plan.app_id, "com.example.app");
    assert_eq!(plan.description, "My: App");
    assert_eq!(plan.file_name, "My- App.lnk");
    assert_eq!(START_MENU_FOLDER, "Microsoft\\Windows\\Start Menu\\Programs\\Nest");
}

#[test]
fn file_uris() {
    assert_eq!(
        path_to_file_uri("C:\\Users\\me\\My File.txt"),
        "file:///C:/Users/me/My%20File.txt"
    );
    assert_eq!(path_to_file_uri("C:\\ü&x"), "file:///C:/%C3%BC%26x");
}

#[test]
fn plain_toast_xml() {
    let toast = notify("app", "Hi <there>", "a & b", None, None, None);
    assert_eq!(toast.app_id, "app");
    assert_eq!(
        toast.xml,
        "<toast><visual><binding template=\"ToastGeneric\"><text>Hi &lt;there&gt;</text><text>a &amp; b</text></binding></visual></toast>"
    );
}

#[test]
fn download_toast_xml() {
    let toast = notify(
        "app",
        "Download completed",
        "Saved to C:\\d\\f.txt",
        Some("C:\\d\\f.txt"),
        Some("C:\\d"),
        Some("C:\\i\\icon.png"),
    );
    assert_eq!(
        toast.xml,
        "<toast activationType=\"protocol\" launch=\"file:///C:/d/f.txt\"><visual><binding template=\"ToastGeneric\"><image placement=\"appLogoOverride\" src=\"file:///C:/i/icon.png\"/><text>Download completed</text><text>Saved to C:\\d\\f.txt</text></binding></visual><actions><action content=\"Open file\" activationType=\"protocol\" arguments=\"file:///C:/d/f.txt\"/><action content=\"Open folder\" activationType=\"protocol\" arguments=\"file:///C:/d\"/></actions></toast>"
    );
    let no_folder = notify("app", "t", "b", Some("f"), None, None);
    assert_eq!(
        no_folder.xml,
        "<toast activationType=\"protocol\" launch=\"file:///f\"><visual><binding template=\"ToastGeneric\"><text>t</text><text>b</text></binding></visual><actions><action content=\"Open file\" activationType=\"protocol\" arguments=\"file:///f\"/></actions></toast>"
    );
    let folder_only = notify("app", "t", "b", None, Some("d"), None);
    assert_eq!(
        folder_only.xml,
        "<toast><visual><binding template=\"ToastGeneric\"><text>t</text><text>b</text></binding></visual></toast>"
    );
}

#[test]
fn download_notices() {
    let ok = download_notification(true, Some("C:\\d\\f.txt"));
    assert_eq!(ok.title, "Download completed");
    assert_eq!(ok.body, "Saved to C:\\d\\f.txt");
    assert_eq!(ok.file.as_deref(), Some("C:\\d\\f.txt"));
    let ok_unknown = download_notification(true, None);
    assert_eq!(ok_unknown.title, "Download completed");
    assert_eq!(ok_unknown.body, "Download completed");
    assert_eq!(ok_unknown.file, None);
    let failed = download_notification(false, Some("x"));
    assert_eq!(failed.title, "Download failed");
    assert_eq!(failed.body, "Download failed");
    assert_eq!(failed.file, None);
}
