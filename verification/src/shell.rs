//! Decisions of the windowing shell: window labels, the profile directory,
//! what happens on navigation, new-window requests, permission requests, tray
//! and menu events, and when the event loop ends.

use vstd::prelude::*;
use crate::encode::{decimal, hex_lower_digits, lemma_decimal_injective, push_decimal, push_hex_digits};
use crate::instance::{safe_app_id, safe_id};
use crate::text::{push_char, push_str, str_eq, string_of};
use crate::toast::{install, safe_name, ShortcutPlan};
use crate::urls::{internal, is_internal_url, notification_allowed, allows_notification_permission, UrlPolicy};

verus! {

broadcast use vstd::string::group_string_axioms;

/// Script that keeps pages from receiving drag-and-drop events.
pub const DISABLE_DRAG_DROP_SCRIPT: &'static str = "
(() => {
  const block = event => {
    event.preventDefault();
    event.stopPropagation();
  };
  window.addEventListener('dragstart', block, true);
  window.addEventListener('dragenter', block, true);
  window.addEventListener('dragover', block, true);
  window.addEventListener('drop', block, true);
})();
";

/// The initialization script installed when drag and drop is turned off.
pub fn disable_drag_drop_script() -> (r: &'static str)
    ensures
        r@ == DISABLE_DRAG_DROP_SCRIPT@,
{
    DISABLE_DRAG_DROP_SCRIPT
}

// ---------------------------------------------------------------------------
// Window labels
// ---------------------------------------------------------------------------

/// The label of the window opened as the `id`-th.
pub open spec fn window_label(id: nat) -> Seq<char> {
    "window-"@ + decimal(id)
}

/// The web-view label for the window with counter value `id`.
pub fn next_window_label(id: usize) -> (r: String)
    ensures
        r@ == window_label(id as nat),
{
    let mut s = string_of("window-");
    push_decimal(&mut s, id as u64);
    s
}

/// Different counter values give different window labels.
pub proof fn lemma_window_labels_distinct(a: nat, b: nat)
    requires
        a != b,
    ensures
        window_label(a) != window_label(b),
{
    if window_label(a) == window_label(b) {
        let p = "window-"@;
        assert(window_label(a).skip(p.len() as int) =~= decimal(a));
        assert(window_label(b).skip(p.len() as int) =~= decimal(b));
        lemma_decimal_injective(a, b);
    }
}

// ---------------------------------------------------------------------------
// Profile directory
// ---------------------------------------------------------------------------

/// Where the profile directory is rooted.
#[derive(PartialEq, Eq, Structural, Clone, Copy, Debug)]
pub enum DataDirBase {
    /// The temporary directory.
    Temp,
    /// The local application-data directory, or the temporary directory when
    /// there is none.
    LocalData,
}

/// The profile directory: a base and the components joined onto it.
pub struct DataDirPlan {
    pub base: DataDirBase,
    pub components: Vec<String>,
}

/// The name prefix of per-process (incognito) profile directories.
pub fn data_dir_prefix(app_id: &str) -> (r: String)
    ensures
        r@ == safe_id(app_id@).push('-'),
{
    let mut s = safe_app_id(app_id);
    push_char(&mut s, '-');
    s
}

/// The profile directory of the app: for an incognito app a directory named
/// after the app and the process id in the temporary directory, otherwise
/// `nest/<app>` in the local application-data directory.
pub fn data_dir_plan(incognito: bool, app_id: &str, pid: u32) -> (r: DataDirPlan)
    ensures
        incognito ==> r.base == DataDirBase::Temp && r.components@.len() == 1
            && r.components@[0]@ == safe_id(app_id@).push('-') + decimal(pid as nat),
        !incognito ==> r.base == DataDirBase::LocalData && r.components@.len() == 2
            && r.components@[0]@ == "nest"@ && r.components@[1]@ == safe_id(app_id@),
{
    if incognito {
        let mut name = data_dir_prefix(app_id);
        push_decimal(&mut name, pid as u64);
        let mut components: Vec<String> = Vec::new();
        components.push(name);
        DataDirPlan { base: DataDirBase::Temp, components }
    } else {
        let mut components: Vec<String> = Vec::new();
        components.push(string_of("nest"));
        components.push(safe_app_id(app_id));
        DataDirPlan { base: DataDirBase::LocalData, components }
    }
}

// ---------------------------------------------------------------------------
// Notifications set-up
// ---------------------------------------------------------------------------

/// The toast registration to perform at start-up: only when notifications
/// are turned on.
pub fn install_windows_notifications(enabled: bool, app_id: &str, title: &str) -> (r: Option<
    ShortcutPlan,
>)
    ensures
        r is Some <==> enabled,
        r matches Some(p) ==> p.app_id@ == app_id@ && p.description@ == title@ && p.file_name@
            == safe_name(title@) + ".lnk"@,
{
    if enabled {
        Some(install(app_id, title))
    } else {
        None
    }
}

// ---------------------------------------------------------------------------
// Navigation, new windows and permissions
// ---------------------------------------------------------------------------

/// What to do with a navigation inside a window.
#[derive(PartialEq, Eq, Structural, Clone, Copy, Debug)]
pub enum NavigationAction {
    /// Let the web view load the page.
    Load,
    /// Cancel it and open the URL in the system browser.
    OpenExternal,
}

/// Internal pages load in the window; everything else goes to the browser.
pub fn navigation_action(policy: &UrlPolicy, url: &str) -> (r: NavigationAction)
    ensures
        r == (if internal(policy.listed(), policy.patterns(), url@) {
            NavigationAction::Load
        } else {
            NavigationAction::OpenExternal
        }),
{
    if is_internal_url(policy, url) {
        NavigationAction::Load
    } else {
        NavigationAction::OpenExternal
    }
}

/// What to do with a page's request for a new window. The web view's own
/// window is refused in every case.
#[derive(PartialEq, Eq, Structural, Clone, Copy, Debug)]
pub enum NewWindowAction {
    /// Do nothing more.
    Ignore,
    /// Open the URL in the system browser.
    OpenExternal,
    /// Open the URL in a new app window.
    OpenInApp,
}

/// New windows are ignored when not allowed; external URLs go to the browser;
/// internal ones open in a new app window.
pub fn new_window_action(allow_new: bool, policy: &UrlPolicy, url: &str) -> (r: NewWindowAction)
    ensures
        !allow_new ==> r == NewWindowAction::Ignore,
        allow_new && internal(policy.listed(), policy.patterns(), url@) ==> r
            == NewWindowAction::OpenInApp,
        allow_new && !internal(policy.listed(), policy.patterns(), url@) ==> r
            == NewWindowAction::OpenExternal,
{
    if !allow_new {
        return NewWindowAction::Ignore;
    }
    if !is_internal_url(policy, url) {
        return NewWindowAction::OpenExternal;
    }
    NewWindowAction::OpenInApp
}

/// The answer to a page's permission request.
#[derive(PartialEq, Eq, Structural, Clone, Copy, Debug)]
pub enum PermissionResponse {
    /// Not a notification request: leave it to the web view.
    Ignore,
    /// Allow, and keep the decision in the profile.
    Allow,
    /// Deny.
    Deny,
}

/// Notification requests are allowed for internal pages and denied for all
/// others; other requests are left alone.
pub fn permission_response(policy: &UrlPolicy, is_notification_request: bool, uri: &str) -> (r:
    PermissionResponse)
    ensures
        !is_notification_request ==> r == PermissionResponse::Ignore,
        is_notification_request && notification_allowed(policy.listed(), policy.patterns(), uri@)
            ==> r == PermissionResponse::Allow,
        is_notification_request && !notification_allowed(
            policy.listed(),
            policy.patterns(),
            uri@,
        ) ==> r == PermissionResponse::Deny,
{
    if !is_notification_request {
        PermissionResponse::Ignore
    } else if allows_notification_permission(policy, uri) {
        PermissionResponse::Allow
    } else {
        PermissionResponse::Deny
    }
}

// ---------------------------------------------------------------------------
// Tray, menu and window lifetime
// ---------------------------------------------------------------------------

/// Whether closing the last window keeps the app running in the tray.
pub fn keep_alive_on_close(close_to_tray: bool, tray_icon: bool) -> (r: bool)
    ensures
        r == (close_to_tray && tray_icon),
{
    close_to_tray && tray_icon
}

/// Whether an invisible window is kept to hold the incognito profile while
/// no window is open.
pub fn needs_profile_keeper(incognito: bool, keep_alive: bool) -> (r: bool)
    ensures
        r == (incognito && keep_alive),
{
    incognito && keep_alive
}

/// Whether the event loop ends after a window closed and `open_windows`
/// remain.
pub fn should_exit_after_close(open_windows: usize, keep_alive: bool) -> (r: bool)
    ensures
        r == (open_windows == 0 && !keep_alive),
{
    open_windows == 0 && !keep_alive
}

/// What activating the tray icon does.
#[derive(PartialEq, Eq, Structural, Clone, Copy, Debug)]
pub enum Activation {
    /// No window is open: open one on the selected start page.
    CreateWindow,
    /// Bring every open window to the front.
    ShowWindows,
}

/// With no window open a new one is created, otherwise the open ones are shown.
pub fn activation(open_windows: usize) -> (r: Activation)
    ensures
        r == (if open_windows == 0 {
            Activation::CreateWindow
        } else {
            Activation::ShowWindows
        }),
{
    if open_windows == 0 {
        Activation::CreateWindow
    } else {
        Activation::ShowWindows
    }
}

/// Whether a tray-icon event brings the windows forward: a left click released,
/// or a left double click.
pub fn tray_event_activates(left_button: bool, double_click: bool, released: bool) -> (r: bool)
    ensures
        r == (left_button && (double_click || released)),
{
    left_button && (double_click || released)
}

/// What a tray-menu event asks for.
#[derive(PartialEq, Eq, Structural, Clone, Copy, Debug)]
pub enum MenuAction {
    NewWindow,
    Quit,
    Nothing,
}

pub open spec fn same_id(id: Seq<char>, item: Option<&str>) -> bool {
    match item {
        Some(s) => s@ == id,
        None => false,
    }
}

/// A menu item matches exactly its own id, compared as whole strings; an
/// absent item matches nothing.
pub proof fn lemma_same_id(id: Seq<char>, s: &str)
    ensures
        same_id(id, Some(s)) <==> s@ == id,
        !same_id(id, None),
{
}

/// The action of the menu item `id`: the "New Window" item, else the "Quit"
/// item, else nothing.
pub fn menu_action(id: &str, new_window_id: Option<&str>, quit_id: Option<&str>) -> (r: MenuAction)
    ensures
        same_id(id@, new_window_id) ==> r == MenuAction::NewWindow,
        !same_id(id@, new_window_id) && same_id(id@, quit_id) ==> r == MenuAction::Quit,
        !same_id(id@, new_window_id) && !same_id(id@, quit_id) ==> r == MenuAction::Nothing,
{
    let is_new = match new_window_id {
        Some(n) => str_eq(n, id),
        None => false,
    };
    if is_new {
        return MenuAction::NewWindow;
    }
    let is_quit = match quit_id {
        Some(q) => str_eq(q, id),
        None => false,
    };
    if is_quit {
        MenuAction::Quit
    } else {
        MenuAction::Nothing
    }
}

// ---------------------------------------------------------------------------
// Favicons
// ---------------------------------------------------------------------------

/// File name of the favicon stored for a window whose id hashes to `hash`.
pub fn favicon_file_name(hash: u64) -> (r: String)
    ensures
        r@ == hex_lower_digits(hash as nat, 16) + ".png"@,
{
    let mut s = String::new();
    push_hex_digits(&mut s, hash, 16);
    push_str(&mut s, ".png");
    s
}

/// The largest favicon side, in pixels, that is turned into a window icon.
pub const MAX_FAVICON_SIDE: u32 = 512;

/// Row stride and buffer length of a decoded RGBA favicon of the given size;
/// `None` for an empty image or one wider or taller than `MAX_FAVICON_SIDE`.
pub fn favicon_layout(width: u32, height: u32) -> (r: Option<(u32, usize)>)
    ensures
        (width == 0 || height == 0 || width > MAX_FAVICON_SIDE || height > MAX_FAVICON_SIDE) ==> r
            is None,
        (0 < width <= MAX_FAVICON_SIDE && 0 < height <= MAX_FAVICON_SIDE) ==> r == Some(
            ((width * 4) as u32, (width * 4 * height) as usize),
        ),
{
    if width == 0 || height == 0 || width > MAX_FAVICON_SIDE || height > MAX_FAVICON_SIDE {
        return None;
    }
    let stride: u32 = width * 4;
    assert(stride * height <= 2048 * 512) by (nonlinear_arith)
        requires
            stride <= 2048,
            height <= 512,
    ;
    let len: u32 = stride * height;
    Some((stride, len as usize))
}

} // verus!
