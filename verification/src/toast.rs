//! Windows toast notifications: the Start-menu shortcut that registers the app
//! and the XML of each toast.

use vstd::prelude::*;
use vstd::utf8::encode_utf8;
use crate::encode::{escape_xml, pct_encode, uri_encode_path, xml_escape};
use crate::text::{
    is_whitespace, chars_of, push_char, push_str, string_from_chars, string_of, trim, trim_end, trim_exec, trim_start,
};

verus! {

broadcast use vstd::string::group_string_axioms;

/// The shortcut's folder below the roaming application-data folder.
pub const START_MENU_FOLDER: &'static str = "Microsoft\\Windows\\Start Menu\\Programs\\Nest";

/// The shortcut name used when a title leaves nothing but whitespace.
pub const FALLBACK_SHORTCUT_NAME: &'static str = "Nest";

/// Unicode general category Cc (`char::is_control`).
pub open spec fn is_control(c: char) -> bool {
    c <= '\u{1f}' || ('\u{7f}' <= c && c <= '\u{9f}')
}

/// Characters that file names on Windows cannot hold.
pub open spec fn is_reserved_in_filename(c: char) -> bool {
    c == '<' || c == '>' || c == ':' || c == '"' || c == '/' || c == '\\' || c == '|' || c == '?'
        || c == '*'
}

pub open spec fn filename_char(c: char) -> char {
    if is_reserved_in_filename(c) || is_control(c) {
        '-'
    } else {
        c
    }
}

/// A title made usable as a file name: reserved and control characters become
/// `-`; a result that is empty or all whitespace becomes the fallback name.
pub open spec fn safe_name(title: Seq<char>) -> Seq<char> {
    let name = title.map_values(|c: char| filename_char(c));
    if trim(name).len() == 0 {
        FALLBACK_SHORTCUT_NAME@
    } else {
        name
    }
}

/// A name made from a title is never empty and holds no reserved or control
/// character.
pub proof fn lemma_safe_name(title: Seq<char>)
    ensures
        safe_name(title).len() > 0,
        forall|i: int|
            0 <= i < safe_name(title).len() ==> !is_reserved_in_filename(#[trigger] safe_name(title)[i])
                && !is_control(safe_name(title)[i]),
{
    let name = title.map_values(|c: char| filename_char(c));
    reveal_strlit("Nest");
    if trim(name).len() != 0 {
        assert(name.len() > 0) by {
            if name.len() == 0 {
                assert(trim_start(name) == name);
                assert(trim_end(name) == name);
            }
        }
    }
}

/// `title` made usable as a file name.
pub fn safe_filename(title: &str) -> (r: String)
    ensures
        r@ == safe_name(title@),
{
    let v = chars_of(title);
    let mut name: Vec<char> = Vec::new();
    let mut i: usize = 0;
    while i < v.len()
        invariant
            i <= v.len(),
            v@ == title@,
            name@ == v@.take(i as int).map_values(|c: char| filename_char(c)),
        decreases v.len() - i,
    {
        let c = v[i];
        let reserved = c == '<' || c == '>' || c == ':' || c == '"' || c == '/' || c == '\\' || c
            == '|' || c == '?' || c == '*';
        let control = c <= '\u{1f}' || ('\u{7f}' <= c && c <= '\u{9f}');
        name.push(if reserved || control { '-' } else { c });
        i = i + 1;
        assert(name@ =~= v@.take(i as int).map_values(|c: char| filename_char(c)));
    }
    assert(v@.take(v.len() as int) =~= v@);
    let t = trim_exec(&name);
    if t.len() == 0 {
        string_of(FALLBACK_SHORTCUT_NAME)
    } else {
        string_from_chars(&name)
    }
}

/// What registering the app for toasts takes: the app user model id to set on
/// the process and on the shortcut, the shortcut's description and file name.
pub struct ShortcutPlan {
    pub app_id: String,
    pub description: String,
    /// File name inside `START_MENU_FOLDER`.
    pub file_name: String,
}

/// The registration for toasts of the app `app_id` titled `title`.
pub fn install(app_id: &str, title: &str) -> (r: ShortcutPlan)
    ensures
        r.app_id@ == app_id@,
        r.description@ == title@,
        r.file_name@ == safe_name(title@) + ".lnk"@,
{
    let mut file_name = safe_filename(title);
    push_str(&mut file_name, ".lnk");
    ShortcutPlan { app_id: string_of(app_id), description: string_of(title), file_name }
}

/// A path with every `\` turned into `/`.
pub open spec fn forward_slashes(path: Seq<char>) -> Seq<char> {
    path.map_values(|c: char| if c == '\\' { '/' } else { c })
}

/// The `file:` URI of a path.
pub open spec fn file_uri(path: Seq<char>) -> Seq<char> {
    "file:///"@ + pct_encode(encode_utf8(forward_slashes(path)), true)
}

/// The `file:` URI of a path given as text.
pub fn path_to_file_uri(path: &str) -> (r: String)
    ensures
        r@ == file_uri(path@),
{
    let v = chars_of(path);
    let mut w: Vec<char> = Vec::new();
    let mut i: usize = 0;
    while i < v.len()
        invariant
            i <= v.len(),
            v@ == path@,
            w@ == forward_slashes(v@.take(i as int)),
        decreases v.len() - i,
    {
        w.push(if v[i] == '\\' { '/' } else { v[i] });
        i = i + 1;
        assert(w@ =~= forward_slashes(v@.take(i as int)));
    }
    assert(v@.take(v.len() as int) =~= v@);
    let slashed = string_from_chars(&w);
    let encoded = uri_encode_path(slashed.as_str());
    let mut out = string_of("file:///");
    push_str(&mut out, encoded.as_str());
    out
}

/// One toast: the app it is shown for and its XML.
pub struct Toast {
    pub app_id: String,
    pub xml: String,
}

pub open spec fn icon_xml(icon: Option<Seq<char>>) -> Seq<char> {
    match icon {
        Some(p) => "<image placement=\"appLogoOverride\" src=\""@ + xml_escape(file_uri(p)) + "\"/>"@,
        None => seq![],
    }
}

pub open spec fn launch_xml(file: Option<Seq<char>>) -> Seq<char> {
    match file {
        Some(p) => " activationType=\"protocol\" launch=\""@ + xml_escape(file_uri(p)) + "\""@,
        None => seq![],
    }
}

pub open spec fn open_file_action(p: Seq<char>) -> Seq<char> {
    "<action content=\"Open file\" activationType=\"protocol\" arguments=\""@ + xml_escape(
        file_uri(p),
    ) + "\"/>"@
}

pub open spec fn open_folder_action(p: Seq<char>) -> Seq<char> {
    "<action content=\"Open folder\" activationType=\"protocol\" arguments=\""@ + xml_escape(
        file_uri(p),
    ) + "\"/>"@
}

/// Buttons: open the downloaded file, and its folder when that is known.
pub open spec fn actions_xml(file: Option<Seq<char>>, folder: Option<Seq<char>>) -> Seq<char> {
    match (file, folder) {
        (Some(f), Some(d)) => "<actions>"@ + open_file_action(f) + open_folder_action(d)
            + "</actions>"@,
        (Some(f), None) => "<actions>"@ + open_file_action(f) + "</actions>"@,
        _ => seq![],
    }
}

/// The XML of a toast with a title and a body, optionally for a downloaded
/// file (clicking opens it; `folder` is the file's folder) and with an icon.
pub open spec fn toast_xml(
    title: Seq<char>,
    body: Seq<char>,
    file: Option<Seq<char>>,
    folder: Option<Seq<char>>,
    icon: Option<Seq<char>>,
) -> Seq<char> {
    "<toast"@ + launch_xml(file) + "><visual><binding template=\"ToastGeneric\">"@ + icon_xml(icon)
        + "<text>"@ + xml_escape(title) + "</text><text>"@ + xml_escape(body)
        + "</text></binding></visual>"@ + actions_xml(file, match file {
        Some(_) => folder,
        None => None,
    }) + "</toast>"@
}

pub open spec fn opt_chars(o: Option<&str>) -> Option<Seq<char>> {
    match o {
        Some(s) => Some(s@),
        None => None,
    }
}

fn icon_part(icon_path: Option<&str>) -> (r: String)
    ensures
        r@ == icon_xml(opt_chars(icon_path)),
{
    let mut out = String::new();
    if let Some(p) = icon_path {
        let u = path_to_file_uri(p);
        push_str(&mut out, "<image placement=\"appLogoOverride\" src=\"");
        let e = escape_xml(u.as_str());
        push_str(&mut out, e.as_str());
        push_str(&mut out, "\"/>");
    }
    out
}

fn launch_part(download_path: Option<&str>) -> (r: String)
    ensures
        r@ == launch_xml(opt_chars(download_path)),
{
    let mut out = String::new();
    if let Some(p) = download_path {
        let u = path_to_file_uri(p);
        push_str(&mut out, " activationType=\"protocol\" launch=\"");
        let e = escape_xml(u.as_str());
        push_str(&mut out, e.as_str());
        push_str(&mut out, "\"");
    }
    out
}

fn action_part(path: &str, folder: bool) -> (r: String)
    ensures
        r@ == if folder {
            open_folder_action(path@)
        } else {
            open_file_action(path@)
        },
{
    let mut out = if folder {
        string_of("<action content=\"Open folder\" activationType=\"protocol\" arguments=\"")
    } else {
        string_of("<action content=\"Open file\" activationType=\"protocol\" arguments=\"")
    };
    let u = path_to_file_uri(path);
    let e = escape_xml(u.as_str());
    push_str(&mut out, e.as_str());
    push_str(&mut out, "\"/>");
    out
}

fn actions_part(download_path: Option<&str>, download_folder: Option<&str>) -> (r: String)
    ensures
        r@ == actions_xml(
            opt_chars(download_path),
            match download_path {
                Some(_) => opt_chars(download_folder),
                None => None,
            },
        ),
{
    let mut out = String::new();
    if let Some(f) = download_path {
        push_str(&mut out, "<actions>");
        let a = action_part(f, false);
        push_str(&mut out, a.as_str());
        if let Some(d) = download_folder {
            let b = action_part(d, true);
            push_str(&mut out, b.as_str());
        }
        push_str(&mut out, "</actions>");
    }
    out
}

/// The toast for a notification of the app `app_id`.
pub fn notify(
    app_id: &str,
    title: &str,
    body: &str,
    download_path: Option<&str>,
    download_folder: Option<&str>,
    icon_path: Option<&str>,
) -> (r: Toast)
    ensures
        r.app_id@ == app_id@,
        r.xml@ == toast_xml(
            title@,
            body@,
            opt_chars(download_path),
            opt_chars(download_folder),
            opt_chars(icon_path),
        ),
{
    let launch = launch_part(download_path);
    let icon = icon_part(icon_path);
    let actions = actions_part(download_path, download_folder);
    let t = escape_xml(title);
    let b = escape_xml(body);
    let mut xml = string_of("<toast");
    push_str(&mut xml, launch.as_str());
    push_str(&mut xml, "><visual><binding template=\"ToastGeneric\">");
    push_str(&mut xml, icon.as_str());
    push_str(&mut xml, "<text>");
    push_str(&mut xml, t.as_str());
    push_str(&mut xml, "</text><text>");
    push_str(&mut xml, b.as_str());
    push_str(&mut xml, "</text></binding></visual>");
    push_str(&mut xml, actions.as_str());
    push_str(&mut xml, "</toast>");
    Toast { app_id: string_of(app_id), xml }
}

pub open spec fn opt_string(o: Option<String>) -> Option<Seq<char>> {
    match o {
        Some(s) => Some(s@),
        None => None,
    }
}

/// The title, body and file of the notification about a finished download.
pub struct DownloadNotice {
    pub title: String,
    pub body: String,
    pub file: Option<String>,
}

/// The notification for a download that finished (`success`) or failed; `path`
/// is where it was saved, when known.
pub fn download_notification(success: bool, path: Option<&str>) -> (r: DownloadNotice)
    ensures
        success ==> r.title@ == "Download completed"@,
        success && path is Some ==> r.body@ == "Saved to "@ + path->0@,
        success && path is None ==> r.body@ == "Download completed"@,
        success ==> opt_string(r.file) == opt_chars(path),
        !success ==> r.title@ == "Download failed"@ && r.body@ == "Download failed"@ && r.file is None,
{
    if success {
        match path {
            Some(p) => {
                let mut body = string_of("Saved to ");
                push_str(&mut body, p);
                DownloadNotice {
                    title: string_of("Download completed"),
                    body,
                    file: Some(string_of(p)),
                }
            },
            None => DownloadNotice {
                title: string_of("Download completed"),
                body: string_of("Download completed"),
                file: None,
            },
        }
    } else {
        DownloadNotice {
            title: string_of("Download failed"),
            body: string_of("Download failed"),
            file: None,
        }
    }
}

/// The image element that shows `p` as the toast's logo.
pub open spec fn logo_element(p: Seq<char>) -> Seq<char> {
    "<image placement=\"appLogoOverride\" src=\""@ + xml_escape(file_uri(p)) + "\"/>"@
}

/// An icon adds its image element right after the binding's opening tag and
/// changes nothing else, whether or not the toast is about a download.
pub proof fn lemma_toast_icon(
    title: Seq<char>,
    body: Seq<char>,
    file: Option<Seq<char>>,
    folder: Option<Seq<char>>,
    p: Seq<char>,
)
    ensures
        ({
            let plain = toast_xml(title, body, file, folder, None);
            let k = ("<toast"@ + launch_xml(file) + "><visual><binding template=\"ToastGeneric\">"@).len() as int;
            toast_xml(title, body, file, folder, Some(p)) == plain.take(k) + logo_element(p)
                + plain.skip(k)
        }),
{
    let head = "<toast"@ + launch_xml(file) + "><visual><binding template=\"ToastGeneric\">"@;
    let tail = "<text>"@ + xml_escape(title) + "</text><text>"@ + xml_escape(body)
        + "</text></binding></visual>"@ + actions_xml(file, match file {
        Some(_) => folder,
        None => None,
    }) + "</toast>"@;
    let plain = toast_xml(title, body, file, folder, None);
    assert(icon_xml(None) =~= Seq::<char>::empty());
    assert(plain =~= head + tail);
    assert(plain.take(head.len() as int) =~= head);
    assert(plain.skip(head.len() as int) =~= tail);
    assert(toast_xml(title, body, file, folder, Some(p)) =~= head + logo_element(p) + tail);
}

/// The toast for a web notification with an icon: the logo, then the escaped
/// title and body, with no launch target and no buttons.
pub proof fn lemma_web_toast(title: Seq<char>, body: Seq<char>, folder: Option<Seq<char>>, p: Seq<char>)
    ensures
        toast_xml(title, body, None, folder, Some(p)) == "<toast><visual><binding template=\"ToastGeneric\">"@
            + logo_element(p) + "<text>"@ + xml_escape(title) + "</text><text>"@ + xml_escape(body)
            + "</text></binding></visual></toast>"@,
{
    reveal_strlit("<toast");
    reveal_strlit("><visual><binding template=\"ToastGeneric\">");
    reveal_strlit("<toast><visual><binding template=\"ToastGeneric\">");
    reveal_strlit("</text></binding></visual>");
    reveal_strlit("</toast>");
    reveal_strlit("</text></binding></visual></toast>");
    assert(launch_xml(None) =~= Seq::<char>::empty());
    assert(actions_xml(None, None) =~= Seq::<char>::empty());
    assert("<toast"@ + "><visual><binding template=\"ToastGeneric\">"@ =~= "<toast><visual><binding template=\"ToastGeneric\">"@);
    assert("</text></binding></visual>"@ + "</toast>"@ =~= "</text></binding></visual></toast>"@);
    assert(toast_xml(title, body, None, folder, Some(p)) =~= "<toast><visual><binding template=\"ToastGeneric\">"@
        + logo_element(p) + "<text>"@ + xml_escape(title) + "</text><text>"@ + xml_escape(body)
        + "</text></binding></visual></toast>"@);
}

/// Characters that a shortcut name cannot hold: `<>:"/\|?*` and the control
/// characters U+0000–U+001F and U+007F–U+009F.
pub open spec fn unfit_for_filename(c: char) -> bool {
    c == '<' || c == '>' || c == ':' || c == '"' || c == '/' || c == '\\' || c == '|' || c == '?'
        || c == '*' || c <= '\u{1f}' || ('\u{7f}' <= c && c <= '\u{9f}')
}

/// A title yields the fallback name exactly when it holds nothing but
/// whitespace that is fit for a file name; otherwise the name has the title's
/// length, unfit characters become `-` and every other character is kept.
pub proof fn lemma_safe_name_chars(title: Seq<char>)
    ensures
        (forall|i: int| 0 <= i < title.len() ==> is_whitespace(#[trigger] title[i]) && !unfit_for_filename(title[i]))
            ==> safe_name(title) == FALLBACK_SHORTCUT_NAME@,
        (exists|i: int| 0 <= i < title.len() && !(is_whitespace(#[trigger] title[i]) && !unfit_for_filename(title[i])))
            ==> safe_name(title).len() == title.len() && forall|i: int| 0 <= i < title.len() ==> #[trigger] safe_name(title)[i]
            == if unfit_for_filename(title[i]) {
            '-'
        } else {
            title[i]
        },
{
    let name = title.map_values(|c: char| filename_char(c));
    assert forall|i: int| 0 <= i < title.len() implies #[trigger] name[i] == if unfit_for_filename(title[i]) {
        '-'
    } else {
        title[i]
    } by {}
    if forall|i: int| 0 <= i < title.len() ==> is_whitespace(#[trigger] title[i]) && !unfit_for_filename(title[i]) {
        lemma_trim_all_whitespace(name);
    } else {
        let i = choose|i: int| 0 <= i < title.len() && !(is_whitespace(#[trigger] title[i]) && !unfit_for_filename(title[i]));
        assert(!is_whitespace(name[i]));
        lemma_trim_keeps_non_whitespace(name, i);
    }
}

proof fn lemma_trim_all_whitespace(s: Seq<char>)
    requires
        forall|i: int| 0 <= i < s.len() ==> is_whitespace(#[trigger] s[i]),
    ensures
        trim(s).len() == 0,
{
    lemma_trim_start_all_whitespace(s);
    assert(trim_end(Seq::<char>::empty()) == Seq::<char>::empty());
}

proof fn lemma_trim_start_all_whitespace(s: Seq<char>)
    requires
        forall|i: int| 0 <= i < s.len() ==> is_whitespace(#[trigger] s[i]),
    ensures
        trim_start(s) == Seq::<char>::empty(),
    decreases s.len(),
{
    if s.len() > 0 {
        assert(is_whitespace(s[0]));
        assert forall|i: int| 0 <= i < s.drop_first().len() implies is_whitespace(#[trigger] s.drop_first()[i]) by {
            assert(s.drop_first()[i] == s[i + 1]);
        }
        lemma_trim_start_all_whitespace(s.drop_first());
    } else {
        assert(s =~= Seq::<char>::empty());
    }
}

/// Trimming cannot empty a sequence that holds a non-whitespace character.
proof fn lemma_trim_keeps_non_whitespace(s: Seq<char>, i: int)
    requires
        0 <= i < s.len(),
        !is_whitespace(s[i]),
    ensures
        trim(s).len() > 0,
{
    lemma_trim_start_keeps(s, i);
    let t = trim_start(s);
    let j = choose|j: int| 0 <= j < t.len() && !is_whitespace(#[trigger] t[j]);
    lemma_trim_end_keeps(t, j);
}

proof fn lemma_trim_start_keeps(s: Seq<char>, i: int)
    requires
        0 <= i < s.len(),
        !is_whitespace(s[i]),
    ensures
        exists|j: int| 0 <= j < trim_start(s).len() && !is_whitespace(#[trigger] trim_start(s)[j]),
    decreases s.len(),
{
    if is_whitespace(s[0]) {
        assert(i > 0);
        assert(s.drop_first()[i - 1] == s[i]);
        lemma_trim_start_keeps(s.drop_first(), i - 1);
        assert(trim_start(s) == trim_start(s.drop_first()));
    } else {
        assert(!is_whitespace(trim_start(s)[i]));
    }
}

proof fn lemma_trim_end_keeps(s: Seq<char>, i: int)
    requires
        0 <= i < s.len(),
        !is_whitespace(s[i]),
    ensures
        trim_end(s).len() > 0,
    decreases s.len(),
{
    if is_whitespace(s.last()) {
        assert(i < s.len() - 1);
        assert(s.drop_last()[i] == s[i]);
        lemma_trim_end_keeps(s.drop_last(), i);
    }
}

} // verus!
