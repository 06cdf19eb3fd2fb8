//! Which URLs belong to the app, where a start-up argument leads, and the
//! origins that are granted notification permission.

use vstd::prelude::*;
use vstd::utf8::encode_utf8;
use crate::encode::{pct_encode, percent_encode};
use crate::pattern::{any_matches, matches_any, sources, UrlPattern};
use crate::text::{
    ascii_lower, occurs_at, contains_seq, replace_all, replace_all_exec, string_from_chars, trim, trim_exec, ascii_ci_eq, ascii_ci_eq_exec, ascii_lower_all, chars_of, find_exec, find_from, lemma_find_from,
    push_char, push_chars, push_str, slice_chars, starts_with, str_eq, string_of, to_ascii_lower,
};

verus! {

broadcast use vstd::string::group_string_axioms;

/// One of the app's own start pages: a name that selects it on the command
/// line, and its URL.
pub struct AppUrl {
    pub name: String,
    pub url: String,
}

/// The configuration that decides which URLs open inside the app.
pub struct UrlPolicy {
    /// The app's start pages; the first is the default.
    pub app_urls: Vec<AppUrl>,
    /// Further URL prefixes that count as internal.
    pub internal_prefixes: Vec<String>,
    /// Regular expressions that mark further URLs as internal.
    pub internal_patterns: Vec<UrlPattern>,
}

/// The character sequences of a list of strings.
pub open spec fn string_views(v: Seq<String>) -> Seq<Seq<char>> {
    v.map_values(|x: String| x@)
}

impl UrlPolicy {
    pub open spec fn app_names(&self) -> Seq<Seq<char>> {
        self.app_urls@.map_values(|a: AppUrl| a.name@)
    }

    pub open spec fn app_targets(&self) -> Seq<Seq<char>> {
        self.app_urls@.map_values(|a: AppUrl| a.url@)
    }

    pub open spec fn prefixes(&self) -> Seq<Seq<char>> {
        string_views(self.internal_prefixes@)
    }

    /// The start-page URLs followed by the internal prefixes.
    pub open spec fn listed(&self) -> Seq<Seq<char>> {
        self.app_targets() + self.prefixes()
    }

    pub open spec fn patterns(&self) -> Seq<Seq<char>> {
        sources(self.internal_patterns@)
    }
}

/// Some listed URL is a prefix of `url`.
pub open spec fn has_listed_prefix(listed: Seq<Seq<char>>, url: Seq<char>) -> bool {
    exists|i: int| 0 <= i < listed.len() && #[trigger] listed[i].is_prefix_of(url)
}

/// `url` opens inside the app: it starts with a listed URL or matches one of
/// the patterns.
pub open spec fn internal(listed: Seq<Seq<char>>, patterns: Seq<Seq<char>>, url: Seq<char>) -> bool {
    has_listed_prefix(listed, url) || any_matches(patterns, url)
}

/// A page at `url` may show notifications: it starts with a listed URL or
/// matches one of the patterns.
pub open spec fn notification_allowed(
    listed: Seq<Seq<char>>,
    patterns: Seq<Seq<char>>,
    url: Seq<char>,
) -> bool {
    has_listed_prefix(listed, url) || any_matches(patterns, url)
}

/// Whether `url` starts with one of the app's start pages or internal prefixes.
pub fn is_listed_internal_url(policy: &UrlPolicy, url: &str) -> (r: bool)
    ensures
        r == has_listed_prefix(policy.listed(), url@),
{
    let ghost listed = policy.listed();
    let n = policy.app_urls.len();
    let mut i: usize = 0;
    while i < n
        invariant
            n == policy.app_urls.len(),
            listed == policy.listed(),
            i <= n,
            forall|j: int| 0 <= j < i ==> !(#[trigger] listed[j]).is_prefix_of(url@),
        decreases n - i,
    {
        if starts_with(url, policy.app_urls[i].url.as_str()) {
            assert(listed[i as int] == policy.app_urls@[i as int].url@);
            return true;
        }
        assert(listed[i as int] == policy.app_urls@[i as int].url@);
        i = i + 1;
    }
    let m = policy.internal_prefixes.len();
    let mut k: usize = 0;
    while k < m
        invariant
            n == policy.app_urls.len(),
            m == policy.internal_prefixes.len(),
            listed == policy.listed(),
            listed.len() == n + m,
            k <= m,
            forall|j: int| 0 <= j < n + k ==> !(#[trigger] listed[j]).is_prefix_of(url@),
        decreases m - k,
    {
        if starts_with(url, policy.internal_prefixes[k].as_str()) {
            assert(listed[n + k] == policy.internal_prefixes@[k as int]@);
            return true;
        }
        assert(listed[n + k] == policy.internal_prefixes@[k as int]@);
        k = k + 1;
    }
    false
}

/// Whether one of the internal URL patterns matches `url`.
pub fn matches_internal_url_regex(policy: &UrlPolicy, url: &str) -> (r: bool)
    ensures
        r == any_matches(policy.patterns(), url@),
{
    matches_any(&policy.internal_patterns, url)
}

/// Whether `url` opens inside the app rather than in the system browser.
pub fn is_internal_url(policy: &UrlPolicy, url: &str) -> (r: bool)
    ensures
        r == internal(policy.listed(), policy.patterns(), url@),
{
    if is_listed_internal_url(policy, url) {
        return true;
    }
    matches_internal_url_regex(policy, url)
}

/// Whether a page at `url` is granted permission to show notifications.
pub fn allows_notification_permission(policy: &UrlPolicy, url: &str) -> (r: bool)
    ensures
        r == notification_allowed(policy.listed(), policy.patterns(), url@),
{
    is_listed_internal_url(policy, url) || matches_internal_url_regex(policy, url)
}

/// Notification permission is granted exactly to the URLs that open inside
/// the app.
pub proof fn lemma_notification_permission_is_internal(
    listed: Seq<Seq<char>>,
    patterns: Seq<Seq<char>>,
    url: Seq<char>,
)
    ensures
        notification_allowed(listed, patterns, url) == internal(listed, patterns, url),
{
}

// ---------------------------------------------------------------------------
// Origins
// ---------------------------------------------------------------------------

pub open spec fn scheme_sep() -> Seq<char> {
    seq![':', '/', '/']
}

pub open spec fn http_scheme() -> Seq<char> {
    seq!['h', 't', 't', 'p']
}

pub open spec fn https_scheme() -> Seq<char> {
    seq!['h', 't', 't', 'p', 's']
}

/// Characters that end the authority part of a URL.
pub open spec fn is_authority_end(c: char) -> bool {
    c == '/' || c == '?' || c == '#'
}

/// Index of the first authority-ending character at or after `i`, or the length.
pub open spec fn authority_end(s: Seq<char>, i: int) -> int
    decreases s.len() - i,
{
    if i < 0 || i >= s.len() {
        s.len() as int
    } else if is_authority_end(s[i]) {
        i
    } else {
        authority_end(s, i + 1)
    }
}

/// The web origin of an `http` or `https` URL: the scheme in lower case,
/// `://`, the authority as written, and `/`. `None` for other schemes, a
/// missing `://` or an empty authority.
pub open spec fn origin_of(url: Seq<char>) -> Option<Seq<char>> {
    match find_from(url, scheme_sep(), 0) {
        None => None,
        Some(k) => {
            let scheme = url.take(k);
            let rest = url.skip(k + 3);
            let authority = rest.take(authority_end(rest, 0));
            if !(ascii_ci_eq(scheme, http_scheme()) || ascii_ci_eq(scheme, https_scheme()))
                || authority.len() == 0 {
                None
            } else {
                Some(ascii_lower_all(scheme) + scheme_sep() + authority + seq!['/'])
            }
        },
    }
}

/// The web origin of `url`, as the permission store expects it.
pub fn origin_from_url(url: &str) -> (r: Option<String>)
    ensures
        r matches Some(o) ==> origin_of(url@) == Some(o@),
        r is None ==> origin_of(url@) is None,
{
    let v = chars_of(url);
    let sep: Vec<char> = vec![':', '/', '/'];
    assert(sep@ =~= scheme_sep());
    let k = match find_exec(&v, &sep, 0) {
        Some(k) => k,
        None => return None,
    };
    proof {
        lemma_find_from(v@, sep@, 0);
    }
    let scheme = slice_chars(&v, 0, k);
    assert(scheme@ =~= v@.take(k as int));
    let http: Vec<char> = vec!['h', 't', 't', 'p'];
    let https: Vec<char> = vec!['h', 't', 't', 'p', 's'];
    assert(http@ =~= http_scheme());
    assert(https@ =~= https_scheme());
    if !(ascii_ci_eq_exec(&scheme, &http) || ascii_ci_eq_exec(&scheme, &https)) {
        return None;
    }
    let rest = slice_chars(&v, k + 3, v.len());
    let ghost rs = v@.skip(k + 3);
    assert(rest@ =~= rs);
    let mut e: usize = 0;
    while e < rest.len() && !(rest[e] == '/' || rest[e] == '?' || rest[e] == '#')
        invariant
            e <= rest.len(),
            rest@ == rs,
            authority_end(rs, 0) == authority_end(rs, e as int),
        decreases rest.len() - e,
    {
        e = e + 1;
    }
    if e == 0 {
        return None;
    }
    let authority = slice_chars(&rest, 0, e);
    assert(authority@ =~= rs.take(authority_end(rs, 0)));
    let mut out = String::new();
    let mut i: usize = 0;
    while i < scheme.len()
        invariant
            i <= scheme.len(),
            out@ == ascii_lower_all(scheme@).take(i as int),
        decreases scheme.len() - i,
    {
        push_char(&mut out, to_ascii_lower(scheme[i]));
        i = i + 1;
        assert(out@ =~= ascii_lower_all(scheme@).take(i as int));
    }
    assert(ascii_lower_all(scheme@).take(scheme.len() as int) =~= ascii_lower_all(scheme@));
    push_chars(&mut out, &sep);
    push_chars(&mut out, &authority);
    push_char(&mut out, '/');
    Some(out)
}

/// The distinct origins of `urls`, in order of first appearance.
pub open spec fn distinct_origins(urls: Seq<Seq<char>>) -> Seq<Seq<char>>
    decreases urls.len(),
{
    if urls.len() == 0 {
        seq![]
    } else {
        let prev = distinct_origins(urls.drop_last());
        match origin_of(urls.last()) {
            Some(o) => if prev.contains(o) {
                prev
            } else {
                prev.push(o)
            },
            None => prev,
        }
    }
}

fn contains_string(v: &Vec<String>, s: &String) -> (r: bool)
    ensures
        r == string_views(v@).contains(s@),
{
    let ghost vs = string_views(v@);
    let mut i: usize = 0;
    while i < v.len()
        invariant
            i <= v.len(),
            vs == string_views(v@),
            forall|j: int| 0 <= j < i ==> vs[j] != s@,
        decreases v.len() - i,
    {
        if v[i] == *s {
            assert(vs[i as int] == s@);
            return true;
        }
        i = i + 1;
    }
    false
}

/// The listed URLs of `policy`, start pages first.
fn listed_urls(policy: &UrlPolicy) -> (r: Vec<String>)
    ensures
        string_views(r@) == policy.listed(),
{
    let ghost listed = policy.listed();
    let n = policy.app_urls.len();
    let mut out: Vec<String> = Vec::new();
    let mut i: usize = 0;
    while i < n
        invariant
            n == policy.app_urls.len(),
            listed == policy.listed(),
            i <= n,
            out.len() == i,
            forall|j: int| 0 <= j < i ==> (#[trigger] out@[j])@ == listed[j],
        decreases n - i,
    {
        let u = policy.app_urls[i].url.clone();
        assert(listed[i as int] == policy.app_urls@[i as int].url@);
        out.push(u);
        i = i + 1;
    }
    let m = policy.internal_prefixes.len();
    let mut k: usize = 0;
    while k < m
        invariant
            n == policy.app_urls.len(),
            m == policy.internal_prefixes.len(),
            listed == policy.listed(),
            listed.len() == n + m,
            k <= m,
            out.len() == n + k,
            forall|j: int| 0 <= j < n + k ==> (#[trigger] out@[j])@ == listed[j],
        decreases m - k,
    {
        let p = policy.internal_prefixes[k].clone();
        assert(listed[n + k] == policy.internal_prefixes@[k as int]@);
        out.push(p);
        k = k + 1;
    }
    assert(string_views(out@) =~= listed);
    out
}

/// The origins of the start pages and internal prefixes, each once, in order of
/// first appearance; URLs without an `http(s)` origin are skipped.
pub fn listed_notification_origins(policy: &UrlPolicy) -> (r: Vec<String>)
    ensures
        string_views(r@) == distinct_origins(policy.listed()),
{
    let urls = listed_urls(policy);
    let ghost us = string_views(urls@);
    let mut origins: Vec<String> = Vec::new();
    let mut i: usize = 0;
    while i < urls.len()
        invariant
            i <= urls.len(),
            us == string_views(urls@),
            string_views(origins@) == distinct_origins(us.take(i as int)),
        decreases urls.len() - i,
    {
        assert(us.take(i + 1).drop_last() =~= us.take(i as int));
        assert(us.take(i + 1).last() == urls@[i as int]@);
        match origin_from_url(urls[i].as_str()) {
            Some(o) => {
                if !contains_string(&origins, &o) {
                    origins.push(o);
                    assert(string_views(origins@) =~= distinct_origins(
                        us.take(i as int),
                    ).push(o@));
                }
            },
            None => {},
        }
        i = i + 1;
    }
    assert(us.take(urls.len() as int) =~= us);
    origins
}

/// The origin list holds every origin at most once.
pub proof fn lemma_distinct_origins_unique(urls: Seq<Seq<char>>)
    ensures
        distinct_origins(urls).no_duplicates(),
    decreases urls.len(),
{
    if urls.len() > 0 {
        lemma_distinct_origins_unique(urls.drop_last());
        let prev = distinct_origins(urls.drop_last());
        if let Some(o) = origin_of(urls.last()) {
            if !prev.contains(o) {
                let r = prev.push(o);
                assert forall|i: int, j: int| 0 <= i < r.len() && 0 <= j < r.len() && i != j implies r[i]
                    != r[j] by {
                    if i == r.len() - 1 {
                        assert(r[j] == prev[j]);
                    } else if j == r.len() - 1 {
                        assert(r[i] == prev[i]);
                    }
                }
            }
        }
    }
}

/// An origin is in the list exactly when some listed URL has it as its origin.
pub proof fn lemma_distinct_origins_members(urls: Seq<Seq<char>>, o: Seq<char>)
    ensures
        distinct_origins(urls).contains(o) <==> exists|i: int|
            0 <= i < urls.len() && #[trigger] origin_of(urls[i]) == Some(o),
    decreases urls.len(),
{
    if urls.len() > 0 {
        let init = urls.drop_last();
        lemma_distinct_origins_members(init, o);
        let prev = distinct_origins(init);
        let res = distinct_origins(urls);
        // Everything in `prev` stays in `res`, and `res` adds at most the last origin.
        assert(forall|x: Seq<char>| prev.contains(x) ==> res.contains(x)) by {
            assert forall|x: Seq<char>| prev.contains(x) implies res.contains(x) by {
                let k = choose|k: int| 0 <= k < prev.len() && prev[k] == x;
                if let Some(p) = origin_of(urls.last()) {
                    if !prev.contains(p) {
                        assert(res[k] == x);
                    }
                }
            }
        }
        assert(forall|x: Seq<char>|
            res.contains(x) ==> prev.contains(x) || origin_of(urls.last()) == Some(x)) by {
            assert forall|x: Seq<char>| res.contains(x) implies prev.contains(x) || origin_of(
                urls.last(),
            ) == Some(x) by {
                let k = choose|k: int| 0 <= k < res.len() && res[k] == x;
                if let Some(p) = origin_of(urls.last()) {
                    if !prev.contains(p) && k < prev.len() {
                        assert(prev[k] == x);
                    }
                }
            }
        }
        if let Some(p) = origin_of(urls.last()) {
            if !prev.contains(p) {
                assert(res[prev.len() as int] == p);
            }
            assert(res.contains(p));
        }
        assert(origin_of(urls[urls.len() - 1]) == origin_of(urls.last()));
        if exists|i: int| 0 <= i < urls.len() && #[trigger] origin_of(urls[i]) == Some(o) {
            let i = choose|i: int| 0 <= i < urls.len() && #[trigger] origin_of(urls[i]) == Some(o);
            if i < urls.len() - 1 {
                assert(origin_of(init[i]) == Some(o));
            }
        }
        if res.contains(o) {
            if prev.contains(o) {
                let i = choose|i: int| 0 <= i < init.len() && #[trigger] origin_of(init[i]) == Some(o);
                assert(origin_of(urls[i]) == Some(o));
            }
        }
    }
}

// ---------------------------------------------------------------------------
// Start pages and `mailto:` links
// ---------------------------------------------------------------------------

/// The characters of an optional string slice.
pub open spec fn opt_view(o: Option<&str>) -> Option<Seq<char>> {
    match o {
        Some(s) => Some(s@),
        None => None,
    }
}

/// The page opened when no configured start page applies.
pub const FALLBACK_APP_URL: &'static str = "https://example.com/";

/// The first start page, or the fallback page when there is none.
pub open spec fn default_app_url(targets: Seq<Seq<char>>) -> Seq<char> {
    if targets.len() > 0 {
        targets[0]
    } else {
        FALLBACK_APP_URL@
    }
}

/// Index of the first name at or after `i` equal to `sel`.
pub open spec fn first_named(names: Seq<Seq<char>>, sel: Seq<char>, i: int) -> Option<int>
    decreases names.len() - i,
{
    if i < 0 || i >= names.len() {
        None
    } else if names[i] == sel {
        Some(i)
    } else {
        first_named(names, sel, i + 1)
    }
}

/// The start page selected by `sel`: the URL of the first start page with that
/// name, otherwise the default.
pub open spec fn app_url_for(
    names: Seq<Seq<char>>,
    targets: Seq<Seq<char>>,
    sel: Option<Seq<char>>,
) -> Seq<char> {
    match sel {
        None => default_app_url(targets),
        Some(s) => match first_named(names, s, 0) {
            Some(i) => targets[i],
            None => default_app_url(targets),
        },
    }
}

/// The URL of the start page named by `selection`, or of the default page.
pub fn app_url_for_selection(policy: &UrlPolicy, selection: Option<&str>) -> (r: String)
    ensures
        r@ == app_url_for(policy.app_names(), policy.app_targets(), opt_view(selection)),
{
    let ghost names = policy.app_names();
    let ghost targets = policy.app_targets();
    let default_url = if policy.app_urls.len() > 0 {
        policy.app_urls[0].url.clone()
    } else {
        string_of(FALLBACK_APP_URL)
    };
    assert(default_url@ == default_app_url(targets));
    let sel = match selection {
        Some(sel) => sel,
        None => return default_url,
    };
    let mut i: usize = 0;
    while i < policy.app_urls.len()
        invariant
            i <= policy.app_urls.len(),
            names == policy.app_names(),
            targets == policy.app_targets(),
            first_named(names, sel@, 0) == first_named(names, sel@, i as int),
            opt_view(selection) == Some(sel@),
            default_url@ == default_app_url(targets),
        decreases policy.app_urls.len() - i,
    {
        assert(names[i as int] == policy.app_urls@[i as int].name@);
        if str_eq(policy.app_urls[i].name.as_str(), sel) {
            let u = policy.app_urls[i].url.clone();
            assert(u@ == targets[i as int]);
            assert(names.len() == policy.app_urls@.len());
            assert(names[i as int] == sel@);
            assert(first_named(names, sel@, i as int) == Some(i as int));

            return u;
        }
        assert(names.len() == policy.app_urls@.len());
        i = i + 1;
    }
    default_url
}

pub open spec fn mailto_scheme() -> Seq<char> {
    seq!['m', 'a', 'i', 'l', 't', 'o', ':']
}

pub open spec fn braces() -> Seq<char> {
    seq!['{', '}']
}

pub open spec fn percent_s() -> Seq<char> {
    seq!['%', 's']
}

/// The template with the encoded address put in: every `{}` is replaced; if
/// there is none, every `%s`; if there is neither, the address is appended.
pub open spec fn fill_template(template: Seq<char>, encoded: Seq<char>) -> Seq<char> {
    if contains_seq(template, braces()) {
        replace_all(template, braces(), encoded)
    } else if contains_seq(template, percent_s()) {
        replace_all(template, percent_s(), encoded)
    } else {
        template + encoded
    }
}

/// Where a `mailto:` link goes: `None` unless, with surrounding whitespace
/// removed, it starts with `mailto:` in any ASCII case; otherwise the whole
/// trimmed link, percent-encoded, put into the template.
pub open spec fn mailto_target(template: Seq<char>, link: Seq<char>) -> Option<Seq<char>> {
    let t = trim(link);
    if t.len() < 7 || !ascii_ci_eq(t.take(7), mailto_scheme()) {
        None
    } else {
        Some(fill_template(template, pct_encode(encode_utf8(t), false)))
    }
}

fn contains_exec(hay: &Vec<char>, pat: &Vec<char>) -> (r: bool)
    ensures
        r == contains_seq(hay@, pat@),
{
    proof {
        lemma_find_from(hay@, pat@, 0);
    }
    match find_exec(hay, pat, 0) {
        Some(_) => true,
        None => false,
    }
}

/// The web-mail URL for a `mailto:` link, built from `template`.
pub fn mailto_url(template: &str, mailto: &str) -> (r: Option<String>)
    ensures
        r matches Some(u) ==> mailto_target(template@, mailto@) == Some(u@),
        r is None ==> mailto_target(template@, mailto@) is None,
{
    let raw = chars_of(mailto);
    let t = trim_exec(&raw);
    if t.len() < 7 {
        return None;
    }
    let head = slice_chars(&t, 0, 7);
    let scheme: Vec<char> = vec!['m', 'a', 'i', 'l', 't', 'o', ':'];
    assert(scheme@ =~= mailto_scheme());
    assert(head@ =~= t@.take(7));
    if !ascii_ci_eq_exec(&head, &scheme) {
        return None;
    }
    let trimmed = string_from_chars(&t);
    let encoded = percent_encode(trimmed.as_str());
    let tv = chars_of(template);
    let b: Vec<char> = vec!['{', '}'];
    let p: Vec<char> = vec!['%', 's'];
    assert(b@ =~= braces());
    assert(p@ =~= percent_s());
    let filled = if contains_exec(&tv, &b) {
        replace_all_exec(&tv, &b, encoded.as_str())
    } else if contains_exec(&tv, &p) {
        replace_all_exec(&tv, &p, encoded.as_str())
    } else {
        let mut s = string_of(template);
        push_str(&mut s, encoded.as_str());
        s
    };
    Some(filled)
}

/// The page a window opens for a start-up argument.
pub open spec fn start_url_for(
    names: Seq<Seq<char>>,
    targets: Seq<Seq<char>>,
    template: Seq<char>,
    arg: Option<Seq<char>>,
) -> Seq<char> {
    match arg {
        Some(a) => match mailto_target(template, a) {
            Some(u) => u,
            None => app_url_for(names, targets, Some(a)),
        },
        None => app_url_for(names, targets, None),
    }
}

/// The page to open for a start-up argument: a `mailto:` link goes to the
/// web-mail template, anything else selects a start page by name.
pub fn start_url_from_arg(policy: &UrlPolicy, mailto_template: &str, arg: Option<&str>) -> (r:
    String)
    ensures
        r@ == start_url_for(
            policy.app_names(),
            policy.app_targets(),
            mailto_template@,
            opt_view(arg),
        ),
{
    match arg {
        Some(a) => match mailto_url(mailto_template, a) {
            Some(u) => u,
            None => app_url_for_selection(policy, Some(a)),
        },
        None => app_url_for_selection(policy, None),
    }
}

// ---------------------------------------------------------------------------
// The origin of an origin
// ---------------------------------------------------------------------------

proof fn lemma_authority_end(s: Seq<char>, i: int)
    requires
        0 <= i <= s.len(),
    ensures
        i <= authority_end(s, i) <= s.len(),
        forall|j: int| i <= j < authority_end(s, i) ==> !is_authority_end(#[trigger] s[j]),
        authority_end(s, i) < s.len() ==> is_authority_end(s[authority_end(s, i)]),
    decreases s.len() - i,
{
    if i < s.len() && !is_authority_end(s[i]) {
        lemma_authority_end(s, i + 1);
    }
}

proof fn lemma_authority_end_at(s: Seq<char>, i: int, e: int)
    requires
        0 <= i <= e < s.len(),
        forall|j: int| i <= j < e ==> !is_authority_end(#[trigger] s[j]),
        is_authority_end(s[e]),
    ensures
        authority_end(s, i) == e,
    decreases e - i,
{
    if i < e {
        lemma_authority_end_at(s, i + 1, e);
    }
}

proof fn lemma_find_from_at(s: Seq<char>, pat: Seq<char>, i: int, k: int)
    requires
        0 <= i <= k,
        occurs_at(s, pat, k),
        forall|j: int| i <= j < k ==> !occurs_at(s, pat, j),
    ensures
        find_from(s, pat, i) == Some(k),
    decreases k - i,
{
    if i < k {
        assert(!occurs_at(s, pat, i));
        lemma_find_from_at(s, pat, i + 1, k);
    }
}

proof fn lemma_lower_scheme(scheme: Seq<char>, word: Seq<char>)
    requires
        ascii_ci_eq(scheme, word),
        word == http_scheme() || word == https_scheme(),
    ensures
        ascii_lower_all(scheme) == word,
{
    assert forall|j: int| 0 <= j < scheme.len() implies ascii_lower_all(scheme)[j] == word[j] by {
        assert(ascii_lower(scheme[j]) == ascii_lower(word[j]));
    }
    assert(ascii_lower_all(scheme) =~= word);
}

/// An origin is its own origin: normalising twice changes nothing.
pub proof fn lemma_origin_idempotent(url: Seq<char>)
    requires
        origin_of(url) is Some,
    ensures
        origin_of(origin_of(url)->0) == origin_of(url),
{
    lemma_find_from(url, scheme_sep(), 0);
    let k = find_from(url, scheme_sep(), 0)->0;
    let scheme = url.take(k);
    let rest = url.skip(k + 3);
    lemma_authority_end(rest, 0);
    let authority = rest.take(authority_end(rest, 0));
    let word = if ascii_ci_eq(scheme, http_scheme()) {
        http_scheme()
    } else {
        https_scheme()
    };
    lemma_lower_scheme(scheme, word);
    let o = word + scheme_sep() + authority + seq!['/'];
    assert(origin_of(url) == Some(o));
    let n = word.len() as int;
    // The first `://` in `o` follows the scheme.
    assert(o.subrange(n, n + 3) =~= scheme_sep());
    assert forall|j: int| 0 <= j < n implies !occurs_at(o, scheme_sep(), j) by {
        assert(o[j] == word[j]);
        if occurs_at(o, scheme_sep(), j) {
            assert(o.subrange(j, j + 3)[0] == o[j]);
        }
    }
    lemma_find_from_at(o, scheme_sep(), 0, n);
    assert(o.take(n) =~= word);
    let rest2 = o.skip(n + 3);
    assert(rest2 =~= authority + seq!['/']);
    assert forall|j: int| 0 <= j < authority.len() implies !is_authority_end(#[trigger] rest2[j]) by {
        assert(rest2[j] == authority[j]);
        assert(authority[j] == rest[j]);
    }
    lemma_authority_end_at(rest2, 0, authority.len() as int);
    assert(rest2.take(authority.len() as int) =~= authority);
    assert(ascii_ci_eq(word, word));
    lemma_lower_scheme(word, word);
}

// ---------------------------------------------------------------------------
// Laws on the configured lists
// ---------------------------------------------------------------------------

/// A URL starts with a listed URL exactly when it starts with one of the start
/// pages or with one of the internal prefixes: every configured entry counts,
/// and nothing else does.
pub proof fn lemma_listed_prefix_iff(policy: &UrlPolicy, url: Seq<char>)
    ensures
        has_listed_prefix(policy.listed(), url) <==> (exists|i: int|
            0 <= i < policy.app_urls@.len() && (#[trigger] policy.app_urls@[i]).url@.is_prefix_of(
                url,
            )) || (exists|k: int|
            0 <= k < policy.internal_prefixes@.len() && (
            #[trigger] policy.internal_prefixes@[k])@.is_prefix_of(url)),
{
    let n = policy.app_urls@.len() as int;
    let listed = policy.listed();
    assert(listed.len() == n + policy.internal_prefixes@.len());
    if has_listed_prefix(listed, url) {
        let j = choose|j: int| 0 <= j < listed.len() && #[trigger] listed[j].is_prefix_of(url);
        if j < n {
            assert(listed[j] == policy.app_urls@[j].url@);
        } else {
            assert(listed[j] == policy.internal_prefixes@[j - n]@);
        }
    }
    if exists|i: int|
        0 <= i < policy.app_urls@.len() && (#[trigger] policy.app_urls@[i]).url@.is_prefix_of(url) {
        let i = choose|i: int|
            0 <= i < policy.app_urls@.len() && (#[trigger] policy.app_urls@[i]).url@.is_prefix_of(
                url,
            );
        assert(listed[i] == policy.app_urls@[i].url@);
    }
    if exists|k: int|
        0 <= k < policy.internal_prefixes@.len() && (
        #[trigger] policy.internal_prefixes@[k])@.is_prefix_of(url) {
        let k = choose|k: int|
            0 <= k < policy.internal_prefixes@.len() && (
            #[trigger] policy.internal_prefixes@[k])@.is_prefix_of(url);
        assert(listed[n + k] == policy.internal_prefixes@[k]@);
    }
}

/// Every internal prefix makes the URLs it begins internal: they load inside
/// the app and may show notifications.
pub proof fn lemma_internal_prefix_is_internal(policy: &UrlPolicy, url: Seq<char>, k: int)
    requires
        0 <= k < policy.internal_prefixes@.len(),
        policy.internal_prefixes@[k]@.is_prefix_of(url),
    ensures
        internal(policy.listed(), policy.patterns(), url),
        notification_allowed(policy.listed(), policy.patterns(), url),
{
    lemma_listed_prefix_iff(policy, url);
}

/// Every start page makes the URLs it begins internal.
pub proof fn lemma_app_url_is_internal(policy: &UrlPolicy, url: Seq<char>, i: int)
    requires
        0 <= i < policy.app_urls@.len(),
        policy.app_urls@[i].url@.is_prefix_of(url),
    ensures
        internal(policy.listed(), policy.patterns(), url),
        notification_allowed(policy.listed(), policy.patterns(), url),
{
    lemma_listed_prefix_iff(policy, url);
}

proof fn lemma_first_named_found(names: Seq<Seq<char>>, sel: Seq<char>, from: int, i: int)
    requires
        0 <= from <= i < names.len(),
        names[i] == sel,
        forall|j: int| from <= j < i ==> names[j] != sel,
    ensures
        first_named(names, sel, from) == Some(i),
    decreases i - from,
{
    if from < i {
        lemma_first_named_found(names, sel, from + 1, i);
    }
}

proof fn lemma_first_named_absent(names: Seq<Seq<char>>, sel: Seq<char>, from: int)
    requires
        0 <= from,
        forall|j: int| from <= j < names.len() ==> names[j] != sel,
    ensures
        first_named(names, sel, from) is None,
    decreases names.len() - from,
{
    if from < names.len() {
        lemma_first_named_absent(names, sel, from + 1);
    }
}

/// Selecting a start page by its name opens that page; when several pages
/// share a name, the first of them.
pub proof fn lemma_select_by_name(policy: &UrlPolicy, i: int)
    requires
        0 <= i < policy.app_urls@.len(),
        forall|j: int| 0 <= j < i ==> policy.app_urls@[j].name@ != policy.app_urls@[i].name@,
    ensures
        app_url_for(policy.app_names(), policy.app_targets(), Some(policy.app_urls@[i].name@))
            == policy.app_urls@[i].url@,
{
    let names = policy.app_names();
    let sel = policy.app_urls@[i].name@;
    assert forall|j: int| 0 <= j < i implies names[j] != sel by {
        assert(names[j] == policy.app_urls@[j].name@);
    }
    lemma_first_named_found(names, sel, 0, i);
}

/// A selection that names no start page, or no selection, opens the first
/// start page, or the fallback page when there is none.
pub proof fn lemma_select_default(policy: &UrlPolicy, sel: Option<Seq<char>>)
    requires
        sel matches Some(s) ==> forall|j: int|
            0 <= j < policy.app_urls@.len() ==> (#[trigger] policy.app_urls@[j]).name@ != s,
    ensures
        app_url_for(policy.app_names(), policy.app_targets(), sel) == if policy.app_urls@.len()
            > 0 {
            policy.app_urls@[0].url@
        } else {
            FALLBACK_APP_URL@
        },
{
    if let Some(s) = sel {
        let names = policy.app_names();
        assert forall|j: int| 0 <= j < names.len() implies names[j] != s by {
            assert(names[j] == policy.app_urls@[j].name@);
        }
        lemma_first_named_absent(names, s, 0);
    }
}

/// A start-up argument that is no `mailto:` link and names a start page opens
/// that page.
pub proof fn lemma_start_url_by_name(policy: &UrlPolicy, template: Seq<char>, i: int)
    requires
        0 <= i < policy.app_urls@.len(),
        forall|j: int| 0 <= j < i ==> policy.app_urls@[j].name@ != policy.app_urls@[i].name@,
        mailto_target(template, policy.app_urls@[i].name@) is None,
    ensures
        start_url_for(
            policy.app_names(),
            policy.app_targets(),
            template,
            Some(policy.app_urls@[i].name@),
        ) == policy.app_urls@[i].url@,
{
    lemma_select_by_name(policy, i);
}

} // verus!
