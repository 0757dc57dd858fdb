//! Importing a browser session: which cookies may be carried over to a
//! target site, and the User-Agent that goes with the browser they came from.
use vstd::prelude::*;
use crate::text::{
    find, find_chars, lemma_find_bounds, str_eq,
    all_ascii_digits, all_digits, before_char, before_char_exec, is_ascii_digit, trim, trim_chars,
    chars_of, contains_char, ends_with, ends_with_chars, eq_chars, lower_chars, lower_seq, opt_chars, push_all, slice_chars,
    string_from_chars,
};
use crate::urls::{result_view, opt_view, parsed_url_host, parsed_url_scheme, url_host, url_scheme};

verus! {

/// A browser whose cookies can be imported.
#[derive(Clone, Copy, Debug, PartialEq, Eq, Structural)]
pub enum Browser {
    Safari,
    Chrome,
}

/// The operating system a User-Agent claims to run on.
#[derive(Clone, Copy, Debug, PartialEq, Eq, Structural)]
pub enum Platform {
    MacOs,
    Windows,
    Other,
}

/// What an import hands to the engine: the User-Agent to present, the cookies
/// as `Set-Cookie` lines scoped to the target, and warnings for the user.
pub struct BrowserImport {
    pub user_agent: String,
    pub cookies: Vec<String>,
    pub warnings: Vec<String>,
}

/// A cookie as a browser's store holds it.
pub struct BrowserCookie {
    pub name: String,
    pub value: String,
    pub domain: Option<String>,
    pub path: Option<String>,
    pub secure: Option<bool>,
    pub http_only: Option<bool>,
}

/// The view of a `BrowserCookie`.
pub struct CookieModel {
    pub name: Seq<char>,
    pub value: Seq<char>,
    pub domain: Option<Seq<char>>,
    pub path: Option<Seq<char>>,
    pub secure: Option<bool>,
    pub http_only: Option<bool>,
}

impl View for BrowserCookie {
    type V = CookieModel;

    open spec fn view(&self) -> CookieModel {
        CookieModel {
            name: self.name@,
            value: self.value@,
            domain: opt_view(self.domain),
            path: opt_view(self.path),
            secure: self.secure,
            http_only: self.http_only,
        }
    }
}

// A character outside ASCII is encoded in UTF-8 as bytes of 0x80 and above,
// and every byte test below refuses those: testing characters is testing bytes.
/// A `token` character of RFC 6265: visible ASCII other than separators.
pub open spec fn is_cookie_name_char(c: char) -> bool {
    let u = c as u32;
    &&& 0x20 < u && u < 0x7f
    &&& c != '(' && c != ')' && c != '<' && c != '>' && c != '@' && c != ','
    &&& c != ';' && c != ':' && c != '\\' && c != '"' && c != '/' && c != '['
    &&& c != ']' && c != '?' && c != '=' && c != '{' && c != '}'
}

/// A cookie name: one or more `token` characters.
pub open spec fn is_valid_cookie_name(s: Seq<char>) -> bool {
    s.len() > 0 && forall|i: int| 0 <= i < s.len() ==> is_cookie_name_char(#[trigger] s[i])
}

/// A `cookie-octet` of RFC 6265.
pub open spec fn is_cookie_value_char(c: char) -> bool {
    let u = c as u32;
    ||| u == 0x21
    ||| 0x23 <= u && u <= 0x2b
    ||| 0x2d <= u && u <= 0x3a
    ||| 0x3c <= u && u <= 0x5b
    ||| 0x5d <= u && u <= 0x7e
}

/// A cookie value: `cookie-octet` characters only (no quotes).
pub open spec fn is_valid_cookie_value(s: Seq<char>) -> bool {
    forall|i: int| 0 <= i < s.len() ==> is_cookie_value_char(#[trigger] s[i])
}

/// An ASCII letter or digit, `.` or `-`.
pub open spec fn is_domain_char(c: char) -> bool {
    ||| '0' <= c <= '9'
    ||| 'a' <= c <= 'z'
    ||| 'A' <= c <= 'Z'
    ||| c == '.'
    ||| c == '-'
}

/// A domain that a cookie may name: dot-separated non-empty labels of ASCII
/// letters, digits and hyphens.
pub open spec fn is_valid_cookie_domain(d: Seq<char>) -> bool {
    &&& d.len() > 0
    &&& d[0] != '.'
    &&& d.last() != '.'
    &&& !(exists|i: int| 0 <= i < d.len() - 1 && #[trigger] d[i] == '.' && d[i + 1] == '.')
    &&& forall|i: int| 0 <= i < d.len() ==> is_domain_char(#[trigger] d[i])
}

/// `s` without its leading dots.
pub open spec fn strip_leading_dots(s: Seq<char>) -> Seq<char>
    decreases s.len(),
{
    if s.len() > 0 && s[0] == '.' {
        strip_leading_dots(s.drop_first())
    } else {
        s
    }
}

/// The domain a cookie names, without leading dots and lowercased; `None`
/// when it names none or only dots.
pub open spec fn cookie_domain(c: CookieModel) -> Option<Seq<char>> {
    match c.domain {
        Some(d) => {
            let x = lower_seq(strip_leading_dots(d));
            if x.len() > 0 {
                Some(x)
            } else {
                None
            }
        },
        None => None,
    }
}

/// How a cookie's domain relates to the target host: `Some(None)` keeps the
/// cookie host-only, `Some(Some(d))` keeps it for the parent domain `d`, and
/// `None` refuses the cookie.
pub open spec fn domain_attribute(domain: Option<Seq<char>>, host: Seq<char>) -> Option<
    Option<Seq<char>>,
> {
    match domain {
        None => Some(None),
        Some(d) => if d == host {
            Some(None)
        } else if is_valid_cookie_domain(d) && ends_with(host, seq!['.'] + d) {
            Some(Some(d))
        } else {
            None
        },
    }
}

/// The cookie's path when it is absolute and holds no `;`, CR or LF; `/`
/// otherwise.
pub open spec fn cookie_path(p: Option<Seq<char>>) -> Seq<char> {
    let p = match p {
        Some(p) => p,
        None => "/"@,
    };
    if p.len() > 0 && p[0] == '/' && !p.contains(';') && !p.contains('\r') && !p.contains('\n') {
        p
    } else {
        "/"@
    }
}

/// The `Set-Cookie` line for a cookie kept with parent domain `parent`.
pub open spec fn cookie_line(c: CookieModel, parent: Option<Seq<char>>) -> Seq<char> {
    c.name + "="@ + c.value + (match parent {
        Some(d) => "; Domain="@ + d,
        None => Seq::<char>::empty(),
    }) + "; Path="@ + cookie_path(c.path) + (if c.secure == Some(true) {
        "; Secure"@
    } else {
        Seq::<char>::empty()
    }) + (if c.http_only == Some(true) {
        "; HttpOnly"@
    } else {
        Seq::<char>::empty()
    })
}

/// The `Set-Cookie` line that carries cookie `c` to a target whose host is
/// `host`, or `None` when the cookie is refused.
pub open spec fn scoped_cookie_line(c: CookieModel, host: Option<Seq<char>>) -> Option<Seq<char>> {
    if !is_valid_cookie_name(c.name) || !is_valid_cookie_value(c.value) {
        None
    } else {
        match host {
            None => None,
            Some(h) => match domain_attribute(cookie_domain(c), lower_seq(h)) {
                None => None,
                Some(parent) => Some(cookie_line(c, parent)),
            },
        }
    }
}

/// Whether `name` is a valid cookie name.
pub fn valid_cookie_name(name: &str) -> (b: bool)
    ensures
        b == is_valid_cookie_name(name@),
{
    let v = chars_of(name);
    if v.len() == 0 {
        return false;
    }
    let mut i: usize = 0;
    while i < v.len()
        invariant
            v@ == name@,
            i <= v@.len(),
            forall|k: int| 0 <= k < i ==> is_cookie_name_char(#[trigger] v@[k]),
        decreases v@.len() - i,
    {
        let c = v[i];
        let u = c as u32;
        if !(0x20 < u && u < 0x7f) || c == '(' || c == ')' || c == '<' || c == '>' || c == '@'
            || c == ',' || c == ';' || c == ':' || c == '\\' || c == '"' || c == '/' || c == '['
            || c == ']' || c == '?' || c == '=' || c == '{' || c == '}' {
            assert(!is_cookie_name_char(v@[i as int]));
            return false;
        }
        i += 1;
    }
    true
}

/// Whether `value` is a valid cookie value.
pub fn valid_cookie_value(value: &str) -> (b: bool)
    ensures
        b == is_valid_cookie_value(value@),
{
    let v = chars_of(value);
    let mut i: usize = 0;
    while i < v.len()
        invariant
            v@ == value@,
            i <= v@.len(),
            forall|k: int| 0 <= k < i ==> is_cookie_value_char(#[trigger] v@[k]),
        decreases v@.len() - i,
    {
        let u = v[i] as u32;
        if !(u == 0x21 || (0x23 <= u && u <= 0x2b) || (0x2d <= u && u <= 0x3a) || (0x3c <= u && u
            <= 0x5b) || (0x5d <= u && u <= 0x7e)) {
            assert(!is_cookie_value_char(v@[i as int]));
            return false;
        }
        i += 1;
    }
    true
}

fn valid_domain_chars(d: &[char]) -> (b: bool)
    ensures
        b == is_valid_cookie_domain(d@),
{
    let n = d.len();
    if n == 0 || d[0] == '.' || d[n - 1] == '.' {
        return false;
    }
    let mut i: usize = 0;
    while i < n
        invariant
            n == d@.len(),
            n > 0,
            i <= n,
            forall|k: int| 0 <= k < i ==> is_domain_char(#[trigger] d@[k]),
            forall|k: int| 0 <= k < i && k < n - 1 ==> !(#[trigger] d@[k] == '.' && d@[k + 1]
                == '.'),
        decreases n - i,
    {
        let c = d[i];
        if !(('0' <= c && c <= '9') || ('a' <= c && c <= 'z') || ('A' <= c && c <= 'Z') || c
            == '.' || c == '-') {
            assert(!is_domain_char(d@[i as int]));
            return false;
        }
        if i + 1 < n && c == '.' && d[i + 1] == '.' {
            assert(d@[i as int] == '.' && d@[i + 1] == '.');
            return false;
        }
        i += 1;
    }
    true
}

/// Whether `domain` is a domain a cookie may name.
pub fn valid_cookie_domain(domain: &str) -> (b: bool)
    ensures
        b == is_valid_cookie_domain(domain@),
{
    let v = chars_of(domain);
    valid_domain_chars(v.as_slice())
}

proof fn lemma_strip_dots_skip(s: Seq<char>, i: int)
    requires
        0 <= i <= s.len(),
        forall|k: int| 0 <= k < i ==> #[trigger] s[k] == '.',
    ensures
        strip_leading_dots(s) == strip_leading_dots(s.subrange(i, s.len() as int)),
    decreases i,
{
    if i > 0 {
        assert(s.drop_first() =~= s.subrange(1, s.len() as int));
        lemma_strip_dots_skip(s.drop_first(), i - 1);
        assert(s.drop_first().subrange(i - 1, s.drop_first().len() as int) =~= s.subrange(
            i,
            s.len() as int,
        ));
    } else {
        assert(s.subrange(0, s.len() as int) =~= s);
    }
}

fn strip_leading_dots_exec(s: &[char]) -> (r: Vec<char>)
    ensures
        r@ == strip_leading_dots(s@),
{
    let mut i: usize = 0;
    while i < s.len() && s[i] == '.'
        invariant
            i <= s@.len(),
            forall|k: int| 0 <= k < i ==> #[trigger] s@[k] == '.',
        decreases s@.len() - i,
    {
        i += 1;
    }
    proof {
        lemma_strip_dots_skip(s@, i as int);
        let t = s@.subrange(i as int, s@.len() as int);
        if t.len() > 0 {
            assert(t[0] == s@[i as int]);
        }
    }
    slice_chars(s, i, s.len())
}

fn cookie_path_exec(p: &Option<String>) -> (r: String)
    ensures
        r@ == cookie_path(opt_view(*p)),
{
    let candidate: &str = match p {
        Some(s) => s.as_str(),
        None => "/",
    };
    let v = chars_of(candidate);
    if v.len() > 0 && v[0] == '/' && !contains_char(v.as_slice(), ';') && !contains_char(
        v.as_slice(),
        '\r',
    ) && !contains_char(v.as_slice(), '\n') {
        String::from_str(candidate)
    } else {
        String::from_str("/")
    }
}

/// The `Set-Cookie` line that carries `cookie` to `target` (a URL), or `None`
/// when the cookie's name or value is malformed, the target has no host, or
/// the cookie belongs to a domain that is neither the host nor a parent of it.
pub fn scoped_cookie(cookie: &BrowserCookie, target: &str) -> (r: Option<String>)
    ensures
        opt_view(r) == scoped_cookie_line(cookie@, parsed_url_host(target@)),
{
    if !valid_cookie_name(cookie.name.as_str()) || !valid_cookie_value(cookie.value.as_str()) {
        return None;
    }
    let host_raw = match url_host(target) {
        Some(h) => h,
        None => return None,
    };
    let hc = chars_of(host_raw.as_str());
    let host = lower_chars(hc.as_slice());
    let domain: Option<Vec<char>> = match &cookie.domain {
        Some(d) => {
            let dc = chars_of(d.as_str());
            let stripped = strip_leading_dots_exec(dc.as_slice());
            let x = lower_chars(stripped.as_slice());
            if x.len() > 0 {
                Some(x)
            } else {
                None
            }
        },
        None => None,
    };
    proof {
        assert(opt_chars(domain) == cookie_domain(cookie@));
    }
    let parent: Option<Vec<char>> = match domain {
        None => None,
        Some(d) => {
            if eq_chars(d.as_slice(), host.as_slice()) {
                None
            } else {
                let mut dotted: Vec<char> = Vec::new();
                dotted.push('.');
                push_all(&mut dotted, d.as_slice());
                assert(dotted@ =~= seq!['.'] + d@);
                if valid_domain_chars(d.as_slice()) && ends_with_chars(
                    host.as_slice(),
                    dotted.as_slice(),
                ) {
                    Some(d)
                } else {
                    return None;
                }
            }
        },
    };
    proof {
        let pv = opt_chars(parent);
        assert(domain_attribute(cookie_domain(cookie@), lower_seq(host_raw@)) == Some(pv));
    }
    let mut line = cookie.name.clone();
    line.append("=");
    line.append(cookie.value.as_str());
    match &parent {
        Some(d) => {
            line.append("; Domain=");
            let ds = string_from_chars(d.as_slice());
            line.append(ds.as_str());
        },
        None => {},
    }
    line.append("; Path=");
    let path = cookie_path_exec(&cookie.path);
    line.append(path.as_str());
    if cookie.secure == Some(true) {
        line.append("; Secure");
    }
    if cookie.http_only == Some(true) {
        line.append("; HttpOnly");
    }
    proof {
        let pv = opt_chars(parent);
        assert(line@ =~= cookie_line(cookie@, pv));
    }
    Some(line)
}

} // verus!

verus! {

/// The operating-system token of a User-Agent claiming `platform`.
pub open spec fn platform_token(platform: Platform) -> Seq<char> {
    match platform {
        Platform::MacOs => "Macintosh; Intel Mac OS X 10_15_7"@,
        Platform::Windows => "Windows NT 10.0; Win64; x64"@,
        Platform::Other => "X11; Linux x86_64"@,
    }
}

/// The operating-system token of a User-Agent claiming `platform`.
pub fn platform_user_agent_token(platform: Platform) -> (t: &'static str)
    ensures
        t@ == platform_token(platform),
{
    match platform {
        Platform::MacOs => "Macintosh; Intel Mac OS X 10_15_7",
        Platform::Windows => "Windows NT 10.0; Win64; x64",
        Platform::Other => "X11; Linux x86_64",
    }
}

/// The major version of a Chrome version string: what precedes its first dot.
pub open spec fn chrome_major(version: Seq<char>) -> Seq<char> {
    before_char(trim(version), '.')
}

/// The User-Agent of Chrome `version` on `platform`: the major version only,
/// with the rest zeroed as Chrome itself reports it; `None` when the major
/// version is not a run of ASCII digits.
pub open spec fn chrome_user_agent_of(version: Seq<char>, platform: Platform) -> Option<Seq<char>> {
    let major = chrome_major(version);
    if major.len() == 0 || !all_ascii_digits(major) {
        None
    } else {
        Some(
            "Mozilla/5.0 ("@ + platform_token(platform)
                + ") AppleWebKit/537.36 (KHTML, like Gecko) Chrome/"@ + major
                + ".0.0.0 Safari/537.36"@,
        )
    }
}

/// An ASCII digit or `.`.
pub open spec fn is_version_char(c: char) -> bool {
    is_ascii_digit(c) || c == '.'
}

/// The User-Agent of Safari `version` on `platform`; `None` when the trimmed
/// version is empty or holds anything but ASCII digits and dots.
pub open spec fn safari_user_agent_of(version: Seq<char>, platform: Platform) -> Option<Seq<char>> {
    let v = trim(version);
    if v.len() == 0 || !(forall|i: int| 0 <= i < v.len() ==> is_version_char(#[trigger] v[i])) {
        None
    } else {
        Some(
            "Mozilla/5.0 ("@ + platform_token(platform)
                + ") AppleWebKit/605.1.15 (KHTML, like Gecko) Version/"@ + v
                + " Safari/605.1.15"@,
        )
    }
}

/// The User-Agent that Chrome `version` presents on `platform`.
pub fn chrome_user_agent(version: &str, platform: Platform) -> (r: Option<String>)
    ensures
        opt_view(r) == chrome_user_agent_of(version@, platform),
{
    let v = chars_of(version);
    let t = trim_chars(v.as_slice());
    let major = before_char_exec(t.as_slice(), '.');
    if major.len() == 0 || !all_digits(major.as_slice()) {
        return None;
    }
    let mut ua = String::from_str("Mozilla/5.0 (");
    ua.append(platform_user_agent_token(platform));
    ua.append(") AppleWebKit/537.36 (KHTML, like Gecko) Chrome/");
    let m = string_from_chars(major.as_slice());
    ua.append(m.as_str());
    ua.append(".0.0.0 Safari/537.36");
    Some(ua)
}

/// The User-Agent that Safari `version` presents on `platform`.
pub fn safari_user_agent(version: &str, platform: Platform) -> (r: Option<String>)
    ensures
        opt_view(r) == safari_user_agent_of(version@, platform),
{
    let v = chars_of(version);
    let t = trim_chars(v.as_slice());
    if t.len() == 0 {
        return None;
    }
    let mut i: usize = 0;
    while i < t.len()
        invariant
            i <= t@.len(),
            t@ == trim(version@),
            forall|k: int| 0 <= k < i ==> is_version_char(#[trigger] t@[k]),
        decreases t@.len() - i,
    {
        if !(('0' <= t[i] && t[i] <= '9') || t[i] == '.') {
            assert(!is_version_char(t@[i as int]));
            assert(!(forall|k: int| 0 <= k < t@.len() ==> is_version_char(#[trigger] t@[k])));
            return None;
        }
        i += 1;
    }
    let mut ua = String::from_str("Mozilla/5.0 (");
    ua.append(platform_user_agent_token(platform));
    ua.append(") AppleWebKit/605.1.15 (KHTML, like Gecko) Version/");
    let vs = string_from_chars(t.as_slice());
    ua.append(vs.as_str());
    ua.append(" Safari/605.1.15");
    Some(ua)
}

/// The User-Agent of `browser` at the installed `version` (`None` when it
/// could not be read), or the error reported when none can be made.
pub open spec fn browser_user_agent_of(
    browser: Browser,
    version: Option<Seq<char>>,
    platform: Platform,
) -> Result<Seq<char>, Seq<char>> {
    match browser {
        Browser::Chrome => match version {
            Some(v) => match chrome_user_agent_of(v, platform) {
                Some(ua) => Ok(ua),
                None => Err("cannot determine the installed Chrome version"@),
            },
            None => Err("cannot determine the installed Chrome version"@),
        },
        Browser::Safari => match version {
            Some(v) => match safari_user_agent_of(v, platform) {
                Some(ua) => Ok(ua),
                None => Err("cannot determine the installed Safari version"@),
            },
            None => Err("cannot determine the installed Safari version"@),
        },
    }
}

/// The User-Agent to present for `browser`, given the installed version that
/// was found (`None` when none was).
pub fn browser_user_agent(browser: Browser, version: Option<&str>, platform: Platform) -> (r:
    Result<String, String>)
    ensures
        result_view(r) == browser_user_agent_of(
            browser,
            match version {
                Some(v) => Some(v@),
                None => None,
            },
            platform,
        ),
{
    match browser {
        Browser::Chrome => {
            let ua = match version {
                Some(v) => chrome_user_agent(v, platform),
                None => None,
            };
            match ua {
                Some(ua) => Ok(ua),
                None => Err(String::from_str("cannot determine the installed Chrome version")),
            }
        },
        Browser::Safari => {
            let ua = match version {
                Some(v) => safari_user_agent(v, platform),
                None => None,
            };
            match ua {
                Some(ua) => Ok(ua),
                None => Err(String::from_str("cannot determine the installed Safari version")),
            }
        },
    }
}

/// A Chrome profile directory name that stays inside the data directory.
pub open spec fn is_valid_profile_name(p: Seq<char>) -> bool {
    &&& p.len() > 0
    &&& p != seq!['.']
    &&& p != seq!['.', '.']
    &&& !p.contains('/')
    &&& !p.contains('\\')
}

fn valid_profile_chars(p: &[char]) -> (b: bool)
    ensures
        b == is_valid_profile_name(p@),
{
    if p.len() == 0 {
        return false;
    }
    if p.len() == 1 && p[0] == '.' {
        assert(p@ =~= seq!['.']);
        return false;
    }
    if p.len() == 2 && p[0] == '.' && p[1] == '.' {
        assert(p@ =~= seq!['.', '.']);
        return false;
    }
    proof {
        if p@ == seq!['.'] {
            assert(p@[0] == '.');
        }
        if p@ == seq!['.', '.'] {
            assert(p@[0] == '.' && p@[1] == '.');
        }
    }
    !contains_char(p, '/') && !contains_char(p, '\\')
}

/// Whether `profile` is a safe Chrome profile directory name.
pub fn valid_profile_name(profile: &str) -> (b: bool)
    ensures
        b == is_valid_profile_name(profile@),
{
    let v = chars_of(profile);
    valid_profile_chars(v.as_slice())
}

/// The first valid profile name among `list`, skipping entries that are not
/// strings (`None`).
pub open spec fn first_valid_profile(list: Seq<Option<Seq<char>>>) -> Option<Seq<char>>
    decreases list.len(),
{
    if list.len() == 0 {
        None
    } else {
        match list[0] {
            Some(p) => if is_valid_profile_name(p) {
                Some(p)
            } else {
                first_valid_profile(list.drop_first())
            },
            None => first_valid_profile(list.drop_first()),
        }
    }
}

/// What Chrome's `Local State` file says of profiles: `profile.last_used`
/// and `profile.last_active_profiles`, each `None` where it is not a string
/// (not an array); the whole is `None` when the text is not JSON.
pub uninterp spec fn local_state_profiles(text: Seq<char>) -> Option<
    (Option<Seq<char>>, Option<Seq<Option<Seq<char>>>>),
>;

/// The view of the profile fields read from Chrome's `Local State`.
pub open spec fn profile_fields_view(r: Option<(Option<String>, Option<Vec<Option<String>>>)>) -> Option<
    (Option<Seq<char>>, Option<Seq<Option<Seq<char>>>>),
> {
    match r {
        None => None,
        Some((lu, la)) => Some(
            (
                opt_view(lu),
                match la {
                    Some(v) => Some(v@.map_values(|o: Option<String>| opt_view(o))),
                    None => None,
                },
            ),
        ),
    }
}

/// Parses `text` with `serde_json::from_str` into a `serde_json::Value` and
/// reads `profile.last_used` and `profile.last_active_profiles` from it
/// (`Value` indexing and `as_str` / `as_array`). The contract claims only that
/// the result is a function of `text`, named `local_state_profiles`.
#[verifier::external_body]
fn read_local_state_profiles(text: &str) -> (r: Option<
    (Option<String>, Option<Vec<Option<String>>>),
>)
    ensures
        profile_fields_view(r) == local_state_profiles(text@),
{
    let state: serde_json::Value = match serde_json::from_str(text) {
        Ok(v) => v,
        Err(_) => return None,
    };
    let profile = &state["profile"];
    let last_used = profile["last_used"].as_str().map(String::from);
    let active = profile["last_active_profiles"].as_array().map(
        |a| a.iter().map(|p| p.as_str().map(String::from)).collect(),
    );
    Some((last_used, active))
}

/// The profile to import from, given what `Local State` says: the last used
/// profile when its name is valid, else the first valid last-active one.
pub open spec fn chosen_profile(
    fields: Option<(Option<Seq<char>>, Option<Seq<Option<Seq<char>>>>)>,
) -> Option<Seq<char>> {
    match fields {
        None => None,
        Some((last_used, active)) => match last_used {
            Some(p) if is_valid_profile_name(p) => Some(p),
            _ => match active {
                Some(list) => first_valid_profile(list),
                None => None,
            },
        },
    }
}

/// The Chrome profile named by the text of a `Local State` file.
pub fn chrome_profile_from_state(text: &str) -> (r: Option<String>)
    ensures
        opt_view(r) == chosen_profile(local_state_profiles(text@)),
{
    let fields = read_local_state_profiles(text);
    match fields {
        None => None,
        Some((last_used, active)) => {
            match last_used {
                Some(p) => {
                    if valid_profile_name(p.as_str()) {
                        return Some(p);
                    }
                },
                None => {},
            }
            match active {
                None => None,
                Some(list) => {
                    let ghost lv = list@.map_values(|o: Option<String>| opt_view(o));
                    assert(lv.skip(0) =~= lv);
                    assert(chosen_profile(local_state_profiles(text@)) == first_valid_profile(lv));
                    let mut i: usize = 0;
                    while i < list.len()
                        invariant
                            i <= list@.len(),
                            lv == list@.map_values(|o: Option<String>| opt_view(o)),
                            chosen_profile(local_state_profiles(text@)) == first_valid_profile(lv),
                            first_valid_profile(lv) == first_valid_profile(lv.skip(i as int)),
                        decreases list@.len() - i,
                    {
                        proof {
                            assert(lv.skip(i as int).drop_first() =~= lv.skip(i + 1));
                            assert(lv.skip(i as int)[0] == lv[i as int]);
                        }
                        match &list[i] {
                            Some(p) => {
                                if valid_profile_name(p.as_str()) {
                                    assert(lv.skip(i as int)[0] == Some(p@));
                                    return Some(p.clone());
                                }
                            },
                            None => {},
                        }
                        i += 1;
                    }
                    assert(lv.skip(i as int).len() == 0);
                    None
                },
            }
        },
    }
}

} // verus!

verus! {

/// The `Info.plist` key of a bundle's short version string.
pub open spec fn plist_version_key() -> Seq<char> {
    "<key>CFBundleShortVersionString</key>"@
}

/// The version that an `Info.plist` body gives: the trimmed text of the first
/// `<string>` element that follows the `CFBundleShortVersionString` key and
/// ends before the key occurs again.
pub open spec fn plist_version_of(body: Seq<char>) -> Option<Seq<char>> {
    let key = plist_version_key();
    match find(body, key) {
        None => None,
        Some(i) => {
            let rest = body.skip(i + key.len());
            let seg = match find(rest, key) {
                Some(j) => rest.take(j),
                None => rest,
            };
            match find(seg, "<string>"@) {
                None => None,
                Some(s0) => {
                    let start = s0 + "<string>"@.len();
                    match find(seg.skip(start), "</string>"@) {
                        None => None,
                        Some(e) => Some(trim(seg.subrange(start, start + e))),
                    }
                },
            }
        },
    }
}

/// The short version string held by an `Info.plist` body.
pub fn plist_version_from(body: &str) -> (r: Option<String>)
    ensures
        opt_view(r) == plist_version_of(body@),
{
    let b = chars_of(body);
    let key = chars_of("<key>CFBundleShortVersionString</key>");
    let i = match find_chars(b.as_slice(), key.as_slice()) {
        Some(i) => i,
        None => return None,
    };
    proof {
        assert(i + key@.len() <= b@.len()) by {
            lemma_find_bounds(b@, key@, 0);
        }
    }
    assert(i + key.len() <= b.len());
    let rest = slice_chars(b.as_slice(), i + key.len(), b.len());
    assert(rest@ =~= b@.skip(i + key@.len()));
    let seg = match find_chars(rest.as_slice(), key.as_slice()) {
        Some(j) => {
            proof {
                lemma_find_bounds(rest@, key@, 0);
            }
            let s = slice_chars(rest.as_slice(), 0, j);
            assert(s@ =~= rest@.take(j as int));
            s
        },
        None => rest,
    };
    let open = chars_of("<string>");
    let s0 = match find_chars(seg.as_slice(), open.as_slice()) {
        Some(s0) => s0,
        None => return None,
    };
    proof {
        lemma_find_bounds(seg@, open@, 0);
    }
    let start = s0 + open.len();
    let tail = slice_chars(seg.as_slice(), start, seg.len());
    assert(tail@ =~= seg@.skip(start as int));
    let close = chars_of("</string>");
    let e = match find_chars(tail.as_slice(), close.as_slice()) {
        Some(e) => e,
        None => return None,
    };
    proof {
        lemma_find_bounds(tail@, close@, 0);
    }
    let inner = slice_chars(seg.as_slice(), start, start + e);
    let t = trim_chars(inner.as_slice());
    Some(string_from_chars(t.as_slice()))
}

/// The version that the text of a version file gives: the text trimmed, when
/// anything is left.
pub open spec fn version_text_of(text: Seq<char>) -> Option<Seq<char>> {
    if trim(text).len() > 0 {
        Some(trim(text))
    } else {
        None
    }
}

/// The version held by the text of a version file.
pub fn version_from_text(text: &str) -> (r: Option<String>)
    ensures
        opt_view(r) == version_text_of(text@),
{
    let v = chars_of(text);
    let t = trim_chars(v.as_slice());
    if t.len() > 0 {
        Some(string_from_chars(t.as_slice()))
    } else {
        None
    }
}

/// Cookies can be imported for `target`: an `http` or `https` URL with a host.
pub open spec fn is_import_target(target: Seq<char>) -> bool {
    match parsed_url_scheme(target) {
        Some(s) => (s == "http"@ || s == "https"@) && parsed_url_host(target) is Some,
        None => false,
    }
}

/// The error for a target that cookies cannot be imported for.
pub open spec fn import_target_error() -> Seq<char> {
    "browser cookies require an HTTP(S) URL with a host"@
}

/// Checks that cookies can be imported for `target`.
pub fn check_import_target(target: &str) -> (r: Result<(), String>)
    ensures
        r is Ok <==> is_import_target(target@),
        r matches Err(e) ==> e@ == import_target_error(),
{
    let ok = match url_scheme(target) {
        Some(s) => (str_eq(s.as_str(), "http") || str_eq(s.as_str(), "https")) && url_host(
            target,
        ).is_some(),
        None => false,
    };
    if ok {
        Ok(())
    } else {
        Err(String::from_str("browser cookies require an HTTP(S) URL with a host"))
    }
}

/// The name under which a browser's cookie store reports the browser.
pub open spec fn browser_label_of(browser: Browser) -> Seq<char> {
    match browser {
        Browser::Chrome => "chrome"@,
        Browser::Safari => "safari"@,
    }
}

/// The name under which a browser's cookie store reports `browser`.
pub fn browser_label(browser: Browser) -> (s: &'static str)
    ensures
        s@ == browser_label_of(browser),
{
    match browser {
        Browser::Chrome => "chrome",
        Browser::Safari => "safari",
    }
}

/// The lines of the cookies of `cs` that may be carried to `host`, in order.
pub open spec fn scoped_lines(cs: Seq<CookieModel>, host: Option<Seq<char>>) -> Seq<Seq<char>>
    decreases cs.len(),
{
    if cs.len() == 0 {
        seq![]
    } else {
        let r = scoped_lines(cs.drop_last(), host);
        match scoped_cookie_line(cs.last(), host) {
            Some(l) => r.push(l),
            None => r,
        }
    }
}

/// The view of a `BrowserImport`.
pub struct ImportModel {
    pub user_agent: Seq<char>,
    pub cookies: Seq<Seq<char>>,
    pub warnings: Seq<Seq<char>>,
}

impl View for BrowserImport {
    type V = ImportModel;

    open spec fn view(&self) -> ImportModel {
        ImportModel {
            user_agent: self.user_agent@,
            cookies: self.cookies@.map_values(|s: String| s@),
            warnings: self.warnings@.map_values(|s: String| s@),
        }
    }
}

/// What an import of `cookies` from `browser` for `target` hands over, given
/// the User-Agent and the warnings of the cookie store.
pub open spec fn import_of(
    browser: Browser,
    target: Seq<char>,
    user_agent: Seq<char>,
    cookies: Seq<CookieModel>,
    warnings: Seq<Seq<char>>,
) -> Result<ImportModel, Seq<char>> {
    if !is_import_target(target) {
        Err(import_target_error())
    } else {
        let host = parsed_url_host(target);
        let lines = scoped_lines(cookies, host);
        Ok(
            ImportModel {
                user_agent,
                cookies: lines,
                warnings: if lines.len() == 0 {
                    warnings.push(
                        "no matching cookies were imported from "@ + browser_label_of(browser)
                            + " for "@ + host.unwrap(),
                    )
                } else {
                    warnings
                },
            },
        )
    }
}

/// Imports a session from `browser` for `target`, given the User-Agent made
/// for the browser and what its cookie store yielded (`cookies` and
/// `warnings`): refuses a target that is not an HTTP(S) URL with a host,
/// keeps the cookies that may be carried to the target as `Set-Cookie`
/// lines, and warns when none is left.
pub fn import_browser(
    browser: Browser,
    target: &str,
    user_agent: String,
    cookies: &Vec<BrowserCookie>,
    warnings: Vec<String>,
) -> (r: Result<BrowserImport, String>)
    ensures
        match r {
            Ok(imp) => import_of(
                browser,
                target@,
                user_agent@,
                cookies@.map_values(|c: BrowserCookie| c@),
                warnings@.map_values(|s: String| s@),
            ) == Ok::<ImportModel, Seq<char>>(imp@),
            Err(e) => import_of(
                browser,
                target@,
                user_agent@,
                cookies@.map_values(|c: BrowserCookie| c@),
                warnings@.map_values(|s: String| s@),
            ) == Err::<ImportModel, Seq<char>>(e@),
        },
{
    let ghost cs = cookies@.map_values(|c: BrowserCookie| c@);
    match check_import_target(target) {
        Ok(()) => {},
        Err(e) => return Err(e),
    }
    let host = match url_host(target) {
        Some(h) => h,
        None => return Err(String::from_str("browser cookies require an HTTP(S) URL with a host")),
    };
    let mut lines: Vec<String> = Vec::new();
    let mut i: usize = 0;
    while i < cookies.len()
        invariant
            i <= cookies@.len(),
            cs == cookies@.map_values(|c: BrowserCookie| c@),
            parsed_url_host(target@) == Some(host@),
            lines@.map_values(|s: String| s@) == scoped_lines(
                cs.take(i as int),
                parsed_url_host(target@),
            ),
        decreases cookies@.len() - i,
    {
        proof {
            assert(cs.take(i + 1).drop_last() =~= cs.take(i as int));
            assert(cs.take(i + 1).last() == cookies@[i as int]@);
        }
        match scoped_cookie(&cookies[i], target) {
            Some(l) => {
                lines.push(l);
            },
            None => {},
        }
        i += 1;
        assert(lines@.map_values(|s: String| s@) =~= scoped_lines(
            cs.take(i as int),
            parsed_url_host(target@),
        ));
    }
    assert(cs.take(cookies@.len() as int) =~= cs);
    let mut warnings = warnings;
    let ghost w0 = warnings@.map_values(|s: String| s@);
    if lines.len() == 0 {
        let mut msg = String::from_str("no matching cookies were imported from ");
        msg.append(browser_label(browser));
        msg.append(" for ");
        msg.append(host.as_str());
        warnings.push(msg);
        assert(warnings@.map_values(|s: String| s@) =~= w0.push(msg@));
    }
    let imp = BrowserImport { user_agent, cookies: lines, warnings };
    Ok(imp)
}

} // verus!

verus! {

/// A cookie is carried to a target only when its name and value are well
/// formed and the domain it names, if any, is the target's host or a parent
/// domain of it; an unrelated domain is refused.
pub proof fn lemma_scoped_cookie_stays_in_scope(c: CookieModel, host: Seq<char>)
    requires
        scoped_cookie_line(c, Some(host)) is Some,
    ensures
        is_valid_cookie_name(c.name),
        is_valid_cookie_value(c.value),
        match cookie_domain(c) {
            None => true,
            Some(d) => d == lower_seq(host) || ends_with(lower_seq(host), seq!['.'] + d),
        },
{
}

/// A carried cookie's line starts with `name=value`, and neither part holds a
/// `;`: no attribute can be smuggled in through them.
pub proof fn lemma_cookie_line_starts_with_pair(c: CookieModel, host: Option<Seq<char>>)
    requires
        scoped_cookie_line(c, host) is Some,
    ensures
        scoped_cookie_line(c, host)->0.take((c.name.len() + 1 + c.value.len()) as int) == c.name
            + "="@ + c.value,
        !c.name.contains(';'),
        !c.value.contains(';'),
{
    let l = scoped_cookie_line(c, host)->0;
    let pre = c.name + "="@ + c.value;
    assert("="@.len() == 1) by {
        reveal_strlit("=");
    }
    let h = host->0;
    let parent = domain_attribute(cookie_domain(c), lower_seq(h))->0;
    assert(l == pre + (cookie_line(c, parent).skip(pre.len() as int))) by {
        assert(cookie_line(c, parent) =~= pre + cookie_line(c, parent).skip(pre.len() as int));
    }
    assert(l.take(pre.len() as int) =~= pre);
    if c.name.contains(';') {
        let i = choose|i: int| 0 <= i < c.name.len() && c.name[i] == ';';
        assert(is_cookie_name_char(c.name[i]));
    }
    if c.value.contains(';') {
        let i = choose|i: int| 0 <= i < c.value.len() && c.value[i] == ';';
        assert(is_cookie_value_char(c.value[i]));
    }
}

/// The `Path` a carried cookie is given is always absolute and holds no
/// `;`, CR or LF, whatever path the browser's store had.
pub proof fn lemma_cookie_path_is_safe(p: Option<Seq<char>>)
    ensures
        cookie_path(p).len() > 0,
        cookie_path(p)[0] == '/',
        !cookie_path(p).contains(';'),
        !cookie_path(p).contains('\r'),
        !cookie_path(p).contains('\n'),
{
    reveal_strlit("/");
    let r = cookie_path(p);
    if r == "/"@ {
        assert(r =~= seq!['/']);
        if r.contains(';') || r.contains('\r') || r.contains('\n') {
            assert(r[0] == '/');
        }
    }
}

} // verus!

verus! {

proof fn lemma_concat_lacks(a: Seq<char>, b: Seq<char>, x: char)
    requires
        !a.contains(x),
        !b.contains(x),
    ensures
        !(a + b).contains(x),
{
    if (a + b).contains(x) {
        let i = choose|i: int| 0 <= i < (a + b).len() && (a + b)[i] == x;
        if i < a.len() {
            assert(a[i] == x);
        } else {
            assert(b[i - a.len()] == x);
        }
    }
}

proof fn lemma_lacks(s: Seq<char>, x: char)
    requires
        forall|i: int| 0 <= i < s.len() ==> s[i] != x,
    ensures
        !s.contains(x),
{
}

/// The characters of `s` that pass `is_cookie_name_char`, `is_cookie_value_char`
/// or `is_domain_char` are never `;`, CR or LF.
proof fn lemma_chars_lack(s: Seq<char>, kind: int)
    requires
        kind == 0 ==> forall|i: int| 0 <= i < s.len() ==> is_cookie_name_char(#[trigger] s[i]),
        kind == 1 ==> forall|i: int| 0 <= i < s.len() ==> is_cookie_value_char(#[trigger] s[i]),
        kind == 2 ==> forall|i: int| 0 <= i < s.len() ==> is_domain_char(#[trigger] s[i]),
        0 <= kind <= 2,
    ensures
        !s.contains(';'),
        !s.contains('\r'),
        !s.contains('\n'),
{
    assert forall|i: int| 0 <= i < s.len() implies s[i] != ';' && s[i] != '\r' && s[i] != '\n' by {
        if kind == 0 {
            assert(is_cookie_name_char(s[i]));
        } else if kind == 1 {
            assert(is_cookie_value_char(s[i]));
        } else {
            assert(is_domain_char(s[i]));
        }
    }
    lemma_lacks(s, ';');
    lemma_lacks(s, '\r');
    lemma_lacks(s, '\n');
}

/// A carried cookie line admits no injected attribute: it is `name=value`
/// followed only by `; Domain=` and a parent domain of the host, `; Path=`
/// and a safe path, `; Secure` and `; HttpOnly`, in that order; the name,
/// value, domain and path hold no `;`, and the line holds no CR or LF.
pub proof fn lemma_cookie_line_admits_no_injection(c: CookieModel, host: Seq<char>)
    requires
        scoped_cookie_line(c, Some(host)) is Some,
    ensures
        ({
            let l = scoped_cookie_line(c, Some(host))->0;
            let parent = domain_attribute(cookie_domain(c), lower_seq(host))->0;
            &&& l == c.name + "="@ + c.value + (match parent {
                Some(d) => "; Domain="@ + d,
                None => Seq::<char>::empty(),
            }) + "; Path="@ + cookie_path(c.path) + (if c.secure == Some(true) {
                "; Secure"@
            } else {
                Seq::<char>::empty()
            }) + (if c.http_only == Some(true) {
                "; HttpOnly"@
            } else {
                Seq::<char>::empty()
            })
            &&& (parent matches Some(d) ==> ends_with(lower_seq(host), seq!['.'] + d) && !d.contains(
                ';',
            ))
            &&& !c.name.contains(';') && !c.value.contains(';') && !cookie_path(c.path).contains(';')
            &&& !l.contains('\r') && !l.contains('\n')
        }),
{
    reveal_strlit("=");
    reveal_strlit("; Domain=");
    reveal_strlit("; Path=");
    reveal_strlit("; Secure");
    reveal_strlit("; HttpOnly");
    let l = scoped_cookie_line(c, Some(host))->0;
    let parent = domain_attribute(cookie_domain(c), lower_seq(host))->0;
    lemma_chars_lack(c.name, 0);
    lemma_chars_lack(c.value, 1);
    lemma_cookie_path_is_safe(c.path);
    let dpart = match parent {
        Some(d) => "; Domain="@ + d,
        None => Seq::<char>::empty(),
    };
    let spart = if c.secure == Some(true) {
        "; Secure"@
    } else {
        Seq::<char>::empty()
    };
    let hpart = if c.http_only == Some(true) {
        "; HttpOnly"@
    } else {
        Seq::<char>::empty()
    };
    let x = cookie_path(c.path);
    assert(l == c.name + "="@ + c.value + dpart + "; Path="@ + x + spart + hpart);
    lemma_lacks("="@, '\r');
    lemma_lacks("="@, '\n');
    lemma_lacks("; Path="@, '\r');
    lemma_lacks("; Path="@, '\n');
    lemma_lacks("; Secure"@, '\r');
    lemma_lacks("; Secure"@, '\n');
    lemma_lacks("; HttpOnly"@, '\r');
    lemma_lacks("; HttpOnly"@, '\n');
    lemma_lacks(Seq::<char>::empty(), '\r');
    lemma_lacks(Seq::<char>::empty(), '\n');
    match parent {
        Some(d) => {
            lemma_chars_lack(d, 2);
            lemma_lacks("; Domain="@, '\r');
            lemma_lacks("; Domain="@, '\n');
            lemma_concat_lacks("; Domain="@, d, '\r');
            lemma_concat_lacks("; Domain="@, d, '\n');
        },
        None => {},
    }
    let p1 = c.name + "="@;
    let p2 = p1 + c.value;
    let p3 = p2 + dpart;
    let p4 = p3 + "; Path="@;
    let p5 = p4 + x;
    let p6 = p5 + spart;
    let p7 = p6 + hpart;
    lemma_concat_lacks(c.name, "="@, '\r');
    lemma_concat_lacks(c.name, "="@, '\n');
    lemma_concat_lacks(p1, c.value, '\r');
    lemma_concat_lacks(p1, c.value, '\n');
    lemma_concat_lacks(p2, dpart, '\r');
    lemma_concat_lacks(p2, dpart, '\n');
    lemma_concat_lacks(p3, "; Path="@, '\r');
    lemma_concat_lacks(p3, "; Path="@, '\n');
    lemma_concat_lacks(p4, x, '\r');
    lemma_concat_lacks(p4, x, '\n');
    lemma_concat_lacks(p5, spart, '\r');
    lemma_concat_lacks(p5, spart, '\n');
    lemma_concat_lacks(p6, hpart, '\r');
    lemma_concat_lacks(p6, hpart, '\n');
    assert(l == p7);
}

} // verus!

verus! {

/// The path that `std::path::Path::join` gives for `rel` joined onto `base`.
pub uninterp spec fn joined_path(base: Seq<char>, rel: Seq<char>) -> Seq<char>;

/// Calls `std::path::Path::join` and converts the result back to a string
/// (`to_string_lossy`, exact for paths made of strings). The contract claims
/// only that the result is a function of `base` and `rel`, named
/// `joined_path`.
#[verifier::external_body]
fn path_join(base: &str, rel: &str) -> (r: String)
    ensures
        r@ == joined_path(base@, rel@),
{
    std::path::Path::new(base).join(rel).to_string_lossy().into_owned()
}

/// Where Chrome keeps its data on `platform`, given the values of the `HOME`,
/// `XDG_CONFIG_HOME` and `LOCALAPPDATA` environment variables: under
/// `Library/Application Support` of the home directory on macOS, under
/// `LOCALAPPDATA` on Windows, and elsewhere `google-chrome` under
/// `XDG_CONFIG_HOME`, or under `.config` of the home directory when that is
/// not set; `None` when the variable it needs is not set.
pub open spec fn chrome_data_root_of(
    platform: Platform,
    home: Option<Seq<char>>,
    xdg_config_home: Option<Seq<char>>,
    local_app_data: Option<Seq<char>>,
) -> Option<Seq<char>> {
    match platform {
        Platform::MacOs => match home {
            Some(h) => Some(joined_path(h, "Library/Application Support/Google/Chrome"@)),
            None => None,
        },
        Platform::Windows => match local_app_data {
            Some(l) => Some(joined_path(l, "Google/Chrome/User Data"@)),
            None => None,
        },
        Platform::Other => match xdg_config_home {
            Some(x) => Some(joined_path(x, "google-chrome"@)),
            None => match home {
                Some(h) => Some(joined_path(joined_path(h, ".config"@), "google-chrome"@)),
                None => None,
            },
        },
    }
}

/// The directory where Chrome keeps its data on `platform`, given the values
/// of the `HOME`, `XDG_CONFIG_HOME` and `LOCALAPPDATA` environment variables.
pub fn chrome_data_root(
    platform: Platform,
    home: Option<&str>,
    xdg_config_home: Option<&str>,
    local_app_data: Option<&str>,
) -> (r: Option<String>)
    ensures
        opt_view(r) == chrome_data_root_of(
            platform,
            match home {
                Some(h) => Some(h@),
                None => None,
            },
            match xdg_config_home {
                Some(x) => Some(x@),
                None => None,
            },
            match local_app_data {
                Some(l) => Some(l@),
                None => None,
            },
        ),
{
    match platform {
        Platform::MacOs => match home {
            Some(h) => Some(path_join(h, "Library/Application Support/Google/Chrome")),
            None => None,
        },
        Platform::Windows => match local_app_data {
            Some(l) => Some(path_join(l, "Google/Chrome/User Data")),
            None => None,
        },
        Platform::Other => match xdg_config_home {
            Some(x) => Some(path_join(x, "google-chrome")),
            None => match home {
                Some(h) => {
                    let c = path_join(h, ".config");
                    Some(path_join(c.as_str(), "google-chrome"))
                },
                None => None,
            },
        },
    }
}

} // verus!

verus! {

/// A cookie value may hold exactly the RFC 6265 `cookie-octet`s: visible
/// ASCII other than `"`, `,`, `;` and `\`.
pub proof fn lemma_cookie_octets(c: char)
    ensures
        is_cookie_value_char(c) <==> (0x21 <= (c as u32) && (c as u32) <= 0x7e && c != '"' && c
            != ',' && c != ';' && c != '\\'),
{
    assert(('"' as u32) == 0x22 && (',' as u32) == 0x2c && (';' as u32) == 0x3b && ('\\' as u32)
        == 0x5c);
}

/// A cookie with a well-formed name, a value made only of `cookie-octet`s
/// and no domain of its own is carried to every target with a host, as a
/// line that starts with `name=value`.
pub proof fn lemma_octet_values_are_carried(c: CookieModel, host: Seq<char>)
    requires
        is_valid_cookie_name(c.name),
        forall|k: int|
            0 <= k < c.value.len() ==> 0x21 <= (#[trigger] c.value[k] as u32) && (c.value[k] as u32)
                <= 0x7e && c.value[k] != '"' && c.value[k] != ',' && c.value[k] != ';' && c.value[k]
                != '\\',
        c.domain is None,
    ensures
        scoped_cookie_line(c, Some(host)) is Some,
        scoped_cookie_line(c, Some(host))->0.take((c.name.len() + 1 + c.value.len()) as int)
            == c.name + "="@ + c.value,
{
    assert forall|k: int| 0 <= k < c.value.len() implies is_cookie_value_char(
        #[trigger] c.value[k],
    ) by {
        lemma_cookie_octets(c.value[k]);
    }
    lemma_cookie_line_starts_with_pair(c, Some(host));
}

/// The User-Agent presented for an installed browser: for Chrome, its major
/// version (what precedes the first dot of the trimmed version, all ASCII
/// digits) with the rest zeroed, in Chrome's own form; for Safari, the whole
/// trimmed version (ASCII digits and dots) in Safari's form; each with the
/// operating-system token of the platform. Any other version, or none, is
/// refused with the browser's error.
pub proof fn lemma_user_agent_forms(browser: Browser, version: Option<Seq<char>>, p: Platform)
    ensures
        ({
            let os = match p {
                Platform::MacOs => "Macintosh; Intel Mac OS X 10_15_7"@,
                Platform::Windows => "Windows NT 10.0; Win64; x64"@,
                Platform::Other => "X11; Linux x86_64"@,
            };
            match browser {
                Browser::Chrome => match version {
                    Some(v) if before_char(trim(v), '.').len() > 0 && all_ascii_digits(
                        before_char(trim(v), '.'),
                    ) => browser_user_agent_of(browser, version, p) == Ok::<
                        Seq<char>,
                        Seq<char>,
                    >(
                        "Mozilla/5.0 ("@ + os
                            + ") AppleWebKit/537.36 (KHTML, like Gecko) Chrome/"@ + before_char(
                            trim(v),
                            '.',
                        ) + ".0.0.0 Safari/537.36"@,
                    ),
                    _ => browser_user_agent_of(browser, version, p) == Err::<Seq<char>, Seq<char>>(
                        "cannot determine the installed Chrome version"@,
                    ),
                },
                Browser::Safari => match version {
                    Some(v) if trim(v).len() > 0 && (forall|i: int|
                        0 <= i < trim(v).len() ==> #[trigger] is_ascii_digit(trim(v)[i]) || trim(v)[i]
                            == '.') => browser_user_agent_of(browser, version, p) == Ok::<
                        Seq<char>,
                        Seq<char>,
                    >(
                        "Mozilla/5.0 ("@ + os
                            + ") AppleWebKit/605.1.15 (KHTML, like Gecko) Version/"@ + trim(v)
                            + " Safari/605.1.15"@,
                    ),
                    _ => browser_user_agent_of(browser, version, p) == Err::<Seq<char>, Seq<char>>(
                        "cannot determine the installed Safari version"@,
                    ),
                },
            }
        }),
{
    match version {
        Some(v) => {
            let t = trim(v);
            assert((forall|i: int| 0 <= i < t.len() ==> #[trigger] is_ascii_digit(t[i]) || t[i]
                == '.') <==> (forall|i: int| 0 <= i < t.len() ==> is_version_char(#[trigger] t[i])));
        },
        None => {},
    }
}

/// An entry of the list of last active profiles that names a valid profile.
pub open spec fn valid_entry(o: Option<Seq<char>>) -> bool {
    match o {
        Some(x) => is_valid_profile_name(x),
        None => false,
    }
}

/// `q` is the first valid entry of `list`.
pub open spec fn first_valid_entry_is(list: Seq<Option<Seq<char>>>, q: Seq<char>) -> bool {
    is_valid_profile_name(q) && exists|k: int|
        0 <= k < list.len() && list[k] == Some(q) && forall|j: int|
            0 <= j < k ==> !valid_entry(#[trigger] list[j])
}

/// The profile chosen from what `Local State` says: the last used profile
/// when its name is valid, whatever the list of last active profiles holds;
/// otherwise the first valid name in that list, entries that are not strings
/// skipped; none when there is none.
pub proof fn lemma_profile_choice(
    fields: Option<(Option<Seq<char>>, Option<Seq<Option<Seq<char>>>>)>,
)
    ensures
        match fields {
            None => chosen_profile(fields) is None,
            Some((last_used, active)) => if valid_entry(last_used) {
                chosen_profile(fields) == last_used
            } else {
                match active {
                    None => chosen_profile(fields) is None,
                    Some(list) => match chosen_profile(fields) {
                        Some(q) => first_valid_entry_is(list, q),
                        None => forall|j: int| 0 <= j < list.len() ==> !valid_entry(#[trigger] list[j]),
                    },
                }
            },
        },
{
    match fields {
        Some((lu, Some(list))) => {
            lemma_first_valid_profile(list);
        },
        _ => {},
    }
}

proof fn lemma_first_valid_profile(list: Seq<Option<Seq<char>>>)
    ensures
        match first_valid_profile(list) {
            Some(q) => first_valid_entry_is(list, q),
            None => forall|j: int| 0 <= j < list.len() ==> !valid_entry(#[trigger] list[j]),
        },
    decreases list.len(),
{
    if list.len() > 0 {
        let rest = list.drop_first();
        lemma_first_valid_profile(rest);
        if valid_entry(list[0]) {
            assert(list[0] == Some(first_valid_profile(list)->0));
        } else {
            match first_valid_profile(rest) {
                Some(q) => {
                    let k = choose|k: int|
                        0 <= k < rest.len() && rest[k] == Some(q) && forall|j: int|
                            0 <= j < k ==> !valid_entry(#[trigger] rest[j]);
                    assert(list[k + 1] == Some(q));
                    assert forall|j: int| 0 <= j < k + 1 implies !valid_entry(#[trigger] list[j]) by {
                        if j > 0 {
                            assert(list[j] == rest[j - 1]);
                        }
                    }
                },
                None => {
                    assert forall|j: int| 0 <= j < list.len() implies !valid_entry(#[trigger] list[j]) by {
                        if j > 0 {
                            assert(list[j] == rest[j - 1]);
                        }
                    }
                },
            }
        }
    }
}

} // verus!

verus! {

/// A cookie name is made of RFC 6265 `token` characters: visible ASCII other
/// than the separators `( ) < > @ , ; : \ " / [ ] ? = { }`; a name with any
/// other character, or an empty one, is refused.
pub proof fn lemma_cookie_name_chars(s: Seq<char>)
    ensures
        is_valid_cookie_name(s) <==> s.len() > 0 && forall|i: int|
            0 <= i < s.len() ==> 0x21 <= (#[trigger] s[i] as u32) && (s[i] as u32) <= 0x7e && !(
            s[i] == '(' || s[i] == ')' || s[i] == '<' || s[i] == '>' || s[i] == '@' || s[i] == ','
                || s[i] == ';' || s[i] == ':' || s[i] == '\\' || s[i] == '"' || s[i] == '/' || s[i]
                == '[' || s[i] == ']' || s[i] == '?' || s[i] == '=' || s[i] == '{' || s[i] == '}'),
{
    assert forall|i: int| 0 <= i < s.len() implies (is_cookie_name_char(#[trigger] s[i]) <==> (
    0x21 <= (s[i] as u32) && (s[i] as u32) <= 0x7e && !(s[i] == '(' || s[i] == ')' || s[i] == '<'
        || s[i] == '>' || s[i] == '@' || s[i] == ',' || s[i] == ';' || s[i] == ':' || s[i] == '\\'
        || s[i] == '"' || s[i] == '/' || s[i] == '[' || s[i] == ']' || s[i] == '?' || s[i] == '='
        || s[i] == '{' || s[i] == '}'))) by {
    }
}

} // verus!
