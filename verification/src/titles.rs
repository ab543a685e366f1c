//! Recognising URLs and deriving the titles shown for tracks.
use vstd::prelude::*;
use crate::text::{
    before_char, chars_equal, chars_of, ends_with, has_char, has_prefix, has_suffix, slice_of,
    spec_to_lowercase, starts_with, string_from, take_before, to_lowercase, trim, trimmed,
};

verus! {

/// `s` without the prefix `p`, when `s` starts with it.
pub open spec fn strip_prefix(s: Seq<char>, p: Seq<char>) -> Option<Seq<char>> {
    if has_prefix(s, p) {
        Some(s.subrange(p.len() as int, s.len() as int))
    } else {
        None
    }
}

/// `s` is an `http://` or `https://` address.
pub open spec fn is_url_spec(s: Seq<char>) -> bool {
    has_prefix(s, "http://"@) || has_prefix(s, "https://"@)
}

/// What follows the scheme of an address: after `https://`, else after
/// `http://`; nothing when it has neither.
pub open spec fn url_rest(s: Seq<char>) -> Option<Seq<char>> {
    match strip_prefix(s, "https://"@) {
        Some(r) => Some(r),
        None => strip_prefix(s, "http://"@),
    }
}

/// The host part of what follows the scheme: up to the first `/`, then up to
/// the first `?`.
pub open spec fn host_of(rest: Seq<char>) -> Seq<char> {
    before_char(before_char(rest, '/'), '?')
}

/// The title shown for an address: its host, or `URL` when it has no scheme.
pub open spec fn url_title(s: Seq<char>) -> Seq<char> {
    match url_rest(s) {
        Some(r) => host_of(r),
        None => "URL"@,
    }
}

/// What `Path::file_stem` gives for a path with these characters (the file
/// name without its last extension), if anything.
pub uninterp spec fn spec_file_stem(path: Seq<char>) -> Option<Seq<char>>;

/// What `Path::extension` gives for a path with these characters, if anything.
pub uninterp spec fn spec_extension(path: Seq<char>) -> Option<Seq<char>>;

/// Trusted: `std::path::Path::file_stem` on the path `p`, as a `String`.
/// A stem of a path given as UTF-8 text is itself UTF-8, so the conversion
/// back to text loses nothing.
#[verifier::external_body]
pub(crate) fn file_stem(p: &str) -> (r: Option<String>)
    ensures
        r matches Some(s) ==> spec_file_stem(p@) == Some(s@),
        r is None ==> spec_file_stem(p@) is None,
{
    std::path::Path::new(p).file_stem().and_then(|s| s.to_str()).map(|s| s.to_string())
}

/// Trusted: `std::path::Path::extension` on the path `p`, as a `String`.
#[verifier::external_body]
pub(crate) fn extension(p: &str) -> (r: Option<String>)
    ensures
        r matches Some(s) ==> spec_extension(p@) == Some(s@),
        r is None ==> spec_extension(p@) is None,
{
    std::path::Path::new(p).extension().and_then(|s| s.to_str()).map(|s| s.to_string())
}

/// The title shown for a playlist entry: the host of an address, otherwise
/// the file stem of a path, otherwise `?`.
pub open spec fn path_title(s: Seq<char>) -> Seq<char> {
    match url_rest(s) {
        Some(r) => host_of(r),
        None => match spec_file_stem(s) {
            Some(stem) => stem,
            None => "?"@,
        },
    }
}

fn strip_prefix_exec(s: &Vec<char>, p: &Vec<char>) -> (r: Option<Vec<char>>)
    ensures
        r matches Some(v) ==> strip_prefix(s@, p@) == Some(v@),
        r is None ==> strip_prefix(s@, p@) is None,
{
    if starts_with(s, p) {
        Some(slice_of(s, p.len(), s.len()))
    } else {
        None
    }
}

fn url_rest_exec(s: &Vec<char>) -> (r: Option<Vec<char>>)
    ensures
        r matches Some(v) ==> url_rest(s@) == Some(v@),
        r is None ==> url_rest(s@) is None,
{
    let https = chars_of("https://");
    match strip_prefix_exec(s, &https) {
        Some(r) => Some(r),
        None => {
            let http = chars_of("http://");
            strip_prefix_exec(s, &http)
        },
    }
}

fn host_exec(rest: &Vec<char>) -> (r: Vec<char>)
    ensures
        r@ == host_of(rest@),
{
    let a = take_before(rest, '/');
    take_before(&a, '?')
}

/// Whether `s` is an `http://` or `https://` address.
pub fn is_url(s: &str) -> (r: bool)
    ensures
        r == is_url_spec(s@),
{
    let cs = chars_of(s);
    let http = chars_of("http://");
    let https = chars_of("https://");
    starts_with(&cs, &http) || starts_with(&cs, &https)
}

/// The hostname of an address, used as its title until a better one is
/// known; `URL` when `url` has no `http://` or `https://` scheme.
pub fn title_for_url(url: &str) -> (r: String)
    ensures
        r@ == url_title(url@),
{
    let cs = chars_of(url);
    match url_rest_exec(&cs) {
        Some(rest) => string_from(&host_exec(&rest)),
        None => "URL".to_string(),
    }
}

/// The title shown for a playlist entry: the host for an address, the file
/// stem for a path, `?` when a path has no stem.
pub fn title_for_path(path: &str) -> (r: String)
    ensures
        r@ == path_title(path@),
{
    let cs = chars_of(path);
    match url_rest_exec(&cs) {
        Some(rest) => string_from(&host_exec(&rest)),
        None => match file_stem(path) {
            Some(stem) => stem,
            None => "?".to_string(),
        },
    }
}

/// Why an address typed by the user is refused, if it is.
pub enum UrlProblem {
    /// It does not start with `http://` or `https://`.
    NotHttp,
    /// Nothing stands between the scheme and the path or query.
    MissingHost,
}

impl UrlProblem {
    /// The message shown next to the entry.
    pub fn message(&self) -> (r: &'static str)
        ensures
            *self is NotHttp ==> r == "Must start with http:// or https://",
            *self is MissingHost ==> r == "Missing hostname",
    {
        match self {
            UrlProblem::NotHttp => "Must start with http:// or https://",
            UrlProblem::MissingHost => "Missing hostname",
        }
    }
}

/// What is wrong with an address typed by the user, judged on its text with
/// surrounding whitespace removed; nothing when it looks fine.  Reachability
/// is not checked.
pub open spec fn url_problem(s: Seq<char>) -> Option<UrlProblem> {
    let t = trimmed(s);
    if !is_url_spec(t) {
        Some(UrlProblem::NotHttp)
    } else if host_of(url_rest(t).unwrap()).len() == 0 {
        Some(UrlProblem::MissingHost)
    } else {
        None
    }
}

/// Check the syntax of an address typed by the user.
pub fn validate_url(url: &str) -> (r: Option<UrlProblem>)
    ensures
        r == url_problem(url@),
{
    let t = trim(&chars_of(url));
    let http = chars_of("http://");
    let https = chars_of("https://");
    if !starts_with(&t, &http) && !starts_with(&t, &https) {
        return Some(UrlProblem::NotHttp);
    }
    let rest = url_rest_exec(&t);
    match rest {
        Some(rest) => {
            let host = host_exec(&rest);
            if host.len() == 0 {
                Some(UrlProblem::MissingHost)
            } else {
                None
            }
        },
        None => Some(UrlProblem::NotHttp),
    }
}

/// An address that passes the check has a non-empty host, and that host is
/// the title it is listed under.
pub proof fn lemma_valid_url_has_title(s: Seq<char>)
    requires
        url_problem(s) is None,
    ensures
        url_rest(trimmed(s)) is Some,
        url_title(trimmed(s)) == host_of(url_rest(trimmed(s)).unwrap()),
        url_title(trimmed(s)).len() > 0,
{
}

/// The address part before any `?`, lowercased, ends in `.m3u` or `.m3u8`.
pub open spec fn looks_like_m3u_url_spec(s: Seq<char>) -> bool {
    let path = spec_to_lowercase(before_char(s, '?'));
    has_suffix(path, ".m3u"@) || has_suffix(path, ".m3u8"@)
}

/// Whether an address names an M3U playlist, judged by the path before any
/// query string.
pub fn looks_like_m3u_url(url: &str) -> (r: bool)
    ensures
        r == looks_like_m3u_url_spec(url@),
{
    let before = string_from(&take_before(&chars_of(url), '?'));
    let path = chars_of(to_lowercase(before.as_str()).as_str());
    let m3u = chars_of(".m3u");
    let m3u8 = chars_of(".m3u8");
    ends_with(&path, &m3u) || ends_with(&path, &m3u8)
}

/// The extension of a path, lowercased, is `m3u` or `m3u8`.
pub open spec fn is_m3u_spec(path: Seq<char>) -> bool {
    match spec_extension(path) {
        Some(e) => {
            let l = spec_to_lowercase(e);
            l == "m3u"@ || l == "m3u8"@
        },
        None => false,
    }
}

/// Whether a file is an M3U or M3U8 playlist, judged by its extension.
pub fn is_m3u(path: &str) -> (r: bool)
    ensures
        r == is_m3u_spec(path@),
{
    match extension(path) {
        Some(e) => {
            let l = chars_of(to_lowercase(e.as_str()).as_str());
            let m3u = chars_of("m3u");
            let m3u8 = chars_of("m3u8");
            chars_equal(&l, &m3u) || chars_equal(&l, &m3u8)
        },
        None => false,
    }
}

/// A title that is still part of an address rather than a name: an address,
/// or a query fragment (holds `?` and `=` and no space).
pub open spec fn is_address_noise(t: Seq<char>) -> bool {
    is_url_spec(t) || (t.contains('?') && t.contains('=') && !t.contains(' '))
}

pub fn address_noise(t: &Vec<char>) -> (r: bool)
    ensures
        r == is_address_noise(t@),
{
    let http = chars_of("http://");
    let https = chars_of("https://");
    starts_with(t, &http) || starts_with(t, &https) || (has_char(t, '?') && has_char(t, '=')
        && !has_char(t, ' '))
}

/// The header title for the media title reported by the player: a loading
/// placeholder while the title is empty or still address noise.
pub open spec fn now_playing_text(raw: Seq<char>) -> Seq<char> {
    if is_address_noise(raw) || raw.len() == 0 {
        "Loading…"@
    } else {
        raw
    }
}

/// The header title and subtitle: `Aurora` and no subtitle when nothing
/// plays; otherwise the track title (see [`now_playing_text`]) over
/// the artist.
pub fn now_playing(title: Option<&str>, artist: &str) -> (r: (String, String))
    ensures
        title is None ==> r.0@ == "Aurora"@ && r.1@ == Seq::<char>::empty(),
        title matches Some(t) ==> r.0@ == now_playing_text(t@) && r.1@ == artist@,
{
    match title {
        None => ("Aurora".to_string(), String::new()),
        Some(raw) => {
            let cs = chars_of(raw);
            let shown = if address_noise(&cs) || cs.len() == 0 {
                "Loading…".to_string()
            } else {
                raw.to_string()
            };
            (shown, artist.to_string())
        },
    }
}

/// The title on the audio-only page: a loading placeholder for address
/// noise, `Unknown Track` for an empty title, the title otherwise.
pub open spec fn audio_title_text(t: Seq<char>) -> Seq<char> {
    if is_address_noise(t) {
        "Loading…"@
    } else if t.len() == 0 {
        "Unknown Track"@
    } else {
        t
    }
}

pub fn audio_title(title: &str) -> (r: String)
    ensures
        r@ == audio_title_text(title@),
{
    let cs = chars_of(title);
    if address_noise(&cs) {
        "Loading…".to_string()
    } else if cs.len() == 0 {
        "Unknown Track".to_string()
    } else {
        title.to_string()
    }
}

/// Part of an address rather than a real title: an address, or a fragment
/// with `?` and no space.
pub open spec fn is_url_fragment(t: Seq<char>) -> bool {
    is_url_spec(t) || (t.contains('?') && !t.contains(' '))
}

fn url_fragment(t: &Vec<char>) -> (r: bool)
    ensures
        r == is_url_fragment(t@),
{
    let http = chars_of("http://");
    let https = chars_of("https://");
    starts_with(t, &http) || starts_with(t, &https) || (has_char(t, '?') && !has_char(t, ' '))
}

/// A playlist row still shows a placeholder: the hostname fallback, or part
/// of an address.
pub open spec fn is_placeholder_title_spec(shown: Seq<char>, fallback: Seq<char>) -> bool {
    shown == fallback || is_url_fragment(shown)
}

/// Whether the title shown for an address entry is still a placeholder that
/// a title reported by the player may replace.
pub fn is_placeholder_title(shown: &str, fallback: &str) -> (r: bool)
    ensures
        r == is_placeholder_title_spec(shown@, fallback@),
{
    let s = chars_of(shown);
    let f = chars_of(fallback);
    chars_equal(&s, &f) || url_fragment(&s)
}

/// Whether a title reported by the player is a real name rather than part of
/// an address.
pub fn is_real_title(title: &str) -> (r: bool)
    ensures
        r == !is_url_fragment(title@),
{
    !url_fragment(&chars_of(title))
}

} // verus!
