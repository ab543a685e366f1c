//! M3U / M3U8 playlist text.
//!
//! The text is read line by line (lines end at `\n`; a `\r` before it goes
//! with the surrounding whitespace), each line with its surrounding
//! whitespace removed.  Blank lines are skipped; `#EXTINF:duration,Title`
//! sets the title of the next entry; other lines starting with `#` are
//! directives and skipped; any other line is an entry.
use vstd::prelude::*;
use crate::text::{
    chars_of, find_char, find_char_from, find_from, has_prefix, lemma_find_from,
    lemma_find_from_suffix, slice_of, starts_with, string_from, trim, trimmed,
};
use crate::titles::{is_url, is_url_spec, path_title, title_for_path, title_for_url, url_title};

verus! {

/// The title an `#EXTINF:` line gives the next entry: whatever follows its
/// first comma, without surrounding whitespace, when that is not empty.
pub open spec fn info_title(line: Seq<char>) -> Option<Seq<char>> {
    let rest = line.subrange("#EXTINF:"@.len() as int, line.len() as int);
    let comma = find_from(rest, ',', 0);
    if comma < rest.len() {
        let t = trimmed(rest.subrange(comma + 1, rest.len() as int));
        if t.len() > 0 {
            Some(t)
        } else {
            None
        }
    } else {
        None
    }
}

/// An `#EXTINF:` line's title is everything after its first comma, without
/// surrounding whitespace, whatever commas that text holds itself; a line
/// whose text there is blank gives no title.
pub proof fn lemma_info_title_after_first_comma(duration: Seq<char>, text: Seq<char>)
    requires
        !duration.contains(','),
    ensures
        info_title("#EXTINF:"@ + duration + seq![','] + text) == if trimmed(text).len() > 0 {
            Some(trimmed(text))
        } else {
            None
        },
{
    reveal_strlit("#EXTINF:");
    let line = "#EXTINF:"@ + duration + seq![','] + text;
    let rest = line.subrange("#EXTINF:"@.len() as int, line.len() as int);
    assert(rest =~= duration + seq![','] + text);
    let d = duration.len() as int;
    lemma_find_from(rest, ',', 0);
    let comma = find_from(rest, ',', 0);
    assert(rest[d] == ',');
    if comma < d {
        assert(duration[comma] == ',');
        assert(duration.contains(','));
    }
    assert(comma == d);
    assert(rest.subrange(comma + 1, rest.len() as int) =~= text);
}

/// How a playlist file is read.
pub enum M3uSource {
    /// A file on disk; relative entries are resolved against the file's
    /// directory and every entry is kept.
    Local,
    /// A playlist fetched from an address; only `http://` and `https://`
    /// entries are kept, as they stand.
    Remote,
}

/// What `Path::parent` gives for a path with these characters, if anything.
pub uninterp spec fn spec_parent(path: Seq<char>) -> Option<Seq<char>>;

/// Whether a path is absolute.  On Unix, where this player runs, a path is
/// absolute exactly when it starts at the root, `/`.
pub open spec fn absolute_path(path: Seq<char>) -> bool {
    path.len() > 0 && path[0] == '/'
}

/// What `Path::join` gives for a base and a path with these characters.
pub uninterp spec fn spec_join(base: Seq<char>, path: Seq<char>) -> Seq<char>;

/// Trusted: `std::path::Path::parent`, as text.
#[verifier::external_body]
fn parent(p: &str) -> (r: Option<String>)
    ensures
        r matches Some(s) ==> spec_parent(p@) == Some(s@),
        r is None ==> spec_parent(p@) is None,
{
    std::path::Path::new(p).parent().map(|d| d.to_string_lossy().into_owned())
}

/// Trusted: `std::path::Path::is_absolute`.  Its documentation says that on
/// Unix a path is absolute when it has a root, and that a path has a root
/// when it begins with `/`; that is the claim here (on Windows the rule
/// differs, and this player does not run there).
#[verifier::external_body]
fn is_absolute(p: &str) -> (r: bool)
    ensures
        r == absolute_path(p@),
{
    std::path::Path::new(p).is_absolute()
}

/// Trusted: `std::path::Path::join`, as text.  Joining two UTF-8 paths gives
/// UTF-8, so the conversion back to text loses nothing.
#[verifier::external_body]
fn join(base: &str, p: &str) -> (r: String)
    ensures
        r@ == spec_join(base@, p@),
{
    std::path::Path::new(base).join(p).to_string_lossy().into_owned()
}

/// The directory that relative entries of the playlist file `file` are
/// resolved against: the file's parent, or `.`.
pub open spec fn playlist_dir(file: Seq<char>) -> Seq<char> {
    match spec_parent(file) {
        Some(d) => d,
        None => "."@,
    }
}

/// Where an entry line of a local playlist points: an address as it stands,
/// an absolute path as it stands, a relative path joined to `dir`.
pub open spec fn resolve_entry(dir: Seq<char>, line: Seq<char>) -> Seq<char> {
    if is_url_spec(line) {
        line
    } else if absolute_path(line) {
        line
    } else {
        spec_join(dir, line)
    }
}

/// One line's effect: the title waiting for the next entry afterwards, and
/// the entry the line adds, if any.
pub open spec fn m3u_step(
    source: M3uSource,
    dir: Seq<char>,
    line: Seq<char>,
    pending: Option<Seq<char>>,
) -> (Option<Seq<char>>, Option<(Seq<char>, Seq<char>)>) {
    if line.len() == 0 {
        (pending, None)
    } else if has_prefix(line, "#EXTINF:"@) {
        match info_title(line) {
            Some(t) => (Some(t), None),
            None => (pending, None),
        }
    } else if has_prefix(line, "#"@) {
        (pending, None)
    } else {
        match source {
            M3uSource::Local => {
                let target = resolve_entry(dir, line);
                let title = match pending {
                    Some(t) => t,
                    None => path_title(target),
                };
                (None, Some((title, target)))
            },
            M3uSource::Remote => if is_url_spec(line) {
                let title = match pending {
                    Some(t) => t,
                    None => url_title(line),
                };
                (None, Some((title, line)))
            } else {
                (pending, None)
            },
        }
    }
}

/// The `(title, target)` entries of playlist text `s`, with `pending` the
/// title waiting from an earlier `#EXTINF` line.
pub open spec fn m3u_entries(
    source: M3uSource,
    dir: Seq<char>,
    s: Seq<char>,
    pending: Option<Seq<char>>,
) -> Seq<(Seq<char>, Seq<char>)>
    decreases s.len(),
{
    let k = find_from(s, '\n', 0);
    let line = trimmed(s.subrange(0, k));
    let step = m3u_step(source, dir, line, pending);
    let head = match step.1 {
        Some(e) => seq![e],
        None => Seq::empty(),
    };
    if 0 <= k < s.len() {
        head + m3u_entries(source, dir, s.subrange(k + 1, s.len() as int), step.0)
    } else {
        head
    }
}

/// The characters of each `(title, target)` pair.
pub open spec fn entry_views(v: Seq<(String, String)>) -> Seq<(Seq<char>, Seq<char>)> {
    v.map_values(|e: (String, String)| (e.0@, e.1@))
}

/// The characters of an optional character vector.
pub open spec fn opt_view(o: Option<Vec<char>>) -> Option<Seq<char>> {
    match o {
        Some(v) => Some(v@),
        None => None,
    }
}

fn info_title_exec(line: &Vec<char>) -> (r: Option<Vec<char>>)
    requires
        has_prefix(line@, "#EXTINF:"@),
    ensures
        r matches Some(t) ==> info_title(line@) == Some(t@),
        r is None ==> info_title(line@) is None,
{
    let tag = chars_of("#EXTINF:");
    let rest = slice_of(line, tag.len(), line.len());
    let comma = find_char(&rest, ',');
    proof {
        lemma_find_from(rest@, ',', 0);
    }
    if comma < rest.len() {
        let t = trim(&slice_of(&rest, comma + 1, rest.len()));
        if t.len() > 0 {
            Some(t)
        } else {
            None
        }
    } else {
        None
    }
}

fn entry_step(
    source: &M3uSource,
    dir: &str,
    line: &Vec<char>,
    pending: Option<Vec<char>>,
) -> (r: (Option<Vec<char>>, Option<(String, String)>))
    ensures
        ({
            let step = m3u_step(*source, dir@, line@, opt_view(pending));
            &&& (r.0 matches Some(p) ==> step.0 == Some(p@))
            &&& (r.0 is None ==> step.0 is None)
            &&& (r.1 matches Some(e) ==> step.1 == Some((e.0@, e.1@)))
            &&& (r.1 is None ==> step.1 is None)
        }),
{
    if line.len() == 0 {
        return (pending, None);
    }
    let tag = chars_of("#EXTINF:");
    if starts_with(line, &tag) {
        return match info_title_exec(line) {
            Some(t) => (Some(t), None),
            None => (pending, None),
        };
    }
    let hash = chars_of("#");
    if starts_with(line, &hash) {
        return (pending, None);
    }
    let text = string_from(line);
    match source {
        M3uSource::Local => {
            let target = if is_url(text.as_str()) {
                text
            } else if is_absolute(text.as_str()) {
                text
            } else {
                join(dir, text.as_str())
            };
            let title = match pending {
                Some(t) => string_from(&t),
                None => title_for_path(target.as_str()),
            };
            (None, Some((title, target)))
        },
        M3uSource::Remote => {
            if is_url(text.as_str()) {
                let title = match pending {
                    Some(t) => string_from(&t),
                    None => title_for_url(text.as_str()),
                };
                (None, Some((title, text)))
            } else {
                (pending, None)
            }
        },
    }
}

/// The `(title, target)` entries of playlist text, in order.  Relative
/// entries of a local playlist are resolved against `dir`.
pub fn parse_m3u_text(source: M3uSource, dir: &str, content: &str) -> (r: Vec<(String, String)>)
    ensures
        entry_views(r@) == m3u_entries(source, dir@, content@, None),
{
    let cs = chars_of(content);
    let n = cs.len();
    let mut out: Vec<(String, String)> = Vec::new();
    let mut pending: Option<Vec<char>> = None;
    let mut start: usize = 0;
    assert(entry_views(out@) =~= Seq::<(Seq<char>, Seq<char>)>::empty());
    assert(cs@.subrange(0, n as int) =~= cs@);
    assert(Seq::<(Seq<char>, Seq<char>)>::empty() + m3u_entries(source, dir@, content@, None)
        =~= m3u_entries(source, dir@, content@, None));
    loop
        invariant
            n == cs@.len(),
            start <= n,
            cs@ == content@,
            entry_views(out@) + m3u_entries(
                source,
                dir@,
                cs@.subrange(start as int, n as int),
                opt_view(pending),
            ) == m3u_entries(source, dir@, content@, None),
        decreases n - start,
    {
        let ghost rest = cs@.subrange(start as int, n as int);
        let ghost pv = opt_view(pending);
        let k = find_char_from(&cs, '\n', start);
        proof {
            lemma_find_from(cs@, '\n', start as int);
            lemma_find_from_suffix(cs@, '\n', start as int, 0);
            assert(rest.subrange(0, k - start) =~= cs@.subrange(start as int, k as int));
        }
        let line = trim(&slice_of(&cs, start, k));
        let (np, item) = entry_step(&source, dir, &line, pending);
        let ghost before = out@;
        match item {
            Some(e) => {
                out.push(e);
            },
            None => {},
        }
        proof {
            let step = m3u_step(source, dir@, line@, pv);
            let head = match step.1 {
                Some(e) => seq![e],
                None => Seq::<(Seq<char>, Seq<char>)>::empty(),
            };
            assert(entry_views(out@) =~= entry_views(before) + head);
        }
        pending = np;
        if k < n {
            proof {
                assert(rest.subrange(k - start + 1, rest.len() as int) =~= cs@.subrange(
                    k + 1,
                    n as int,
                ));
            }
            start = k + 1;
        } else {
            proof {
                assert(entry_views(out@) + Seq::<(Seq<char>, Seq<char>)>::empty() =~= entry_views(
                    out@,
                ));
            }
            return out;
        }
    }
}

/// The `(title, path)` entries of the playlist file `file` whose text is
/// `content`; relative entries are resolved against the file's directory.
pub fn parse_m3u(file: &str, content: &str) -> (r: Vec<(String, String)>)
    ensures
        entry_views(r@) == m3u_entries(M3uSource::Local, playlist_dir(file@), content@, None),
{
    let dir = match parent(file) {
        Some(d) => d,
        None => ".".to_string(),
    };
    parse_m3u_text(M3uSource::Local, dir.as_str(), content)
}

/// The `(title, address)` entries of a playlist fetched from an address;
/// only `http://` and `https://` entries are kept.
pub fn parse_remote_m3u(content: &str) -> (r: Vec<(String, String)>)
    ensures
        entry_views(r@) == m3u_entries(M3uSource::Remote, ""@, content@, None),
{
    parse_m3u_text(M3uSource::Remote, "", content)
}

} // verus!
