//! The recent-files list and the saved URL playlists.
use vstd::prelude::*;
use crate::text::{chars_of, trim, string_from, trimmed};
use crate::titles::{looks_like_m3u_url, looks_like_m3u_url_spec, title_for_url, url_title};
use crate::m3u::{entry_views, m3u_entries, parse_remote_m3u, M3uSource};
use crate::state::PlayerState;
use crate::titles::{
    file_stem, is_placeholder_title, is_placeholder_title_spec, is_real_title, is_url,
    is_url_fragment, is_url_spec, path_title, spec_file_stem, title_for_path,
};

verus! {

/// How many entries the recent-files list keeps.
pub const RECENT_LIMIT: usize = 10;

/// A file or address that was played, with the title it was shown under.
#[derive(Clone, Debug)]
pub struct RecentEntry {
    pub path: String,
    pub title: String,
}

impl RecentEntry {
    /// A copy of this entry.
    pub fn copied(&self) -> (r: RecentEntry)
        ensures
            r == *self,
    {
        RecentEntry { path: self.path.clone(), title: self.title.clone() }
    }
}

/// The entries of `es` whose path does not read `p`, in order.
pub open spec fn recent_without(es: Seq<RecentEntry>, p: Seq<char>) -> Seq<RecentEntry>
    decreases es.len(),
{
    if es.len() == 0 {
        seq![]
    } else {
        let rest = recent_without(es.drop_last(), p);
        if es.last().path@ != p {
            rest.push(es.last())
        } else {
            rest
        }
    }
}

/// The entries that follow a newly played file with path `p` in the recent
/// list: the older entries with other paths, in order, as many as fit under
/// [`RECENT_LIMIT`] together with the new one.
pub open spec fn recent_tail(es: Seq<RecentEntry>, p: Seq<char>) -> Seq<RecentEntry> {
    let rest = recent_without(es, p);
    if rest.len() + 1 <= RECENT_LIMIT {
        rest
    } else {
        rest.subrange(0, RECENT_LIMIT - 1)
    }
}

pub proof fn lemma_recent_without(es: Seq<RecentEntry>, p: Seq<char>)
    ensures
        recent_without(es, p).len() <= es.len(),
        forall|k: int|
            0 <= k < recent_without(es, p).len() ==> (#[trigger] recent_without(es, p)[k]).path@
                != p,
        forall|k: int|
            0 <= k < recent_without(es, p).len() ==> es.contains(
                #[trigger] recent_without(es, p)[k],
            ),
    decreases es.len(),
{
    if es.len() > 0 {
        lemma_recent_without(es.drop_last(), p);
        let rest = recent_without(es.drop_last(), p);
        assert forall|k: int| 0 <= k < rest.len() implies es.contains(#[trigger] rest[k]) by {
            assert(es.drop_last().contains(rest[k]));
            let j = choose|j: int| 0 <= j < es.drop_last().len() && es.drop_last()[j] == rest[k];
            assert(es[j] == rest[k]);
        }
        if es.last().path@ != p {
            assert(es[es.len() - 1] == es.last());
        }
    }
}

fn without_path(es: &Vec<RecentEntry>, p: &String) -> (r: Vec<RecentEntry>)
    ensures
        r@ == recent_without(es@, p@),
{
    let mut r: Vec<RecentEntry> = Vec::new();
    let mut i: usize = 0;
    while i < es.len()
        invariant
            i <= es@.len(),
            r@ == recent_without(es@.subrange(0, i as int), p@),
        decreases es.len() - i,
    {
        assert(es@.subrange(0, i + 1).drop_last() =~= es@.subrange(0, i as int));
        if !(es[i].path == *p) {
            r.push(es[i].copied());
        }
        i = i + 1;
    }
    assert(es@.subrange(0, es@.len() as int) =~= es@);
    r
}

/// Put a played file at the front of the recent list.
pub fn push_recent(entries: &Vec<RecentEntry>, path: &str, title: &str) -> (r: Vec<RecentEntry>)
    ensures
        r@.len() >= 1,
        r@[0].path@ == path@,
        r@[0].title@ == title@,
        r@.subrange(1, r@.len() as int) == recent_tail(entries@, path@),
{
    let p = path.to_string();
    let mut r: Vec<RecentEntry> = Vec::new();
    r.push(RecentEntry { path: path.to_string(), title: title.to_string() });
    let rest = without_path(entries, &p);
    let mut i: usize = 0;
    while i < rest.len() && i + 1 < RECENT_LIMIT
        invariant
            i <= rest@.len(),
            i + 1 <= RECENT_LIMIT,
            r@.len() == i + 1,
            r@[0].path@ == path@,
            r@[0].title@ == title@,
            r@.subrange(1, r@.len() as int) == rest@.subrange(0, i as int),
        decreases rest.len() - i,
    {
        let ghost before = r@;
        r.push(rest[i].copied());
        i = i + 1;
        assert(r@.subrange(1, r@.len() as int) =~= rest@.subrange(0, i as int));
    }
    assert(rest@.subrange(0, rest@.len() as int) =~= rest@);
    r
}

/// Drop every entry with the given path from the recent list.
pub fn remove_recent(entries: &Vec<RecentEntry>, path: &str) -> (r: Vec<RecentEntry>)
    ensures
        r@ == recent_without(entries@, path@),
{
    without_path(entries, &path.to_string())
}

/// After playing a file, the recent list holds it first and nowhere else,
/// at most [`RECENT_LIMIT`] entries in all, and every other entry was in the
/// list before.
pub proof fn lemma_recent_push(es: Seq<RecentEntry>, p: Seq<char>)
    ensures
        recent_tail(es, p).len() + 1 <= RECENT_LIMIT,
        forall|k: int|
            0 <= k < recent_tail(es, p).len() ==> (#[trigger] recent_tail(es, p)[k]).path@ != p,
        forall|k: int|
            0 <= k < recent_tail(es, p).len() ==> es.contains(#[trigger] recent_tail(es, p)[k]),
{
    lemma_recent_without(es, p);
    let rest = recent_without(es, p);
    assert forall|k: int| 0 <= k < recent_tail(es, p).len() implies (#[trigger] recent_tail(
        es,
        p,
    )[k]).path@ != p && es.contains(recent_tail(es, p)[k]) by {
        assert(recent_tail(es, p)[k] == rest[k]);
    }
}

/// A named list of addresses the user saved.
#[derive(Clone, Debug)]
pub struct SavedPlaylist {
    pub name: String,
    pub urls: Vec<String>,
}

/// All saved address playlists.
#[derive(Clone, Debug)]
pub struct SavedPlaylists {
    pub playlists: Vec<SavedPlaylist>,
}

/// The first position at or after `i` of a playlist named `name`, or the
/// length.
pub open spec fn name_position_from(ps: Seq<SavedPlaylist>, name: Seq<char>, i: int) -> int
    decreases ps.len() - i,
{
    if i < 0 || i >= ps.len() {
        ps.len() as int
    } else if ps[i].name@ == name {
        i
    } else {
        name_position_from(ps, name, i + 1)
    }
}

pub proof fn lemma_name_position_from(ps: Seq<SavedPlaylist>, name: Seq<char>, i: int)
    requires
        0 <= i <= ps.len(),
    ensures
        i <= name_position_from(ps, name, i) <= ps.len(),
        name_position_from(ps, name, i) < ps.len() ==> ps[name_position_from(ps, name, i)].name@
            == name,
        forall|k: int| i <= k < name_position_from(ps, name, i) ==> ps[k].name@ != name,
    decreases ps.len() - i,
{
    if i < ps.len() && ps[i].name@ != name {
        lemma_name_position_from(ps, name, i + 1);
    }
}

/// The saved playlists after saving `urls` under `name`: the first playlist
/// of that name gets the addresses, or a new one is added at the end.
pub open spec fn playlists_after_save(
    ps: Seq<SavedPlaylist>,
    name: String,
    urls: Vec<String>,
) -> Seq<SavedPlaylist> {
    let i = name_position_from(ps, name@, 0);
    if i < ps.len() {
        ps.update(i, SavedPlaylist { name: ps[i].name, urls: urls })
    } else {
        ps.push(SavedPlaylist { name: name, urls: urls })
    }
}

/// A playlist saved under a name is the one found under that name
/// afterwards, with the addresses just saved; the other playlists stay.
pub proof fn lemma_save_then_find(ps: Seq<SavedPlaylist>, name: String, urls: Vec<String>)
    ensures
        ({
            let after = playlists_after_save(ps, name, urls);
            let i = name_position_from(after, name@, 0);
            &&& i < after.len()
            &&& after[i].name@ == name@
            &&& after[i].urls == urls
            &&& forall|k: int| 0 <= k < ps.len() && k != i ==> after[k] == ps[k]
        }),
{
    lemma_name_position_from(ps, name@, 0);
    let i = name_position_from(ps, name@, 0);
    let after = playlists_after_save(ps, name, urls);
    lemma_name_position_from(after, name@, 0);
    let j = name_position_from(after, name@, 0);
    if i < ps.len() {
        assert(after[i].name@ == name@);
        assert(j <= i);
        if j < i {
            assert(after[j] == ps[j]);
        }
    } else {
        assert(after[ps.len() as int].name@ == name@);
        if j < ps.len() {
            assert(after[j] == ps[j]);
        }
    }
}

/// The playlists not named `name`, in order.
pub open spec fn playlists_without(ps: Seq<SavedPlaylist>, name: Seq<char>) -> Seq<SavedPlaylist>
    decreases ps.len(),
{
    if ps.len() == 0 {
        seq![]
    } else {
        let rest = playlists_without(ps.drop_last(), name);
        if ps.last().name@ != name {
            rest.push(ps.last())
        } else {
            rest
        }
    }
}

proof fn lemma_playlists_without_append(a: Seq<SavedPlaylist>, b: Seq<SavedPlaylist>, name: Seq<
    char,
>)
    ensures
        playlists_without(a + b, name) == playlists_without(a, name) + playlists_without(b, name),
    decreases b.len(),
{
    if b.len() == 0 {
        assert(a + b =~= a);
        assert(playlists_without(a, name) + playlists_without(b, name) =~= playlists_without(
            a,
            name,
        ));
    } else {
        lemma_playlists_without_append(a, b.drop_last(), name);
        assert((a + b).drop_last() =~= a + b.drop_last());
        let rest_a = playlists_without(a, name);
        let rest_b = playlists_without(b.drop_last(), name);
        if b.last().name@ != name {
            assert(rest_a + rest_b.push(b.last()) =~= (rest_a + rest_b).push(b.last()));
        }
    }
}

/// The positions `k` in `0..n` of playlists not named `name`, in
/// increasing order.
pub open spec fn positions_without(ps: Seq<SavedPlaylist>, name: Seq<char>, n: int) -> Seq<usize>
    decreases n,
{
    if n <= 0 {
        seq![]
    } else {
        let rest = positions_without(ps, name, n - 1);
        if ps[n - 1].name@ != name {
            rest.push((n - 1) as usize)
        } else {
            rest
        }
    }
}

/// The texts typed into address rows that hold something once surrounding
/// whitespace is removed, so trimmed, in order.
pub open spec fn typed_urls(texts: Seq<String>) -> Seq<Seq<char>>
    decreases texts.len(),
{
    if texts.len() == 0 {
        seq![]
    } else {
        let rest = typed_urls(texts.drop_last());
        let t = trimmed(texts.last()@);
        if t.len() > 0 {
            rest.push(t)
        } else {
            rest
        }
    }
}

/// The addresses typed into the rows of the playlist editor: each trimmed,
/// empty ones left out.
pub fn collect_urls(texts: &Vec<String>) -> (r: Vec<String>)
    ensures
        r@.map_values(|s: String| s@) == typed_urls(texts@),
{
    let mut r: Vec<String> = Vec::new();
    let mut i: usize = 0;
    while i < texts.len()
        invariant
            i <= texts@.len(),
            r@.map_values(|s: String| s@) == typed_urls(texts@.subrange(0, i as int)),
        decreases texts.len() - i,
    {
        assert(texts@.subrange(0, i + 1).drop_last() =~= texts@.subrange(0, i as int));
        let t = trim(&chars_of(texts[i].as_str()));
        let ghost before = r@;
        if t.len() > 0 {
            r.push(string_from(&t));
            assert(r@.map_values(|s: String| s@) =~= before.map_values(|s: String| s@).push(t@));
        }
        i = i + 1;
    }
    assert(texts@.subrange(0, texts@.len() as int) =~= texts@);
    r
}

impl SavedPlaylists {
    pub fn new() -> (r: SavedPlaylists)
        ensures
            r.playlists@.len() == 0,
    {
        SavedPlaylists { playlists: Vec::new() }
    }

    /// Save `urls` under `name`: the first playlist of that name gets the
    /// new addresses, or a new playlist is added at the end.  Nothing is
    /// saved when the name or the list is empty; the result says whether
    /// something was.
    pub fn save(&mut self, name: String, urls: Vec<String>) -> (r: bool)
        ensures
            r == (name@.len() > 0 && urls@.len() > 0),
            !r ==> final(self).playlists@ == old(self).playlists@,
            r ==> final(self).playlists@ == playlists_after_save(old(self).playlists@, name, urls),
    {
        if name.as_str().unicode_len() == 0 || urls.len() == 0 {
            return false;
        }
        let mut i: usize = 0;
        while i < self.playlists.len() && !(self.playlists[i].name == name)
            invariant
                i <= self.playlists@.len(),
                self.playlists@ == old(self).playlists@,
                name_position_from(self.playlists@, name@, 0) == name_position_from(
                    self.playlists@,
                    name@,
                    i as int,
                ),
            decreases self.playlists.len() - i,
        {
            i = i + 1;
        }
        if i < self.playlists.len() {
            let kept_name = self.playlists[i].name.clone();
            self.playlists.set(i, SavedPlaylist { name: kept_name, urls });
        } else {
            self.playlists.push(SavedPlaylist { name, urls });
        }
        true
    }

    /// Delete every playlist named `name`.
    pub fn delete(&mut self, name: &str)
        ensures
            final(self).playlists@ == playlists_without(old(self).playlists@, name@),
    {
        let target = name.to_string();
        let mut src: Vec<SavedPlaylist> = Vec::new();
        std::mem::swap(&mut src, &mut self.playlists);
        let ghost all = src@;
        while src.len() > 0
            invariant
                playlists_without(self.playlists@, target@) == self.playlists@,
                self.playlists@ + playlists_without(src@, target@) == playlists_without(
                    all,
                    target@,
                ),
            decreases src.len(),
        {
            let ghost before = src@;
            let p = src.remove(0);
            proof {
                assert(before =~= seq![p] + src@);
                lemma_playlists_without_append(seq![p], src@, target@);
                assert(seq![p].drop_last() =~= Seq::<SavedPlaylist>::empty());
                assert(playlists_without(Seq::<SavedPlaylist>::empty(), target@) =~= Seq::<
                    SavedPlaylist,
                >::empty());
            }
            let ghost kept = self.playlists@;
            if !(p.name == target) {
                self.playlists.push(p);
                proof {
                    assert(playlists_without(seq![p], target@) =~= seq![p]);
                    assert(self.playlists@.drop_last() =~= kept);
                    assert(self.playlists@ + playlists_without(src@, target@) =~= kept + (seq![p]
                        + playlists_without(src@, target@)));
                }
            } else {
                proof {
                    assert(playlists_without(seq![p], target@) =~= Seq::<SavedPlaylist>::empty());
                    assert(seq![p] + src@ =~= before);
                    assert(Seq::<SavedPlaylist>::empty() + playlists_without(src@, target@)
                        =~= playlists_without(src@, target@));
                }
            }
        }
        assert(self.playlists@ + Seq::<SavedPlaylist>::empty() =~= self.playlists@);
    }

    /// The positions of the playlists listed under the editor: all but the
    /// one being edited, whose name is the editor's name field without
    /// surrounding whitespace.
    pub fn visible(&self, editing: &str) -> (r: Vec<usize>)
        ensures
            r@ == positions_without(
                self.playlists@,
                trimmed(editing@),
                self.playlists@.len() as int,
            ),
    {
        let t = string_from(&trim(&chars_of(editing)));
        let mut r: Vec<usize> = Vec::new();
        let mut i: usize = 0;
        while i < self.playlists.len()
            invariant
                i <= self.playlists@.len(),
                t@ == trimmed(editing@),
                r@ == positions_without(self.playlists@, t@, i as int),
            decreases self.playlists.len() - i,
        {
            if !(self.playlists[i].name == t) {
                r.push(i);
            }
            i = i + 1;
        }
        r
    }
}

/// An address entry: its hostname as title, and the address.
pub open spec fn plain_item(u: Seq<char>) -> (Seq<char>, Seq<char>) {
    (url_title(u), u)
}

/// The items a list of addresses plays, where `fetched[i]` is the text of
/// the playlist fetched from `urls[i]` when that address looks like an M3U
/// playlist (`None` when fetching failed): a fetched playlist contributes
/// its address entries, and an address that is no playlist, or whose
/// playlist gave nothing, stands for itself.
pub open spec fn expanded_items(
    urls: Seq<Seq<char>>,
    fetched: Seq<Option<Seq<char>>>,
) -> Seq<(Seq<char>, Seq<char>)>
    decreases urls.len(),
{
    if urls.len() == 0 {
        seq![]
    } else {
        let n = (urls.len() - 1) as int;
        let rest = expanded_items(urls.drop_last(), fetched.subrange(0, n));
        let u = urls[n];
        let got = if looks_like_m3u_url_spec(u) {
            match fetched[n] {
                Some(text) => m3u_entries(M3uSource::Remote, ""@, text, None),
                None => Seq::empty(),
            }
        } else {
            Seq::empty()
        };
        if got.len() > 0 {
            rest + got
        } else {
            rest.push(plain_item(u))
        }
    }
}

/// Expand the M3U addresses among `urls` into their entries; see
/// [`expanded_items`].
pub fn expand_m3u_urls(urls: &Vec<String>, fetched: &Vec<Option<String>>) -> (r: Vec<
    (String, String),
>)
    requires
        fetched@.len() == urls@.len(),
    ensures
        entry_views(r@) == expanded_items(
            urls@.map_values(|s: String| s@),
            fetched@.map_values(
                |o: Option<String>|
                    match o {
                        Some(s) => Some(s@),
                        None => None,
                    },
            ),
        ),
{
    let ghost uv = urls@.map_values(|s: String| s@);
    let ghost fv = fetched@.map_values(
        |o: Option<String>|
            match o {
                Some(s) => Some(s@),
                None => None,
            },
    );
    let mut r: Vec<(String, String)> = Vec::new();
    let mut i: usize = 0;
    while i < urls.len()
        invariant
            i <= urls@.len(),
            fetched@.len() == urls@.len(),
            uv == urls@.map_values(|s: String| s@),
            fv == fetched@.map_values(
                |o: Option<String>|
                    match o {
                        Some(s) => Some(s@),
                        None => None,
                    },
            ),
            entry_views(r@) == expanded_items(
                uv.subrange(0, i as int),
                fv.subrange(0, i as int),
            ),
        decreases urls.len() - i,
    {
        let ghost before = entry_views(r@);
        assert(uv.subrange(0, i + 1).drop_last() =~= uv.subrange(0, i as int));
        assert(fv.subrange(0, i + 1).subrange(0, i as int) =~= fv.subrange(0, i as int));
        let u = &urls[i];
        let mut got: Vec<(String, String)> = Vec::new();
        if looks_like_m3u_url(u.as_str()) {
            match &fetched[i] {
                Some(text) => {
                    got = parse_remote_m3u(text.as_str());
                },
                None => {},
            }
        }
        if got.len() > 0 {
            let ghost g = got@;
            r.append(&mut got);
            assert(entry_views(r@) =~= before + entry_views(g));
        } else {
            r.push((title_for_url(u.as_str()), u.clone()));
            assert(entry_views(r@) =~= before.push(plain_item(u@)));
        }
        i = i + 1;
    }
    assert(uv.subrange(0, urls@.len() as int) =~= uv);
    assert(fv.subrange(0, urls@.len() as int) =~= fv);
    r
}


/// The playlist entry at `i`, if there is one.
pub open spec fn entry_at(s: Seq<String>, i: int) -> Option<String> {
    if 0 <= i < s.len() {
        Some(s[i])
    } else {
        None
    }
}

/// Decides when a played entry goes into the recent list.  A file goes in as
/// soon as it starts; an address waits until the player reports its real
/// title, or until playback stops.
pub struct RecentTracker {
    /// The playlist index of an address waiting for its title.
    pub pending_idx: Option<usize>,
}

impl RecentTracker {
    pub fn new() -> (r: RecentTracker)
        ensures
            r.pending_idx is None,
    {
        RecentTracker { pending_idx: None }
    }

    /// Playback started.  For a current file, the entry to record: its path
    /// under the reported media title, else its file stem, else `?`.  For a
    /// current address, nothing yet; it waits for its title.
    pub fn playback_started(&mut self, state: &PlayerState, media_title: Option<&str>) -> (r: Option<
        RecentEntry,
    >)
        ensures
            match state.current_idx {
                Some(i) => match entry_at(state.playlist@, i as int) {
                    Some(p) => if is_url_spec(p@) {
                        &&& r is None
                        &&& final(self).pending_idx == Some(i)
                    } else {
                        &&& final(self).pending_idx == old(self).pending_idx
                        &&& r matches Some(e) && e.path == p && e.title@ == match media_title {
                            Some(t) => t@,
                            None => match spec_file_stem(p@) {
                                Some(stem) => stem,
                                None => "?"@,
                            },
                        }
                    },
                    None => r is None && final(self).pending_idx == old(self).pending_idx,
                },
                None => r is None && final(self).pending_idx == old(self).pending_idx,
            },
    {
        match state.current_idx {
            Some(i) => if i < state.playlist.len() {
                let p = &state.playlist[i];
                if is_url(p.as_str()) {
                    self.pending_idx = Some(i);
                    None
                } else {
                    let title = match media_title {
                        Some(t) => t.to_string(),
                        None => match file_stem(p.as_str()) {
                            Some(s) => s,
                            None => "?".to_string(),
                        },
                    };
                    Some(RecentEntry { path: p.clone(), title })
                }
            } else {
                None
            },
            None => None,
        }
    }

    /// Playback stopped.  An address still waiting for its title goes into
    /// the recent list under the title its row shows (`titles` holds the row
    /// titles), else its derived title; nothing waits any more.
    pub fn playback_stopped(&mut self, state: &PlayerState, titles: &Vec<String>) -> (r: Option<
        RecentEntry,
    >)
        ensures
            final(self).pending_idx is None,
            match old(self).pending_idx {
                Some(k) => match entry_at(state.playlist@, k as int) {
                    Some(p) => r matches Some(e) && e.path == p && e.title@ == match entry_at(
                        titles@,
                        k as int,
                    ) {
                        Some(t) => t@,
                        None => path_title(p@),
                    },
                    None => r is None,
                },
                None => r is None,
            },
    {
        let r = match self.pending_idx {
            Some(k) => if k < state.playlist.len() {
                let p = &state.playlist[k];
                let title = if k < titles.len() {
                    titles[k].clone()
                } else {
                    title_for_path(p.as_str())
                };
                Some(RecentEntry { path: p.clone(), title })
            } else {
                None
            },
            None => None,
        };
        self.pending_idx = None;
        r
    }

    /// The player reported `real_title` for the current entry.  When the
    /// entry is an address whose row still shows a placeholder (see
    /// [`is_placeholder_title_spec`], against the address's derived title),
    /// the row is to be renamed (first result); and when the reported title
    /// is a real one and this address waits for its title, it goes into the
    /// recent list under that title (second result) and stops waiting.
    pub fn title_reported(
        &mut self,
        state: &PlayerState,
        titles: &Vec<String>,
        real_title: &str,
    ) -> (r: (bool, Option<RecentEntry>))
        ensures
            ({
                let placeholder = match state.current_idx {
                    Some(i) => match entry_at(state.playlist@, i as int) {
                        Some(p) => is_url_spec(p@) && match entry_at(titles@, i as int) {
                            Some(t) => is_placeholder_title_spec(t@, path_title(p@)),
                            None => false,
                        },
                        None => false,
                    },
                    None => false,
                };
                let record = placeholder && !is_url_fragment(real_title@) && old(
                    self,
                ).pending_idx == state.current_idx;
                &&& r.0 == placeholder
                &&& record ==> {
                    &&& r.1 matches Some(e) && e.path == state.playlist@[
                        state.current_idx.unwrap() as int
                    ] && e.title@ == real_title@
                    &&& final(self).pending_idx is None
                }
                &&& !record ==> r.1 is None && final(self).pending_idx == old(self).pending_idx
            }),
    {
        let i = match state.current_idx {
            Some(i) => i,
            None => return (false, None),
        };
        if i >= state.playlist.len() || i >= titles.len() {
            return (false, None);
        }
        let p = &state.playlist[i];
        if !is_url(p.as_str()) {
            return (false, None);
        }
        let fallback = title_for_path(p.as_str());
        if !is_placeholder_title(titles[i].as_str(), fallback.as_str()) {
            return (false, None);
        }
        if is_real_title(real_title) && self.pending_idx == Some(i) {
            self.pending_idx = None;
            (true, Some(RecentEntry { path: p.clone(), title: real_title.to_string() }))
        } else {
            (true, None)
        }
    }
}

} // verus!
