//! The playback context (the tracks that playback follows in the view the
//! user looks at) and the changes that the user's actions make to the
//! library state.
use vstd::prelude::*;
use crate::groups::{
    album_groups_of, album_groups_view, album_keys, album_member_keys, album_order_keys,
    artist_groups_of, artist_member_keys, artist_names, group_heads, group_members, member_pred,
    name_keys, named_groups_view,
};
use crate::library::{
    copy_indices, index_range, indices_equal, position_in, position_of, tracks_view, view_queue,
    wf, AlbumGroup, App, AppView, LibraryView,
};
use crate::order::sorted_indices;
use crate::text::strings_equal;
use crate::track::{Track, TrackView};

verus! {

/// The first artist group, from position `start` on, with the given name.
pub open spec fn find_artist_group(
    groups: Seq<(Seq<char>, Seq<usize>)>,
    name: Seq<char>,
    start: int,
) -> Option<int>
    decreases groups.len() - start,
{
    if start < 0 || start >= groups.len() {
        None
    } else if groups[start].0 == name {
        Some(start)
    } else {
        find_artist_group(groups, name, start + 1)
    }
}

/// The first album group, from position `start` on, with the given key.
pub open spec fn find_album_group(
    groups: Seq<crate::library::AlbumGroupView>,
    key: Seq<char>,
    start: int,
) -> Option<int>
    decreases groups.len() - start,
{
    if start < 0 || start >= groups.len() {
        None
    } else if groups[start].key == key {
        Some(start)
    } else {
        find_album_group(groups, key, start + 1)
    }
}

/// The tracks that playback follows: the unfolded album or artist when
/// there is one, the queue in the queue view, else what the view lists.
pub open spec fn context_queue(s: AppView) -> Seq<usize> {
    match s.library_view {
        LibraryView::Albums => match s.expanded_album {
            Some(k) => match find_album_group(album_groups_of(s.tracks), k, 0) {
                Some(p) => album_groups_of(s.tracks)[p].indices,
                None => view_queue(s),
            },
            None => view_queue(s),
        },
        LibraryView::Artists => match s.expanded_artist {
            Some(a) => match find_artist_group(artist_groups_of(s.tracks), a, 0) {
                Some(p) => artist_groups_of(s.tracks)[p].1,
                None => view_queue(s),
            },
            None => view_queue(s),
        },
        LibraryView::Queue => s.play_queue,
        LibraryView::Tracks => view_queue(s),
    }
}

/// The state with the queue following the context: in the artists and
/// albums views, when the track being played is in a non-empty context
/// other than the queue, the context becomes the queue, positioned at that
/// track, with a fresh shuffle history.
pub open spec fn synced(s: AppView) -> AppView {
    match s.current {
        None => s,
        Some(cur) => if s.library_view != LibraryView::Artists && s.library_view
            != LibraryView::Albums {
            s
        } else {
            let q = context_queue(s);
            if q.len() == 0 || s.play_queue == q {
                s
            } else {
                match position_of(q, cur) {
                    None => s,
                    Some(p) => AppView {
                        play_queue: q,
                        queue_pos: Some(p as usize),
                        shuffle_history: seq![p as usize],
                        ..s
                    },
                }
            }
        },
    }
}

/// The state after the user selects a view: switching to albums folds the
/// artist, to artists folds the album, to tracks or the queue folds both.
pub open spec fn with_view(s: AppView, view: LibraryView) -> AppView {
    AppView {
        library_view: view,
        expanded_artist: if view == LibraryView::Artists {
            s.expanded_artist
        } else {
            None
        },
        expanded_album: if view == LibraryView::Albums {
            s.expanded_album
        } else {
            None
        },
        ..s
    }
}

/// Unfolds the named item, or folds it when it is the one unfolded.
pub open spec fn toggled(expanded: Option<Seq<char>>, name: Seq<char>) -> Option<Seq<char>> {
    if expanded == Some(name) {
        None
    } else {
        Some(name)
    }
}

/// The state with the given artist unfolded (or none).
pub open spec fn with_expanded_artist(s: AppView, a: Option<Seq<char>>) -> AppView {
    AppView { expanded_artist: a, ..s }
}

/// The state with the given album key unfolded (or none).
pub open spec fn with_expanded_album(s: AppView, a: Option<Seq<char>>) -> AppView {
    AppView { expanded_album: a, ..s }
}

/// The state with shuffling switched on or off.
pub open spec fn with_shuffle(s: AppView, on: bool) -> AppView {
    AppView { shuffle: on, ..s }
}

/// The state after the shuffle button: switching shuffling on first makes
/// the context the queue.
pub open spec fn shuffle_toggled(s: AppView) -> AppView {
    if s.shuffle {
        with_shuffle(s, false)
    } else {
        synced(with_shuffle(s, true))
    }
}

/// The state with an empty queue, no position and no shuffle history.
pub open spec fn queue_cleared(s: AppView) -> AppView {
    AppView { play_queue: Seq::empty(), queue_pos: None, shuffle_history: Seq::empty(), ..s }
}

/// The state with one more track, unless one has its file already.
pub open spec fn with_track(s: AppView, t: TrackView) -> AppView {
    if has_path(s.tracks, t.path) {
        s
    } else {
        AppView { tracks: s.tracks.push(t), ..s }
    }
}

/// The state with track `idx` playing, when it is a track of the library.
pub open spec fn with_current(s: AppView, idx: usize) -> AppView {
    if idx < s.tracks.len() {
        AppView { current: Some(idx), ..s }
    } else {
        s
    }
}

/// Whether a track of the library has the given file.
pub open spec fn has_path(tracks: Seq<TrackView>, path: Seq<char>) -> bool {
    exists|i: int| 0 <= i < tracks.len() && #[trigger] tracks[i].path == path
}

/// A group found by name lies at or after the start of the search.
pub proof fn lemma_find_artist_group_found(
    groups: Seq<(Seq<char>, Seq<usize>)>,
    name: Seq<char>,
    start: int,
)
    requires
        0 <= start,
    ensures
        find_artist_group(groups, name, start) matches Some(p) ==> start <= p < groups.len(),
    decreases groups.len() - start,
{
    if start < groups.len() && groups[start].0 != name {
        lemma_find_artist_group_found(groups, name, start + 1);
    }
}

/// A group found by key lies at or after the start of the search.
pub proof fn lemma_find_album_group_found(
    groups: Seq<crate::library::AlbumGroupView>,
    key: Seq<char>,
    start: int,
)
    requires
        0 <= start,
    ensures
        find_album_group(groups, key, start) matches Some(p) ==> start <= p < groups.len(),
    decreases groups.len() - start,
{
    if start < groups.len() && groups[start].key != key {
        lemma_find_album_group_found(groups, key, start + 1);
    }
}

/// The context holds no more tracks than the library, unless it is the
/// queue.
pub proof fn lemma_context_queue_len(s: AppView)
    ensures
        context_queue(s).len() <= s.tracks.len() || context_queue(s) == s.play_queue,
{
    crate::library::lemma_view_queue_len(s);
    let tv = s.tracks;
    match s.library_view {
        LibraryView::Albums => {
            if let Some(k) = s.expanded_album {
                let groups = album_groups_of(tv);
                lemma_find_album_group_found(groups, k, 0);
                if let Some(p) = find_album_group(groups, k, 0) {
                    let names = album_keys(tv);
                    let heads = sorted_indices(group_heads(names), album_order_keys(tv));
                    crate::order::lemma_sorted_indices_len(
                        group_heads(names),
                        album_order_keys(tv),
                    );
                    let h = heads[p];
                    let members = group_members(names, names[h as int]);
                    crate::order::lemma_sorted_indices_len(members, album_member_keys(tv));
                    index_range(names.len()).lemma_filter_len(member_pred(names, names[h as int]));
                }
            }
        },
        LibraryView::Artists => {
            if let Some(a) = s.expanded_artist {
                let groups = artist_groups_of(tv);
                lemma_find_artist_group_found(groups, a, 0);
                if let Some(p) = find_artist_group(groups, a, 0) {
                    let names = artist_names(tv);
                    let heads = sorted_indices(group_heads(names), name_keys(names));
                    crate::order::lemma_sorted_indices_len(group_heads(names), name_keys(names));
                    let h = heads[p];
                    let members = group_members(names, names[h as int]);
                    crate::order::lemma_sorted_indices_len(members, artist_member_keys(tv));
                    index_range(names.len()).lemma_filter_len(member_pred(names, names[h as int]));
                }
            }
        },
        _ => {},
    }
}

/// Following the context keeps the invariant and the tracks.
pub proof fn lemma_synced_wf(s: AppView)
    requires
        wf(s),
    ensures
        wf(synced(s)),
        synced(s).tracks == s.tracks,
{
    if let Some(cur) = s.current {
        let q = context_queue(s);
        crate::library::lemma_find_index_found(q, cur, 0);
        lemma_context_queue_len(s);
    }
}

/// The position of the artist group with the given name.
pub fn find_artist_group_pos(groups: &Vec<(String, Vec<usize>)>, name: &String) -> (r: Option<
    usize,
>)
    ensures
        r is None <==> find_artist_group(named_groups_view(groups@), name@, 0) is None,
        r matches Some(p) ==> find_artist_group(named_groups_view(groups@), name@, 0) == Some(
            p as int,
        ) && p < groups@.len(),
{
    let ghost gv = named_groups_view(groups@);
    let mut p: usize = 0;
    while p < groups.len()
        invariant
            p <= groups.len(),
            gv == named_groups_view(groups@),
            find_artist_group(gv, name@, 0) == find_artist_group(gv, name@, p as int),
        decreases groups.len() - p,
    {
        proof {
            assert(gv[p as int] == (groups@[p as int].0@, groups@[p as int].1@));
        }
        if strings_equal(&groups[p].0, name) {
            return Some(p);
        }
        p = p + 1;
    }
    None
}

/// The position of the album group with the given key.
pub fn find_album_group_pos(groups: &Vec<AlbumGroup>, key: &String) -> (r: Option<usize>)
    ensures
        r is None <==> find_album_group(album_groups_view(groups@), key@, 0) is None,
        r matches Some(p) ==> find_album_group(album_groups_view(groups@), key@, 0) == Some(
            p as int,
        ) && p < groups@.len(),
{
    let ghost gv = album_groups_view(groups@);
    let mut p: usize = 0;
    while p < groups.len()
        invariant
            p <= groups.len(),
            gv == album_groups_view(groups@),
            find_album_group(gv, key@, 0) == find_album_group(gv, key@, p as int),
        decreases groups.len() - p,
    {
        proof {
            assert(gv[p as int] == groups@[p as int]@);
        }
        if strings_equal(&groups[p].key, key) {
            return Some(p);
        }
        p = p + 1;
    }
    None
}

impl App {
    /// The tracks that playback follows in the current view.
    pub fn active_context_queue(&self) -> (r: Vec<usize>)
        ensures
            r@ == context_queue(self@),
    {
        match self.library_view {
            LibraryView::Albums => {
                if let Some(expanded_key) = &self.expanded_album {
                    let groups = self.album_groups();
                    if let Some(p) = find_album_group_pos(&groups, expanded_key) {
                        proof {
                            assert(album_groups_view(groups@)[p as int] == groups@[p as int]@);
                            assert(self@.expanded_album == Some(expanded_key@));
                        }
                        return copy_indices(&groups[p].indices);
                    }
                }
                self.current_view_queue()
            },
            LibraryView::Artists => {
                if let Some(expanded_artist) = &self.expanded_artist {
                    let groups = self.artist_groups();
                    if let Some(p) = find_artist_group_pos(&groups, expanded_artist) {
                        proof {
                            assert(named_groups_view(groups@)[p as int] == (
                                groups@[p as int].0@,
                                groups@[p as int].1@,
                            ));
                            assert(self@.expanded_artist == Some(expanded_artist@));
                        }
                        return copy_indices(&groups[p].1);
                    }
                }
                self.current_view_queue()
            },
            LibraryView::Queue => copy_indices(&self.play_queue),
            LibraryView::Tracks => self.current_view_queue(),
        }
    }

    /// In the artists and albums views, makes the context the queue when
    /// the track being played is in it (see `synced`).
    pub fn sync_queue_with_context_if_current_inside(&mut self)
        requires
            wf(old(self)@),
        ensures
            final(self)@ == synced(old(self)@),
            wf(final(self)@),
    {
        proof {
            lemma_synced_wf(self@);
        }
        let current = match self.current {
            Some(c) => c,
            None => return,
        };
        if self.library_view != LibraryView::Artists && self.library_view != LibraryView::Albums {
            return;
        }
        let queue = self.active_context_queue();
        if queue.len() == 0 || indices_equal(&self.play_queue, &queue) {
            return;
        }
        let pos = match position_in(&queue, current) {
            Some(p) => p,
            None => return,
        };
        self.play_queue = queue;
        self.queue_pos = Some(pos);
        self.shuffle_history = Vec::new();
        self.shuffle_history.push(pos);
        proof {
            assert(self@.shuffle_history =~= seq![pos]);
            assert(self@.tracks == old(self)@.tracks);
        }
    }

    /// Selects a view (see `with_view`).
    pub fn select_view(&mut self, view: LibraryView)
        requires
            wf(old(self)@),
        ensures
            final(self)@ == with_view(old(self)@, view),
            wf(final(self)@),
    {
        self.library_view = view;
        if view != LibraryView::Artists {
            self.expanded_artist = None;
        }
        if view != LibraryView::Albums {
            self.expanded_album = None;
        }
        proof {
            assert(self@.tracks == old(self)@.tracks);
        }
    }

    /// Unfolds an artist in the artists view, or folds it when it is the
    /// one unfolded.
    pub fn toggle_expanded_artist(&mut self, artist: &str)
        requires
            wf(old(self)@),
        ensures
            final(self)@ == with_expanded_artist(
                old(self)@,
                toggled(old(self)@.expanded_artist, artist@),
            ),
            wf(final(self)@),
    {
        let selected = match &self.expanded_artist {
            Some(a) => strings_equal(a, &artist.to_owned()),
            None => false,
        };
        if selected {
            self.expanded_artist = None;
        } else {
            self.expanded_artist = Some(artist.to_owned());
        }
        proof {
            assert(self@.tracks == old(self)@.tracks);
        }
    }

    /// Unfolds an album, named by its group key, in the albums view, or
    /// folds it when it is the one unfolded.
    pub fn toggle_expanded_album(&mut self, key: &str)
        requires
            wf(old(self)@),
        ensures
            final(self)@ == with_expanded_album(
                old(self)@,
                toggled(old(self)@.expanded_album, key@),
            ),
            wf(final(self)@),
    {
        let selected = match &self.expanded_album {
            Some(a) => strings_equal(a, &key.to_owned()),
            None => false,
        };
        if selected {
            self.expanded_album = None;
        } else {
            self.expanded_album = Some(key.to_owned());
        }
        proof {
            assert(self@.tracks == old(self)@.tracks);
        }
    }

    /// Switches shuffling on or off; switching it on first makes the
    /// context the queue (see `synced`).
    pub fn toggle_shuffle(&mut self)
        requires
            wf(old(self)@),
        ensures
            final(self)@ == shuffle_toggled(old(self)@),
            wf(final(self)@),
    {
        self.shuffle = !self.shuffle;
        proof {
            assert(self@.tracks == old(self)@.tracks);
        }
        if self.shuffle {
            self.sync_queue_with_context_if_current_inside();
        }
    }

    /// Empties the queue, its position and the shuffle history.
    pub fn clear_queue(&mut self)
        requires
            wf(old(self)@),
        ensures
            final(self)@ == queue_cleared(old(self)@),
            wf(final(self)@),
    {
        self.play_queue = Vec::new();
        self.queue_pos = None;
        self.shuffle_history = Vec::new();
        proof {
            assert(self@.tracks == old(self)@.tracks);
            assert(self@.play_queue =~= Seq::<usize>::empty());
            assert(self@.shuffle_history =~= Seq::<usize>::empty());
        }
    }

    /// Whether a track of the library has the given file.
    pub fn has_track_path(&self, path: &str) -> (r: bool)
        ensures
            r == has_path(self@.tracks, path@),
    {
        let ghost tv = self@.tracks;
        let p = path.to_owned();
        let mut i: usize = 0;
        while i < self.tracks.len()
            invariant
                i <= self.tracks.len(),
                tv == tracks_view(self.tracks@),
                p@ == path@,
                forall|k: int| 0 <= k < i ==> tv[k].path != path@,
            decreases self.tracks.len() - i,
        {
            proof {
                assert(tv[i as int] == self.tracks@[i as int]@);
            }
            if strings_equal(&self.tracks[i].path, &p) {
                proof {
                    assert(tv[i as int].path == path@);
                }
                return true;
            }
            i = i + 1;
        }
        false
    }

    /// Adds a track unless a track of the library has its file already;
    /// tells whether it was added.
    pub fn add_track(&mut self, track: Track) -> (added: bool)
        requires
            wf(old(self)@),
        ensures
            added == !has_path(old(self)@.tracks, track@.path),
            final(self)@ == with_track(old(self)@, track@),
            wf(final(self)@),
    {
        if self.has_track_path(track.path.as_str()) {
            return false;
        }
        let ghost t = track@;
        self.tracks.push(track);
        let _count = self.tracks.len();
        proof {
            assert(self@.tracks =~= old(self)@.tracks.push(t));
            assert forall|i: int, j: int|
                0 <= i < j < self@.tracks.len() implies #[trigger] self@.tracks[i].path
                != #[trigger] self@.tracks[j].path by {
                if j == old(self)@.tracks.len() {
                    assert(old(self)@.tracks[i].path != t.path);
                }
            }
        }
        true
    }

    /// Records that track `idx` started playing; nothing happens for an
    /// index outside the library.
    pub fn start_track(&mut self, idx: usize) -> (started: bool)
        requires
            wf(old(self)@),
        ensures
            started == (idx < old(self)@.tracks.len()),
            final(self)@ == with_current(old(self)@, idx),
            wf(final(self)@),
    {
        if idx < self.tracks.len() {
            self.current = Some(idx);
            proof {
                assert(self@.tracks == old(self)@.tracks);
            }
            true
        } else {
            false
        }
    }

    /// The cover art of an album group's cover track, if it has one.
    pub fn album_cover_data(&self, cover_track: Option<usize>) -> (r: Option<&Vec<u8>>)
        ensures
            match cover_track {
                Some(i) if i < self@.tracks.len() => match self@.tracks[i as int].cover_data {
                    Some(d) => r matches Some(v) && v@ == d,
                    None => r is None,
                },
                _ => r is None,
            },
    {
        let idx = match cover_track {
            Some(i) => i,
            None => return None,
        };
        if idx >= self.tracks.len() {
            return None;
        }
        proof {
            assert(self@.tracks[idx as int] == self.tracks@[idx as int]@);
        }
        match &self.tracks[idx].cover_data {
            Some(d) => Some(d),
            None => None,
        }
    }
}

} // verus!
