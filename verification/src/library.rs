//! The state of the player's library and its views: which tracks a view
//! lists and in which order, how tracks fall into artist and album groups,
//! and which tracks make up the context that playback follows.
use vstd::prelude::*;
use vstd::seq_lib::to_multiset_build;
use crate::order::{keys_view, sort_indices, sorted_indices, KeyView, SortKey};
use crate::text::{lower, lower_chars, lower_chars_or_empty, opt_view};
use crate::track::{display_artist_of, display_title_of, Track, TrackView};

verus! {

/// The view of the library the user has selected.
#[derive(Clone, Copy, PartialEq, Eq, Structural, Debug)]
pub enum LibraryView {
    Tracks,
    Artists,
    Albums,
    Queue,
}

/// The tracks of one album by one artist.
#[derive(Clone, Debug)]
pub struct AlbumGroup {
    /// The album and the artist, ASCII lower-cased, joined by U+001F.
    pub key: String,
    /// The album as its first track names it.
    pub album: String,
    /// The artist as the first track of the album names it.
    pub artist: Option<String>,
    /// The tracks of the album, ordered by track number then title.
    pub indices: Vec<usize>,
    /// The first track of the album that carries cover art.
    pub cover_track: Option<usize>,
}

/// The value of an album group.
pub struct AlbumGroupView {
    pub key: Seq<char>,
    pub album: Seq<char>,
    pub artist: Option<Seq<char>>,
    pub indices: Seq<usize>,
    pub cover_track: Option<usize>,
}

impl View for AlbumGroup {
    type V = AlbumGroupView;

    open spec fn view(&self) -> AlbumGroupView {
        AlbumGroupView {
            key: self.key@,
            album: self.album@,
            artist: opt_view(self.artist),
            indices: self.indices@,
            cover_track: self.cover_track,
        }
    }
}

/// The library and playback state of the player: its tracks, the view the
/// user looks at, and the play queue with its position and shuffle history.
pub struct App {
    pub tracks: Vec<Track>,
    /// The track being played.
    pub current: Option<usize>,
    pub library_view: LibraryView,
    /// The artist whose tracks are unfolded in the artists view.
    pub expanded_artist: Option<String>,
    /// The key of the album whose tracks are unfolded in the albums view.
    pub expanded_album: Option<String>,
    pub shuffle: bool,
    /// The state of the shuffle's pseudo-random generator.
    pub shuffle_seed: u64,
    /// Track indices, in the order they are played.
    pub play_queue: Vec<usize>,
    /// The position in the queue of the track being played.
    pub queue_pos: Option<usize>,
    /// The queue positions played in shuffle mode, last one last.
    pub shuffle_history: Vec<usize>,
}

/// The value of the player state.
pub struct AppView {
    pub tracks: Seq<TrackView>,
    pub current: Option<usize>,
    pub library_view: LibraryView,
    pub expanded_artist: Option<Seq<char>>,
    pub expanded_album: Option<Seq<char>>,
    pub shuffle: bool,
    pub shuffle_seed: u64,
    pub play_queue: Seq<usize>,
    pub queue_pos: Option<usize>,
    pub shuffle_history: Seq<usize>,
}

/// The values of a list of tracks.
pub open spec fn tracks_view(tracks: Seq<Track>) -> Seq<TrackView> {
    tracks.map_values(|t: Track| t@)
}

impl View for App {
    type V = AppView;

    open spec fn view(&self) -> AppView {
        AppView {
            tracks: tracks_view(self.tracks@),
            current: self.current,
            library_view: self.library_view,
            expanded_artist: opt_view(self.expanded_artist),
            expanded_album: opt_view(self.expanded_album),
            shuffle: self.shuffle,
            shuffle_seed: self.shuffle_seed,
            play_queue: self.play_queue@,
            queue_pos: self.queue_pos,
            shuffle_history: self.shuffle_history@,
        }
    }
}

/// The invariant of the player state: queue positions (the current one and
/// those in the shuffle history) lie in the queue, the track being played
/// is a track of the library, and no two tracks share a file.
pub open spec fn wf(s: AppView) -> bool {
    &&& s.tracks.len() <= usize::MAX
    &&& s.play_queue.len() <= usize::MAX
    &&& (s.queue_pos matches Some(p) ==> p < s.play_queue.len())
    &&& forall|k: int|
        0 <= k < s.shuffle_history.len() ==> #[trigger] s.shuffle_history[k] < s.play_queue.len()
    &&& (s.current matches Some(c) ==> c < s.tracks.len())
    &&& forall|i: int, j: int|
        0 <= i < j < s.tracks.len() ==> #[trigger] s.tracks[i].path != #[trigger] s.tracks[j].path
}

/// The player state when it starts: no tracks, the artists view, an
/// empty queue, and the given seed for shuffling.
pub open spec fn initial_state(shuffle_seed: u64) -> AppView {
    AppView {
        tracks: Seq::empty(),
        current: None,
        library_view: LibraryView::Artists,
        expanded_artist: None,
        expanded_album: None,
        shuffle: false,
        shuffle_seed,
        play_queue: Seq::empty(),
        queue_pos: None,
        shuffle_history: Seq::empty(),
    }
}

// ---------------------------------------------------------------------
// Index sequences
// ---------------------------------------------------------------------

/// The indices `0, 1, ..., n - 1`.
pub open spec fn index_range(n: nat) -> Seq<usize> {
    Seq::new(n, |i: int| i as usize)
}

/// Filtering `0, ..., n` adds `n` at the end when it passes.
pub proof fn lemma_filter_range_step(n: nat, pred: spec_fn(usize) -> bool)
    requires
        n < usize::MAX,
    ensures
        index_range(n + 1).filter(pred) == if pred(n as usize) {
            index_range(n).filter(pred).push(n as usize)
        } else {
            index_range(n).filter(pred)
        },
{
    reveal(Seq::filter);
    assert(index_range(n + 1).drop_last() =~= index_range(n));
    assert(index_range(n + 1).last() == n as usize);
}

/// Filtering the indices `0..n` keeps each passing index once and no
/// other.
pub proof fn lemma_filter_range_count(n: nat, pred: spec_fn(usize) -> bool, x: usize)
    requires
        n <= usize::MAX,
    ensures
        index_range(n).filter(pred).to_multiset().count(x) == if x < n && pred(x) {
            1nat
        } else {
            0nat
        },
    decreases n,
{
    if n == 0 {
        reveal(Seq::filter);
        assert(index_range(0).filter(pred) =~= Seq::<usize>::empty());
        vstd::seq_lib::to_multiset_contains(Seq::<usize>::empty(), x);
    } else {
        let m = (n - 1) as nat;
        lemma_filter_range_count(m, pred, x);
        lemma_filter_range_step(m, pred);
        if pred(m as usize) {
            to_multiset_build(index_range(m).filter(pred), m as usize);
        }
    }
}

/// A view lists no more tracks than the library holds, except the queue
/// view, which lists the queue.
pub proof fn lemma_view_queue_len(s: AppView)
    ensures
        s.library_view != LibraryView::Queue ==> view_queue(s).len() <= s.tracks.len(),
        s.library_view == LibraryView::Queue ==> view_queue(s) == s.play_queue,
{
    if s.library_view != LibraryView::Queue {
        let items = index_range(s.tracks.len()).filter(visible_pred(s.tracks, s.library_view));
        crate::order::lemma_sorted_indices_len(items, view_keys(s.tracks, s.library_view));
        index_range(s.tracks.len()).lemma_filter_len(visible_pred(s.tracks, s.library_view));
    }
}

/// A copy of a list of indices.
pub fn copy_indices(v: &Vec<usize>) -> (r: Vec<usize>)
    ensures
        r@ == v@,
{
    let mut r: Vec<usize> = Vec::new();
    let mut i: usize = 0;
    while i < v.len()
        invariant
            i <= v.len(),
            r@ == v@.take(i as int),
        decreases v.len() - i,
    {
        r.push(v[i]);
        proof {
            assert(v@.take(i + 1) =~= v@.take(i as int).push(v@[i as int]));
        }
        i = i + 1;
    }
    proof {
        assert(v@.take(i as int) =~= v@);
    }
    r
}

/// Equality of two lists of indices.
pub fn indices_equal(a: &Vec<usize>, b: &Vec<usize>) -> (r: bool)
    ensures
        r == (a@ == b@),
{
    if a.len() != b.len() {
        return false;
    }
    let mut i: usize = 0;
    while i < a.len()
        invariant
            a.len() == b.len(),
            i <= a.len(),
            forall|k: int| 0 <= k < i ==> a@[k] == b@[k],
        decreases a.len() - i,
    {
        if a[i] != b[i] {
            return false;
        }
        i = i + 1;
    }
    proof {
        assert(a@ =~= b@);
    }
    true
}

/// The first position, from `start` on, where `q` holds `x`.
pub open spec fn find_index(q: Seq<usize>, x: usize, start: int) -> Option<int>
    decreases q.len() - start,
{
    if start < 0 || start >= q.len() {
        None
    } else if q[start] == x {
        Some(start)
    } else {
        find_index(q, x, start + 1)
    }
}

/// The first position of `x` in `q`.
pub open spec fn position_of(q: Seq<usize>, x: usize) -> Option<int> {
    find_index(q, x, 0)
}

/// A position found holds the element sought and lies in the sequence.
pub proof fn lemma_find_index_found(q: Seq<usize>, x: usize, start: int)
    requires
        0 <= start,
    ensures
        find_index(q, x, start) matches Some(p) ==> start <= p < q.len() && q[p] == x,
    decreases q.len() - start,
{
    if start < q.len() && q[start] != x {
        lemma_find_index_found(q, x, start + 1);
    }
}

/// The first position of `x` in `q`, or `None`.
pub fn position_in(q: &Vec<usize>, x: usize) -> (r: Option<usize>)
    ensures
        match position_of(q@, x) {
            Some(p) => r == Some(p as usize),
            None => r is None,
        },
        r matches Some(p) ==> p < q@.len() && q@[p as int] == x,
{
    let mut i: usize = 0;
    while i < q.len()
        invariant
            i <= q.len(),
            position_of(q@, x) == find_index(q@, x, i as int),
        decreases q.len() - i,
    {
        if q[i] == x {
            return Some(i);
        }
        i = i + 1;
    }
    None
}

// ---------------------------------------------------------------------
// Views and their orders
// ---------------------------------------------------------------------

/// Whether a track is listed in a view: artists list tracks with an artist
/// tag, albums those with an album tag, the other views every track.
pub open spec fn visible_in(t: TrackView, view: LibraryView) -> bool {
    match view {
        LibraryView::Tracks => true,
        LibraryView::Artists => t.artist is Some,
        LibraryView::Albums => t.album is Some,
        LibraryView::Queue => true,
    }
}

/// The characters of an optional string, or nothing.
pub open spec fn or_empty(o: Option<Seq<char>>) -> Seq<char> {
    match o {
        Some(s) => s,
        None => Seq::<char>::empty(),
    }
}

/// The track number, tracks without one coming last.
pub open spec fn number_of(t: TrackView) -> u32 {
    match t.track_number {
        Some(n) => n,
        None => u32::MAX,
    }
}

/// The order of tracks in a view (case-insensitive for ASCII letters):
/// by title in the tracks view; by artist, album, track number and title
/// in the artists view; by album, artist, track number and title in the
/// albums view.
pub open spec fn view_key(t: TrackView, view: LibraryView) -> KeyView {
    match view {
        LibraryView::Artists => KeyView {
            first: lower(display_artist_of(t)),
            second: lower(or_empty(t.album)),
            number: number_of(t),
            last: lower(display_title_of(t)),
        },
        LibraryView::Albums => KeyView {
            first: lower(or_empty(t.album)),
            second: lower(display_artist_of(t)),
            number: number_of(t),
            last: lower(display_title_of(t)),
        },
        _ => KeyView {
            first: lower(display_title_of(t)),
            second: Seq::<char>::empty(),
            number: 0,
            last: Seq::<char>::empty(),
        },
    }
}

/// The sort keys of the tracks in a view.
pub open spec fn view_keys(tracks: Seq<TrackView>, view: LibraryView) -> Seq<KeyView> {
    tracks.map_values(|t: TrackView| view_key(t, view))
}

/// Whether the track at an index is listed in a view.
pub open spec fn visible_pred(tracks: Seq<TrackView>, view: LibraryView) -> spec_fn(usize) -> bool {
    |i: usize| visible_in(tracks[i as int], view)
}

/// The tracks a view lists, in its order; the queue view lists the queue.
pub open spec fn view_queue(s: AppView) -> Seq<usize> {
    if s.library_view == LibraryView::Queue {
        s.play_queue
    } else {
        sorted_indices(
            index_range(s.tracks.len()).filter(visible_pred(s.tracks, s.library_view)),
            view_keys(s.tracks, s.library_view),
        )
    }
}

/// An empty sequence of characters.
fn empty_chars() -> (r: Vec<char>)
    ensures
        r@ == Seq::<char>::empty(),
{
    Vec::new()
}

impl Track {
    /// The sort key of the track in a view.
    pub fn view_sort_key(&self, view: LibraryView) -> (k: SortKey)
        ensures
            k@ == view_key(self@, view),
    {
        let number = match self.track_number {
            Some(n) => n,
            None => u32::MAX,
        };
        match view {
            LibraryView::Artists => SortKey {
                first: lower_chars(self.display_artist()),
                second: lower_chars_or_empty(&self.album),
                number,
                last: lower_chars(self.display_title()),
            },
            LibraryView::Albums => SortKey {
                first: lower_chars_or_empty(&self.album),
                second: lower_chars(self.display_artist()),
                number,
                last: lower_chars(self.display_title()),
            },
            _ => SortKey {
                first: lower_chars(self.display_title()),
                second: empty_chars(),
                number: 0,
                last: empty_chars(),
            },
        }
    }

    /// Whether the track is listed in a view.
    pub fn track_visible_in_view(&self, view: LibraryView) -> (r: bool)
        ensures
            r == visible_in(self@, view),
    {
        match view {
            LibraryView::Tracks => true,
            LibraryView::Artists => self.artist.is_some(),
            LibraryView::Albums => self.album.is_some(),
            LibraryView::Queue => true,
        }
    }
}

impl App {
    /// The player state when it starts, with the given shuffle seed.
    pub fn new(shuffle_seed: u64) -> (r: App)
        ensures
            r@ == initial_state(shuffle_seed),
            wf(r@),
    {
        let r = App {
            tracks: Vec::new(),
            current: None,
            library_view: LibraryView::Artists,
            expanded_artist: None,
            expanded_album: None,
            shuffle: false,
            shuffle_seed,
            play_queue: Vec::new(),
            queue_pos: None,
            shuffle_history: Vec::new(),
        };
        proof {
            assert(r@.tracks =~= Seq::<TrackView>::empty());
        }
        r
    }

    /// The tracks the current view lists, in its order.
    pub fn current_view_queue(&self) -> (r: Vec<usize>)
        ensures
            r@ == view_queue(self@),
    {
        if self.library_view == LibraryView::Queue {
            return copy_indices(&self.play_queue);
        }
        let ghost tv = tracks_view(self.tracks@);
        let ghost pred = visible_pred(tv, self.library_view);
        let mut items: Vec<usize> = Vec::new();
        let mut keys: Vec<SortKey> = Vec::new();
        let mut i: usize = 0;
        while i < self.tracks.len()
            invariant
                i <= self.tracks.len(),
                tv == tracks_view(self.tracks@),
                pred == visible_pred(tv, self.library_view),
                items@ == index_range(i as nat).filter(pred),
                keys_view(keys@) == view_keys(tv.take(i as int), self.library_view),
                forall|k: int| 0 <= k < items.len() ==> #[trigger] items@[k] < i,
            decreases self.tracks.len() - i,
        {
            proof {
                lemma_filter_range_step(i as nat, pred);
            }
            let t = &self.tracks[i];
            if t.track_visible_in_view(self.library_view) {
                items.push(i);
            }
            let k = t.view_sort_key(self.library_view);
            let ghost old_keys = keys@;
            keys.push(k);
            proof {
                assert(tv[i as int] == self.tracks@[i as int]@);
                assert(tv.take(i + 1) =~= tv.take(i as int).push(tv[i as int]));
                assert(keys@ == old_keys.push(k));
                assert(keys_view(keys@) =~= keys_view(old_keys).push(k@));
                assert(keys_view(keys@) =~= view_keys(tv.take(i + 1), self.library_view));
            }
            i = i + 1;
        }
        proof {
            assert(tv.take(i as int) =~= tv);
        }
        sort_indices(&items, &keys)
    }
}

} // verus!
