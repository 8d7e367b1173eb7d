//! Grouping of the library: tracks by artist, tracks by album, and the
//! groups of a grid under their section letters.
//!
//! A grouping is given by a name per position (absent for positions that
//! belong to no group). Each distinct name makes one group, headed by its
//! first position; the members of a group are its positions in increasing
//! order. The groups are found by sorting (see `runs`).
use vstd::prelude::*;
use crate::labels::{artist_section_letter, section_letter};
use crate::library::{
    copy_indices, index_range, number_of, or_empty, tracks_view, App, AlbumGroup, AlbumGroupView,
};
use crate::order::{keys_view, sort_indices, sorted_indices, KeyView, SortKey};
use crate::runs::name_runs;
use crate::text::{
    chars_of, lower, lower_chars, lower_chars_or_empty, opt_view, push_char, push_chars,
    strings_equal,
};
use crate::track::{display_title_of, Track, TrackView};

verus! {

// ---------------------------------------------------------------------
// Grouping by name
// ---------------------------------------------------------------------

/// The views of a list of optional strings.
pub open spec fn opt_views(v: Seq<Option<String>>) -> Seq<Option<Seq<char>>> {
    v.map_values(|o: Option<String>| opt_view(o))
}

/// Position `i` has a name that no earlier position has.
pub open spec fn is_group_head(names: Seq<Option<Seq<char>>>, i: int) -> bool {
    &&& names[i] is Some
    &&& forall|j: int| 0 <= j < i ==> names[j] != names[i]
}

/// Whether a position heads its group.
pub open spec fn head_pred(names: Seq<Option<Seq<char>>>) -> spec_fn(usize) -> bool {
    |i: usize| is_group_head(names, i as int)
}

/// The first position of each name, in increasing order.
pub open spec fn group_heads(names: Seq<Option<Seq<char>>>) -> Seq<usize> {
    index_range(names.len()).filter(head_pred(names))
}

/// Whether a position has the given name.
pub open spec fn member_pred(names: Seq<Option<Seq<char>>>, name: Option<Seq<char>>) -> spec_fn(
    usize,
) -> bool {
    |j: usize| names[j as int] == name
}

/// The positions with the given name, in increasing order.
pub open spec fn group_members(names: Seq<Option<Seq<char>>>, name: Option<Seq<char>>) -> Seq<
    usize,
> {
    index_range(names.len()).filter(member_pred(names, name))
}

/// Orders positions by their names.
pub open spec fn name_key(name: Option<Seq<char>>) -> KeyView {
    KeyView {
        first: or_empty(name),
        second: Seq::<char>::empty(),
        number: 0,
        last: Seq::<char>::empty(),
    }
}

/// The sort keys of a list of names.
pub open spec fn name_keys(names: Seq<Option<Seq<char>>>) -> Seq<KeyView> {
    names.map_values(|n: Option<Seq<char>>| name_key(n))
}

/// Equality of optional strings.
pub fn opt_strings_equal(a: &Option<String>, b: &Option<String>) -> (r: bool)
    ensures
        r == (opt_view(*a) == opt_view(*b)),
{
    match (a, b) {
        (Some(x), Some(y)) => strings_equal(x, y),
        (None, None) => true,
        _ => false,
    }
}

/// A copy of an optional string.
pub fn copy_opt_string(o: &Option<String>) -> (r: Option<String>)
    ensures
        opt_view(r) == opt_view(*o),
{
    match o {
        Some(s) => Some(s.clone()),
        None => None,
    }
}

/// The sort keys ordering positions by their names.
pub fn name_sort_keys(names: &Vec<Option<String>>) -> (r: Vec<SortKey>)
    ensures
        keys_view(r@) == name_keys(opt_views(names@)),
        r@.len() == names@.len(),
{
    let mut r: Vec<SortKey> = Vec::new();
    let mut i: usize = 0;
    while i < names.len()
        invariant
            i <= names.len(),
            keys_view(r@) == name_keys(opt_views(names@)).take(i as int),
            r@.len() == i,
        decreases names.len() - i,
    {
        let first = match &names[i] {
            Some(s) => chars_of(s.as_str()),
            None => Vec::new(),
        };
        let k = SortKey { first, second: Vec::new(), number: 0, last: Vec::new() };
        proof {
            assert(k@.second =~= Seq::<char>::empty());
            assert(k@.last =~= Seq::<char>::empty());
            assert(k@.first =~= or_empty(opt_views(names@)[i as int]));
        }
        let ghost old_r = r@;
        r.push(k);
        proof {
            assert(keys_view(r@) =~= keys_view(old_r).push(k@));
            assert(keys_view(r@) =~= name_keys(opt_views(names@)).take(i + 1));
        }
        i = i + 1;
    }
    proof {
        assert(name_keys(opt_views(names@)).take(i as int) =~= name_keys(opt_views(names@)));
    }
    r
}

// ---------------------------------------------------------------------
// Artists
// ---------------------------------------------------------------------

/// The artist tag of each track: the names of the artist grouping.
pub open spec fn artist_names(tracks: Seq<TrackView>) -> Seq<Option<Seq<char>>> {
    tracks.map_values(|t: TrackView| t.artist)
}

/// Within an artist, tracks are ordered by album, track number and title
/// (case-insensitive for ASCII letters).
pub open spec fn artist_member_key(t: TrackView) -> KeyView {
    KeyView {
        first: lower(or_empty(t.album)),
        second: Seq::<char>::empty(),
        number: number_of(t),
        last: lower(display_title_of(t)),
    }
}

/// The keys that order the tracks within an artist.
pub open spec fn artist_member_keys(tracks: Seq<TrackView>) -> Seq<KeyView> {
    tracks.map_values(|t: TrackView| artist_member_key(t))
}

/// The artist groups of a library: one per distinct artist tag, ordered by
/// the artist's name, each listing the tracks of the artist.
pub open spec fn artist_groups_of(tracks: Seq<TrackView>) -> Seq<(Seq<char>, Seq<usize>)> {
    let names = artist_names(tracks);
    sorted_indices(group_heads(names), name_keys(names)).map_values(
        |h: usize|
            (
                or_empty(names[h as int]),
                sorted_indices(group_members(names, names[h as int]), artist_member_keys(tracks)),
            ),
    )
}

/// The value of a list of named groups.
pub open spec fn named_groups_view(v: Seq<(String, Vec<usize>)>) -> Seq<(Seq<char>, Seq<usize>)> {
    v.map_values(|p: (String, Vec<usize>)| (p.0@, p.1@))
}

/// The value of a list of album groups.
pub open spec fn album_groups_view(v: Seq<AlbumGroup>) -> Seq<AlbumGroupView> {
    v.map_values(|g: AlbumGroup| g@)
}

// ---------------------------------------------------------------------
// Albums
// ---------------------------------------------------------------------

/// The key of a track's album group: the album and the artist (empty when
/// absent), ASCII lower-cased and joined by U+001F; none without an album.
pub open spec fn album_key_of(t: TrackView) -> Option<Seq<char>> {
    match t.album {
        Some(a) => Some(lower(a).push('\u{1f}') + lower(or_empty(t.artist))),
        None => None,
    }
}

/// The album key of each track: the names of the album grouping.
pub open spec fn album_keys(tracks: Seq<TrackView>) -> Seq<Option<Seq<char>>> {
    tracks.map_values(|t: TrackView| album_key_of(t))
}

/// Album groups are ordered by album, then artist (case-insensitive for
/// ASCII letters), as their first track names them.
pub open spec fn album_order_key(t: TrackView) -> KeyView {
    KeyView {
        first: lower(or_empty(t.album)),
        second: lower(or_empty(t.artist)),
        number: 0,
        last: Seq::<char>::empty(),
    }
}

/// The keys that order the album groups, by their first tracks.
pub open spec fn album_order_keys(tracks: Seq<TrackView>) -> Seq<KeyView> {
    tracks.map_values(|t: TrackView| album_order_key(t))
}

/// Within an album, tracks are ordered by track number, then title.
pub open spec fn album_member_key(t: TrackView) -> KeyView {
    KeyView {
        first: Seq::<char>::empty(),
        second: Seq::<char>::empty(),
        number: number_of(t),
        last: lower(display_title_of(t)),
    }
}

/// The keys that order the tracks within an album.
pub open spec fn album_member_keys(tracks: Seq<TrackView>) -> Seq<KeyView> {
    tracks.map_values(|t: TrackView| album_member_key(t))
}

/// The first of the given tracks, from position `start` on, that carries
/// cover art.
pub open spec fn first_cover_from(
    tracks: Seq<TrackView>,
    members: Seq<usize>,
    start: int,
) -> Option<usize>
    decreases members.len() - start,
{
    if start < 0 || start >= members.len() {
        None
    } else if tracks[members[start] as int].cover_data is Some {
        Some(members[start])
    } else {
        first_cover_from(tracks, members, start + 1)
    }
}

/// The first of the given tracks that carries cover art.
pub open spec fn first_cover(tracks: Seq<TrackView>, members: Seq<usize>) -> Option<usize> {
    first_cover_from(tracks, members, 0)
}

/// The album group headed by track `h`.
pub open spec fn album_group_at(tracks: Seq<TrackView>, h: usize) -> AlbumGroupView {
    let names = album_keys(tracks);
    let members = group_members(names, names[h as int]);
    AlbumGroupView {
        key: or_empty(names[h as int]),
        album: or_empty(tracks[h as int].album),
        artist: tracks[h as int].artist,
        indices: sorted_indices(members, album_member_keys(tracks)),
        cover_track: first_cover(tracks, members),
    }
}

/// The album groups of a library: one per album key, ordered by album and
/// artist.
pub open spec fn album_groups_of(tracks: Seq<TrackView>) -> Seq<AlbumGroupView> {
    let names = album_keys(tracks);
    sorted_indices(group_heads(names), album_order_keys(tracks)).map_values(
        |h: usize| album_group_at(tracks, h),
    )
}

// ---------------------------------------------------------------------
// Sections of a grid
// ---------------------------------------------------------------------

/// The section letter of each name: the names of the section grouping.
pub open spec fn letters_of(names: Seq<Seq<char>>) -> Seq<Option<Seq<char>>> {
    names.map_values(|n: Seq<char>| Some(section_letter(n)))
}

/// The sections of a grid of named cards: one per section letter, in the
/// order of the letters, each listing the positions of its cards.
pub open spec fn sections_of(names: Seq<Seq<char>>) -> Seq<(Seq<char>, Seq<usize>)> {
    let letters = letters_of(names);
    sorted_indices(group_heads(letters), name_keys(letters)).map_values(
        |h: usize| (or_empty(letters[h as int]), group_members(letters, letters[h as int])),
    )
}

/// Sorts the cards of a grid under their section letters.
pub fn grid_sections(names: &Vec<String>) -> (r: Vec<(String, Vec<usize>)>)
    ensures
        named_groups_view(r@) == sections_of(names@.map_values(|n: String| n@)),
{
    let ghost nv = names@.map_values(|n: String| n@);
    let mut letters: Vec<Option<String>> = Vec::new();
    let mut i: usize = 0;
    while i < names.len()
        invariant
            i <= names.len(),
            nv == names@.map_values(|n: String| n@),
            opt_views(letters@) == letters_of(nv).take(i as int),
        decreases names.len() - i,
    {
        let l = artist_section_letter(names[i].as_str());
        let ghost old_l = letters@;
        letters.push(Some(l));
        proof {
            assert(opt_views(letters@) =~= opt_views(old_l).push(Some(l@)));
            assert(opt_views(letters@) =~= letters_of(nv).take(i + 1));
        }
        i = i + 1;
    }
    proof {
        assert(letters_of(nv).take(i as int) =~= letters_of(nv));
    }
    let ghost lv = letters_of(nv);
    let (heads, runs) = name_runs(&letters);
    let ghost sorted = sorted_indices(group_heads(lv), name_keys(lv));
    let mut r: Vec<(String, Vec<usize>)> = Vec::new();
    let mut k: usize = 0;
    while k < heads.len()
        invariant
            k <= heads.len(),
            letters@.len() == names@.len(),
            lv == opt_views(letters@),
            heads@ == sorted,
            runs@.len() == heads@.len(),
            forall|t: int|
                0 <= t < runs@.len() ==> #[trigger] runs@[t]@ == group_members(
                    lv,
                    lv[heads@[t] as int],
                ),
            sorted == sorted_indices(group_heads(lv), name_keys(lv)),
            forall|q: int| 0 <= q < heads@.len() ==> #[trigger] heads@[q] < letters@.len(),
            named_groups_view(r@) == sections_of(nv).take(k as int),
            sections_of(nv) == sorted.map_values(
                |h: usize| (or_empty(lv[h as int]), group_members(lv, lv[h as int])),
            ),
        decreases heads.len() - k,
    {
        let h = heads[k];
        let members = copy_indices(&runs[k]);
        let letter = match &letters[h] {
            Some(l) => l.clone(),
            None => String::new(),
        };
        let ghost old_r = r@;
        r.push((letter, members));
        proof {
            assert(members@ == runs@[k as int]@);
            assert(named_groups_view(r@) =~= named_groups_view(old_r).push((letter@, members@)));
            assert(named_groups_view(r@) =~= sections_of(nv).take(k + 1));
        }
        k = k + 1;
    }
    proof {
        assert(sections_of(nv).take(k as int) =~= sections_of(nv));
    }
    r
}

} // verus!

verus! {

/// The key of a track's album group.
pub fn album_key(t: &Track) -> (r: Option<String>)
    ensures
        opt_view(r) == album_key_of(t@),
{
    match &t.album {
        Some(a) => {
            let mut k = String::new();
            push_chars(&mut k, &lower_chars(a.as_str()));
            push_char(&mut k, '\u{1f}');
            push_chars(&mut k, &lower_chars_or_empty(&t.artist));
            proof {
                assert(k@ =~= lower(a@).push('\u{1f}') + lower(or_empty(t@.artist)));
            }
            Some(k)
        },
        None => None,
    }
}

/// The track number, tracks without one coming last.
fn number_exec(t: &Track) -> (n: u32)
    ensures
        n == number_of(t@),
{
    match t.track_number {
        Some(n) => n,
        None => u32::MAX,
    }
}

/// The first of `members` that carries cover art.
fn first_cover_of(tracks: &Vec<Track>, members: &Vec<usize>) -> (r: Option<usize>)
    requires
        forall|k: int| 0 <= k < members@.len() ==> #[trigger] members@[k] < tracks@.len(),
    ensures
        r == first_cover(tracks_view(tracks@), members@),
{
    let ghost tv = tracks_view(tracks@);
    let mut q: usize = 0;
    while q < members.len()
        invariant
            q <= members.len(),
            tv == tracks_view(tracks@),
            forall|k: int| 0 <= k < members@.len() ==> #[trigger] members@[k] < tracks@.len(),
            first_cover(tv, members@) == first_cover_from(tv, members@, q as int),
        decreases members.len() - q,
    {
        let j = members[q];
        proof {
            assert(tv[j as int] == tracks@[j as int]@);
        }
        if tracks[j].cover_data.is_some() {
            return Some(j);
        }
        q = q + 1;
    }
    None
}

impl App {
    /// The artist groups of the library: one per distinct artist tag, in
    /// the order of the artists' names, each listing the artist's tracks
    /// by album, track number and title.
    pub fn artist_groups(&self) -> (r: Vec<(String, Vec<usize>)>)
        ensures
            named_groups_view(r@) == artist_groups_of(self@.tracks),
    {
        let ghost tv = tracks_view(self.tracks@);
        let mut names: Vec<Option<String>> = Vec::new();
        let mut member_keys: Vec<SortKey> = Vec::new();
        let mut i: usize = 0;
        while i < self.tracks.len()
            invariant
                i <= self.tracks.len(),
                tv == tracks_view(self.tracks@),
                opt_views(names@) == artist_names(tv).take(i as int),
                keys_view(member_keys@) == artist_member_keys(tv).take(i as int),
                names@.len() == i,
                member_keys@.len() == i,
            decreases self.tracks.len() - i,
        {
            let t = &self.tracks[i];
            proof {
                assert(tv[i as int] == t@);
            }
            let name = copy_opt_string(&t.artist);
            let key = SortKey {
                first: lower_chars_or_empty(&t.album),
                second: Vec::new(),
                number: number_exec(t),
                last: lower_chars(t.display_title()),
            };
            proof {
                assert(key@ =~= artist_member_key(t@));
            }
            let ghost old_names = names@;
            let ghost old_keys = member_keys@;
            names.push(name);
            member_keys.push(key);
            proof {
                assert(opt_views(names@) =~= opt_views(old_names).push(opt_view(name)));
                assert(opt_views(names@) =~= artist_names(tv).take(i + 1));
                assert(keys_view(member_keys@) =~= keys_view(old_keys).push(key@));
                assert(keys_view(member_keys@) =~= artist_member_keys(tv).take(i + 1));
            }
            i = i + 1;
        }
        proof {
            assert(artist_names(tv).take(i as int) =~= artist_names(tv));
            assert(artist_member_keys(tv).take(i as int) =~= artist_member_keys(tv));
        }
        let ghost nv = artist_names(tv);
        let (order, runs) = name_runs(&names);
        let ghost sorted = sorted_indices(group_heads(nv), name_keys(nv));
        let mut r: Vec<(String, Vec<usize>)> = Vec::new();
        let mut k: usize = 0;
        while k < order.len()
            invariant
                k <= order.len(),
                names@.len() == self.tracks@.len(),
                member_keys@.len() == self.tracks@.len(),
                tv == tracks_view(self.tracks@),
                nv == artist_names(tv),
                nv == opt_views(names@),
                keys_view(member_keys@) == artist_member_keys(tv),
                order@ == sorted,
                sorted == sorted_indices(group_heads(nv), name_keys(nv)),
                runs@.len() == order@.len(),
                forall|t: int|
                    0 <= t < runs@.len() ==> #[trigger] runs@[t]@ == group_members(
                        nv,
                        nv[order@[t] as int],
                    ),
                forall|t: int, q: int|
                    0 <= t < runs@.len() && 0 <= q < runs@[t]@.len() ==> #[trigger] runs@[t]@[q]
                        < names@.len(),
                forall|q: int| 0 <= q < order@.len() ==> #[trigger] order@[q] < names@.len(),
                named_groups_view(r@) == artist_groups_of(tv).take(k as int),
            decreases order.len() - k,
        {
            let h = order[k];
            let indices = sort_indices(&runs[k], &member_keys);
            let name = match &names[h] {
                Some(n) => n.clone(),
                None => String::new(),
            };
            proof {
                assert(nv[h as int] == opt_view(names@[h as int]));
                assert(name@ == or_empty(nv[h as int]));
            }
            let ghost old_r = r@;
            r.push((name, indices));
            proof {
                assert(named_groups_view(r@) =~= named_groups_view(old_r).push((name@, indices@)));
                assert(named_groups_view(r@) =~= artist_groups_of(tv).take(k + 1));
            }
            k = k + 1;
        }
        proof {
            assert(artist_groups_of(tv).take(k as int) =~= artist_groups_of(tv));
        }
        r
    }

    /// The album groups of the library: one per album and artist
    /// (case-insensitive for ASCII letters), ordered by album then artist,
    /// each listing its tracks by track number and title and naming the
    /// first of them with cover art.
    pub fn album_groups(&self) -> (r: Vec<AlbumGroup>)
        ensures
            album_groups_view(r@) == album_groups_of(self@.tracks),
    {
        let ghost tv = tracks_view(self.tracks@);
        let mut names: Vec<Option<String>> = Vec::new();
        let mut order_keys: Vec<SortKey> = Vec::new();
        let mut member_keys: Vec<SortKey> = Vec::new();
        let mut i: usize = 0;
        while i < self.tracks.len()
            invariant
                i <= self.tracks.len(),
                tv == tracks_view(self.tracks@),
                opt_views(names@) == album_keys(tv).take(i as int),
                keys_view(order_keys@) == album_order_keys(tv).take(i as int),
                keys_view(member_keys@) == album_member_keys(tv).take(i as int),
                names@.len() == i,
                order_keys@.len() == i,
                member_keys@.len() == i,
            decreases self.tracks.len() - i,
        {
            let t = &self.tracks[i];
            proof {
                assert(tv[i as int] == t@);
            }
            let name = album_key(t);
            let okey = SortKey {
                first: lower_chars_or_empty(&t.album),
                second: lower_chars_or_empty(&t.artist),
                number: 0,
                last: Vec::new(),
            };
            let mkey = SortKey {
                first: Vec::new(),
                second: Vec::new(),
                number: number_exec(t),
                last: lower_chars(t.display_title()),
            };
            proof {
                assert(okey@ =~= album_order_key(t@));
                assert(mkey@ =~= album_member_key(t@));
            }
            let ghost old_names = names@;
            let ghost old_okeys = order_keys@;
            let ghost old_mkeys = member_keys@;
            names.push(name);
            order_keys.push(okey);
            member_keys.push(mkey);
            proof {
                assert(opt_views(names@) =~= opt_views(old_names).push(opt_view(name)));
                assert(opt_views(names@) =~= album_keys(tv).take(i + 1));
                assert(keys_view(order_keys@) =~= keys_view(old_okeys).push(okey@));
                assert(keys_view(order_keys@) =~= album_order_keys(tv).take(i + 1));
                assert(keys_view(member_keys@) =~= keys_view(old_mkeys).push(mkey@));
                assert(keys_view(member_keys@) =~= album_member_keys(tv).take(i + 1));
            }
            i = i + 1;
        }
        proof {
            assert(album_keys(tv).take(i as int) =~= album_keys(tv));
            assert(album_order_keys(tv).take(i as int) =~= album_order_keys(tv));
            assert(album_member_keys(tv).take(i as int) =~= album_member_keys(tv));
        }
        let ghost nv = album_keys(tv);
        let (heads, runs) = name_runs(&names);
        let order = sort_indices(&heads, &order_keys);
        let ghost sorted = sorted_indices(group_heads(nv), album_order_keys(tv));
        proof {
            assert forall|x: usize| #[trigger] heads@.to_multiset().count(x)
                == group_heads(nv).to_multiset().count(x) by {
                crate::order::lemma_sorted_count(group_heads(nv), name_keys(nv), x);
            }
            assert(heads@.to_multiset() =~= group_heads(nv).to_multiset());
            crate::order::lemma_sorted_indices_perm(heads@, group_heads(nv), album_order_keys(tv));
            assert forall|p: int, q: int| 0 <= p < q < heads@.len() implies heads@[p]
                != heads@[q] by {
                assert forall|x: usize| #[trigger] heads@.to_multiset().count(x) <= 1 by {
                    crate::library::lemma_filter_range_count(nv.len(), head_pred(nv), x);
                }
                crate::order::lemma_count_distinct(heads@, p, q);
            }
        }
        // The run of each group, found by the group's first track.
        let n = names.len();
        let mut run_of: Vec<usize> = Vec::new();
        let mut i: usize = 0;
        while i < n
            invariant
                i <= n,
                run_of@.len() == i,
            decreases n - i,
        {
            run_of.push(0);
            i = i + 1;
        }
        let mut t: usize = 0;
        while t < heads.len()
            invariant
                t <= heads.len(),
                run_of@.len() == n,
                n == names@.len(),
                forall|q: int| 0 <= q < heads@.len() ==> #[trigger] heads@[q] < n,
                forall|p: int, q: int| 0 <= p < q < heads@.len() ==> heads@[p] != heads@[q],
                forall|s: int| 0 <= s < t ==> #[trigger] run_of@[heads@[s] as int] == s,
            decreases heads.len() - t,
        {
            run_of.set(heads[t], t);
            proof {
                assert forall|s: int| 0 <= s < t + 1 implies #[trigger] run_of@[heads@[s] as int]
                    == s by {
                    if s < t {
                        assert(heads@[s] != heads@[t as int]);
                    }
                }
            }
            t = t + 1;
        }
        let mut r: Vec<AlbumGroup> = Vec::new();
        let mut k: usize = 0;
        while k < order.len()
            invariant
                k <= order.len(),
                names@.len() == self.tracks@.len(),
                member_keys@.len() == self.tracks@.len(),
                order_keys@.len() == self.tracks@.len(),
                run_of@.len() == names@.len(),
                tv == tracks_view(self.tracks@),
                nv == album_keys(tv),
                nv == opt_views(names@),
                keys_view(member_keys@) == album_member_keys(tv),
                order@ == sorted,
                sorted == sorted_indices(heads@, album_order_keys(tv)),
                sorted == sorted_indices(group_heads(nv), album_order_keys(tv)),
                runs@.len() == heads@.len(),
                forall|s: int| 0 <= s < heads@.len() ==> #[trigger] run_of@[heads@[s] as int] == s,
                forall|s: int|
                    0 <= s < runs@.len() ==> #[trigger] runs@[s]@ == group_members(
                        nv,
                        nv[heads@[s] as int],
                    ),
                forall|s: int, q: int|
                    0 <= s < runs@.len() && 0 <= q < runs@[s]@.len() ==> #[trigger] runs@[s]@[q]
                        < names@.len(),
                forall|q: int| 0 <= q < order@.len() ==> #[trigger] order@[q] < names@.len(),
                album_groups_view(r@) == album_groups_of(tv).take(k as int),
            decreases order.len() - k,
        {
            let h = order[k];
            proof {
                crate::order::lemma_sorted_count(heads@, album_order_keys(tv), h);
                vstd::seq_lib::to_multiset_contains(order@, h);
                vstd::seq_lib::to_multiset_contains(heads@, h);
                let s = heads@.index_of(h);
                assert(run_of@[heads@[s] as int] == s);
            }
            let g_run = run_of[h];
            let members = &runs[g_run];
            proof {
                assert(heads@[g_run as int] == h);
            }
            let indices = sort_indices(members, &member_keys);
            let cover_track = first_cover_of(&self.tracks, members);
            let key = match &names[h] {
                Some(n) => n.clone(),
                None => String::new(),
            };
            let t = &self.tracks[h];
            let album = match &t.album {
                Some(a) => a.clone(),
                None => String::new(),
            };
            let artist = copy_opt_string(&t.artist);
            let g = AlbumGroup { key, album, artist, indices, cover_track };
            proof {
                assert(nv[h as int] == opt_view(names@[h as int]));
                assert(tv[h as int] == t@);
                assert(g@ == album_group_at(tv, h));
            }
            let ghost old_r = r@;
            r.push(g);
            proof {
                assert(album_groups_view(r@) =~= album_groups_view(old_r).push(g@));
                assert(album_groups_view(r@) =~= album_groups_of(tv).take(k + 1));
            }
            k = k + 1;
        }
        proof {
            assert(album_groups_of(tv).take(k as int) =~= album_groups_of(tv));
        }
        r
    }
}

} // verus!
