//! Properties of the library that span several operations.
use vstd::prelude::*;
use crate::context::{
    find_album_group, find_artist_group, context_queue, has_path, queue_cleared, shuffle_toggled, synced, toggled, with_shuffle,
    with_track,
};
use crate::groups::{
    album_group_at, album_groups_of, album_key_of, album_keys, album_member_keys,
    album_order_keys, artist_groups_of, artist_member_keys, artist_names, first_cover_from,
    group_heads, group_members, head_pred, is_group_head, letters_of, member_pred, name_keys,
    sections_of,
};
use crate::labels::{section_letter, shortened};
use crate::library::{
    find_index, index_range, lemma_filter_range_count, or_empty, view_key, view_keys, view_queue,
    visible_in, visible_pred, wf, AppView, LibraryView,
};
use crate::order::{
    index_le, key_at, key_lt, lemma_count_distinct, lemma_index_le_total, lemma_sorted_count,
    sorted_indices, KeyView,
};
use crate::queue::{
    lemma_shuffled_pos, PlayButtonAction, next_played, next_pos, play_button_pressed, played_at, pos_or_start,
    prev_pos, previous_played, queue_started, shuffle_history_kept, shuffled_pos, step_ready,
};
use crate::text::{lemma_seq_lt_irreflexive, lower, seq_lt};
use crate::track::{display_artist_of, display_title_of, track_from, unknown_name, TrackView};
use crate::labels::cleaned;
use crate::cover::{premultiplied_cover, CoverPixels};

verus! {

/// Following the context depends on the library, the view, the unfolded
/// items, the track being played and the queue, not on the position in
/// the queue, the shuffle history or the generator.
proof fn lemma_synced_stays_still(s: AppView, t: AppView)
    requires
        synced(s) == s,
        t.tracks == s.tracks,
        t.current == s.current,
        t.library_view == s.library_view,
        t.expanded_artist == s.expanded_artist,
        t.expanded_album == s.expanded_album,
        t.play_queue == s.play_queue,
    ensures
        synced(t) == t,
{
    assert(view_queue(t) == view_queue(s));
    assert(context_queue(t) == context_queue(s));
}

/// Stepping forward in order, then back, returns to the position and the
/// track one started from, whenever the queue already follows the context.
pub proof fn law_next_then_previous_in_order(s: AppView)
    requires
        wf(s),
        synced(s) == s,
        !s.shuffle,
        s.tracks.len() > 0,
        s.play_queue.len() > 0,
    ensures
        ({
            let p = pos_or_start(s.queue_pos);
            let (s1, r1) = next_played(s);
            let (s2, r2) = previous_played(s1);
            &&& r1 == Some(s.play_queue[next_pos(p, s.play_queue.len()) as int])
            &&& r2 == Some(s.play_queue[p as int])
            &&& s2.queue_pos == Some(p)
            &&& s2.play_queue == s.play_queue
        }),
{
    let p = pos_or_start(s.queue_pos);
    let len = s.play_queue.len();
    assert(step_ready(s) == s);
    let n = next_pos(p, len);
    let (s1, r1) = next_played(s);
    assert(s1 == played_at(s, n, true).0);
    lemma_synced_stays_still(s, s1);
    assert(step_ready(s1) == s1);
    assert(prev_pos(n, len) == p);
}

/// Shuffled, stepping forward and then back returns to the position and
/// the track one started from, when the last position in the shuffle
/// history is the current one and the queue has more than one track.
pub proof fn law_next_then_previous_shuffled(s: AppView)
    requires
        wf(s),
        synced(s) == s,
        s.shuffle,
        s.tracks.len() > 0,
        s.play_queue.len() > 1,
        s.queue_pos is Some,
        s.shuffle_history.len() > 0,
        s.shuffle_history.last() == s.queue_pos->0,
    ensures
        ({
            let p = s.queue_pos->0;
            let (s1, r1) = next_played(s);
            let (s2, r2) = previous_played(s1);
            &&& r1 is Some
            &&& s1.queue_pos != s.queue_pos
            &&& r2 == Some(s.play_queue[p as int])
            &&& s2.queue_pos == Some(p)
            &&& s2.play_queue == s.play_queue
        }),
{
    let p = s.queue_pos->0;
    assert(step_ready(s) == s);
    lemma_shuffled_pos(s);
    let (s3, r) = shuffled_pos(s);
    let x = r->0;
    assert(x != p);
    let kept = shuffle_history_kept(s);
    assert(kept.len() > 0 && kept.last() == p);
    let (s1, r1) = next_played(s);
    assert(s1 == played_at(s3, x, true).0);
    assert(s1.shuffle_history == kept.push(x));
    lemma_synced_stays_still(s, s1);
    assert(step_ready(s1) == s1);
    assert(s1.shuffle_history.drop_last() =~= kept);
}

/// In shuffle mode, the next position lies in the queue and, in a queue of
/// more than one track, is never the current one.
pub proof fn law_shuffle_moves_on(s: AppView)
    requires
        wf(s),
        s.play_queue.len() > 1,
    ensures
        shuffled_pos(s).1 matches Some(x) && x < s.play_queue.len() && Some(x) != s.queue_pos,
{
    lemma_shuffled_pos(s);
}

/// In shuffle mode, in a queue of more than one track, the next position
/// is one not played since the history was last renewed, unless the
/// generator found none, when it is the position after the current one.
pub proof fn law_shuffle_avoids_history(s: AppView)
    requires
        wf(s),
        s.play_queue.len() > 1,
    ensures
        shuffled_pos(s).1 matches Some(x) && (!shuffle_history_kept(s).contains(x) || x
            == next_pos(pos_or_start(s.queue_pos), s.play_queue.len())),
{
    let len = s.play_queue.len();
    let seed = if s.shuffle_seed == 0 {
        1
    } else {
        s.shuffle_seed
    };
    crate::queue::lemma_shuffle_search_in_range(
        seed,
        3 * len,
        len,
        s.queue_pos,
        shuffle_history_kept(s),
    );
    let l = len as int;
    let q = pos_or_start(s.queue_pos) as int;
    assert(q < l);
    assert((q + 1) % l == if q + 1 < l {
        q + 1
    } else {
        0
    }) by (nonlinear_arith)
        requires
            0 <= q < l,
            l > 1,
    ;
}

/// A view other than the queue lists each of its tracks exactly once and
/// no other index.
pub proof fn law_view_lists_each_track_once(s: AppView, i: usize)
    requires
        wf(s),
        s.library_view != LibraryView::Queue,
    ensures
        view_queue(s).to_multiset().count(i) == if i < s.tracks.len() && visible_in(
            s.tracks[i as int],
            s.library_view,
        ) {
            1nat
        } else {
            0nat
        },
{
    let pred = visible_pred(s.tracks, s.library_view);
    let items = index_range(s.tracks.len()).filter(pred);
    lemma_sorted_count(items, view_keys(s.tracks, s.library_view), i);
    lemma_filter_range_count(s.tracks.len(), pred, i);
}

/// The members of a group are the positions with its name, each once.
proof fn lemma_group_member_count(
    names: Seq<Option<Seq<char>>>,
    h: usize,
    keys: Seq<KeyView>,
    i: usize,
)
    requires
        names.len() <= usize::MAX,
    ensures
        sorted_indices(group_members(names, names[h as int]), keys).to_multiset().count(i) == if i
            < names.len() && names[i as int] == names[h as int] {
            1nat
        } else {
            0nat
        },
{
    lemma_sorted_count(group_members(names, names[h as int]), keys, i);
    lemma_filter_range_count(names.len(), member_pred(names, names[h as int]), i);
}

/// The heads of a grouping, in any order, are heads.
proof fn lemma_sorted_heads_are_heads(names: Seq<Option<Seq<char>>>, keys: Seq<KeyView>, k: int)
    requires
        names.len() <= usize::MAX,
        0 <= k < sorted_indices(group_heads(names), keys).len(),
    ensures
        ({
            let h = sorted_indices(group_heads(names), keys)[k];
            h < names.len() && is_group_head(names, h as int)
        }),
{
    let heads = sorted_indices(group_heads(names), keys);
    let x = heads[k];
    vstd::seq_lib::to_multiset_contains(heads, x);
    lemma_sorted_count(group_heads(names), keys, x);
    lemma_filter_range_count(names.len(), head_pred(names), x);
}

/// The groups of a grouping, in any order of their heads, have distinct
/// names, and each has a name.
proof fn lemma_sorted_heads_distinct(
    names: Seq<Option<Seq<char>>>,
    keys: Seq<KeyView>,
    p: int,
    q: int,
)
    requires
        names.len() <= usize::MAX,
        0 <= p < q < sorted_indices(group_heads(names), keys).len(),
    ensures
        ({
            let heads = sorted_indices(group_heads(names), keys);
            &&& names[heads[p] as int] is Some
            &&& names[heads[p] as int] != names[heads[q] as int]
        }),
{
    let items = group_heads(names);
    let heads = sorted_indices(items, keys);
    assert forall|x: usize| #[trigger] heads.to_multiset().count(x) <= 1 by {
        lemma_sorted_count(items, keys, x);
        lemma_filter_range_count(names.len(), head_pred(names), x);
    }
    lemma_count_distinct(heads, p, q);
    let hp = heads[p];
    let hq = heads[q];
    assert forall|k: int| 0 <= k < heads.len() implies #[trigger] is_group_head(
        names,
        heads[k] as int,
    ) && heads[k] < names.len() by {
        let x = heads[k];
        vstd::seq_lib::to_multiset_contains(heads, x);
        lemma_sorted_count(items, keys, x);
        lemma_filter_range_count(names.len(), head_pred(names), x);
    }
    assert(is_group_head(names, hp as int) && is_group_head(names, hq as int));
    if hp < hq {
        assert(names[hp as int] != names[hq as int]);
    } else {
        assert(names[hq as int] != names[hp as int]);
    }
}

/// The artist groups split the tracks with an artist tag: a group lists
/// exactly the tracks tagged with its artist, each once, and no two
/// groups share an artist.
pub proof fn law_artist_groups_partition(tracks: Seq<TrackView>, p: int, q: int, i: usize)
    requires
        tracks.len() <= usize::MAX,
        0 <= p < artist_groups_of(tracks).len(),
        0 <= q < artist_groups_of(tracks).len(),
    ensures
        artist_groups_of(tracks)[p].1.to_multiset().count(i) == if i < tracks.len()
            && tracks[i as int].artist == Some(artist_groups_of(tracks)[p].0) {
            1nat
        } else {
            0nat
        },
        p != q ==> artist_groups_of(tracks)[p].0 != artist_groups_of(tracks)[q].0,
{
    let names = artist_names(tracks);
    let keys = name_keys(names);
    let heads = sorted_indices(group_heads(names), keys);
    if p < q {
        lemma_sorted_heads_distinct(names, keys, p, q);
    } else if q < p {
        lemma_sorted_heads_distinct(names, keys, q, p);
    }
    lemma_sorted_heads_are_heads(names, keys, p);
    lemma_sorted_heads_are_heads(names, keys, q);
    assert(names[heads[q] as int] == Some(artist_groups_of(tracks)[q].0));
    let h = heads[p];
    lemma_group_member_count(names, h, artist_member_keys(tracks), i);
    assert(names[h as int] == Some(artist_groups_of(tracks)[p].0));
    if i < tracks.len() {
        assert(names[i as int] == tracks[i as int].artist);
    }
}

/// The cover track found from a start position is one of the members
/// and carries cover art.
proof fn lemma_first_cover_from(tracks: Seq<TrackView>, members: Seq<usize>, start: int)
    requires
        0 <= start,
    ensures
        first_cover_from(tracks, members, start) matches Some(c) ==> members.contains(c)
            && tracks[c as int].cover_data is Some,
    decreases members.len() - start,
{
    if start < members.len() {
        if tracks[members[start] as int].cover_data is Some {
            assert(members[start] == members[start]);
        } else {
            lemma_first_cover_from(tracks, members, start + 1);
        }
    }
}

/// The album groups split the tracks with an album tag: a group lists
/// exactly the tracks whose album key is its key, each once; no two groups
/// share a key; and a group's cover track is one of its tracks with cover
/// art.
pub proof fn law_album_groups_partition(tracks: Seq<TrackView>, p: int, q: int, i: usize)
    requires
        tracks.len() <= usize::MAX,
        0 <= p < album_groups_of(tracks).len(),
        0 <= q < album_groups_of(tracks).len(),
    ensures
        album_groups_of(tracks)[p].indices.to_multiset().count(i) == if i < tracks.len()
            && album_key_of(tracks[i as int]) == Some(album_groups_of(tracks)[p].key) {
            1nat
        } else {
            0nat
        },
        p != q ==> album_groups_of(tracks)[p].key != album_groups_of(tracks)[q].key,
        album_groups_of(tracks)[p].cover_track matches Some(c) ==> album_groups_of(
            tracks,
        )[p].indices.contains(c) && tracks[c as int].cover_data is Some,
{
    let names = album_keys(tracks);
    let keys = album_order_keys(tracks);
    let heads = sorted_indices(group_heads(names), keys);
    if p < q {
        lemma_sorted_heads_distinct(names, keys, p, q);
    } else if q < p {
        lemma_sorted_heads_distinct(names, keys, q, p);
    }
    lemma_sorted_heads_are_heads(names, keys, p);
    lemma_sorted_heads_are_heads(names, keys, q);
    let g = album_groups_of(tracks)[p];
    assert(names[heads[q] as int] == Some(album_groups_of(tracks)[q].key));
    let h = heads[p];
    assert(g == album_group_at(tracks, h));
    lemma_group_member_count(names, h, album_member_keys(tracks), i);
    assert(names[h as int] == Some(g.key));
    if i < tracks.len() {
        assert(names[i as int] == album_key_of(tracks[i as int]));
    }
    let members = group_members(names, names[h as int]);
    lemma_first_cover_from(tracks, members, 0);
    if let Some(c) = g.cover_track {
        vstd::seq_lib::to_multiset_contains(members, c);
        lemma_sorted_count(members, album_member_keys(tracks), c);
        vstd::seq_lib::to_multiset_contains(g.indices, c);
    }
}

/// Sorted indices come in the order of their keys, indices with equal keys
/// in increasing order.
proof fn lemma_sorted_in_order(items: Seq<usize>, keys: Seq<KeyView>, p: int, q: int)
    requires
        0 <= p < q < sorted_indices(items, keys).len(),
    ensures
        index_le(keys)(sorted_indices(items, keys)[p], sorted_indices(items, keys)[q]),
{
    lemma_index_le_total(keys);
    items.lemma_sort_by_ensures(index_le(keys));
}

/// A view other than the queue lists its tracks in the order of their
/// view keys, tracks with equal keys in the order of the library.
pub proof fn law_view_in_key_order(s: AppView, p: int, q: int)
    requires
        wf(s),
        s.library_view != LibraryView::Queue,
        0 <= p < q < view_queue(s).len(),
    ensures
        ({
            let vq = view_queue(s);
            let kp = view_key(s.tracks[vq[p] as int], s.library_view);
            let kq = view_key(s.tracks[vq[q] as int], s.library_view);
            &&& vq[p] < s.tracks.len()
            &&& vq[q] < s.tracks.len()
            &&& key_lt(kp, kq) || (kp == kq && vq[p] < vq[q])
        }),
{
    let vq = view_queue(s);
    let pred = visible_pred(s.tracks, s.library_view);
    let items = index_range(s.tracks.len()).filter(pred);
    let keys = view_keys(s.tracks, s.library_view);
    lemma_sorted_in_order(items, keys, p, q);
    let a = vq[p];
    let b = vq[q];
    vstd::seq_lib::to_multiset_contains(vq, a);
    vstd::seq_lib::to_multiset_contains(vq, b);
    law_view_lists_each_track_once(s, a);
    law_view_lists_each_track_once(s, b);
    assert forall|x: usize| #[trigger] vq.to_multiset().count(x) <= 1 by {
        law_view_lists_each_track_once(s, x);
    }
    lemma_count_distinct(vq, p, q);
    assert(key_at(keys, a) == view_key(s.tracks[a as int], s.library_view));
    assert(key_at(keys, b) == view_key(s.tracks[b as int], s.library_view));
}

/// The artist groups come in the order of their artists' names.
pub proof fn law_artist_groups_ordered(tracks: Seq<TrackView>, p: int, q: int)
    requires
        tracks.len() <= usize::MAX,
        0 <= p < q < artist_groups_of(tracks).len(),
    ensures
        seq_lt(artist_groups_of(tracks)[p].0, artist_groups_of(tracks)[q].0),
{
    let names = artist_names(tracks);
    let keys = name_keys(names);
    let heads = sorted_indices(group_heads(names), keys);
    lemma_sorted_heads_distinct(names, keys, p, q);
    lemma_sorted_heads_are_heads(names, keys, p);
    lemma_sorted_heads_are_heads(names, keys, q);
    lemma_sorted_in_order(group_heads(names), keys, p, q);
    let hp = heads[p];
    let hq = heads[q];
    assert(key_at(keys, hp) == crate::groups::name_key(names[hp as int]));
    assert(key_at(keys, hq) == crate::groups::name_key(names[hq as int]));
    assert(artist_groups_of(tracks)[p].0 == or_empty(names[hp as int]));
    assert(artist_groups_of(tracks)[q].0 == or_empty(names[hq as int]));
}

/// The album groups come in the order of their albums, then of their
/// artists (ASCII letters compared without case).
pub proof fn law_album_groups_ordered(tracks: Seq<TrackView>, p: int, q: int)
    requires
        tracks.len() <= usize::MAX,
        0 <= p < q < album_groups_of(tracks).len(),
    ensures
        ({
            let g = album_groups_of(tracks)[p];
            let h = album_groups_of(tracks)[q];
            ||| seq_lt(lower(g.album), lower(h.album))
            ||| lower(g.album) == lower(h.album) && seq_lt(
                lower(or_empty(g.artist)),
                lower(or_empty(h.artist)),
            )
        }),
{
    let names = album_keys(tracks);
    let keys = album_order_keys(tracks);
    let heads = sorted_indices(group_heads(names), keys);
    lemma_sorted_heads_distinct(names, keys, p, q);
    lemma_sorted_heads_are_heads(names, keys, p);
    lemma_sorted_heads_are_heads(names, keys, q);
    lemma_sorted_in_order(group_heads(names), keys, p, q);
    let hp = heads[p];
    let hq = heads[q];
    let tp = tracks[hp as int];
    let tq = tracks[hq as int];
    assert(names[hp as int] == album_key_of(tp));
    assert(names[hq as int] == album_key_of(tq));
    assert(key_at(keys, hp) == crate::groups::album_order_key(tp));
    assert(key_at(keys, hq) == crate::groups::album_order_key(tq));
    assert(album_groups_of(tracks)[p] == album_group_at(tracks, hp));
    assert(album_groups_of(tracks)[q] == album_group_at(tracks, hq));
}

/// The sections of a grid split its cards: a section lists exactly the
/// cards whose name falls under its letter, each once; the sections have
/// distinct letters and come in the order of their letters.
pub proof fn law_grid_sections_partition(names: Seq<Seq<char>>, p: int, q: int, i: usize)
    requires
        names.len() <= usize::MAX,
        0 <= p < sections_of(names).len(),
        0 <= q < sections_of(names).len(),
    ensures
        sections_of(names)[p].1.to_multiset().count(i) == if i < names.len() && section_letter(
            names[i as int],
        ) == sections_of(names)[p].0 {
            1nat
        } else {
            0nat
        },
        p < q ==> seq_lt(sections_of(names)[p].0, sections_of(names)[q].0),
{
    let letters = letters_of(names);
    let keys = name_keys(letters);
    let heads = sorted_indices(group_heads(letters), keys);
    lemma_sorted_heads_are_heads(letters, keys, p);
    lemma_sorted_heads_are_heads(letters, keys, q);
    let hp = heads[p];
    let hq = heads[q];
    assert(sections_of(names)[p].0 == section_letter(names[hp as int]));
    lemma_filter_range_count(letters.len(), member_pred(letters, letters[hp as int]), i);
    if i < names.len() {
        assert(letters[i as int] == Some(section_letter(names[i as int])));
    }
    if p < q {
        lemma_sorted_heads_distinct(letters, keys, p, q);
        lemma_sorted_in_order(group_heads(letters), keys, p, q);
        assert(key_at(keys, hp) == crate::groups::name_key(letters[hp as int]));
        assert(key_at(keys, hq) == crate::groups::name_key(letters[hq as int]));
        assert(sections_of(names)[q].0 == section_letter(names[hq as int]));
    }
}

/// When following the context changes the queue, the track being played
/// is at the new queue position, and the shuffle history starts there;
/// nothing but the queue, its position and the history changes.
pub proof fn law_synced_keeps_current(s: AppView)
    requires
        wf(s),
        synced(s) != s,
    ensures
        ({
            let t = synced(s);
            &&& s.current is Some
            &&& t.queue_pos matches Some(p)
            &&& p < t.play_queue.len()
            &&& t.play_queue[p as int] == s.current->0
            &&& t.shuffle_history == seq![p]
            &&& t == AppView {
                play_queue: t.play_queue,
                queue_pos: t.queue_pos,
                shuffle_history: t.shuffle_history,
                ..s
            }
        }),
{
    let cur = s.current->0;
    let q = context_queue(s);
    crate::library::lemma_find_index_found(q, cur, 0);
    crate::context::lemma_context_queue_len(s);
}

/// With tracks in the library, stepping forward or back always names a
/// track to play, and it is the track at the new queue position.
pub proof fn law_step_plays_queue_position(s: AppView)
    requires
        wf(s),
        s.tracks.len() > 0,
    ensures
        ({
            let (s1, r1) = next_played(s);
            &&& r1 is Some
            &&& s1.queue_pos matches Some(p)
            &&& p < s1.play_queue.len()
            &&& s1.play_queue[p as int] == r1->0
        }),
        ({
            let (s2, r2) = previous_played(s);
            &&& r2 is Some
            &&& s2.queue_pos matches Some(p)
            &&& p < s2.play_queue.len()
            &&& s2.play_queue[p as int] == r2->0
        }),
{
    crate::context::lemma_synced_wf(s);
    crate::queue::lemma_queue_ensured_wf(synced(s));
    let s2 = step_ready(s);
    let len = s2.play_queue.len();
    assert(len > 0);
    if s2.shuffle {
        lemma_shuffled_pos(s2);
    }
    if s2.shuffle && s2.shuffle_history.len() > 1 {
        let h = s2.shuffle_history.drop_last();
        assert(h.last() == s2.shuffle_history[h.len() - 1]);
    }
}

/// Playback never changes the library: starting a queue, playing a queue
/// position, stepping forward or back, the play button, the shuffle
/// button and clearing the queue all keep the tracks as they are.
pub proof fn law_playback_keeps_tracks(
    s: AppView,
    idx: usize,
    queue: Seq<usize>,
    pos: usize,
    record: bool,
)
    requires
        wf(s),
    ensures
        queue_started(s, idx, queue).tracks == s.tracks,
        played_at(s, pos, record).0.tracks == s.tracks,
        next_played(s).0.tracks == s.tracks,
        previous_played(s).0.tracks == s.tracks,
        play_button_pressed(s).0.tracks == s.tracks,
        shuffle_toggled(s).tracks == s.tracks,
        queue_cleared(s).tracks == s.tracks,
{
    crate::context::lemma_synced_wf(s);
    crate::context::lemma_synced_wf(with_shuffle(s, true));
    crate::queue::lemma_queue_ensured_wf(synced(s));
    let s2 = step_ready(s);
    if s2.shuffle {
        lemma_shuffled_pos(s2);
    }
}

/// A track added to the library is then found by its file, and the tracks
/// already there stay where they were.
pub proof fn law_added_track_is_found(s: AppView, t: TrackView)
    ensures
        has_path(with_track(s, t).tracks, t.path),
        with_track(s, t).tracks.len() >= s.tracks.len(),
        forall|i: int|
            0 <= i < s.tracks.len() ==> #[trigger] with_track(s, t).tracks[i] == s.tracks[i],
{
    if !has_path(s.tracks, t.path) {
        assert(with_track(s, t).tracks[s.tracks.len() as int].path == t.path);
    }
}

/// In the artists view, of two listed tracks whose artist and album are
/// the same (ASCII letters compared without case), the one with the
/// smaller track number comes first, a track without a number counting
/// as `u32::MAX`; with equal numbers, the smaller title comes first.
pub proof fn law_artists_view_by_track_number(s: AppView, p: int, q: int)
    requires
        wf(s),
        s.library_view == LibraryView::Artists,
        0 <= p < q < view_queue(s).len(),
        ({
            let tp = s.tracks[view_queue(s)[p] as int];
            let tq = s.tracks[view_queue(s)[q] as int];
            &&& lower(display_artist_of(tp)) == lower(display_artist_of(tq))
            &&& lower(or_empty(tp.album)) == lower(or_empty(tq.album))
        }),
    ensures
        ({
            let tp = s.tracks[view_queue(s)[p] as int];
            let tq = s.tracks[view_queue(s)[q] as int];
            let np: u32 = match tp.track_number {
                Some(n) => n,
                None => u32::MAX,
            };
            let nq: u32 = match tq.track_number {
                Some(n) => n,
                None => u32::MAX,
            };
            &&& np <= nq
            &&& np == nq ==> !seq_lt(lower(display_title_of(tq)), lower(display_title_of(tp)))
        }),
{
    law_view_in_key_order(s, p, q);
    let tp = s.tracks[view_queue(s)[p] as int];
    let tq = s.tracks[view_queue(s)[q] as int];
    lemma_seq_lt_irreflexive(lower(display_artist_of(tp)));
    lemma_seq_lt_irreflexive(lower(or_empty(tp.album)));
    if seq_lt(lower(display_title_of(tq)), lower(display_title_of(tp))) {
        crate::text::lemma_seq_lt_asymmetric(lower(display_title_of(tq)), lower(display_title_of(tp)));
        lemma_seq_lt_irreflexive(lower(display_title_of(tp)));
    }
}

/// In the albums view, of two listed tracks whose album and artist are the
/// same (ASCII letters compared without case), the one with the smaller
/// track number comes first, a track without a number counting as
/// `u32::MAX`; with equal numbers, the smaller title comes first.
pub proof fn law_albums_view_by_track_number(s: AppView, p: int, q: int)
    requires
        wf(s),
        s.library_view == LibraryView::Albums,
        0 <= p < q < view_queue(s).len(),
        ({
            let tp = s.tracks[view_queue(s)[p] as int];
            let tq = s.tracks[view_queue(s)[q] as int];
            &&& lower(display_artist_of(tp)) == lower(display_artist_of(tq))
            &&& lower(or_empty(tp.album)) == lower(or_empty(tq.album))
        }),
    ensures
        ({
            let tp = s.tracks[view_queue(s)[p] as int];
            let tq = s.tracks[view_queue(s)[q] as int];
            let np: u32 = match tp.track_number {
                Some(n) => n,
                None => u32::MAX,
            };
            let nq: u32 = match tq.track_number {
                Some(n) => n,
                None => u32::MAX,
            };
            &&& np <= nq
            &&& np == nq ==> !seq_lt(lower(display_title_of(tq)), lower(display_title_of(tp)))
        }),
{
    law_view_in_key_order(s, p, q);
    let tp = s.tracks[view_queue(s)[p] as int];
    let tq = s.tracks[view_queue(s)[q] as int];
    lemma_seq_lt_irreflexive(lower(display_artist_of(tp)));
    lemma_seq_lt_irreflexive(lower(or_empty(tp.album)));
    if seq_lt(lower(display_title_of(tq)), lower(display_title_of(tp))) {
        crate::text::lemma_seq_lt_asymmetric(lower(display_title_of(tq)), lower(display_title_of(tp)));
        lemma_seq_lt_irreflexive(lower(display_title_of(tp)));
    }
}

/// Reading a track: with `require_metadata`, a file is refused exactly
/// when its title, artist and album are all missing or blank; a file with
/// any of them, or any file when metadata is not required, gives a track
/// with the trimmed tags, named by its title, else its file stem, else
/// "unknown".
pub proof fn law_track_kept_unless_untagged(
    path: Seq<char>,
    file_stem: Option<Seq<char>>,
    title: Option<Seq<char>>,
    artist: Option<Seq<char>>,
    album: Option<Seq<char>>,
    cover_data: Option<Seq<u8>>,
    track_number: Option<u32>,
    require_metadata: bool,
)
    ensures
        ({
            let r = track_from(
                path,
                file_stem,
                title,
                artist,
                album,
                cover_data,
                track_number,
                require_metadata,
            );
            &&& r is None <==> (require_metadata && cleaned(title) is None && cleaned(artist) is None
                && cleaned(album) is None)
            &&& r matches Some(t) ==> {
                &&& t.path == path
                &&& t.title == cleaned(title)
                &&& t.artist == cleaned(artist)
                &&& t.album == cleaned(album)
                &&& t.cover_data == cover_data
                &&& t.track_number == track_number
                &&& t.name == match cleaned(title) {
                    Some(x) => x,
                    None => match file_stem {
                        Some(f) => f,
                        None => unknown_name(),
                    },
                }
            }
        }),
{
}

/// A search by key finds the one album group that has the key.
proof fn lemma_find_album_group_unique(tracks: Seq<TrackView>, p: int, start: int)
    requires
        tracks.len() <= usize::MAX,
        0 <= start <= p < album_groups_of(tracks).len(),
    ensures
        find_album_group(album_groups_of(tracks), album_groups_of(tracks)[p].key, start) == Some(p),
    decreases p - start,
{
    if start < p {
        law_album_groups_partition(tracks, start, p, 0);
        lemma_find_album_group_unique(tracks, p, start + 1);
    }
}

/// A search by name finds the one artist group that has the name.
proof fn lemma_find_artist_group_unique(tracks: Seq<TrackView>, p: int, start: int)
    requires
        tracks.len() <= usize::MAX,
        0 <= start <= p < artist_groups_of(tracks).len(),
    ensures
        find_artist_group(artist_groups_of(tracks), artist_groups_of(tracks)[p].0, start) == Some(
            p,
        ),
    decreases p - start,
{
    if start < p {
        law_artist_groups_partition(tracks, start, p, 0);
        lemma_find_artist_group_unique(tracks, p, start + 1);
    }
}

/// Every album group lists at least one track.
proof fn lemma_album_group_not_empty(tracks: Seq<TrackView>, p: int)
    requires
        tracks.len() <= usize::MAX,
        0 <= p < album_groups_of(tracks).len(),
    ensures
        album_groups_of(tracks)[p].indices.len() > 0,
        tracks.len() > 0,
{
    let names = album_keys(tracks);
    let keys = album_order_keys(tracks);
    let heads = sorted_indices(group_heads(names), keys);
    lemma_sorted_heads_are_heads(names, keys, p);
    let h = heads[p];
    assert(album_groups_of(tracks)[p] == album_group_at(tracks, h));
    assert(names[h as int] == album_key_of(tracks[h as int]));
    law_album_groups_partition(tracks, p, p, h);
    vstd::seq_lib::to_multiset_contains(album_groups_of(tracks)[p].indices, h);
}

/// Every artist group lists at least one track.
proof fn lemma_artist_group_not_empty(tracks: Seq<TrackView>, p: int)
    requires
        tracks.len() <= usize::MAX,
        0 <= p < artist_groups_of(tracks).len(),
    ensures
        artist_groups_of(tracks)[p].1.len() > 0,
        tracks.len() > 0,
{
    let names = artist_names(tracks);
    let keys = name_keys(names);
    let heads = sorted_indices(group_heads(names), keys);
    lemma_sorted_heads_are_heads(names, keys, p);
    let h = heads[p];
    assert(names[h as int] == tracks[h as int].artist);
    law_artist_groups_partition(tracks, p, p, h);
    vstd::seq_lib::to_multiset_contains(artist_groups_of(tracks)[p].1, h);
}

/// In the albums view, when the unfolded album holds the track being
/// played and the queue is not already that album, following the context
/// makes the album's tracks the queue, positioned at the track being
/// played.
pub proof fn law_synced_follows_unfolded_album(s: AppView, p: int)
    requires
        wf(s),
        s.library_view == LibraryView::Albums,
        s.current is Some,
        0 <= p < album_groups_of(s.tracks).len(),
        s.expanded_album == Some(album_groups_of(s.tracks)[p].key),
        album_groups_of(s.tracks)[p].indices.contains(s.current->0),
        s.play_queue != album_groups_of(s.tracks)[p].indices,
    ensures
        synced(s).play_queue == album_groups_of(s.tracks)[p].indices,
        synced(s).queue_pos matches Some(i) && i < synced(s).play_queue.len()
            && synced(s).play_queue[i as int] == s.current->0,
{
    lemma_find_album_group_unique(s.tracks, p, 0);
    let q = album_groups_of(s.tracks)[p].indices;
    lemma_contains_found(q, s.current->0, 0);
    crate::library::lemma_find_index_found(q, s.current->0, 0);
    crate::context::lemma_context_queue_len(s);
}

/// In the artists view, when the unfolded artist has the track being
/// played and the queue is not already that artist's tracks, following the
/// context makes the artist's tracks the queue, positioned at the track
/// being played.
pub proof fn law_synced_follows_unfolded_artist(s: AppView, p: int)
    requires
        wf(s),
        s.library_view == LibraryView::Artists,
        s.current is Some,
        0 <= p < artist_groups_of(s.tracks).len(),
        s.expanded_artist == Some(artist_groups_of(s.tracks)[p].0),
        artist_groups_of(s.tracks)[p].1.contains(s.current->0),
        s.play_queue != artist_groups_of(s.tracks)[p].1,
    ensures
        synced(s).play_queue == artist_groups_of(s.tracks)[p].1,
        synced(s).queue_pos matches Some(i) && i < synced(s).play_queue.len()
            && synced(s).play_queue[i as int] == s.current->0,
{
    lemma_find_artist_group_unique(s.tracks, p, 0);
    let q = artist_groups_of(s.tracks)[p].1;
    lemma_contains_found(q, s.current->0, 0);
    crate::library::lemma_find_index_found(q, s.current->0, 0);
    crate::context::lemma_context_queue_len(s);
}

/// With nothing playing, in the albums view with an album unfolded, the
/// play button makes the album's tracks the queue and plays its first
/// track.
pub proof fn law_play_button_starts_unfolded_album(s: AppView, p: int)
    requires
        wf(s),
        s.current is None,
        s.library_view == LibraryView::Albums,
        0 <= p < album_groups_of(s.tracks).len(),
        s.expanded_album == Some(album_groups_of(s.tracks)[p].key),
    ensures
        ({
            let g = album_groups_of(s.tracks)[p];
            let (s1, action) = play_button_pressed(s);
            &&& action == PlayButtonAction::Play(g.indices[0])
            &&& s1.play_queue == g.indices
            &&& s1.queue_pos == Some(0usize)
        }),
{
    lemma_find_album_group_unique(s.tracks, p, 0);
    lemma_album_group_not_empty(s.tracks, p);
}

/// With nothing playing, in the artists view with an artist unfolded, the
/// play button makes the artist's tracks the queue and plays the first of
/// them.
pub proof fn law_play_button_starts_unfolded_artist(s: AppView, p: int)
    requires
        wf(s),
        s.current is None,
        s.library_view == LibraryView::Artists,
        0 <= p < artist_groups_of(s.tracks).len(),
        s.expanded_artist == Some(artist_groups_of(s.tracks)[p].0),
    ensures
        ({
            let g = artist_groups_of(s.tracks)[p];
            let (s1, action) = play_button_pressed(s);
            &&& action == PlayButtonAction::Play(g.1[0])
            &&& s1.play_queue == g.1
            &&& s1.queue_pos == Some(0usize)
        }),
{
    lemma_find_artist_group_unique(s.tracks, p, 0);
    lemma_artist_group_not_empty(s.tracks, p);
}

/// Each pixel of a decoded cover comes from its own straight-alpha
/// sample: it keeps the sample's alpha; an opaque sample keeps its colour,
/// a fully transparent one turns black; a zero channel stays zero; and a
/// dark channel (at most 10) is scaled by alpha / 255, to within one half.
pub proof fn law_cover_pixel_from_its_sample(c: CoverPixels, raw: Seq<u8>, i: int)
    requires
        premultiplied_cover(c, raw),
        0 <= i < c.width as int * c.height as int,
    ensures
        ({
            let p = c.pixels@[i];
            let a = raw[4 * i + 3];
            &&& p.3 == a
            &&& a == 255 ==> p.0 == raw[4 * i] && p.1 == raw[4 * i + 1] && p.2 == raw[4 * i + 2]
            &&& a == 0 ==> p.0 == 0 && p.1 == 0 && p.2 == 0
            &&& raw[4 * i] == 0 ==> p.0 == 0
            &&& raw[4 * i + 1] == 0 ==> p.1 == 0
            &&& raw[4 * i + 2] == 0 ==> p.2 == 0
            &&& raw[4 * i] <= 10 ==> 255 * p.0 <= raw[4 * i] * a + 128 && raw[4 * i] * a <= 255
                * p.0 + 128
            &&& raw[4 * i + 1] <= 10 ==> 255 * p.1 <= raw[4 * i + 1] * a + 128 && raw[4 * i + 1]
                * a <= 255 * p.1 + 128
            &&& raw[4 * i + 2] <= 10 ==> 255 * p.2 <= raw[4 * i + 2] * a + 128 && raw[4 * i + 2]
                * a <= 255 * p.2 + 128
        }),
{
    assert(crate::cover::premultiplied_from(c.pixels@[i], raw, i));
}

/// Adding a track twice adds it once.
pub proof fn law_add_track_once(s: AppView, t: TrackView)
    ensures
        with_track(with_track(s, t), t) == with_track(s, t),
{
    let s1 = with_track(s, t);
    if !has_path(s.tracks, t.path) {
        assert(s1.tracks[s.tracks.len() as int].path == t.path);
    }
}

/// An element that occurs at or after the start is found.
proof fn lemma_contains_found(q: Seq<usize>, x: usize, start: int)
    requires
        0 <= start <= q.len(),
        exists|k: int| start <= k < q.len() && q[k] == x,
    ensures
        find_index(q, x, start) is Some,
    decreases q.len() - start,
{
    if q[start] != x {
        lemma_contains_found(q, x, start + 1);
    }
}

/// Starting a queue at a track that the queue holds (or with an empty
/// queue) positions the queue at that track.
pub proof fn law_queue_started_at_track(s: AppView, idx: usize, queue: Seq<usize>)
    requires
        queue.len() == 0 || queue.contains(idx),
        queue.len() <= usize::MAX,
    ensures
        ({
            let s1 = queue_started(s, idx, queue);
            &&& s1.queue_pos matches Some(p)
            &&& p < s1.play_queue.len()
            &&& s1.play_queue[p as int] == idx
        }),
{
    let q = if queue.len() == 0 {
        seq![idx]
    } else {
        queue
    };
    assert(q[0] == idx || queue.contains(idx));
    if queue.len() == 0 {
        assert(q[0] == idx);
    }
    lemma_contains_found(q, idx, 0);
    crate::library::lemma_find_index_found(q, idx, 0);
}

/// A shortened label has at most `max_chars` characters (one, the
/// ellipsis, when `max_chars` is zero) and is the text itself when that
/// fits.
pub proof fn law_short_text_fits(text: Seq<char>, max_chars: usize)
    ensures
        shortened(text, max_chars).len() <= if max_chars > 0 {
            max_chars as int
        } else {
            1
        },
        text.len() <= max_chars ==> shortened(text, max_chars) == text,
{
}

/// Clicking a card twice leaves it as it was, when it was unfolded or
/// nothing was.
pub proof fn law_toggle_twice(expanded: Option<Seq<char>>, name: Seq<char>)
    requires
        expanded is None || expanded == Some(name),
    ensures
        toggled(toggled(expanded, name), name) == expanded,
{
}

} // verus!
