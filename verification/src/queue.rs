//! The play queue: starting a queue, stepping forward and back through it
//! in order or shuffled, and the shuffle's pseudo-random choice of the
//! next position.
//!
//! Each operation changes the state and names the track to play, if any;
//! playing it (opening the file and starting the audio) is the caller's.
use vstd::prelude::*;
use crate::context::{context_queue, synced};
use crate::library::{
    index_range, lemma_find_index_found, position_in, position_of, view_queue, wf, App, AppView,
};

verus! {

// ---------------------------------------------------------------------
// Specification of the queue operations
// ---------------------------------------------------------------------

/// The state after a queue is started at track `idx`: an empty queue
/// becomes `[idx]`; the position is that of `idx` in the queue (the first
/// when it is not there); the shuffle history holds that position.
pub open spec fn queue_started(s: AppView, idx: usize, queue: Seq<usize>) -> AppView {
    let q = if queue.len() == 0 {
        seq![idx]
    } else {
        queue
    };
    let pos = match position_of(q, idx) {
        Some(p) => p as usize,
        None => 0,
    };
    AppView { play_queue: q, queue_pos: Some(pos), shuffle_history: seq![pos], ..s }
}

/// The shuffle history after position `pos` is played: recorded, unless it
/// is already the last entry.
pub open spec fn recorded(history: Seq<usize>, pos: usize, record: bool) -> Seq<usize> {
    if record && !(history.len() > 0 && history.last() == pos) {
        history.push(pos)
    } else {
        history
    }
}

/// Playing the queue at position `pos`: the position and (when asked) the
/// history are updated, and the track there is the one to play; nothing
/// happens for a position outside the queue.
pub open spec fn played_at(s: AppView, pos: usize, record: bool) -> (AppView, Option<usize>) {
    if pos >= s.play_queue.len() {
        (s, None)
    } else {
        (
            AppView {
                queue_pos: Some(pos),
                shuffle_history: recorded(s.shuffle_history, pos, record),
                ..s
            },
            Some(s.play_queue[pos as int]),
        )
    }
}

/// The state with a queue: an empty queue is filled with what the view
/// lists, or with every track when the view lists none; its position is
/// that of the track being played, if it is in it.
pub open spec fn queue_ensured(s: AppView) -> AppView {
    if s.play_queue.len() > 0 {
        s
    } else {
        let listed = view_queue(s);
        let q = if listed.len() > 0 {
            listed
        } else {
            index_range(s.tracks.len())
        };
        let pos = match s.current {
            Some(c) => match position_of(q, c) {
                Some(p) => Some(p as usize),
                None => None,
            },
            None => None,
        };
        AppView { play_queue: q, queue_pos: pos, ..s }
    }
}

/// One step of the shuffle's xorshift generator.
pub open spec fn xorshift(x: u64) -> u64 {
    let a = x ^ (x << 13u64);
    let b = a ^ (a >> 7u64);
    b ^ (b << 17u64)
}

/// The search for a shuffled position: up to `rounds` draws of the
/// generator, each giving the position `seed % len`; the first position
/// that is neither the current one nor in the history is taken. Gives the
/// generator's state after the search and the position found.
pub open spec fn shuffle_search(
    seed: u64,
    rounds: nat,
    len: nat,
    current: Option<usize>,
    history: Seq<usize>,
) -> (u64, Option<usize>)
    decreases rounds,
{
    if rounds == 0 {
        (seed, None)
    } else {
        let next = xorshift(seed);
        let pos = ((next as usize) as int % (len as int)) as usize;
        if Some(pos) != current && !history.contains(pos) {
            (next, Some(pos))
        } else {
            shuffle_search(next, (rounds - 1) as nat, len, current, history)
        }
    }
}

/// The shuffle history kept for a shuffled choice: once every position has
/// been played, only the current one stays.
pub open spec fn shuffle_history_kept(s: AppView) -> Seq<usize> {
    if s.shuffle_history.len() >= s.play_queue.len() {
        match s.queue_pos {
            Some(p) => seq![p],
            None => Seq::empty(),
        }
    } else {
        s.shuffle_history
    }
}

/// The shuffle's choice of the next position: none for an empty queue,
/// the only position of a queue of one; otherwise the position found by
/// `3 * len` draws of the generator (a zero seed counting as one), or else
/// the position after the current one.
pub open spec fn shuffled_pos(s: AppView) -> (AppView, Option<usize>) {
    let len = s.play_queue.len();
    if len == 0 {
        (s, None)
    } else if len == 1 {
        (s, Some(0))
    } else {
        let seed = if s.shuffle_seed == 0 {
            1
        } else {
            s.shuffle_seed
        };
        let history = shuffle_history_kept(s);
        let found = shuffle_search(seed, 3 * len, len, s.queue_pos, history);
        let cur = pos_or_start(s.queue_pos);
        let pos = match found.1 {
            Some(p) => p,
            None => ((cur + 1) % (len as int)) as usize,
        };
        (AppView { shuffle_seed: found.0, shuffle_history: history, ..s }, Some(pos))
    }
}

/// The queue made ready for a step: following the context, and filled.
pub open spec fn step_ready(s: AppView) -> AppView {
    queue_ensured(synced(s))
}

/// The position after `cur` in a queue of `len`, wrapping to the start.
pub open spec fn next_pos(cur: usize, len: nat) -> usize {
    if cur + 1 < len {
        (cur + 1) as usize
    } else {
        0
    }
}

/// The position before `cur` in a queue of `len`, wrapping to the end.
pub open spec fn prev_pos(cur: usize, len: nat) -> usize {
    if cur > 0 {
        (cur - 1) as usize
    } else {
        (len - 1) as usize
    }
}

/// A queue position, the start standing for none.
pub open spec fn pos_or_start(p: Option<usize>) -> usize {
    match p {
        Some(p) => p,
        None => 0,
    }
}

/// Playing the next track: shuffled, the shuffle's choice; in order, the
/// position after the current one (wrapping). Nothing without tracks.
pub open spec fn next_played(s: AppView) -> (AppView, Option<usize>) {
    if s.tracks.len() == 0 {
        (s, None)
    } else {
        let s2 = step_ready(s);
        if s2.play_queue.len() == 0 {
            (s2, None)
        } else if s2.shuffle {
            let (s3, r) = shuffled_pos(s2);
            match r {
                Some(p) => played_at(s3, p, true),
                None => (s3, None),
            }
        } else {
            played_at(s2, next_pos(pos_or_start(s2.queue_pos), s2.play_queue.len()), true)
        }
    }
}

/// Playing the previous track: shuffled with some history, the position
/// played before the last one (the last one is dropped from the history);
/// otherwise the position before the current one (wrapping). Nothing
/// without tracks.
pub open spec fn previous_played(s: AppView) -> (AppView, Option<usize>) {
    if s.tracks.len() == 0 {
        (s, None)
    } else {
        let s2 = step_ready(s);
        if s2.play_queue.len() == 0 {
            (s2, None)
        } else if s2.shuffle && s2.shuffle_history.len() > 1 {
            let h = s2.shuffle_history.drop_last();
            played_at(AppView { shuffle_history: h, ..s2 }, h.last(), false)
        } else {
            played_at(s2, prev_pos(pos_or_start(s2.queue_pos), s2.play_queue.len()), true)
        }
    }
}

/// What the play button asks of the caller.
#[derive(Clone, Copy, PartialEq, Eq, Structural, Debug)]
pub enum PlayButtonAction {
    /// A track is loaded: pause it, or resume it.
    TogglePause,
    /// Play this track.
    Play(usize),
    /// There is nothing to play.
    Nothing,
}

/// The play button: with a track loaded, pause or resume; otherwise start
/// the context as the queue at its first track (track 0 for an empty
/// context); without tracks, nothing.
pub open spec fn play_button_pressed(s: AppView) -> (AppView, PlayButtonAction) {
    if s.current is Some {
        (s, PlayButtonAction::TogglePause)
    } else if s.tracks.len() == 0 {
        (s, PlayButtonAction::Nothing)
    } else {
        let q = context_queue(s);
        let start = if q.len() > 0 {
            q[0]
        } else {
            0
        };
        (queue_started(s, start, q), PlayButtonAction::Play(start))
    }
}

// ---------------------------------------------------------------------
// Facts used by the proofs
// ---------------------------------------------------------------------

/// A position found by the shuffle search lies in the queue, is not the
/// current one and is not in the history.
pub proof fn lemma_shuffle_search_in_range(
    seed: u64,
    rounds: nat,
    len: nat,
    current: Option<usize>,
    history: Seq<usize>,
)
    requires
        len > 0,
    ensures
        shuffle_search(seed, rounds, len, current, history).1 matches Some(p) ==> p < len && Some(p)
            != current && !history.contains(p),
    decreases rounds,
{
    if rounds > 0 {
        lemma_shuffle_search_in_range(xorshift(seed), (rounds - 1) as nat, len, current, history);
    }
}

/// The shuffle's choice keeps the invariant, the queue and its position,
/// and names a position of the queue other than the current one.
pub proof fn lemma_shuffled_pos(s: AppView)
    requires
        wf(s),
    ensures
        wf(shuffled_pos(s).0),
        shuffled_pos(s).0.play_queue == s.play_queue,
        shuffled_pos(s).0.queue_pos == s.queue_pos,
        shuffled_pos(s).0.tracks == s.tracks,
        s.play_queue.len() > 0 ==> (shuffled_pos(s).1 matches Some(p) && p < s.play_queue.len()),
        s.play_queue.len() > 1 ==> shuffled_pos(s).1 != s.queue_pos,
{
    let len = s.play_queue.len();
    if len > 1 {
        let seed = if s.shuffle_seed == 0 {
            1
        } else {
            s.shuffle_seed
        };
        lemma_shuffle_search_in_range(seed, 3 * len, len, s.queue_pos, shuffle_history_kept(s));
        {
            let l = len as int;
            let q = pos_or_start(s.queue_pos) as int;
            assert((q + 1) % l == if q + 1 < l {
                q + 1
            } else {
                0
            }) by (nonlinear_arith)
                requires
                    0 <= q < l,
                    l > 1,
            ;
            let found = shuffle_search(seed, 3 * len, len, s.queue_pos, shuffle_history_kept(s));
            if found.1 is None {
                assert(shuffled_pos(s).1 == Some(((q + 1) % l) as usize));
                if let Some(p) = s.queue_pos {
                    assert(p == q);
                    assert(((q + 1) % l) as usize != p);
                }
            }
        }
    }
}

/// Filling the queue keeps the invariant and the tracks, and with tracks
/// in the library it leaves the queue non-empty.
pub proof fn lemma_queue_ensured_wf(s: AppView)
    requires
        wf(s),
    ensures
        wf(queue_ensured(s)),
        queue_ensured(s).tracks == s.tracks,
        s.tracks.len() > 0 ==> queue_ensured(s).play_queue.len() > 0,
{
    if s.play_queue.len() == 0 {
        let s2 = queue_ensured(s);
        crate::library::lemma_view_queue_len(s);
        if let Some(c) = s.current {
            lemma_find_index_found(s2.play_queue, c, 0);
        }
        assert(s.shuffle_history.len() == 0) by {
            if s.shuffle_history.len() > 0 {
                assert(s.shuffle_history[0] < s.play_queue.len());
            }
        }
    }
}

/// Playing a queue position keeps the invariant, the tracks and the queue.
pub proof fn lemma_played_at_wf(s: AppView, pos: usize, record: bool)
    requires
        wf(s),
    ensures
        wf(played_at(s, pos, record).0),
        played_at(s, pos, record).0.tracks == s.tracks,
        played_at(s, pos, record).0.play_queue == s.play_queue,
{
}

// ---------------------------------------------------------------------
// The operations
// ---------------------------------------------------------------------

/// One step of the shuffle's xorshift generator.
pub fn xorshift_step(x: u64) -> (r: u64)
    ensures
        r == xorshift(x),
{
    let a = x ^ (x << 13u64);
    let b = a ^ (a >> 7u64);
    b ^ (b << 17u64)
}

/// Whether the shuffle history holds the position.
fn history_contains(history: &Vec<usize>, pos: usize) -> (r: bool)
    ensures
        r == history@.contains(pos),
{
    let mut i: usize = 0;
    while i < history.len()
        invariant
            i <= history.len(),
            forall|k: int| 0 <= k < i ==> history@[k] != pos,
        decreases history.len() - i,
    {
        if history[i] == pos {
            proof {
                assert(history@[i as int] == pos);
            }
            return true;
        }
        i = i + 1;
    }
    false
}

impl App {
    /// Starts the queue `queue` at track `idx` (see `queue_started`) and
    /// gives back `idx`, the track to play.
    pub fn set_queue_and_play(&mut self, idx: usize, queue: Vec<usize>) -> (r: usize)
        requires
            wf(old(self)@),
        ensures
            final(self)@ == queue_started(old(self)@, idx, queue@),
            r == idx,
            wf(final(self)@),
    {
        let ghost given = queue@;
        let mut queue = queue;
        if queue.len() == 0 {
            queue.push(idx);
        }
        let ghost q = queue@;
        let pos = match position_in(&queue, idx) {
            Some(p) => p,
            None => 0,
        };
        self.play_queue = queue;
        self.queue_pos = Some(pos);
        self.shuffle_history = Vec::new();
        self.shuffle_history.push(pos);
        proof {
            assert(q =~= if given.len() == 0 {
                seq![idx]
            } else {
                given
            });
            assert(self@.shuffle_history =~= seq![pos]);
            assert(self@.tracks == old(self)@.tracks);
        }
        idx
    }

    /// Plays the queue at position `pos` (see `played_at`); gives back the
    /// track to play.
    pub fn play_queued_at(&mut self, pos: usize, record_history: bool) -> (r: Option<usize>)
        requires
            wf(old(self)@),
        ensures
            final(self)@ == played_at(old(self)@, pos, record_history).0,
            r == played_at(old(self)@, pos, record_history).1,
            wf(final(self)@),
    {
        proof {
            lemma_played_at_wf(self@, pos, record_history);
        }
        if pos >= self.play_queue.len() {
            return None;
        }
        let idx = self.play_queue[pos];
        self.queue_pos = Some(pos);
        if record_history {
            let n = self.shuffle_history.len();
            let last_is_pos = n > 0 && self.shuffle_history[n - 1] == pos;
            if !last_is_pos {
                self.shuffle_history.push(pos);
            }
        }
        proof {
            assert(self@.tracks == old(self)@.tracks);
            assert(self@.shuffle_history =~= recorded(
                old(self)@.shuffle_history,
                pos,
                record_history,
            ));
        }
        Some(idx)
    }

    /// Fills an empty queue (see `queue_ensured`).
    pub fn ensure_queue(&mut self)
        requires
            wf(old(self)@),
        ensures
            final(self)@ == queue_ensured(old(self)@),
            wf(final(self)@),
    {
        proof {
            lemma_queue_ensured_wf(self@);
        }
        if self.play_queue.len() > 0 {
            return;
        }
        let mut q = self.current_view_queue();
        if q.len() == 0 {
            let mut all: Vec<usize> = Vec::new();
            let mut i: usize = 0;
            while i < self.tracks.len()
                invariant
                    i <= self.tracks.len(),
                    all@ == index_range(i as nat),
                decreases self.tracks.len() - i,
            {
                all.push(i);
                proof {
                    assert(all@ =~= index_range((i + 1) as nat));
                }
                i = i + 1;
            }
            q = all;
        }
        let pos = match self.current {
            Some(c) => position_in(&q, c),
            None => None,
        };
        self.play_queue = q;
        self.queue_pos = pos;
        proof {
            assert(self@.tracks == old(self)@.tracks);
        }
    }

    /// The shuffle's choice of the next position (see `shuffled_pos`).
    pub fn random_queue_pos(&mut self) -> (r: Option<usize>)
        requires
            wf(old(self)@),
        ensures
            final(self)@ == shuffled_pos(old(self)@).0,
            r == shuffled_pos(old(self)@).1,
            wf(final(self)@),
    {
        proof {
            lemma_shuffled_pos(self@);
        }
        let len = self.play_queue.len();
        if len == 0 {
            return None;
        }
        if len == 1 {
            return Some(0);
        }
        if self.shuffle_seed == 0 {
            self.shuffle_seed = 1;
        }
        if self.shuffle_history.len() >= len {
            self.shuffle_history = Vec::new();
            if let Some(pos) = self.queue_pos {
                self.shuffle_history.push(pos);
            }
            proof {
                assert(self@.shuffle_history =~= shuffle_history_kept(old(self)@));
            }
        }
        let ghost start_seed = self.shuffle_seed;
        proof {
            assert(self@.shuffle_history == shuffle_history_kept(old(self)@));
        }
        let ghost history = self.shuffle_history@;
        let ghost current = self.queue_pos;
        let rounds: u128 = (len as u128) * 3;
        let mut k: u128 = 0;
        while k < rounds
            invariant
                k <= rounds,
                rounds == 3 * len,
                len == self.play_queue@.len(),
                len > 1,
                history == self.shuffle_history@,
                current == self.queue_pos,
                shuffle_search(start_seed, rounds as nat, len as nat, current, history)
                    == shuffle_search(self.shuffle_seed, (rounds - k) as nat, len as nat, current, history),
                start_seed == (if old(self)@.shuffle_seed == 0 {
                    1
                } else {
                    old(self)@.shuffle_seed
                }),
                history == shuffle_history_kept(old(self)@),
                wf(shuffled_pos(old(self)@).0),
                old(self)@.play_queue.len() == len,
                self@.queue_pos == old(self)@.queue_pos,
                self@.tracks == old(self)@.tracks,
                self@.play_queue == old(self)@.play_queue,
                self@.current == old(self)@.current,
                self@.library_view == old(self)@.library_view,
                self@.expanded_artist == old(self)@.expanded_artist,
                self@.expanded_album == old(self)@.expanded_album,
                self@.shuffle == old(self)@.shuffle,
            decreases rounds - k,
        {
            self.shuffle_seed = xorshift_step(self.shuffle_seed);
            let pos = ((self.shuffle_seed as usize) % len) as usize;
            let differs = match self.queue_pos {
                Some(p) => p != pos,
                None => true,
            };
            if differs && !history_contains(&self.shuffle_history, pos) {
                return Some(pos);
            }
            k = k + 1;
        }
        let current_pos = match self.queue_pos {
            Some(p) => p,
            None => 0,
        };
        Some((current_pos + 1) % len)
    }

    /// Plays the next track (see `next_played`); gives back the track to
    /// play.
    pub fn play_next(&mut self) -> (r: Option<usize>)
        requires
            wf(old(self)@),
        ensures
            final(self)@ == next_played(old(self)@).0,
            r == next_played(old(self)@).1,
            wf(final(self)@),
    {
        if self.tracks.len() == 0 {
            return None;
        }
        self.sync_queue_with_context_if_current_inside();
        self.ensure_queue();
        if self.play_queue.len() == 0 {
            return None;
        }
        if self.shuffle {
            match self.random_queue_pos() {
                Some(pos) => self.play_queued_at(pos, true),
                None => None,
            }
        } else {
            let current_pos = match self.queue_pos {
                Some(p) => p,
                None => 0,
            };
            let next_pos = if current_pos + 1 < self.play_queue.len() {
                current_pos + 1
            } else {
                0
            };
            self.play_queued_at(next_pos, true)
        }
    }

    /// Plays the previous track (see `previous_played`); gives back the
    /// track to play.
    pub fn play_previous(&mut self) -> (r: Option<usize>)
        requires
            wf(old(self)@),
        ensures
            final(self)@ == previous_played(old(self)@).0,
            r == previous_played(old(self)@).1,
            wf(final(self)@),
    {
        if self.tracks.len() == 0 {
            return None;
        }
        self.sync_queue_with_context_if_current_inside();
        self.ensure_queue();
        if self.play_queue.len() == 0 {
            return None;
        }
        if self.shuffle && self.shuffle_history.len() > 1 {
            self.shuffle_history.pop();
            let n = self.shuffle_history.len();
            let pos = self.shuffle_history[n - 1];
            return self.play_queued_at(pos, false);
        }
        let current_pos = match self.queue_pos {
            Some(p) => p,
            None => 0,
        };
        let prev_pos = if current_pos > 0 {
            current_pos - 1
        } else {
            self.play_queue.len() - 1
        };
        self.play_queued_at(prev_pos, true)
    }

    /// The play button (see `play_button_pressed`).
    pub fn play_button(&mut self) -> (r: PlayButtonAction)
        requires
            wf(old(self)@),
        ensures
            final(self)@ == play_button_pressed(old(self)@).0,
            r == play_button_pressed(old(self)@).1,
            wf(final(self)@),
    {
        if self.current.is_some() {
            return PlayButtonAction::TogglePause;
        }
        if self.tracks.len() == 0 {
            return PlayButtonAction::Nothing;
        }
        let queue = self.active_context_queue();
        let start = if queue.len() > 0 {
            queue[0]
        } else {
            0
        };
        let idx = self.set_queue_and_play(start, queue);
        PlayButtonAction::Play(idx)
    }
}

} // verus!
