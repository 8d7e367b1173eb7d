use insomni::library::{App, LibraryView};
use insomni::queue::{xorshift_step, PlayButtonAction};
use insomni::track::Track;

fn track(path: &str, title: &str, artist: Option<&str>, album: Option<&str>) -> Track {
    Track {
        path: path.to_string(),
        name: path.to_string(),
        title: Some(title.to_string()),
        artist: artist.map(|s| s.to_string()),
        album: album.map(|s| s.to_string()),
        duration: None,
        cover_data: None,
        track_number: None,
    }
}

fn library(n: usize) -> App {
    let mut app = App::new(12345);
    for i in 0..n {
        let title = format!("t{i:02}");
        app.add_track(track(&format!("/m/{i}"), &title, Some("artist"), Some("album")));
    }
    app.select_view(LibraryView::Tracks);
    app
}

#[test]
fn queue_starts_at_the_track() {
    let mut app = library(4);
    assert_eq!(app.set_queue_and_play(2, vec![3, 2, 1]), 2);
    assert_eq!(app.play_queue, vec![3, 2, 1]);
    assert_eq!(app.queue_pos, Some(1));
    assert_eq!(app.shuffle_history, vec![1]);
}

#[test]
fn empty_queue_starts_with_the_track() {
    let mut app = library(4);
    app.set_queue_and_play(2, vec![]);
    assert_eq!(app.play_queue, vec![2]);
    assert_eq!(app.queue_pos, Some(0));
}

#[test]
fn track_outside_the_queue_positions_at_start() {
    let mut app = library(4);
    app.set_queue_and_play(0, vec![3, 2]);
    assert_eq!(app.queue_pos, Some(0));
}

#[test]
fn play_queued_at_records_history() {
    let mut app = library(4);
    app.set_queue_and_play(0, vec![0, 1, 2, 3]);
    assert_eq!(app.play_queued_at(2, true), Some(2));
    assert_eq!(app.shuffle_history, vec![0, 2]);
    assert_eq!(app.play_queued_at(2, true), Some(2));
    assert_eq!(app.shuffle_history, vec![0, 2]);
    assert_eq!(app.play_queued_at(3, false), Some(3));
    assert_eq!(app.shuffle_history, vec![0, 2]);
    assert_eq!(app.queue_pos, Some(3));
    assert_eq!(app.play_queued_at(4, true), None);
    assert_eq!(app.queue_pos, Some(3));
}

#[test]
fn next_and_previous_wrap_around() {
    let mut app = library(3);
    app.set_queue_and_play(0, vec![0, 1, 2]);
    assert_eq!(app.play_next(), Some(1));
    assert_eq!(app.play_next(), Some(2));
    assert_eq!(app.play_next(), Some(0));
    assert_eq!(app.play_previous(), Some(2));
    assert_eq!(app.queue_pos, Some(2));
}

#[test]
fn next_then_previous_returns_in_order() {
    let mut app = library(5);
    app.set_queue_and_play(3, vec![4, 3, 2, 1, 0]);
    let before = app.queue_pos;
    app.play_next();
    assert_eq!(app.play_previous(), Some(3));
    assert_eq!(app.queue_pos, before);
}

#[test]
fn next_without_tracks_does_nothing() {
    let mut app = App::new(1);
    assert_eq!(app.play_next(), None);
    assert_eq!(app.play_previous(), None);
    assert!(app.play_queue.is_empty());
}

#[test]
fn empty_queue_is_filled_from_the_view() {
    let mut app = library(3);
    app.start_track(1);
    app.ensure_queue();
    assert_eq!(app.play_queue, vec![0, 1, 2]);
    assert_eq!(app.queue_pos, Some(1));
    assert_eq!(app.play_next(), Some(2));
}

#[test]
fn empty_view_fills_queue_with_every_track() {
    let mut app = App::new(3);
    app.add_track(track("/a", "a", None, None));
    app.add_track(track("/b", "b", None, None));
    app.select_view(LibraryView::Artists);
    app.ensure_queue();
    assert_eq!(app.play_queue, vec![0, 1]);
    assert_eq!(app.queue_pos, None);
}

fn reference_shuffle(seed: u64, len: usize, current: Option<usize>, history: &[usize]) -> (u64, usize) {
    let mut s = if seed == 0 { 1 } else { seed };
    for _ in 0..len * 3 {
        s = {
            let mut x = s;
            x ^= x << 13;
            x ^= x >> 7;
            x ^= x << 17;
            x
        };
        let pos = (s as usize) % len;
        if Some(pos) != current && !history.contains(&pos) {
            return (s, pos);
        }
    }
    (s, (current.unwrap_or(0) + 1) % len)
}

#[test]
fn xorshift_matches_its_formula() {
    let mut x: u64 = 1;
    x ^= x << 13;
    x ^= x >> 7;
    x ^= x << 17;
    assert_eq!(xorshift_step(1), x);
    assert_eq!(xorshift_step(0), 0);
}

#[test]
fn shuffle_draws_from_the_generator() {
    let mut app = library(10);
    app.set_queue_and_play(0, (0..10).collect());
    let (seed, expected) = reference_shuffle(12345, 10, Some(0), &[0]);
    assert_eq!(app.random_queue_pos(), Some(expected));
    assert_eq!(app.shuffle_seed, seed);
    assert_ne!(expected, 0);
}

#[test]
fn shuffle_of_small_queues() {
    let mut app = library(2);
    assert_eq!(app.random_queue_pos(), None);
    app.set_queue_and_play(1, vec![1]);
    assert_eq!(app.random_queue_pos(), Some(0));
    app.shuffle_seed = 0;
    app.set_queue_and_play(0, vec![0, 1]);
    assert_eq!(app.random_queue_pos(), Some(1));
    assert_ne!(app.shuffle_seed, 0);
}

#[test]
fn shuffle_resets_full_history() {
    let mut app = library(3);
    app.set_queue_and_play(0, vec![0, 1, 2]);
    app.shuffle_history = vec![0, 1, 2];
    app.queue_pos = Some(2);
    let r = app.random_queue_pos().unwrap();
    assert_ne!(r, 2);
    assert_eq!(app.shuffle_history, vec![2]);
}

#[test]
fn shuffle_next_never_repeats_current() {
    let mut app = library(6);
    app.toggle_shuffle();
    app.set_queue_and_play(0, (0..6).collect());
    for _ in 0..50 {
        let before = app.queue_pos;
        let r = app.play_next();
        assert!(r.is_some());
        assert_ne!(app.queue_pos, before);
        assert!(app.queue_pos.unwrap() < 6);
    }
}

#[test]
fn shuffle_next_then_previous_returns() {
    let mut app = library(6);
    app.toggle_shuffle();
    app.set_queue_and_play(4, (0..6).collect());
    let r = app.play_next();
    assert!(r.is_some());
    assert_eq!(app.play_previous(), Some(4));
    assert_eq!(app.queue_pos, Some(4));
}

#[test]
fn play_button_actions() {
    let mut empty = App::new(1);
    assert_eq!(empty.play_button(), PlayButtonAction::Nothing);
    let mut app = library(3);
    assert_eq!(app.play_button(), PlayButtonAction::Play(0));
    assert_eq!(app.play_queue, vec![0, 1, 2]);
    app.start_track(0);
    assert_eq!(app.play_button(), PlayButtonAction::TogglePause);
}

#[test]
fn clear_queue_empties_everything() {
    let mut app = library(3);
    app.set_queue_and_play(1, vec![0, 1, 2]);
    app.clear_queue();
    assert!(app.play_queue.is_empty());
    assert_eq!(app.queue_pos, None);
    assert!(app.shuffle_history.is_empty());
}

#[test]
fn context_becomes_queue_when_current_inside() {
    let mut app = App::new(9);
    app.add_track(track("/a", "a1", Some("A"), None));
    app.add_track(track("/b", "b1", Some("B"), None));
    app.add_track(track("/c", "a2", Some("A"), None));
    app.select_view(LibraryView::Artists);
    app.set_queue_and_play(1, vec![1]);
    app.start_track(0);
    app.toggle_expanded_artist("A");
    app.sync_queue_with_context_if_current_inside();
    assert_eq!(app.play_queue, vec![0, 2]);
    assert_eq!(app.queue_pos, Some(0));
    assert_eq!(app.shuffle_history, vec![0]);
    assert_eq!(app.play_next(), Some(2));
}

#[test]
fn context_ignored_when_current_outside() {
    let mut app = App::new(9);
    app.add_track(track("/a", "a1", Some("A"), None));
    app.add_track(track("/b", "b1", Some("B"), None));
    app.select_view(LibraryView::Artists);
    app.set_queue_and_play(1, vec![1]);
    app.start_track(1);
    app.toggle_expanded_artist("A");
    app.sync_queue_with_context_if_current_inside();
    assert_eq!(app.play_queue, vec![1]);
}

#[test]
fn toggling_shuffle_on_syncs() {
    let mut app = App::new(9);
    app.add_track(track("/a", "a1", Some("A"), None));
    app.add_track(track("/b", "b1", Some("A"), None));
    app.select_view(LibraryView::Artists);
    app.set_queue_and_play(1, vec![1]);
    app.start_track(1);
    app.toggle_shuffle();
    assert!(app.shuffle);
    assert_eq!(app.play_queue, vec![0, 1]);
    assert_eq!(app.queue_pos, Some(1));
    app.toggle_shuffle();
    assert!(!app.shuffle);
}

#[test]
fn shuffle_avoids_played_positions() {
    let mut app = library(8);
    app.toggle_shuffle();
    app.set_queue_and_play(0, (0..8).collect());
    for _ in 0..20 {
        let cur = app.queue_pos.unwrap();
        let kept = if app.shuffle_history.len() >= 8 {
            vec![cur]
        } else {
            app.shuffle_history.clone()
        };
        assert!(app.play_next().is_some());
        let p = app.queue_pos.unwrap();
        assert!(!kept.contains(&p) || p == (cur + 1) % 8);
        assert_ne!(p, cur);
    }
}

#[test]
fn steps_play_the_track_at_the_new_position() {
    let mut app = library(5);
    app.set_queue_and_play(3, vec![4, 3, 2, 1, 0]);
    for _ in 0..7 {
        let r = app.play_next().unwrap();
        assert_eq!(app.play_queue[app.queue_pos.unwrap()], r);
    }
    for _ in 0..7 {
        let r = app.play_previous().unwrap();
        assert_eq!(app.play_queue[app.queue_pos.unwrap()], r);
    }
}

#[test]
fn playback_keeps_the_library() {
    let mut app = library(5);
    let paths: Vec<String> = app.tracks.iter().map(|t| t.path.clone()).collect();
    app.set_queue_and_play(2, vec![4, 2, 0]);
    app.play_queued_at(1, true);
    app.play_next();
    app.play_previous();
    app.toggle_shuffle();
    app.play_next();
    app.play_button();
    app.clear_queue();
    app.play_next();
    let after: Vec<String> = app.tracks.iter().map(|t| t.path.clone()).collect();
    assert_eq!(after, paths);
}

#[test]
fn added_track_is_found_by_its_file() {
    let mut app = library(3);
    assert!(!app.has_track_path("/m/new"));
    assert!(app.add_track(track("/m/new", "new", None, None)));
    assert!(app.has_track_path("/m/new"));
    assert_eq!(app.tracks[3].path, "/m/new");
    assert_eq!(app.tracks[0].path, "/m/0");
}
