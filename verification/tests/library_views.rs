use insomni::groups::grid_sections;
use insomni::library::{App, LibraryView};
use insomni::track::Track;

fn track(path: &str, title: &str, artist: Option<&str>, album: Option<&str>, number: Option<u32>) -> Track {
    Track {
        path: path.to_string(),
        name: path.to_string(),
        title: Some(title.to_string()),
        artist: artist.map(|s| s.to_string()),
        album: album.map(|s| s.to_string()),
        duration: None,
        cover_data: None,
        track_number: number,
    }
}

fn library() -> App {
    let mut app = App::new(42);
    // 0
    assert!(app.add_track(track("/m/0", "Karma Police", Some("Radiohead"), Some("OK Computer"), Some(6))));
    // 1
    assert!(app.add_track(track("/m/1", "airbag", Some("Radiohead"), Some("OK Computer"), Some(1))));
    // 2
    assert!(app.add_track(track("/m/2", "Come Together", Some("The Beatles"), Some("Abbey Road"), Some(1))));
    // 3
    assert!(app.add_track(track("/m/3", "Untagged", None, None, None)));
    // 4
    assert!(app.add_track(track("/m/4", "Everything In Its Right Place", Some("Radiohead"), Some("Kid A"), Some(1))));
    // 5
    assert!(app.add_track(track("/m/5", "Something", Some("The Beatles"), Some("abbey road"), Some(2))));
    app
}

#[test]
fn new_state() {
    let app = App::new(7);
    assert!(app.tracks.is_empty());
    assert_eq!(app.current, None);
    assert_eq!(app.library_view, LibraryView::Artists);
    assert_eq!(app.shuffle_seed, 7);
    assert!(!app.shuffle);
    assert!(app.play_queue.is_empty());
}

#[test]
fn tracks_view_sorted_by_lowercase_title() {
    let mut app = library();
    app.select_view(LibraryView::Tracks);
    // airbag, Come Together, Everything..., Karma Police, Something, Untagged
    assert_eq!(app.current_view_queue(), vec![1, 2, 4, 0, 5, 3]);
}

#[test]
fn artists_view_lists_tagged_tracks_by_artist_album_number() {
    let mut app = library();
    app.select_view(LibraryView::Artists);
    // radiohead: kid a (4), ok computer 1 (1), ok computer 6 (0); the beatles: abbey road 1, 2
    assert_eq!(app.current_view_queue(), vec![4, 1, 0, 2, 5]);
}

#[test]
fn albums_view_lists_tagged_tracks_by_album() {
    let mut app = library();
    app.select_view(LibraryView::Albums);
    // abbey road (2: no 1, 5: no 2), kid a (4), ok computer (1, 0)
    assert_eq!(app.current_view_queue(), vec![2, 5, 4, 1, 0]);
}

#[test]
fn queue_view_lists_the_queue() {
    let mut app = library();
    app.set_queue_and_play(3, vec![3, 0]);
    app.select_view(LibraryView::Queue);
    assert_eq!(app.current_view_queue(), vec![3, 0]);
    assert_eq!(app.active_context_queue(), vec![3, 0]);
}

#[test]
fn equal_keys_keep_index_order() {
    let mut app = App::new(1);
    app.add_track(track("/a", "same", None, None, None));
    app.add_track(track("/b", "Same", None, None, None));
    app.add_track(track("/c", "SAME", None, None, None));
    app.select_view(LibraryView::Tracks);
    assert_eq!(app.current_view_queue(), vec![0, 1, 2]);
}

#[test]
fn artist_groups_by_name() {
    let app = library();
    let groups = app.artist_groups();
    assert_eq!(
        groups,
        vec![
            ("Radiohead".to_string(), vec![4, 1, 0]),
            ("The Beatles".to_string(), vec![2, 5]),
        ]
    );
}

#[test]
fn artist_groups_are_case_sensitive_and_ordered_by_code_point() {
    let mut app = App::new(1);
    app.add_track(track("/a", "x", Some("beck"), None, None));
    app.add_track(track("/b", "y", Some("Beck"), None, None));
    app.add_track(track("/c", "z", Some("ABBA"), None, None));
    let names: Vec<String> = app.artist_groups().into_iter().map(|g| g.0).collect();
    assert_eq!(names, vec!["ABBA", "Beck", "beck"]);
}

#[test]
fn album_groups_by_album_and_artist() {
    let mut app = library();
    app.tracks[5].cover_data = Some(vec![1, 2, 3]);
    let groups = app.album_groups();
    assert_eq!(groups.len(), 3);
    assert_eq!(groups[0].key, "abbey road\u{1f}the beatles");
    assert_eq!(groups[0].album, "Abbey Road");
    assert_eq!(groups[0].artist.as_deref(), Some("The Beatles"));
    assert_eq!(groups[0].indices, vec![2, 5]);
    assert_eq!(groups[0].cover_track, Some(5));
    assert_eq!(groups[1].key, "kid a\u{1f}radiohead");
    assert_eq!(groups[1].indices, vec![4]);
    assert_eq!(groups[1].cover_track, None);
    assert_eq!(groups[2].key, "ok computer\u{1f}radiohead");
    assert_eq!(groups[2].indices, vec![1, 0]);
}

#[test]
fn album_without_artist_has_empty_artist_key() {
    let mut app = App::new(1);
    app.add_track(track("/a", "x", None, Some("Demo"), None));
    let groups = app.album_groups();
    assert_eq!(groups.len(), 1);
    assert_eq!(groups[0].key, "demo\u{1f}");
    assert_eq!(groups[0].artist, None);
}

#[test]
fn sections_under_letters() {
    let names = vec![
        "abba".to_string(),
        "Air".to_string(),
        "Beck".to_string(),
        "".to_string(),
        "air supply".to_string(),
    ];
    let sections = grid_sections(&names);
    assert_eq!(
        sections,
        vec![
            ("#".to_string(), vec![3]),
            ("A".to_string(), vec![0, 1, 4]),
            ("B".to_string(), vec![2]),
        ]
    );
}

#[test]
fn context_of_unfolded_artist_and_album() {
    let mut app = library();
    app.select_view(LibraryView::Artists);
    app.toggle_expanded_artist("The Beatles");
    assert_eq!(app.active_context_queue(), vec![2, 5]);
    app.toggle_expanded_artist("The Beatles");
    assert_eq!(app.expanded_artist, None);
    assert_eq!(app.active_context_queue(), vec![4, 1, 0, 2, 5]);
    app.select_view(LibraryView::Albums);
    app.toggle_expanded_album("kid a\u{1f}radiohead");
    assert_eq!(app.active_context_queue(), vec![4]);
    app.toggle_expanded_album("no such album");
    assert_eq!(app.active_context_queue(), vec![2, 5, 4, 1, 0]);
}

#[test]
fn select_view_folds() {
    let mut app = library();
    app.toggle_expanded_artist("Radiohead");
    app.toggle_expanded_album("kid a\u{1f}radiohead");
    app.select_view(LibraryView::Artists);
    assert_eq!(app.expanded_artist.as_deref(), Some("Radiohead"));
    assert_eq!(app.expanded_album, None);
    app.toggle_expanded_album("kid a\u{1f}radiohead");
    app.select_view(LibraryView::Albums);
    assert_eq!(app.expanded_artist, None);
    assert!(app.expanded_album.is_some());
    app.select_view(LibraryView::Queue);
    assert_eq!(app.expanded_album, None);
}

#[test]
fn toggling_twice_restores() {
    let mut app = library();
    app.toggle_expanded_artist("Radiohead");
    app.toggle_expanded_artist("Radiohead");
    assert_eq!(app.expanded_artist, None);
    app.toggle_expanded_artist("Radiohead");
    app.toggle_expanded_artist("The Beatles");
    assert_eq!(app.expanded_artist.as_deref(), Some("The Beatles"));
}

#[test]
fn tracks_are_unique_by_path() {
    let mut app = library();
    assert!(app.has_track_path("/m/3"));
    assert!(!app.has_track_path("/m/9"));
    let n = app.tracks.len();
    assert!(!app.add_track(track("/m/3", "dup", None, None, None)));
    assert_eq!(app.tracks.len(), n);
    assert_eq!(app.tracks[3].title.as_deref(), Some("Untagged"));
}

#[test]
fn start_track_inside_library_only() {
    let mut app = library();
    assert!(app.start_track(2));
    assert_eq!(app.current, Some(2));
    assert!(!app.start_track(99));
    assert_eq!(app.current, Some(2));
}

#[test]
fn cover_data_of_album() {
    let mut app = library();
    app.tracks[4].cover_data = Some(vec![9, 9]);
    assert_eq!(app.album_cover_data(Some(4)), Some(&vec![9, 9]));
    assert_eq!(app.album_cover_data(Some(0)), None);
    assert_eq!(app.album_cover_data(Some(100)), None);
    assert_eq!(app.album_cover_data(None), None);
}

#[test]
fn row_and_card_colours() {
    assert_eq!(App::track_row_fill(true, true), (30, 30, 38, 255));
    assert_eq!(App::track_row_fill(false, true), (26, 26, 31, 255));
    assert_eq!(App::track_row_fill(false, false), (0, 0, 0, 0));
    assert_eq!(App::card_fill(true, false), (46, 46, 58, 255));
    assert_eq!(App::card_fill(false, true), (38, 38, 44, 255));
    assert_eq!(App::card_fill(false, false), (32, 32, 32, 255));
}

#[test]
fn visibility_per_view() {
    let t = track("/x", "t", None, Some("alb"), None);
    assert!(t.track_visible_in_view(LibraryView::Tracks));
    assert!(!t.track_visible_in_view(LibraryView::Artists));
    assert!(t.track_visible_in_view(LibraryView::Albums));
    assert!(t.track_visible_in_view(LibraryView::Queue));
}

/// A larger library with names drawn from a small pool, so that groups
/// repeat and collide in case.
fn shuffled_library(n: usize) -> App {
    let artists = [Some("Beck"), Some("beck"), None, Some("Air"), Some("ABBA"), Some("Zola")];
    let albums = [Some("Odelay"), Some("odelay"), None, Some("Moon Safari"), Some("Arrival")];
    let mut app = App::new(7);
    let mut x: u64 = 88172645463325252;
    for i in 0..n {
        x ^= x << 13;
        x ^= x >> 7;
        x ^= x << 17;
        let a = artists[(x % 6) as usize];
        let b = albums[((x >> 8) % 5) as usize];
        let number = if (x >> 16) % 3 == 0 { None } else { Some(((x >> 20) % 12) as u32) };
        let title = format!("Song {}", (x >> 24) % 40);
        app.add_track(track(&format!("/lib/{i}"), &title, a, b, number));
    }
    app
}

fn lower(s: &str) -> String {
    s.to_ascii_lowercase()
}

#[test]
fn artist_groups_match_a_map_by_name() {
    let app = shuffled_library(300);
    let mut expected: std::collections::BTreeMap<String, Vec<usize>> = std::collections::BTreeMap::new();
    for (i, t) in app.tracks.iter().enumerate() {
        if let Some(a) = &t.artist {
            expected.entry(a.clone()).or_default().push(i);
        }
    }
    let mut expected: Vec<(String, Vec<usize>)> = expected.into_iter().collect();
    for (_, indices) in &mut expected {
        indices.sort_by_key(|i| {
            let t = &app.tracks[*i];
            (
                lower(t.album.as_deref().unwrap_or("")),
                t.track_number.unwrap_or(u32::MAX),
                lower(t.display_title()),
            )
        });
    }
    assert_eq!(app.artist_groups(), expected);
}

#[test]
fn album_groups_match_a_map_by_key() {
    let app = shuffled_library(300);
    let mut keys: Vec<String> = Vec::new();
    let mut members: std::collections::BTreeMap<String, Vec<usize>> = std::collections::BTreeMap::new();
    for (i, t) in app.tracks.iter().enumerate() {
        if let Some(album) = &t.album {
            let key = format!("{}\u{1f}{}", lower(album), lower(t.artist.as_deref().unwrap_or("")));
            if !members.contains_key(&key) {
                keys.push(key.clone());
            }
            members.entry(key).or_default().push(i);
        }
    }
    let groups = app.album_groups();
    assert_eq!(groups.len(), members.len());
    let mut previous: Option<(String, String)> = None;
    for g in &groups {
        let expected = &members[&g.key];
        let first = &app.tracks[expected[0]];
        assert_eq!(Some(g.album.as_str()), first.album.as_deref());
        assert_eq!(g.artist, first.artist);
        let mut sorted = expected.clone();
        sorted.sort_by_key(|i| {
            let t = &app.tracks[*i];
            (t.track_number.unwrap_or(u32::MAX), lower(t.display_title()))
        });
        assert_eq!(g.indices, sorted);
        assert_eq!(g.cover_track, None);
        let order = (lower(&g.album), lower(g.artist.as_deref().unwrap_or("")));
        if let Some(p) = &previous {
            assert!(*p < order);
        }
        previous = Some(order);
    }
    assert!(keys.iter().all(|k| groups.iter().any(|g| &g.key == k)));
}

#[test]
fn sections_match_a_map_by_letter() {
    let names: Vec<String> = ["b", "A", "", "a", "Beck", "ü", "Ü", "zed", "", "Air"]
        .iter()
        .map(|s| s.to_string())
        .collect();
    let mut expected: std::collections::BTreeMap<String, Vec<usize>> = std::collections::BTreeMap::new();
    for (i, n) in names.iter().enumerate() {
        let letter = n
            .chars()
            .next()
            .map(|c| c.to_uppercase().to_string())
            .unwrap_or_else(|| "#".to_string());
        expected.entry(letter).or_default().push(i);
    }
    let expected: Vec<(String, Vec<usize>)> = expected.into_iter().collect();
    assert_eq!(grid_sections(&names), expected);
}
