use insomni::cover::decode_cover_pixels;
use insomni::labels::{
    artist_initials, artist_section_letter, clean_meta, is_audio_file, short_text,
};
use insomni::text::{compare_chars, Cmp};
use insomni::track::{duration_label, fmt_dur, TagValues, Track, TrackDuration};

fn chars(s: &str) -> Vec<char> {
    s.chars().collect()
}

#[test]
fn compare_orders_by_code_point() {
    assert_eq!(compare_chars(&chars("abc"), &chars("abd")), Cmp::Less);
    assert_eq!(compare_chars(&chars("abc"), &chars("ab")), Cmp::Greater);
    assert_eq!(compare_chars(&chars(""), &chars("a")), Cmp::Less);
    assert_eq!(compare_chars(&chars("Zebra"), &chars("apple")), Cmp::Less);
    assert_eq!(compare_chars(&chars("same"), &chars("same")), Cmp::Equal);
    // Code point order agrees with the byte order of `String`.
    assert!(String::from("\u{e9}") > String::from("z"));
    assert_eq!(compare_chars(&chars("\u{e9}"), &chars("z")), Cmp::Greater);
}

#[test]
fn short_text_keeps_fitting_labels() {
    assert_eq!(short_text("Abbey Road", 22), "Abbey Road");
    assert_eq!(short_text("exactly", 7), "exactly");
    assert_eq!(short_text("", 0), "");
}

#[test]
fn short_text_cuts_with_ellipsis() {
    assert_eq!(short_text("Sgt. Pepper's Lonely Hearts Club Band", 10), "Sgt. Pepp\u{2026}");
    assert_eq!(short_text("abc", 1), "\u{2026}");
    assert_eq!(short_text("abc", 0), "\u{2026}");
    assert_eq!(short_text("h\u{e9}llo w\u{f6}rld", 5), "h\u{e9}ll\u{2026}");
    assert!(short_text("a long label indeed", 8).chars().count() <= 8);
}

#[test]
fn initials_of_names() {
    assert_eq!(artist_initials("The Beatles"), "TB");
    assert_eq!(artist_initials("Radiohead"), "RAD");
    assert_eq!(artist_initials("AC"), "AC");
    assert_eq!(artist_initials("  bj\u{f6}rk  "), "BJ\u{d6}");
    assert_eq!(artist_initials("earth wind and fire"), "EW");
    assert_eq!(artist_initials(""), "");
    assert_eq!(artist_initials("   "), "");
}

#[test]
fn section_letters() {
    assert_eq!(artist_section_letter("abba"), "A");
    assert_eq!(artist_section_letter("Queen"), "Q");
    assert_eq!(artist_section_letter(""), "#");
    assert_eq!(artist_section_letter("\u{df}ound"), "SS");
    assert_eq!(artist_section_letter("9 Inch"), "9");
}

#[test]
fn cleaned_tag_values() {
    assert_eq!(clean_meta(Some("  Kid A \n".to_string())), Some("Kid A".to_string()));
    assert_eq!(clean_meta(Some("   ".to_string())), None);
    assert_eq!(clean_meta(Some(String::new())), None);
    assert_eq!(clean_meta(None), None);
}

#[test]
fn audio_extensions() {
    for ext in ["mp3", "flac", "wav", "ogg", "m4a", "aac", "opus", "MP3", "FlAc", "OPUS"] {
        assert!(is_audio_file(Some(ext)), "{ext}");
    }
    for ext in ["txt", "mp4", "", "mp33", "jpg"] {
        assert!(!is_audio_file(Some(ext)), "{ext}");
    }
    assert!(!is_audio_file(None));
}

#[test]
fn durations_as_minutes_and_seconds() {
    assert_eq!(fmt_dur(TrackDuration { secs: 0, nanos: 0 }), "0:00");
    assert_eq!(fmt_dur(TrackDuration { secs: 59, nanos: 999_999_999 }), "0:59");
    assert_eq!(fmt_dur(TrackDuration { secs: 65, nanos: 0 }), "1:05");
    assert_eq!(fmt_dur(TrackDuration { secs: 3600, nanos: 0 }), "60:00");
    assert_eq!(fmt_dur(TrackDuration { secs: 754, nanos: 1 }), "12:34");
    assert_eq!(duration_label(None), "--:--");
    assert_eq!(duration_label(Some(TrackDuration { secs: 201, nanos: 0 })), "3:21");
}

fn tags(title: Option<&str>, artist: Option<&str>, album: Option<&str>) -> TagValues {
    TagValues {
        title: title.map(|s| s.to_string()),
        artist: artist.map(|s| s.to_string()),
        album: album.map(|s| s.to_string()),
        cover_data: None,
        track_number: Some(3),
    }
}

#[test]
fn track_from_tags() {
    let t = Track::from_path(
        "/music/a.mp3".to_string(),
        Some("a".to_string()),
        Some(tags(Some(" Song "), Some("Band"), None)),
        true,
    )
    .unwrap();
    assert_eq!(t.name, "Song");
    assert_eq!(t.title.as_deref(), Some("Song"));
    assert_eq!(t.artist.as_deref(), Some("Band"));
    assert_eq!(t.album, None);
    assert_eq!(t.track_number, Some(3));
    assert_eq!(t.duration, None);
    assert_eq!(t.path, "/music/a.mp3");
}

#[test]
fn track_without_metadata() {
    assert!(Track::from_path("/m/x.mp3".to_string(), Some("x".to_string()), None, true).is_none());
    assert!(Track::from_path(
        "/m/x.mp3".to_string(),
        Some("x".to_string()),
        Some(tags(Some("  "), None, Some(""))),
        true
    )
    .is_none());
    let t = Track::from_path("/m/x.mp3".to_string(), Some("x".to_string()), None, false).unwrap();
    assert_eq!(t.name, "x");
    assert_eq!(t.title, None);
    let u = Track::from_path("/m/\u{fffd}.mp3".to_string(), None, None, false).unwrap();
    assert_eq!(u.name, "unknown");
}

#[test]
fn shown_title_artist_and_subtitle() {
    let mut t = Track::from_path("/m/x.mp3".to_string(), Some("x".to_string()), None, false).unwrap();
    assert_eq!(t.display_title(), "x");
    assert_eq!(t.display_artist(), "unknown artist");
    assert_eq!(t.queue_subtitle(), "");
    t.title = Some("Title".to_string());
    t.album = Some("Album".to_string());
    assert_eq!(t.display_title(), "Title");
    assert_eq!(t.queue_subtitle(), "Album");
    t.artist = Some("Artist".to_string());
    assert_eq!(t.display_artist(), "Artist");
    assert_eq!(t.queue_subtitle(), "Artist \u{b7} Album");
    t.album = None;
    assert_eq!(t.queue_subtitle(), "Artist");
}

fn png_2x1() -> Vec<u8> {
    let img = image::RgbaImage::from_raw(2, 1, vec![10, 20, 30, 255, 40, 50, 60, 0]).unwrap();
    let mut out = std::io::Cursor::new(Vec::new());
    image::DynamicImage::ImageRgba8(img).write_to(&mut out, image::ImageFormat::Png).unwrap();
    out.into_inner()
}

#[test]
fn cover_pixels_premultiplied() {
    let png = png_2x1();
    let c = decode_cover_pixels(&png).unwrap();
    assert_eq!((c.width, c.height), (2, 1));
    assert_eq!(c.pixels, vec![(10, 20, 30, 255), (0, 0, 0, 0)]);
}

#[test]
fn cover_pixels_half_transparent_keep_alpha() {
    let img = image::RgbaImage::from_raw(1, 1, vec![200, 100, 50, 128]).unwrap();
    let mut out = std::io::Cursor::new(Vec::new());
    image::DynamicImage::ImageRgba8(img).write_to(&mut out, image::ImageFormat::Png).unwrap();
    let c = decode_cover_pixels(&out.into_inner()).unwrap();
    assert_eq!(c.pixels.len(), 1);
    assert_eq!(c.pixels[0].3, 128);
    assert!(c.pixels[0].0 <= 200);
    let expected = egui::Color32::from_rgba_unmultiplied(200, 100, 50, 128).to_array();
    assert_eq!(c.pixels[0], (expected[0], expected[1], expected[2], expected[3]));
}

#[test]
fn cover_of_garbage_is_none() {
    assert!(decode_cover_pixels(&[1, 2, 3, 4, 5]).is_none());
    assert!(decode_cover_pixels(&[]).is_none());
}

#[test]
fn unicode_white_space_is_trimmed_and_splits_words() {
    assert_eq!(
        clean_meta(Some("\u{3000}\u{85} x\u{a0}y \u{2029}\t".to_string())),
        Some("x\u{a0}y".to_string())
    );
    assert_eq!(clean_meta(Some("\u{2000}\u{200a}\u{202f}\u{205f}\u{1680}".to_string())), None);
    assert_eq!(artist_initials("\u{2003}ab\u{3000}\u{3000}cd ef"), "AC");
    assert_eq!(artist_initials("ab\u{200b}cd"), "AB\u{200b}");
}
