//! A track of the library: its file, its tags, and the way it is labelled.
use vstd::prelude::*;
use crate::labels::{clean_meta, cleaned};
use crate::library::or_empty;
use crate::text::{
    chars_of, decimal, digit, digit_char, opt_view, push_char, push_chars, push_decimal,
};

verus! {

/// The length of a track, as the audio decoder reports it.
#[derive(Clone, Copy, PartialEq, Eq, Structural, Debug)]
pub struct TrackDuration {
    pub secs: u64,
    pub nanos: u32,
}

/// The tag values read from an audio file, before cleaning.
pub struct TagValues {
    pub title: Option<String>,
    pub artist: Option<String>,
    pub album: Option<String>,
    pub cover_data: Option<Vec<u8>>,
    pub track_number: Option<u32>,
}

/// A track of the library.
#[derive(Clone, Debug)]
pub struct Track {
    pub path: String,
    pub name: String,
    pub title: Option<String>,
    pub artist: Option<String>,
    pub album: Option<String>,
    pub duration: Option<TrackDuration>,
    pub cover_data: Option<Vec<u8>>,
    pub track_number: Option<u32>,
}

/// The value of a track.
pub struct TrackView {
    pub path: Seq<char>,
    pub name: Seq<char>,
    pub title: Option<Seq<char>>,
    pub artist: Option<Seq<char>>,
    pub album: Option<Seq<char>>,
    pub duration: Option<TrackDuration>,
    pub cover_data: Option<Seq<u8>>,
    pub track_number: Option<u32>,
}

/// The value of optional bytes.
pub open spec fn opt_bytes(o: Option<Vec<u8>>) -> Option<Seq<u8>> {
    match o {
        Some(v) => Some(v@),
        None => None,
    }
}

impl View for Track {
    type V = TrackView;

    open spec fn view(&self) -> TrackView {
        TrackView {
            path: self.path@,
            name: self.name@,
            title: opt_view(self.title),
            artist: opt_view(self.artist),
            album: opt_view(self.album),
            duration: self.duration,
            cover_data: opt_bytes(self.cover_data),
            track_number: self.track_number,
        }
    }
}

/// The title shown for a track: its title tag, else its name.
pub open spec fn display_title_of(t: TrackView) -> Seq<char> {
    match t.title {
        Some(s) => s,
        None => t.name,
    }
}

/// The artist shown for a track: its artist tag, else "unknown artist".
pub open spec fn display_artist_of(t: TrackView) -> Seq<char> {
    match t.artist {
        Some(s) => s,
        None => "unknown artist"@,
    }
}

/// The separator between artist and album in a queue row.
pub open spec fn middle_dot_separator() -> Seq<char> {
    seq![' ', '\u{b7}', ' ']
}

/// The second line of a queue row: the artist, then the album, with a
/// middle dot between them when both are non-empty.
pub open spec fn queue_subtitle_of(t: TrackView) -> Seq<char> {
    let a = or_empty(t.artist);
    match t.album {
        Some(b) => if a.len() > 0 {
            a + middle_dot_separator() + b
        } else {
            b
        },
        None => a,
    }
}

/// The name given to a track whose file has no readable stem: "unknown".
pub open spec fn unknown_name() -> Seq<char> {
    "unknown"@
}

/// The track made of a file's path, its file stem and its tags; none when
/// tags are required and the file has no title, artist or album.
pub open spec fn track_from(
    path: Seq<char>,
    file_stem: Option<Seq<char>>,
    title: Option<Seq<char>>,
    artist: Option<Seq<char>>,
    album: Option<Seq<char>>,
    cover_data: Option<Seq<u8>>,
    track_number: Option<u32>,
    require_metadata: bool,
) -> Option<TrackView> {
    let title = cleaned(title);
    let artist = cleaned(artist);
    let album = cleaned(album);
    if require_metadata && title is None && artist is None && album is None {
        None
    } else {
        let file_name = match file_stem {
            Some(s) => s,
            None => unknown_name(),
        };
        Some(
            TrackView {
                path,
                name: match title {
                    Some(t) => t,
                    None => file_name,
                },
                title,
                artist,
                album,
                duration: None,
                cover_data,
                track_number,
            },
        )
    }
}

/// The view of an optional track.
pub open spec fn opt_track(o: Option<Track>) -> Option<TrackView> {
    match o {
        Some(t) => Some(t@),
        None => None,
    }
}

/// The length label of a track: minutes, a colon and two digits of seconds.
pub open spec fn duration_text(secs: u64) -> Seq<char> {
    let s = secs % 60;
    decimal((secs / 60) as nat).push(':').push(digit((s / 10) as nat)).push(digit((s % 10) as nat))
}

impl Track {
    /// Builds a track from what was read of its file: the path, the file
    /// stem when it is valid Unicode, and the tags when they could be read.
    /// Tag values are cleaned; the name is the title, else the file stem,
    /// else "unknown". With `require_metadata`, a file without title, artist
    /// and album gives no track. The duration is left for the caller, who
    /// decodes the file only for a track that is kept.
    pub fn from_path(
        path: String,
        file_stem: Option<String>,
        tags: Option<TagValues>,
        require_metadata: bool,
    ) -> (r: Option<Track>)
        ensures
            opt_track(r) == match tags {
                Some(t) => track_from(
                    path@,
                    opt_view(file_stem),
                    opt_view(t.title),
                    opt_view(t.artist),
                    opt_view(t.album),
                    opt_bytes(t.cover_data),
                    t.track_number,
                    require_metadata,
                ),
                None => track_from(
                    path@,
                    opt_view(file_stem),
                    None,
                    None,
                    None,
                    None,
                    None,
                    require_metadata,
                ),
            },
    {
        let (title, artist, album, cover_data, track_number) = match tags {
            Some(t) => (
                clean_meta(t.title),
                clean_meta(t.artist),
                clean_meta(t.album),
                t.cover_data,
                t.track_number,
            ),
            None => (clean_meta(None), clean_meta(None), clean_meta(None), None, None),
        };
        if require_metadata && title.is_none() && artist.is_none() && album.is_none() {
            return None;
        }
        let file_name = match file_stem {
            Some(s) => s,
            None => String::from_str("unknown"),
        };
        let name = match &title {
            Some(t) => t.clone(),
            None => file_name,
        };
        Some(
            Track {
                path,
                name,
                title,
                artist,
                album,
                duration: None,
                cover_data,
                track_number,
            },
        )
    }

    /// The second line of a queue row: artist and album, separated by a
    /// middle dot when both are there.
    pub fn queue_subtitle(&self) -> (r: String)
        ensures
            r@ == queue_subtitle_of(self@),
    {
        let mut sub = String::new();
        if let Some(artist) = &self.artist {
            push_chars(&mut sub, &chars_of(artist.as_str()));
        }
        proof {
            assert(sub@ =~= or_empty(self@.artist));
        }
        if let Some(album) = &self.album {
            if sub.as_str().unicode_len() > 0 {
                push_char(&mut sub, ' ');
                push_char(&mut sub, '\u{b7}');
                push_char(&mut sub, ' ');
            }
            let ghost before = sub@;
            push_chars(&mut sub, &chars_of(album.as_str()));
            proof {
                assert(sub@ =~= before + album@);
            }
        }
        proof {
            assert(sub@ =~= queue_subtitle_of(self@));
        }
        sub
    }

    /// The title shown for the track: its title tag, else its name.
    pub fn display_title(&self) -> (r: &str)
        ensures
            r@ == display_title_of(self@),
    {
        match &self.title {
            Some(t) => t.as_str(),
            None => self.name.as_str(),
        }
    }

    /// The artist shown for the track: its artist tag, else "unknown artist".
    pub fn display_artist(&self) -> (r: &str)
        ensures
            r@ == display_artist_of(self@),
    {
        match &self.artist {
            Some(a) => a.as_str(),
            None => "unknown artist",
        }
    }
}

/// The length of a track as minutes and seconds, `m:ss`.
pub fn fmt_dur(d: TrackDuration) -> (r: String)
    ensures
        r@ == duration_text(d.secs),
{
    let s = d.secs;
    let mut r = String::new();
    push_decimal(&mut r, s / 60);
    push_char(&mut r, ':');
    let sec = s % 60;
    push_char(&mut r, digit_char(sec / 10));
    push_char(&mut r, digit_char(sec % 10));
    proof {
        assert(r@ =~= duration_text(d.secs));
    }
    r
}

/// The length label of a track, `--:--` when the length is unknown.
pub open spec fn duration_label_of(d: Option<TrackDuration>) -> Seq<char> {
    match d {
        Some(d) => duration_text(d.secs),
        None => "--:--"@,
    }
}

/// The length label shown in a track row.
pub fn duration_label(d: Option<TrackDuration>) -> (r: String)
    ensures
        r@ == duration_label_of(d),
{
    match d {
        Some(d) => fmt_dur(d),
        None => String::from_str("--:--"),
    }
}

} // verus!
