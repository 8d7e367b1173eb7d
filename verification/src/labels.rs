//! The textual rules of the library views: cleaned tag values, shortened
//! labels, artist initials, section letters and audio file extensions.
use vstd::prelude::*;
use crate::text::{
    chars_equal, chars_of, lower, lower_chars, opt_view, push_char, string_of,
};

verus! {

// ---------------------------------------------------------------------
// Standard library text functions
// ---------------------------------------------------------------------

/// The characters with the Unicode White_Space property: tab, line feed,
/// vertical tab, form feed, carriage return, space, next line, no-break
/// space, ogham space mark, the spaces U+2000 to U+200A, line and
/// paragraph separators, narrow no-break space, medium mathematical space
/// and ideographic space.
pub open spec fn white_space(c: char) -> bool {
    ||| '\u{9}' <= c <= '\u{d}'
    ||| c == ' '
    ||| c == '\u{85}'
    ||| c == '\u{a0}'
    ||| c == '\u{1680}'
    ||| '\u{2000}' <= c <= '\u{200a}'
    ||| c == '\u{2028}'
    ||| c == '\u{2029}'
    ||| c == '\u{202f}'
    ||| c == '\u{205f}'
    ||| c == '\u{3000}'
}

/// The text without its leading white space.
pub open spec fn trimmed_start(s: Seq<char>) -> Seq<char>
    decreases s.len(),
{
    if s.len() > 0 && white_space(s[0]) {
        trimmed_start(s.drop_first())
    } else {
        s
    }
}

/// The text without its trailing white space.
pub open spec fn trimmed_end(s: Seq<char>) -> Seq<char>
    decreases s.len(),
{
    if s.len() > 0 && white_space(s.last()) {
        trimmed_end(s.drop_last())
    } else {
        s
    }
}

/// What `str::trim` gives back: the text without leading and trailing
/// white space (the Unicode White_Space property).
pub open spec fn trimmed(s: Seq<char>) -> Seq<char> {
    trimmed_end(trimmed_start(s))
}

/// The words that `str::split_whitespace` yields: the maximal non-empty
/// runs of characters that are not white space, in order.
pub open spec fn whitespace_words(s: Seq<char>) -> Seq<Seq<char>>
    decreases s.len(),
{
    if s.len() == 0 {
        Seq::<Seq<char>>::empty()
    } else if white_space(s.last()) {
        whitespace_words(s.drop_last())
    } else {
        let words = whitespace_words(s.drop_last());
        if s.len() > 1 && !white_space(s[s.len() - 2]) {
            words.update(words.len() - 1, words.last().push(s.last()))
        } else {
            words.push(seq![s.last()])
        }
    }
}

/// What `str::to_uppercase` gives back.
pub uninterp spec fn str_upper(s: Seq<char>) -> Seq<char>;

/// The characters of `char::to_uppercase` for one character.
pub uninterp spec fn char_upper(c: char) -> Seq<char>;

/// Calls `str::trim` (see `trimmed`).
#[verifier::external_body]
fn trim_str(s: &str) -> (r: &str)
    ensures
        r@ == trimmed(s@),
{
    s.trim()
}

/// Calls `str::split_whitespace` and owns the words (see
/// `whitespace_words`).
#[verifier::external_body]
fn split_words(s: &str) -> (r: Vec<String>)
    ensures
        r@.len() == whitespace_words(s@).len(),
        forall|i: int| 0 <= i < r@.len() ==> #[trigger] r@[i]@ == whitespace_words(s@)[i],
{
    s.split_whitespace().map(|w| w.to_string()).collect()
}

/// Calls `str::to_uppercase`; its result is named by `str_upper`.
#[verifier::external_body]
fn upper_string(s: &str) -> (r: String)
    ensures
        r@ == str_upper(s@),
{
    s.to_uppercase()
}

/// Calls `char::to_uppercase` and collects the characters it yields; they
/// are named by `char_upper`.
#[verifier::external_body]
fn upper_char_string(c: char) -> (r: String)
    ensures
        r@ == char_upper(c),
{
    c.to_uppercase().to_string()
}

// ---------------------------------------------------------------------
// Tag values
// ---------------------------------------------------------------------

/// A tag value as the library keeps it: trimmed, and absent when nothing
/// is left.
pub open spec fn cleaned(value: Option<Seq<char>>) -> Option<Seq<char>> {
    match value {
        Some(s) => if trimmed(s).len() > 0 {
            Some(trimmed(s))
        } else {
            None
        },
        None => None,
    }
}

/// Trims a tag value and drops it when it is empty after trimming.
pub fn clean_meta(value: Option<String>) -> (r: Option<String>)
    ensures
        opt_view(r) == cleaned(opt_view(value)),
{
    match value {
        Some(s) => {
            let t = trim_str(s.as_str());
            if t.is_empty() {
                None
            } else {
                Some(t.to_owned())
            }
        },
        None => None,
    }
}

// ---------------------------------------------------------------------
// Shortened labels
// ---------------------------------------------------------------------

/// The ellipsis that marks a shortened label.
pub open spec fn ellipsis() -> char {
    '\u{2026}'
}

/// A label of at most `max_chars` characters: the text itself when it
/// fits, else its first `max_chars - 1` characters (none when `max_chars`
/// is zero) followed by an ellipsis.
pub open spec fn shortened(text: Seq<char>, max_chars: usize) -> Seq<char> {
    if text.len() <= max_chars {
        text
    } else {
        text.take(if max_chars > 0 { max_chars - 1 } else { 0 }).push(ellipsis())
    }
}

/// Shortens a label to `max_chars` characters, marking a cut with an ellipsis.
pub fn short_text(text: &str, max_chars: usize) -> (r: String)
    ensures
        r@ == shortened(text@, max_chars),
{
    let chars = chars_of(text);
    if chars.len() <= max_chars {
        string_of(&chars)
    } else {
        let keep: usize = max_chars.saturating_sub(1);
        let mut r = String::new();
        let mut i: usize = 0;
        while i < keep
            invariant
                keep < chars.len(),
                i <= keep,
                r@ == chars@.take(i as int),
            decreases keep - i,
        {
            push_char(&mut r, chars[i]);
            proof {
                assert(chars@.take(i + 1) =~= chars@.take(i as int).push(chars@[i as int]));
            }
            i = i + 1;
        }
        push_char(&mut r, '\u{2026}');
        r
    }
}

// ---------------------------------------------------------------------
// Initials and section letters
// ---------------------------------------------------------------------

/// The first character of each non-empty word, in order.
pub open spec fn leading_chars(words: Seq<Seq<char>>) -> Seq<char>
    decreases words.len(),
{
    if words.len() == 0 {
        Seq::<char>::empty()
    } else {
        let rest = leading_chars(words.drop_last());
        if words.last().len() > 0 {
            rest.push(words.last()[0])
        } else {
            rest
        }
    }
}

/// The first `n` elements, or all of them when there are fewer.
pub open spec fn prefix<A>(s: Seq<A>, n: nat) -> Seq<A> {
    if s.len() <= n {
        s
    } else {
        s.take(n as int)
    }
}

/// The initials shown on an artist or album card: for a single word its
/// first three characters, otherwise the first characters of the first two
/// words; upper-cased.
pub open spec fn initials(name: Seq<char>) -> Seq<char> {
    let words = whitespace_words(name);
    if words.len() == 1 {
        str_upper(prefix(words[0], 3))
    } else {
        str_upper(prefix(leading_chars(words), 2))
    }
}

/// The first `n` characters of a string, or all of them.
fn prefix_string(s: &String, n: usize) -> (r: String)
    ensures
        r@ == prefix(s@, n as nat),
{
    let cs = chars_of(s.as_str());
    let mut r = String::new();
    let mut i: usize = 0;
    while i < n && i < cs.len()
        invariant
            i <= cs.len(),
            i <= n,
            r@ == cs@.take(i as int),
        decreases cs.len() - i,
    {
        push_char(&mut r, cs[i]);
        proof {
            assert(cs@.take(i + 1) =~= cs@.take(i as int).push(cs@[i as int]));
        }
        i = i + 1;
    }
    proof {
        if cs@.len() <= n {
            assert(cs@.take(i as int) =~= cs@);
        }
    }
    r
}

/// The initials shown on an artist or album card (see `initials`).
pub fn artist_initials(name: &str) -> (r: String)
    ensures
        r@ == initials(name@),
{
    let words = split_words(name);
    if words.len() == 1 {
        let first = prefix_string(&words[0], 3);
        upper_string(first.as_str())
    } else {
        let mut leads = String::new();
        let mut i: usize = 0;
        while i < words.len()
            invariant
                i <= words.len(),
                words@.len() == whitespace_words(name@).len(),
                forall|k: int|
                    0 <= k < words@.len() ==> #[trigger] words@[k]@ == whitespace_words(name@)[k],
                leads@ == leading_chars(whitespace_words(name@).take(i as int)),
            decreases words.len() - i,
        {
            let ghost ws = whitespace_words(name@);
            proof {
                assert(ws.take(i + 1).drop_last() =~= ws.take(i as int));
                assert(ws.take(i + 1).last() == ws[i as int]);
                assert(words@[i as int]@ == ws[i as int]);
            }
            let cs = chars_of(words[i].as_str());
            if cs.len() > 0 {
                push_char(&mut leads, cs[0]);
            }
            i = i + 1;
        }
        proof {
            assert(whitespace_words(name@).take(i as int) =~= whitespace_words(name@));
        }
        let first_two = prefix_string(&leads, 2);
        upper_string(first_two.as_str())
    }
}

/// The letter under which a name is listed: its first character
/// upper-cased, or `#` for an empty name.
pub open spec fn section_letter(name: Seq<char>) -> Seq<char> {
    if name.len() > 0 {
        char_upper(name[0])
    } else {
        seq!['#']
    }
}

/// The letter of the grid section that lists a name (see `section_letter`).
pub fn artist_section_letter(name: &str) -> (r: String)
    ensures
        r@ == section_letter(name@),
{
    let cs = chars_of(name);
    if cs.len() > 0 {
        upper_char_string(cs[0])
    } else {
        let mut r = String::new();
        push_char(&mut r, '#');
        proof {
            assert(r@ =~= seq!['#']);
        }
        r
    }
}

// ---------------------------------------------------------------------
// Audio files
// ---------------------------------------------------------------------

/// The file extensions, ASCII lower-cased, that the player opens.
pub open spec fn is_audio_extension(ext: Seq<char>) -> bool {
    ||| ext == "mp3"@
    ||| ext == "flac"@
    ||| ext == "wav"@
    ||| ext == "ogg"@
    ||| ext == "m4a"@
    ||| ext == "aac"@
    ||| ext == "opus"@
}

/// Whether a file with this extension (none when the file has none, or
/// when it is not valid Unicode) is an audio file.
pub fn is_audio_file(extension: Option<&str>) -> (r: bool)
    ensures
        r == match extension {
            Some(e) => is_audio_extension(lower(e@)),
            None => false,
        },
{
    match extension {
        Some(e) => {
            let l = lower_chars(e);
            chars_equal(&l, &chars_of("mp3")) || chars_equal(&l, &chars_of("flac"))
                || chars_equal(&l, &chars_of("wav")) || chars_equal(&l, &chars_of("ogg"))
                || chars_equal(&l, &chars_of("m4a")) || chars_equal(&l, &chars_of("aac"))
                || chars_equal(&l, &chars_of("opus"))
        },
        None => false,
    }
}

} // verus!
