//! Which files of a music folder are indexed: those whose extension is
//! `mp3`, `flac` or `ogg`, compared case-sensitively.
use vstd::prelude::*;
use vstd::string::StrSliceExecFns;

use crate::text::{find_last, last_index_of, segment_is};

verus! {

/// The last component of a `/`-separated path.
pub open spec fn file_name_of(p: Seq<char>) -> Seq<char> {
    p.subrange(last_index_of(p, '/') + 1, p.len() as int)
}

/// The part of the file name after its last `.`; none where there is no
/// `.`, or the only `.` opens the name.
pub open spec fn extension_of(p: Seq<char>) -> Option<Seq<char>> {
    let n = file_name_of(p);
    let d = last_index_of(n, '.');
    if d <= 0 {
        None
    } else {
        Some(n.subrange(d + 1, n.len() as int))
    }
}

/// The extensions of the audio formats that are indexed.
pub open spec fn is_music_extension(e: Seq<char>) -> bool {
    e == seq!['m', 'p', '3'] || e == seq!['f', 'l', 'a', 'c'] || e == seq!['o', 'g', 'g']
}

pub proof fn lemma_last_index_bounds(s: Seq<char>, c: char)
    ensures
        -1 <= last_index_of(s, c) < s.len(),
        last_index_of(s, c) >= 0 ==> s[last_index_of(s, c)] == c,
    decreases s.len(),
{
    if s.len() > 0 {
        lemma_last_index_bounds(s.drop_last(), c);
    }
}

/// Whether the file at `path` (not a directory) is one to index: its
/// extension is `mp3`, `flac` or `ogg`.
pub fn is_music(path: &str) -> (r: bool)
    ensures
        r == (extension_of(path@) matches Some(e) && is_music_extension(e)),
{
    let n = path.unicode_len();
    proof {
        assert(path@.subrange(0, n as int) =~= path@);
        lemma_last_index_bounds(path@, '/');
    }
    let start: usize = match find_last(path, n, '/') {
        None => 0,
        Some(i) => i + 1,
    };
    let name = path.substring_char(start, n);
    let m = name.unicode_len();
    proof {
        assert(name@ == file_name_of(path@));
        assert(name@.subrange(0, m as int) =~= name@);
        lemma_last_index_bounds(name@, '.');
        reveal_strlit("mp3");
        reveal_strlit("flac");
        reveal_strlit("ogg");
        assert("mp3"@ =~= seq!['m', 'p', '3']);
        assert("flac"@ =~= seq!['f', 'l', 'a', 'c']);
        assert("ogg"@ =~= seq!['o', 'g', 'g']);
    }
    match find_last(name, m, '.') {
        None => false,
        Some(d) => {
            if d == 0 {
                false
            } else {
                segment_is(name, d + 1, m, "mp3") || segment_is(name, d + 1, m, "flac")
                    || segment_is(name, d + 1, m, "ogg")
            }
        },
    }
}

} // verus!
