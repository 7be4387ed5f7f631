//! Tracks, albums and artists: the records of the library.
use vstd::prelude::*;
use vstd::std_specs::cmp::PartialEqSpec;

use crate::text::{folded_le, lemma_lex_total, lemma_lex_trans, lex_le, lex_order, lower_of, str_order};

verus! {

/// One audio file and the tag read from it. Absent tag fields are empty or 0.
pub struct Track {
    pub file_path: String,
    pub title: String,
    pub artist: String,
    pub album_artist: String,
    pub album: String,
    pub year: i32,
    pub track_num: u32,
    pub duration: u32,
}

/// The fields of a tag as a tag reader hands them over; `None` where absent.
pub struct TagInfo {
    pub title: Option<String>,
    pub artist: Option<String>,
    pub album_artist: Option<String>,
    pub album: Option<String>,
    pub year: Option<i32>,
    pub track_num: Option<u32>,
    pub duration: Option<u32>,
}

/// The albums of one album artist; `tracks` ascending by track number.
pub struct Album {
    pub title: String,
    pub artist: String,
    pub year: i32,
    pub tracks: Vec<Track>,
}

/// One album artist; `albums` ascending by case-folded title.
pub struct Artist {
    pub name: String,
    pub albums: Vec<Album>,
}

/// The mathematical value of an album.
pub struct AlbumView {
    pub title: Seq<char>,
    pub artist: Seq<char>,
    pub year: i32,
    pub tracks: Seq<Track>,
}

/// The mathematical value of an artist.
pub struct ArtistView {
    pub name: Seq<char>,
    pub albums: Seq<AlbumView>,
}

impl View for Album {
    type V = AlbumView;

    open spec fn view(&self) -> AlbumView {
        AlbumView {
            title: self.title@,
            artist: self.artist@,
            year: self.year,
            tracks: self.tracks@,
        }
    }
}

impl View for Artist {
    type V = ArtistView;

    open spec fn view(&self) -> ArtistView {
        ArtistView { name: self.name@, albums: albums_view(self.albums@) }
    }
}

pub open spec fn albums_view(s: Seq<Album>) -> Seq<AlbumView> {
    s.map_values(|a: Album| a@)
}

/// A string field of a tag, or the empty string where it is absent.
pub open spec fn text_or_empty(o: Option<String>) -> Seq<char> {
    match o {
        Some(s) => s@,
        None => Seq::empty(),
    }
}

/// Track numbers never decrease along `s`.
pub open spec fn tracks_sorted(s: Seq<Track>) -> bool {
    forall|i: int, j: int| 0 <= i < j < s.len() ==> s[i].track_num <= s[j].track_num
}

/// How many tracks of `s` have a track number of at most `n`.
pub open spec fn track_slot(s: Seq<Track>, n: u32) -> nat
    decreases s.len(),
{
    if s.len() == 0 {
        0
    } else {
        track_slot(s.drop_last(), n) + if s.last().track_num <= n {
            1nat
        } else {
            0nat
        }
    }
}

/// `s` with `t` placed after every track whose number is not above its own.
pub open spec fn insert_track(s: Seq<Track>, t: Track) -> Seq<Track> {
    s.insert(track_slot(s, t.track_num) as int, t)
}

/// Keys never decrease along `k`.
pub open spec fn keys_sorted(k: Seq<Seq<char>>) -> bool {
    forall|i: int, j: int| 0 <= i < j < k.len() ==> lex_le(#[trigger] k[i], #[trigger] k[j])
}

/// How many keys of `ks` come no later than `k`.
pub open spec fn key_slot(ks: Seq<Seq<char>>, k: Seq<char>) -> nat
    decreases ks.len(),
{
    if ks.len() == 0 {
        0
    } else {
        key_slot(ks.drop_last(), k) + if lex_le(ks.last(), k) {
            1nat
        } else {
            0nat
        }
    }
}

/// The case-folded titles of a list of albums.
pub open spec fn album_keys(s: Seq<AlbumView>) -> Seq<Seq<char>> {
    s.map_values(|a: AlbumView| lower_of(a.title))
}

/// `s` with `a` placed after every album whose folded title is not above its own.
pub open spec fn insert_album(s: Seq<AlbumView>, a: AlbumView) -> Seq<AlbumView> {
    s.insert(key_slot(album_keys(s), lower_of(a.title)) as int, a)
}

/// An album in its well-formed state: tracks ordered by number.
pub open spec fn album_wf(a: AlbumView) -> bool {
    tracks_sorted(a.tracks)
}

/// An artist in its well-formed state: albums ordered by folded title and
/// each of them well formed.
pub open spec fn artist_wf(r: ArtistView) -> bool {
    &&& keys_sorted(album_keys(r.albums))
    &&& forall|j: int| 0 <= j < r.albums.len() ==> album_wf(#[trigger] r.albums[j])
}

pub proof fn lemma_track_slot(s: Seq<Track>, n: u32, p: int)
    requires
        0 <= p <= s.len(),
        forall|i: int| 0 <= i < p ==> s[i].track_num <= n,
        forall|i: int| p <= i < s.len() ==> s[i].track_num > n,
    ensures
        track_slot(s, n) == p,
    decreases s.len(),
{
    if s.len() > 0 {
        if p == s.len() {
            lemma_track_slot(s.drop_last(), n, p - 1);
        } else {
            lemma_track_slot(s.drop_last(), n, p);
        }
    }
}

pub proof fn lemma_track_slot_bound(s: Seq<Track>, n: u32)
    ensures
        track_slot(s, n) <= s.len(),
    decreases s.len(),
{
    if s.len() > 0 {
        lemma_track_slot_bound(s.drop_last(), n);
    }
}

pub proof fn lemma_key_slot_bound(ks: Seq<Seq<char>>, k: Seq<char>)
    ensures
        key_slot(ks, k) <= ks.len(),
    decreases ks.len(),
{
    if ks.len() > 0 {
        lemma_key_slot_bound(ks.drop_last(), k);
    }
}

pub proof fn lemma_key_slot(ks: Seq<Seq<char>>, k: Seq<char>, p: int)
    requires
        0 <= p <= ks.len(),
        forall|i: int| 0 <= i < p ==> lex_le(ks[i], k),
        forall|i: int| p <= i < ks.len() ==> !lex_le(ks[i], k),
    ensures
        key_slot(ks, k) == p,
    decreases ks.len(),
{
    if ks.len() > 0 {
        if p == ks.len() {
            lemma_key_slot(ks.drop_last(), k, p - 1);
        } else {
            lemma_key_slot(ks.drop_last(), k, p);
        }
    }
}

/// Inserting a key at its slot keeps a sorted sequence of keys sorted.
pub proof fn lemma_key_insert_sorted(ks: Seq<Seq<char>>, k: Seq<char>, p: int)
    requires
        keys_sorted(ks),
        0 <= p <= ks.len(),
        forall|i: int| 0 <= i < p ==> lex_le(ks[i], k),
        forall|i: int| p <= i < ks.len() ==> !lex_le(ks[i], k),
    ensures
        keys_sorted(ks.insert(p, k)),
{
    let r = ks.insert(p, k);
    assert forall|i: int, j: int| 0 <= i < j < r.len() implies lex_le(#[trigger] r[i], #[trigger] r[j]) by {
        if j == p {
        } else if i == p {
            lemma_lex_total(ks[j - 1], k);
        } else {
            let oi = if i < p { i } else { i - 1 };
            let oj = if j < p { j } else { j - 1 };
            assert(r[i] == ks[oi] && r[j] == ks[oj]);
        }
    }
}

/// A record shown in a list under one name.
pub trait Record {
    spec fn record_name(&self) -> Seq<char>;

    fn name(&self) -> (r: &str)
        ensures
            r@ == self.record_name(),
    ;
}

/// A track is listed under its title.
impl Record for Track {
    open spec fn record_name(&self) -> Seq<char> {
        self.title@
    }

    fn name(&self) -> (r: &str) {
        self.title.as_str()
    }
}

/// An album is listed under its title.
impl Record for Album {
    open spec fn record_name(&self) -> Seq<char> {
        self.title@
    }

    fn name(&self) -> (r: &str) {
        self.title.as_str()
    }
}

/// An artist is listed under its name.
impl Record for Artist {
    open spec fn record_name(&self) -> Seq<char> {
        self.name@
    }

    fn name(&self) -> (r: &str) {
        self.name.as_str()
    }
}

impl Clone for Track {
    fn clone(&self) -> (r: Self)
        ensures
            r == *self,
    {
        Track {
            file_path: self.file_path.clone(),
            title: self.title.clone(),
            artist: self.artist.clone(),
            album_artist: self.album_artist.clone(),
            album: self.album.clone(),
            year: self.year,
            track_num: self.track_num,
            duration: self.duration,
        }
    }
}

/// Two tracks are the same track when they come from the same file.
impl PartialEq for Track {
    fn eq(&self, other: &Track) -> (r: bool) {
        self.file_path == other.file_path
    }
}

impl vstd::std_specs::cmp::PartialEqSpecImpl for Track {
    open spec fn obeys_eq_spec() -> bool {
        true
    }

    open spec fn eq_spec(&self, other: &Track) -> bool {
        self.file_path@ == other.file_path@
    }
}

fn text_or_default(o: Option<String>) -> (r: String)
    ensures
        r@ == text_or_empty(o),
{
    match o {
        Some(s) => s,
        None => String::new(),
    }
}

impl Track {
    /// The track of the file at `file_path` whose tag holds `tag`; an absent
    /// text field becomes empty, an absent number 0.
    pub fn from_tag(file_path: String, tag: TagInfo) -> (r: Track)
        ensures
            r.file_path@ == file_path@,
            r.title@ == text_or_empty(tag.title),
            r.artist@ == text_or_empty(tag.artist),
            r.album_artist@ == text_or_empty(tag.album_artist),
            r.album@ == text_or_empty(tag.album),
            r.year == (match tag.year {
                Some(y) => y,
                None => 0,
            }),
            r.track_num == (match tag.track_num {
                Some(n) => n,
                None => 0,
            }),
            r.duration == (match tag.duration {
                Some(d) => d,
                None => 0,
            }),
    {
        let year = match tag.year {
            Some(y) => y,
            None => 0,
        };
        let track_num = match tag.track_num {
            Some(n) => n,
            None => 0,
        };
        let duration = match tag.duration {
            Some(d) => d,
            None => 0,
        };
        Track {
            file_path,
            title: text_or_default(tag.title),
            artist: text_or_default(tag.artist),
            album_artist: text_or_default(tag.album_artist),
            album: text_or_default(tag.album),
            year,
            track_num,
            duration,
        }
    }

    /// The track that stands for "nothing is playing".
    pub fn dummy() -> (r: Track)
        ensures
            r.is_dummy(),
    {
        Track {
            file_path: String::new(),
            title: String::new(),
            artist: String::new(),
            album_artist: String::new(),
            album: String::new(),
            year: 0,
            track_num: 0,
            duration: 0,
        }
    }

    /// Every field empty or zero.
    pub open spec fn is_dummy(&self) -> bool {
        &&& self.file_path@.len() == 0
        &&& self.title@.len() == 0
        &&& self.artist@.len() == 0
        &&& self.album_artist@.len() == 0
        &&& self.album@.len() == 0
        &&& self.year == 0
        &&& self.track_num == 0
        &&& self.duration == 0
    }
}

/// Whether two lists hold equal items, position by position.
pub fn vec_compare<T: PartialEq>(va: &[T], vb: &[T]) -> (r: bool)
    requires
        T::obeys_eq_spec(),
    ensures
        r == (va@.len() == vb@.len() && forall|i: int|
            0 <= i < va@.len() ==> (#[trigger] va@[i]).eq_spec(&vb@[i])),
{
    if va.len() != vb.len() {
        return false;
    }
    let mut i: usize = 0;
    while i < va.len()
        invariant
            i <= va@.len(),
            va@.len() == vb@.len(),
            T::obeys_eq_spec(),
            forall|k: int| 0 <= k < i ==> (#[trigger] va@[k]).eq_spec(&vb@[k]),
        decreases va@.len() - i,
    {
        if !(va[i] == vb[i]) {
            return false;
        }
        i = i + 1;
    }
    true
}

/// Equal titles, and tracks from the same files in the same order.
pub open spec fn same_album(a: Album, b: Album) -> bool {
    &&& a.title@ == b.title@
    &&& a.tracks@.len() == b.tracks@.len()
    &&& forall|i: int|
        0 <= i < a.tracks@.len() ==> (#[trigger] a.tracks@[i]).file_path@ == b.tracks@[i].file_path@
}

/// Two albums are equal when their titles and their track lists are.
impl PartialEq for Album {
    fn eq(&self, other: &Album) -> (r: bool) {
        self.title == other.title && vec_compare(self.tracks.as_slice(), other.tracks.as_slice())
    }
}

impl vstd::std_specs::cmp::PartialEqSpecImpl for Album {
    open spec fn obeys_eq_spec() -> bool {
        true
    }

    open spec fn eq_spec(&self, other: &Album) -> bool {
        same_album(*self, *other)
    }
}

/// Two artists are equal when their names and their album lists are.
impl PartialEq for Artist {
    fn eq(&self, other: &Artist) -> (r: bool) {
        self.name == other.name && vec_compare(self.albums.as_slice(), other.albums.as_slice())
    }
}

impl vstd::std_specs::cmp::PartialEqSpecImpl for Artist {
    open spec fn obeys_eq_spec() -> bool {
        true
    }

    open spec fn eq_spec(&self, other: &Artist) -> bool {
        &&& self.name@ == other.name@
        &&& self.albums@.len() == other.albums@.len()
        &&& forall|i: int|
            0 <= i < self.albums@.len() ==> same_album(#[trigger] self.albums@[i], other.albums@[i])
    }
}

/// Tracks are ordered by track number.
impl PartialOrd for Track {
    fn partial_cmp(&self, other: &Track) -> (r: Option<std::cmp::Ordering>) {
        if self.track_num < other.track_num {
            Some(std::cmp::Ordering::Less)
        } else if self.track_num > other.track_num {
            Some(std::cmp::Ordering::Greater)
        } else {
            Some(std::cmp::Ordering::Equal)
        }
    }
}

impl vstd::std_specs::cmp::PartialOrdSpecImpl for Track {
    open spec fn obeys_partial_cmp_spec() -> bool {
        true
    }

    open spec fn partial_cmp_spec(&self, other: &Track) -> Option<std::cmp::Ordering> {
        if self.track_num < other.track_num {
            Some(std::cmp::Ordering::Less)
        } else if self.track_num > other.track_num {
            Some(std::cmp::Ordering::Greater)
        } else {
            Some(std::cmp::Ordering::Equal)
        }
    }
}

/// Albums are ordered by title.
impl PartialOrd for Album {
    fn partial_cmp(&self, other: &Album) -> (r: Option<std::cmp::Ordering>) {
        Some(str_order(self.title.as_str(), other.title.as_str()))
    }
}

impl vstd::std_specs::cmp::PartialOrdSpecImpl for Album {
    open spec fn obeys_partial_cmp_spec() -> bool {
        true
    }

    open spec fn partial_cmp_spec(&self, other: &Album) -> Option<std::cmp::Ordering> {
        Some(lex_order(self.title@, other.title@))
    }
}

/// Artists are ordered by name.
impl PartialOrd for Artist {
    fn partial_cmp(&self, other: &Artist) -> (r: Option<std::cmp::Ordering>) {
        Some(str_order(self.name.as_str(), other.name.as_str()))
    }
}

impl vstd::std_specs::cmp::PartialOrdSpecImpl for Artist {
    open spec fn obeys_partial_cmp_spec() -> bool {
        true
    }

    open spec fn partial_cmp_spec(&self, other: &Artist) -> Option<std::cmp::Ordering> {
        Some(lex_order(self.name@, other.name@))
    }
}

impl Clone for Album {
    fn clone(&self) -> (r: Self)
        ensures
            r@ == self@,
    {
        Album {
            title: self.title.clone(),
            artist: self.artist.clone(),
            year: self.year,
            tracks: self.tracks.clone(),
        }
    }
}

impl Album {
    /// An album without tracks.
    pub fn new(album_title: String, artist_name: String, release_year: i32) -> (r: Result<
        Album,
        (),
    >)
        ensures
            r matches Ok(a) && a@ == (AlbumView {
                title: album_title@,
                artist: artist_name@,
                year: release_year,
                tracks: Seq::empty(),
            }),
    {
        Ok(Album { title: album_title, artist: artist_name, year: release_year, tracks: Vec::new() })
    }

    /// Adds `t` after every track whose number is not above its own, which
    /// keeps the track list ordered.
    pub fn update_album(&mut self, t: Track) -> (r: Result<(), ()>)
        requires
            tracks_sorted(old(self).tracks@),
        ensures
            r is Ok,
            final(self)@ == (AlbumView {
                title: old(self).title@,
                artist: old(self).artist@,
                year: old(self).year,
                tracks: insert_track(old(self).tracks@, t),
            }),
            tracks_sorted(final(self).tracks@),
    {
        let n = t.track_num;
        let mut p: usize = self.tracks.len();
        while p > 0 && self.tracks[p - 1].track_num > n
            invariant
                p <= self.tracks.len(),
                self.tracks@ == old(self).tracks@,
                tracks_sorted(self.tracks@),
                forall|i: int| p <= i < self.tracks@.len() ==> self.tracks@[i].track_num > n,
            decreases p,
        {
            p = p - 1;
        }
        proof {
            lemma_track_slot(self.tracks@, n, p as int);
        }
        let ghost s = self.tracks@;
        self.tracks.insert(p, t);
        proof {
            let r = self.tracks@;
            assert(r == s.insert(p as int, t));
            assert forall|i: int, j: int| 0 <= i < j < r.len() implies r[i].track_num
                <= r[j].track_num by {
                if j == p {
                } else if i == p {
                } else {
                    let oi = if i < p { i } else { i - 1 };
                    let oj = if j < p { j } else { j - 1 };
                    assert(r[i] == s[oi] && r[j] == s[oj]);
                }
            }
        }
        Ok(())
    }

    /// Orders the tracks by number, keeping the order of equal numbers.
    pub fn sort(&mut self)
        ensures
            final(self).title == old(self).title,
            final(self).artist == old(self).artist,
            final(self).year == old(self).year,
            tracks_sorted(final(self).tracks@),
            final(self).tracks@.to_multiset() == old(self).tracks@.to_multiset(),
    {
        let mut sorted = Album {
            title: String::new(),
            artist: String::new(),
            year: 0,
            tracks: Vec::new(),
        };
        let mut rest: Vec<Track> = Vec::new();
        std::mem::swap(&mut rest, &mut self.tracks);
        let ghost all = rest@;
        let mut i: usize = 0;
        assert(sorted.tracks@ =~= all.subrange(0, 0));
        while i < rest.len()
            invariant
                i <= rest.len(),
                rest@ == all,
                tracks_sorted(sorted.tracks@),
                sorted.tracks@.to_multiset() == all.subrange(0, i as int).to_multiset(),
            decreases rest.len() - i,
        {
            let t = rest[i].clone();
            let ghost before = sorted.tracks@;
            let _ = sorted.update_album(t);
            proof {
                let p = track_slot(before, t.track_num) as int;
                lemma_track_slot_bound(before, t.track_num);
                vstd::seq_lib::to_multiset_insert(before, p, t);
                vstd::seq_lib::to_multiset_build(all.subrange(0, i as int), t);
                assert(all.subrange(0, i + 1) =~= all.subrange(0, i as int).push(t));
            }
            i = i + 1;
        }
        proof {
            assert(all.subrange(0, all.len() as int) =~= all);
        }
        self.tracks = sorted.tracks;
    }
}

impl Clone for Artist {
    fn clone(&self) -> (r: Self)
        ensures
            r@ == self@,
    {
        let mut albums: Vec<Album> = Vec::new();
        let mut j: usize = 0;
        while j < self.albums.len()
            invariant
                j <= self.albums.len(),
                albums_view(albums@) =~= albums_view(self.albums@.subrange(0, j as int)),
            decreases self.albums.len() - j,
        {
            let a = self.albums[j].clone();
            proof {
                assert(self.albums@.subrange(0, j + 1) =~= self.albums@.subrange(0, j as int).push(
                    self.albums@[j as int],
                ));
            }
            let ghost prev = albums@;
            albums.push(a);
            proof {
                assert(albums_view(albums@) =~= albums_view(prev).push(a@));
                assert(albums_view(self.albums@.subrange(0, j + 1)) =~= albums_view(
                    self.albums@.subrange(0, j as int),
                ).push(self.albums@[j as int]@));
            }
            j = j + 1;
        }
        assert(self.albums@.subrange(0, self.albums@.len() as int) =~= self.albums@);
        Artist { name: self.name.clone(), albums }
    }
}

impl Artist {
    /// An artist without albums.
    pub fn new(artist_name: String) -> (r: Result<Artist, ()>)
        ensures
            r matches Ok(a) && a@ == (ArtistView { name: artist_name@, albums: Seq::empty() }),
    {
        let r = Artist { name: artist_name, albums: Vec::new() };
        assert(albums_view(r.albums@) =~= Seq::empty());
        Ok(r)
    }

    /// Adds `album` after every album whose case-folded title is not above
    /// its own, which keeps the album list ordered.
    pub fn add_album(&mut self, album: Album) -> (r: Result<(), ()>)
        requires
            keys_sorted(album_keys(albums_view(old(self).albums@))),
        ensures
            r is Ok,
            final(self)@ == (ArtistView {
                name: old(self).name@,
                albums: insert_album(old(self)@.albums, album@),
            }),
            keys_sorted(album_keys(final(self)@.albums)),
    {
        let ghost ks = album_keys(albums_view(self.albums@));
        let ghost k = lower_of(album.title@);
        let mut p: usize = self.albums.len();
        loop
            invariant
                p <= self.albums.len(),
                self.albums@ == old(self).albums@,
                ks == album_keys(albums_view(self.albums@)),
                k == lower_of(album.title@),
                keys_sorted(ks),
                forall|i: int| p <= i < ks.len() ==> !lex_le(#[trigger] ks[i], k),
            ensures
                p <= self.albums.len(),
                self.albums@ == old(self).albums@,
                forall|i: int| p <= i < ks.len() ==> !lex_le(#[trigger] ks[i], k),
                p > 0 ==> lex_le(ks[p - 1], k),
            decreases p,
        {
            if p == 0 {
                break;
            }
            let le = folded_le(self.albums[p - 1].title.as_str(), album.title.as_str());
            assert(ks[p - 1] == lower_of(self.albums@[p - 1].title@));
            if le {
                break;
            }
            p = p - 1;
        }
        proof {
            assert forall|i: int| 0 <= i < p implies lex_le(#[trigger] ks[i], k) by {
                if i < p - 1 {
                    lemma_lex_trans(ks[i], ks[p - 1], k);
                }
            }
            lemma_key_slot(ks, k, p as int);
            lemma_key_insert_sorted(ks, k, p as int);
        }
        let ghost s = self.albums@;
        let ghost av = album@;
        self.albums.insert(p, album);
        proof {
            assert(albums_view(self.albums@) =~= albums_view(s).insert(p as int, av));
            assert(album_keys(albums_view(self.albums@)) =~= ks.insert(p as int, k));
        }
        Ok(())
    }
}

} // verus!
