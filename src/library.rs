//! The library indexer's aggregation: tracks grouped into artists and albums,
//! kept in order, with running statistics.
use vstd::prelude::*;

use crate::record::{
    album_keys, album_wf, albums_view, artist_wf, insert_album, insert_track, key_slot,
    keys_sorted, lemma_key_insert_sorted, lemma_key_slot, lemma_key_slot_bound,
    lemma_track_slot_bound, tracks_sorted, Album, AlbumView, Artist, ArtistView, Track,
};
use crate::text::{folded_le, lemma_lex_trans, lex_le, lower_of};

verus! {

/// Counters over the whole library, filled while it is built.
#[derive(Clone, Copy, Debug, PartialEq, Eq, Structural)]
pub struct Stats {
    pub artists: u64,
    pub albums: u64,
    pub tracks: u64,
    pub total_time: u64,
}

impl Stats {
    /// All counters at zero.
    pub fn new() -> (r: Stats)
        ensures
            r == (Stats { artists: 0, albums: 0, tracks: 0, total_time: 0 }),
    {
        Stats { artists: 0, albums: 0, tracks: 0, total_time: 0 }
    }
}

pub open spec fn library_view(s: Seq<Artist>) -> Seq<ArtistView> {
    s.map_values(|r: Artist| r@)
}

/// The case-folded names of a list of artists.
pub open spec fn artist_keys(s: Seq<ArtistView>) -> Seq<Seq<char>> {
    s.map_values(|r: ArtistView| lower_of(r.name))
}

/// `s` with `r` placed after every artist whose folded name is not above its own.
pub open spec fn insert_artist(s: Seq<ArtistView>, r: ArtistView) -> Seq<ArtistView> {
    s.insert(key_slot(artist_keys(s), lower_of(r.name)) as int, r)
}

pub open spec fn names_unique(s: Seq<ArtistView>) -> bool {
    forall|i: int, j: int| 0 <= i < s.len() && 0 <= j < s.len() && i != j ==> s[i].name != s[j].name
}

pub open spec fn titles_unique(s: Seq<AlbumView>) -> bool {
    forall|i: int, j: int|
        0 <= i < s.len() && 0 <= j < s.len() && i != j ==> s[i].title != s[j].title
}

/// A library in its well-formed state: artists ordered by folded name, with
/// distinct names; within each, albums ordered by folded title, with distinct
/// titles; within each album, tracks ordered by number.
pub open spec fn library_wf(s: Seq<ArtistView>) -> bool {
    &&& names_unique(s)
    &&& forall|i: int|
        0 <= i < s.len() ==> artist_wf(#[trigger] s[i]) && titles_unique(s[i].albums)
}

pub open spec fn has_artist(s: Seq<ArtistView>, name: Seq<char>) -> bool {
    exists|i: int| 0 <= i < s.len() && s[i].name == name
}

pub open spec fn artist_index(s: Seq<ArtistView>, name: Seq<char>) -> int {
    choose|i: int| 0 <= i < s.len() && s[i].name == name
}

pub open spec fn has_album(s: Seq<AlbumView>, title: Seq<char>) -> bool {
    exists|j: int| 0 <= j < s.len() && s[j].title == title
}

pub open spec fn album_index(s: Seq<AlbumView>, title: Seq<char>) -> int {
    choose|j: int| 0 <= j < s.len() && s[j].title == title
}

/// A new album holding the one track `t`.
pub open spec fn single_album(a: Seq<char>, b: Seq<char>, y: i32, t: Track) -> AlbumView {
    AlbumView { title: b, artist: a, year: y, tracks: seq![t] }
}

/// The library `s` after track `t` is filed under artist `a` and album `b`
/// (released in `y`): into the existing album, or a new album of the
/// existing artist, or a new artist appended at the end.
pub open spec fn library_add(s: Seq<ArtistView>, a: Seq<char>, b: Seq<char>, y: i32, t: Track) -> Seq<
    ArtistView,
> {
    if has_artist(s, a) {
        let i = artist_index(s, a);
        let r = s[i];
        if has_album(r.albums, b) {
            let j = album_index(r.albums, b);
            let al = r.albums[j];
            s.update(
                i,
                ArtistView {
                    name: r.name,
                    albums: r.albums.update(
                        j,
                        AlbumView {
                            title: al.title,
                            artist: al.artist,
                            year: al.year,
                            tracks: insert_track(al.tracks, t),
                        },
                    ),
                },
            )
        } else {
            s.update(
                i,
                ArtistView { name: r.name, albums: insert_album(r.albums, single_album(a, b, y, t)) },
            )
        }
    } else {
        s.push(ArtistView { name: a, albums: seq![single_album(a, b, y, t)] })
    }
}

/// The name a track is filed under: its album artist, or its artist where
/// the album artist is empty.
pub open spec fn group_name(t: Track) -> Seq<char> {
    if t.album_artist@.len() > 0 {
        t.album_artist@
    } else {
        t.artist@
    }
}

/// The library that filing the tracks of `ts`, in order, into an empty
/// library gives.
pub open spec fn library_of(ts: Seq<Track>) -> Seq<ArtistView>
    decreases ts.len(),
{
    if ts.len() == 0 {
        Seq::empty()
    } else {
        let t = ts.last();
        library_add(library_of(ts.drop_last()), group_name(t), t.album@, t.year, t)
    }
}

/// The tracks of a list of albums, album after album.
pub open spec fn album_tracks(s: Seq<AlbumView>) -> Seq<Track>
    decreases s.len(),
{
    if s.len() == 0 {
        Seq::empty()
    } else {
        album_tracks(s.drop_last()) + s.last().tracks
    }
}

/// The tracks of a library, artist after artist.
pub open spec fn library_tracks(s: Seq<ArtistView>) -> Seq<Track>
    decreases s.len(),
{
    if s.len() == 0 {
        Seq::empty()
    } else {
        library_tracks(s.drop_last()) + album_tracks(s.last().albums)
    }
}

/// The number of tracks of a list of albums: the sum of their lengths.
pub open spec fn album_track_count(s: Seq<AlbumView>) -> nat
    decreases s.len(),
{
    if s.len() == 0 {
        0
    } else {
        album_track_count(s.drop_last()) + s.last().tracks.len()
    }
}

/// The number of tracks of a library: the sum over its artists of the sum
/// over their albums of the albums' lengths.
pub open spec fn track_count(s: Seq<ArtistView>) -> nat
    decreases s.len(),
{
    if s.len() == 0 {
        0
    } else {
        track_count(s.drop_last()) + album_track_count(s.last().albums)
    }
}

pub proof fn lemma_album_track_count(s: Seq<AlbumView>)
    ensures
        album_tracks(s).len() == album_track_count(s),
    decreases s.len(),
{
    if s.len() > 0 {
        lemma_album_track_count(s.drop_last());
    }
}

/// Counting the tracks album by album gives the length of the library's
/// track sequence.
pub proof fn lemma_track_count(s: Seq<ArtistView>)
    ensures
        library_tracks(s).len() == track_count(s),
    decreases s.len(),
{
    if s.len() > 0 {
        lemma_track_count(s.drop_last());
        lemma_album_track_count(s.last().albums);
    }
}

/// The number of albums of a library.
pub open spec fn album_count(s: Seq<ArtistView>) -> nat
    decreases s.len(),
{
    if s.len() == 0 {
        0
    } else {
        album_count(s.drop_last()) + s.last().albums.len()
    }
}

/// The sum of the durations of `s`.
pub open spec fn total_duration(s: Seq<Track>) -> nat
    decreases s.len(),
{
    if s.len() == 0 {
        0
    } else {
        total_duration(s.drop_last()) + s.last().duration as nat
    }
}

/// Every album of `r` names `r` as its artist and holds only tracks filed
/// under `r`'s name and its own title.
pub open spec fn artist_grouped(r: ArtistView) -> bool {
    forall|j: int|
        0 <= j < r.albums.len() ==> {
            &&& (#[trigger] r.albums[j]).artist == r.name
            &&& forall|k: int|
                0 <= k < r.albums[j].tracks.len() ==> group_name(#[trigger] r.albums[j].tracks[k])
                    == r.name && r.albums[j].tracks[k].album@ == r.albums[j].title
        }
}

/// Every track of the library sits in the bucket of its album artist and album.
pub open spec fn library_grouped(s: Seq<ArtistView>) -> bool {
    forall|i: int| 0 <= i < s.len() ==> artist_grouped(#[trigger] s[i])
}


pub proof fn lemma_total_concat(a: Seq<Track>, b: Seq<Track>)
    ensures
        total_duration(a + b) == total_duration(a) + total_duration(b),
    decreases b.len(),
{
    if b.len() == 0 {
        assert(a + b =~= a);
    } else {
        lemma_total_concat(a, b.drop_last());
        assert((a + b).drop_last() =~= a + b.drop_last());
    }
}

pub proof fn lemma_album_tracks_concat(a: Seq<AlbumView>, b: Seq<AlbumView>)
    ensures
        album_tracks(a + b) == album_tracks(a) + album_tracks(b),
    decreases b.len(),
{
    if b.len() == 0 {
        assert(a + b =~= a);
        assert(album_tracks(a) + album_tracks(b) =~= album_tracks(a));
    } else {
        lemma_album_tracks_concat(a, b.drop_last());
        assert((a + b).drop_last() =~= a + b.drop_last());
        assert(album_tracks(a + b) =~= album_tracks(a) + album_tracks(b));
    }
}

pub proof fn lemma_library_concat(a: Seq<ArtistView>, b: Seq<ArtistView>)
    ensures
        library_tracks(a + b) == library_tracks(a) + library_tracks(b),
        album_count(a + b) == album_count(a) + album_count(b),
    decreases b.len(),
{
    if b.len() == 0 {
        assert(a + b =~= a);
        assert(library_tracks(a) + library_tracks(b) =~= library_tracks(a));
    } else {
        lemma_library_concat(a, b.drop_last());
        assert((a + b).drop_last() =~= a + b.drop_last());
        assert(library_tracks(a + b) =~= library_tracks(a) + library_tracks(b));
    }
}

/// Replacing the middle part `x` of `p + x + q` by `x2`, which holds one
/// track `t` more, adds `t` to the whole.
pub proof fn lemma_middle(p: Seq<Track>, x: Seq<Track>, x2: Seq<Track>, q: Seq<Track>, t: Track)
    requires
        x2.to_multiset() == x.to_multiset().insert(t),
        total_duration(x2) == total_duration(x) + t.duration,
    ensures
        (p + x2 + q).to_multiset() == (p + x + q).to_multiset().insert(t),
        total_duration(p + x2 + q) == total_duration(p + x + q) + t.duration,
        (p + x2 + q).len() == (p + x + q).len() + 1,
{
    vstd::seq_lib::lemma_multiset_commutative(p, x2);
    vstd::seq_lib::lemma_multiset_commutative(p + x2, q);
    vstd::seq_lib::lemma_multiset_commutative(p, x);
    vstd::seq_lib::lemma_multiset_commutative(p + x, q);
    lemma_total_concat(p, x2);
    lemma_total_concat(p + x2, q);
    lemma_total_concat(p, x);
    lemma_total_concat(p + x, q);
    vstd::seq_lib::to_multiset_len(x);
    vstd::seq_lib::to_multiset_len(x2);
    assert((p + x2 + q).to_multiset() =~= (p + x + q).to_multiset().insert(t));
}

pub proof fn lemma_insert_track_bag(s: Seq<Track>, t: Track)
    ensures
        insert_track(s, t).to_multiset() == s.to_multiset().insert(t),
        total_duration(insert_track(s, t)) == total_duration(s) + t.duration,
{
    let p = crate::record::track_slot(s, t.track_num) as int;
    lemma_track_slot_bound(s, t.track_num);
    vstd::seq_lib::to_multiset_insert(s, p, t);
    let a = s.subrange(0, p);
    let b = s.subrange(p, s.len() as int);
    assert(s =~= a + b);
    assert(insert_track(s, t) =~= a + seq![t] + b);
    lemma_total_concat(a, b);
    lemma_total_concat(a, seq![t]);
    lemma_total_concat(a + seq![t], b);
    reveal_with_fuel(total_duration, 2);
    assert(seq![t].drop_last() =~= Seq::<Track>::empty());
}

pub proof fn lemma_album_tracks_single(a: AlbumView)
    ensures
        album_tracks(seq![a]) == a.tracks,
{
    reveal_with_fuel(album_tracks, 2);
    assert(seq![a].drop_last() =~= Seq::<AlbumView>::empty());
    assert(album_tracks(seq![a]) =~= a.tracks);
}

pub proof fn lemma_library_single(r: ArtistView)
    ensures
        library_tracks(seq![r]) == album_tracks(r.albums),
        album_count(seq![r]) == r.albums.len(),
{
    reveal_with_fuel(library_tracks, 2);
    reveal_with_fuel(album_count, 2);
    assert(seq![r].drop_last() =~= Seq::<ArtistView>::empty());
    assert(library_tracks(seq![r]) =~= album_tracks(r.albums));
}

/// Replacing album `j` by one that holds one track `t` more adds `t` to the
/// tracks of the list.
pub proof fn lemma_albums_update(s: Seq<AlbumView>, j: int, a2: AlbumView, t: Track)
    requires
        0 <= j < s.len(),
        a2.tracks.to_multiset() == s[j].tracks.to_multiset().insert(t),
        total_duration(a2.tracks) == total_duration(s[j].tracks) + t.duration,
    ensures
        album_tracks(s.update(j, a2)).to_multiset() == album_tracks(s).to_multiset().insert(t),
        total_duration(album_tracks(s.update(j, a2))) == total_duration(album_tracks(s))
            + t.duration,
        album_tracks(s.update(j, a2)).len() == album_tracks(s).len() + 1,
{
    let p = s.subrange(0, j);
    let q = s.subrange(j + 1, s.len() as int);
    assert(s =~= p + seq![s[j]] + q);
    assert(s.update(j, a2) =~= p + seq![a2] + q);
    lemma_album_tracks_concat(p + seq![s[j]], q);
    lemma_album_tracks_concat(p, seq![s[j]]);
    lemma_album_tracks_concat(p + seq![a2], q);
    lemma_album_tracks_concat(p, seq![a2]);
    lemma_album_tracks_single(s[j]);
    lemma_album_tracks_single(a2);
    lemma_middle(album_tracks(p), s[j].tracks, a2.tracks, album_tracks(q), t);
}

/// Inserting an album that holds the one track `t` adds `t` to the tracks
/// of the list.
pub proof fn lemma_albums_insert(s: Seq<AlbumView>, j: int, a2: AlbumView, t: Track)
    requires
        0 <= j <= s.len(),
        a2.tracks == seq![t],
    ensures
        album_tracks(s.insert(j, a2)).to_multiset() == album_tracks(s).to_multiset().insert(t),
        total_duration(album_tracks(s.insert(j, a2))) == total_duration(album_tracks(s))
            + t.duration,
        album_tracks(s.insert(j, a2)).len() == album_tracks(s).len() + 1,
{
    let p = s.subrange(0, j);
    let q = s.subrange(j, s.len() as int);
    assert(s =~= p + q);
    assert(s.insert(j, a2) =~= p + seq![a2] + q);
    lemma_album_tracks_concat(p + seq![a2], q);
    lemma_album_tracks_concat(p, seq![a2]);
    lemma_album_tracks_concat(p, q);
    lemma_album_tracks_single(a2);
    let e = Seq::<Track>::empty();
    assert(album_tracks(p) + e + album_tracks(q) =~= album_tracks(p) + album_tracks(q));
    assert(seq![t].to_multiset() =~= e.to_multiset().insert(t)) by {
        vstd::seq_lib::to_multiset_build(e, t);
        assert(e.push(t) =~= seq![t]);
    }
    assert(seq![t].drop_last() =~= e);
    lemma_middle(album_tracks(p), e, seq![t], album_tracks(q), t);
}

/// Replacing artist `i` by one whose albums hold one track `t` more adds `t`
/// to the library's tracks.
pub proof fn lemma_library_update(s: Seq<ArtistView>, i: int, r2: ArtistView, t: Track)
    requires
        0 <= i < s.len(),
        album_tracks(r2.albums).to_multiset() == album_tracks(s[i].albums).to_multiset().insert(t),
        total_duration(album_tracks(r2.albums)) == total_duration(album_tracks(s[i].albums))
            + t.duration,
    ensures
        library_tracks(s.update(i, r2)).to_multiset() == library_tracks(s).to_multiset().insert(
            t,
        ),
        total_duration(library_tracks(s.update(i, r2))) == total_duration(library_tracks(s))
            + t.duration,
        library_tracks(s.update(i, r2)).len() == library_tracks(s).len() + 1,
        album_count(s.update(i, r2)) + s[i].albums.len() == album_count(s) + r2.albums.len(),
{
    let p = s.subrange(0, i);
    let q = s.subrange(i + 1, s.len() as int);
    assert(s =~= p + seq![s[i]] + q);
    assert(s.update(i, r2) =~= p + seq![r2] + q);
    lemma_library_concat(p + seq![s[i]], q);
    lemma_library_concat(p, seq![s[i]]);
    lemma_library_concat(p + seq![r2], q);
    lemma_library_concat(p, seq![r2]);
    lemma_library_single(s[i]);
    lemma_library_single(r2);
    lemma_middle(
        library_tracks(p),
        album_tracks(s[i].albums),
        album_tracks(r2.albums),
        library_tracks(q),
        t,
    );
}

/// Inserting an artist whose albums hold the one track `t` adds `t` to the
/// library's tracks.
pub proof fn lemma_library_insert(s: Seq<ArtistView>, i: int, r2: ArtistView, t: Track)
    requires
        0 <= i <= s.len(),
        album_tracks(r2.albums) == seq![t],
    ensures
        library_tracks(s.insert(i, r2)).to_multiset() == library_tracks(s).to_multiset().insert(
            t,
        ),
        total_duration(library_tracks(s.insert(i, r2))) == total_duration(library_tracks(s))
            + t.duration,
        library_tracks(s.insert(i, r2)).len() == library_tracks(s).len() + 1,
        album_count(s.insert(i, r2)) == album_count(s) + r2.albums.len(),
{
    let p = s.subrange(0, i);
    let q = s.subrange(i, s.len() as int);
    assert(s =~= p + q);
    assert(s.insert(i, r2) =~= p + seq![r2] + q);
    lemma_library_concat(p + seq![r2], q);
    lemma_library_concat(p, seq![r2]);
    lemma_library_concat(p, q);
    lemma_library_single(r2);
    let e = Seq::<Track>::empty();
    assert(library_tracks(p) + e + library_tracks(q) =~= library_tracks(p) + library_tracks(q));
    assert(seq![t].to_multiset() =~= e.to_multiset().insert(t)) by {
        vstd::seq_lib::to_multiset_build(e, t);
        assert(e.push(t) =~= seq![t]);
    }
    assert(seq![t].drop_last() =~= e);
    lemma_middle(library_tracks(p), e, seq![t], library_tracks(q), t);
}

/// Filing a track adds it to the library's tracks, adds its duration to
/// the total, and adds an album or an artist where it opened a new one.
pub proof fn lemma_library_add_counts(
    s: Seq<ArtistView>,
    a: Seq<char>,
    b: Seq<char>,
    y: i32,
    t: Track,
)
    ensures
        ({
            let n = library_add(s, a, b, y, t);
            &&& library_tracks(n).to_multiset() == library_tracks(s).to_multiset().insert(t)
            &&& total_duration(library_tracks(n)) == total_duration(library_tracks(s))
                + t.duration
            &&& library_tracks(n).len() == library_tracks(s).len() + 1
            &&& n.len() == s.len() + if has_artist(s, a) {
                0int
            } else {
                1int
            }
            &&& album_count(n) == album_count(s) + if has_artist(s, a) && has_album(
                s[artist_index(s, a)].albums,
                b,
            ) {
                0int
            } else {
                1int
            }
        }),
{
    let al1 = single_album(a, b, y, t);
    lemma_album_tracks_single(al1);
    if has_artist(s, a) {
        let i = artist_index(s, a);
        let r = s[i];
        if has_album(r.albums, b) {
            let j = album_index(r.albums, b);
            let al = r.albums[j];
            let al2 = AlbumView {
                title: al.title,
                artist: al.artist,
                year: al.year,
                tracks: insert_track(al.tracks, t),
            };
            lemma_insert_track_bag(al.tracks, t);
            lemma_albums_update(r.albums, j, al2, t);
            lemma_library_update(s, i, ArtistView { name: r.name, albums: r.albums.update(j, al2) }, t);
        } else {
            let k = key_slot(album_keys(r.albums), lower_of(b)) as int;
            lemma_key_slot_bound(album_keys(r.albums), lower_of(b));
            lemma_albums_insert(r.albums, k, al1, t);
            lemma_library_update(s, i, ArtistView { name: r.name, albums: insert_album(r.albums, al1) }, t);
        }
    } else {
        let r2 = ArtistView { name: a, albums: seq![al1] };
        lemma_library_insert(s, s.len() as int, r2, t);
        assert(s.insert(s.len() as int, r2) =~= s.push(r2));
    }
}


/// Places `artist` after every artist whose case-folded name is not above
/// its own, which keeps the list ordered.
fn insert_artist_sorted(artists: &mut Vec<Artist>, artist: Artist)
    requires
        keys_sorted(artist_keys(library_view(old(artists)@))),
    ensures
        library_view(final(artists)@) == insert_artist(library_view(old(artists)@), artist@),
        keys_sorted(artist_keys(library_view(final(artists)@))),
{
    let ghost ks = artist_keys(library_view(artists@));
    let ghost k = lower_of(artist.name@);
    let mut p: usize = artists.len();
    loop
        invariant
            p <= artists.len(),
            artists@ == old(artists)@,
            ks == artist_keys(library_view(artists@)),
            k == lower_of(artist.name@),
            keys_sorted(ks),
            forall|i: int| p <= i < ks.len() ==> !lex_le(#[trigger] ks[i], k),
        ensures
            p <= artists.len(),
            artists@ == old(artists)@,
            forall|i: int| p <= i < ks.len() ==> !lex_le(#[trigger] ks[i], k),
            p > 0 ==> lex_le(ks[p - 1], k),
        decreases p,
    {
        if p == 0 {
            break;
        }
        let le = folded_le(artists[p - 1].name.as_str(), artist.name.as_str());
        assert(ks[p - 1] == lower_of(artists@[p - 1].name@));
        if le {
            break;
        }
        p = p - 1;
    }
    proof {
        assert forall|i: int| 0 <= i < p implies lex_le(#[trigger] ks[i], k) by {
            if i < p - 1 {
                lemma_lex_trans(ks[i], ks[p - 1], k);
            }
        }
        lemma_key_slot(ks, k, p as int);
        lemma_key_insert_sorted(ks, k, p as int);
    }
    let ghost s = artists@;
    let ghost rv = artist@;
    artists.insert(p, artist);
    proof {
        assert(library_view(artists@) =~= library_view(s).insert(p as int, rv));
        assert(artist_keys(library_view(artists@)) =~= ks.insert(p as int, k));
    }
}

/// Files track `t` under artist `artist_name` and album `album_title`
/// (released in `album_year`): into the album of that title of the artist
/// of that name, or into a new album, or a new artist, each created where
/// missing. A new album takes its place among the artist's albums by folded
/// title; a new artist is appended. Counts the track, its duration, and
/// what was created.
pub fn add_to_database(
    artist_name: &String,
    album_title: &String,
    album_year: i32,
    t: Track,
    artists: &mut Vec<Artist>,
    stats: &mut Stats,
)
    requires
        library_wf(library_view(old(artists)@)),
        old(stats).tracks < u64::MAX,
        old(stats).artists < u64::MAX,
        old(stats).albums < u64::MAX,
        old(stats).total_time + t.duration <= u64::MAX,
    ensures
        library_view(final(artists)@) == library_add(
            library_view(old(artists)@),
            artist_name@,
            album_title@,
            album_year,
            t,
        ),
        library_wf(library_view(final(artists)@)),
        final(stats).tracks == old(stats).tracks + 1,
        final(stats).total_time == old(stats).total_time + t.duration,
        final(stats).artists == old(stats).artists + if has_artist(
            library_view(old(artists)@),
            artist_name@,
        ) {
            0int
        } else {
            1int
        },
        final(stats).albums == old(stats).albums + if has_artist(
            library_view(old(artists)@),
            artist_name@,
        ) && has_album(
            library_view(old(artists)@)[artist_index(library_view(old(artists)@), artist_name@)].albums,
            album_title@,
        ) {
            0int
        } else {
            1int
        },
{
    let ghost s = library_view(artists@);
    let ghost a = artist_name@;
    let ghost b = album_title@;
    stats.tracks = stats.tracks + 1;
    stats.total_time = stats.total_time + t.duration as u64;

    let mut i: usize = 0;
    loop
        invariant
            i <= artists.len(),
            artists@ == old(artists)@,
            s == library_view(artists@),
            a == artist_name@,
            forall|k: int| 0 <= k < i ==> s[k].name != a,
        ensures
            i <= artists.len(),
            artists@ == old(artists)@,
            forall|k: int| 0 <= k < i ==> s[k].name != a,
            i < artists.len() ==> s[i as int].name == a,
        decreases artists.len() - i,
    {
        if i == artists.len() {
            break;
        }
        assert(s[i as int].name == artists@[i as int].name@);
        if artists[i].name == *artist_name {
            break;
        }
        i = i + 1;
    }

    if i < artists.len() {
        let ghost r = s[i as int];
        proof {
            assert(has_artist(s, a));
            assert(artist_index(s, a) == i);
            assert(r.albums == albums_view(artists@[i as int].albums@));
        }
        let n_albums = artists[i].albums.len();
        let mut j: usize = 0;
        loop
            invariant
                j <= n_albums,
                n_albums == r.albums.len(),
                artists@ == old(artists)@,
                r == s[i as int],
                s == library_view(artists@),
                i < artists.len(),
                r.albums == albums_view(artists@[i as int].albums@),
                b == album_title@,
                forall|k: int| 0 <= k < j ==> r.albums[k].title != b,
            ensures
                j <= n_albums,
                artists@ == old(artists)@,
                forall|k: int| 0 <= k < j ==> r.albums[k].title != b,
                j < n_albums ==> r.albums[j as int].title == b,
            decreases n_albums - j,
        {
            if j == n_albums {
                break;
            }
            assert(r.albums[j as int].title == artists@[i as int].albums@[j as int].title@);
            if artists[i].albums[j].title == *album_title {
                break;
            }
            j = j + 1;
        }
        if j < n_albums {
            let ghost al = r.albums[j as int];
            proof {
                assert(has_album(r.albums, b));
                assert(album_index(r.albums, b) == j);
                assert(artist_wf(r));
                assert(album_wf(r.albums[j as int]));
                assert(al.tracks == artists@[i as int].albums@[j as int].tracks@);
            }
            let ghost old_albums = artists@[i as int].albums@;
            let _ = artists[i].albums[j].update_album(t);
            proof {
                let al2 = AlbumView {
                    title: al.title,
                    artist: al.artist,
                    year: al.year,
                    tracks: insert_track(al.tracks, t),
                };
                let r2 = ArtistView { name: r.name, albums: r.albums.update(j as int, al2) };
                assert(albums_view(artists@[i as int].albums@) =~= r.albums.update(j as int, al2));
                assert(library_view(artists@) =~= s.update(i as int, r2));
                assert(album_keys(r2.albums) =~= album_keys(r.albums));
                assert(artist_keys(s.update(i as int, r2)) =~= artist_keys(s));
                assert(artist_wf(r2));
            }
        } else {
            let mut tracks: Vec<Track> = Vec::new();
            tracks.push(t);
            let album = Album {
                title: album_title.clone(),
                artist: artist_name.clone(),
                year: album_year,
                tracks,
            };
            proof {
                assert(album@ == single_album(a, b, album_year, t));
                assert(!has_album(r.albums, b));
                assert(keys_sorted(album_keys(albums_view(artists@[i as int].albums@))));
            }
            let _ = artists[i].add_album(album);
            stats.albums = stats.albums + 1;
            proof {
                let al1 = single_album(a, b, album_year, t);
                let r2 = ArtistView { name: r.name, albums: insert_album(r.albums, al1) };
                assert(library_view(artists@) =~= s.update(i as int, r2));
                assert(artist_keys(s.update(i as int, r2)) =~= artist_keys(s));
                let kk = key_slot(album_keys(r.albums), lower_of(b)) as int;
                lemma_key_slot_bound(album_keys(r.albums), lower_of(b));
                assert(r2.albums =~= r.albums.insert(kk, al1));
                assert forall|x: int| 0 <= x < r2.albums.len() implies album_wf(
                    #[trigger] r2.albums[x],
                ) by {
                    if x < kk {
                        assert(r2.albums[x] == r.albums[x]);
                    } else if x > kk {
                        assert(r2.albums[x] == r.albums[x - 1]);
                    }
                }
                assert(titles_unique(r2.albums)) by {
                    assert forall|x: int, z: int|
                        0 <= x < r2.albums.len() && 0 <= z < r2.albums.len() && x != z implies r2.albums[x].title
                        != r2.albums[z].title by {
                        let ox = if x < kk { x } else { x - 1 };
                        let oz = if z < kk { z } else { z - 1 };
                        if x != kk {
                            assert(r2.albums[x] == r.albums[ox]);
                        }
                        if z != kk {
                            assert(r2.albums[z] == r.albums[oz]);
                        }
                    }
                }
            }
        }
    } else {
        let mut tracks: Vec<Track> = Vec::new();
        tracks.push(t);
        let album = Album {
            title: album_title.clone(),
            artist: artist_name.clone(),
            year: album_year,
            tracks,
        };
        let mut albums: Vec<Album> = Vec::new();
        albums.push(album);
        let artist = Artist { name: artist_name.clone(), albums };
        let ghost al1 = single_album(a, b, album_year, t);
        let ghost r2 = ArtistView { name: a, albums: seq![al1] };
        proof {
            assert(!has_artist(s, a));
            assert(albums_view(artist.albums@) =~= seq![al1]);
            assert(artist@ == r2);
        }
        artists.push(artist);
        stats.artists = stats.artists + 1;
        stats.albums = stats.albums + 1;
        proof {
            let kk = s.len() as int;
            let n = s.insert(kk, r2);
            assert(n =~= s.push(r2));
            assert(library_view(artists@) =~= n);
            assert(album_keys(r2.albums) =~= seq![lower_of(b)]);
            assert(artist_wf(r2));
            assert(titles_unique(r2.albums));
            assert forall|x: int| 0 <= x < n.len() implies artist_wf(#[trigger] n[x]) && titles_unique(
                n[x].albums,
            ) by {
                if x < kk {
                    assert(n[x] == s[x]);
                } else if x > kk {
                    assert(n[x] == s[x - 1]);
                }
            }
            assert forall|x: int, z: int|
                0 <= x < n.len() && 0 <= z < n.len() && x != z implies n[x].name != n[z].name by {
                let ox = if x < kk { x } else { x - 1 };
                let oz = if z < kk { z } else { z - 1 };
                if x != kk {
                    assert(n[x] == s[ox]);
                }
                if z != kk {
                    assert(n[z] == s[oz]);
                }
            }
        }
    }
}


/// Filing a track under its own group name and album title keeps every
/// track in its bucket.
pub proof fn lemma_library_add_grouped(s: Seq<ArtistView>, y: i32, t: Track)
    requires
        library_grouped(s),
    ensures
        library_grouped(library_add(s, group_name(t), t.album@, y, t)),
{
    let a = group_name(t);
    let b = t.album@;
    let n = library_add(s, a, b, y, t);
    let al1 = single_album(a, b, y, t);
    if has_artist(s, a) {
        let i = artist_index(s, a);
        let r = s[i];
        assert(artist_grouped(r));
        if has_album(r.albums, b) {
            let j = album_index(r.albums, b);
            let al = r.albums[j];
            let p = crate::record::track_slot(al.tracks, t.track_num) as int;
            lemma_track_slot_bound(al.tracks, t.track_num);
            let ts = insert_track(al.tracks, t);
            assert forall|k: int| 0 <= k < ts.len() implies group_name(#[trigger] ts[k]) == r.name
                && ts[k].album@ == al.title by {
                if k < p {
                    assert(ts[k] == al.tracks[k]);
                } else if k > p {
                    assert(ts[k] == al.tracks[k - 1]);
                }
            }
            let r2 = n[i];
            assert(artist_grouped(r2));
        } else {
            let kk = key_slot(album_keys(r.albums), lower_of(b)) as int;
            lemma_key_slot_bound(album_keys(r.albums), lower_of(b));
            let r2 = n[i];
            assert forall|j: int| 0 <= j < r2.albums.len() implies (#[trigger] r2.albums[j]).artist
                == r2.name && (forall|k: int|
                0 <= k < r2.albums[j].tracks.len() ==> group_name(#[trigger] r2.albums[j].tracks[k])
                    == r2.name && r2.albums[j].tracks[k].album@ == r2.albums[j].title) by {
                if j < kk {
                    assert(r2.albums[j] == r.albums[j]);
                } else if j > kk {
                    assert(r2.albums[j] == r.albums[j - 1]);
                } else {
                    assert(r2.albums[j] == al1);
                }
            }
        }
        assert forall|x: int| 0 <= x < n.len() implies artist_grouped(#[trigger] n[x]) by {
            if x != i {
                assert(n[x] == s[x]);
            }
        }
    } else {
        let kk = s.len() as int;
        let r2 = ArtistView { name: a, albums: seq![al1] };
        assert(n =~= s.insert(kk, r2));
        assert(artist_grouped(r2)) by {
            assert forall|j: int| 0 <= j < r2.albums.len() implies (#[trigger] r2.albums[j]).artist
                == r2.name && (forall|k: int|
                0 <= k < r2.albums[j].tracks.len() ==> group_name(#[trigger] r2.albums[j].tracks[k])
                    == r2.name && r2.albums[j].tracks[k].album@ == r2.albums[j].title) by {
                assert(r2.albums[j] == al1);
            }
        }
        assert forall|x: int| 0 <= x < n.len() implies artist_grouped(#[trigger] n[x]) by {
            if x < kk {
                assert(n[x] == s[x]);
            } else if x > kk {
                assert(n[x] == s[x - 1]);
            }
        }
    }
}

/// Files `t` under its album artist (or, where that is empty, its artist)
/// and its album.
pub fn add_to_database_helper(t: Track, artists: &mut Vec<Artist>, stats: &mut Stats)
    requires
        library_wf(library_view(old(artists)@)),
        old(stats).tracks < u64::MAX,
        old(stats).artists < u64::MAX,
        old(stats).albums < u64::MAX,
        old(stats).total_time + t.duration <= u64::MAX,
    ensures
        library_view(final(artists)@) == library_add(
            library_view(old(artists)@),
            group_name(t),
            t.album@,
            t.year,
            t,
        ),
        library_wf(library_view(final(artists)@)),
        final(stats).tracks == old(stats).tracks + 1,
        final(stats).total_time == old(stats).total_time + t.duration,
        final(stats).artists == old(stats).artists + if has_artist(
            library_view(old(artists)@),
            group_name(t),
        ) {
            0int
        } else {
            1int
        },
        final(stats).albums == old(stats).albums + if has_artist(
            library_view(old(artists)@),
            group_name(t),
        ) && has_album(
            library_view(old(artists)@)[artist_index(library_view(old(artists)@), group_name(t))].albums,
            t.album@,
        ) {
            0int
        } else {
            1int
        },
{
    let artist_name = if t.album_artist.as_str().is_empty() {
        t.artist.clone()
    } else {
        t.album_artist.clone()
    };
    let album_title = t.album.clone();
    let album_year = t.year;
    add_to_database(&artist_name, &album_title, album_year, t, artists, stats);
}

/// Inserting an artist adds its tracks, its duration and its albums to the
/// library's.
pub proof fn lemma_library_insert_artist(s: Seq<ArtistView>, i: int, r: ArtistView)
    requires
        0 <= i <= s.len(),
    ensures
        library_tracks(s.insert(i, r)).to_multiset() == library_tracks(s).to_multiset().add(
            album_tracks(r.albums).to_multiset(),
        ),
        total_duration(library_tracks(s.insert(i, r))) == total_duration(library_tracks(s))
            + total_duration(album_tracks(r.albums)),
        album_count(s.insert(i, r)) == album_count(s) + r.albums.len(),
{
    broadcast use vstd::multiset::group_multiset_axioms;

    let p = s.subrange(0, i);
    let q = s.subrange(i, s.len() as int);
    assert(s =~= p + q);
    assert(s.insert(i, r) =~= p + seq![r] + q);
    lemma_library_concat(p + seq![r], q);
    lemma_library_concat(p, seq![r]);
    lemma_library_concat(p, q);
    lemma_library_single(r);
    let a = library_tracks(p);
    let x = album_tracks(r.albums);
    let b = library_tracks(q);
    vstd::seq_lib::lemma_multiset_commutative(a + x, b);
    vstd::seq_lib::lemma_multiset_commutative(a, x);
    vstd::seq_lib::lemma_multiset_commutative(a, b);
    lemma_total_concat(a + x, b);
    lemma_total_concat(a, x);
    lemma_total_concat(a, b);
    assert((a + x + b).to_multiset() =~= (a + b).to_multiset().add(x.to_multiset()));
}

/// Extending a prefix of the artists by one adds that artist's tracks,
/// duration and albums.
pub proof fn lemma_library_prefix_step(v: Seq<ArtistView>, k: int)
    requires
        0 <= k < v.len(),
    ensures
        library_tracks(v.subrange(0, k + 1)).to_multiset() == library_tracks(
            v.subrange(0, k),
        ).to_multiset().add(album_tracks(v[k].albums).to_multiset()),
        total_duration(library_tracks(v.subrange(0, k + 1))) == total_duration(
            library_tracks(v.subrange(0, k)),
        ) + total_duration(album_tracks(v[k].albums)),
        album_count(v.subrange(0, k + 1)) == album_count(v.subrange(0, k)) + v[k].albums.len(),
{
    let w = v.subrange(0, k + 1);
    assert(w.drop_last() =~= v.subrange(0, k));
    assert(w.last() == v[k]);
    vstd::seq_lib::lemma_multiset_commutative(
        library_tracks(v.subrange(0, k)),
        album_tracks(v[k].albums),
    );
    lemma_total_concat(library_tracks(v.subrange(0, k)), album_tracks(v[k].albums));
}

/// The artists ordered by case-folded name; artists with the same folded
/// name keep their order.
pub fn sort_artists(artists: &Vec<Artist>) -> (r: Vec<Artist>)
    ensures
        keys_sorted(artist_keys(library_view(r@))),
        library_view(r@).to_multiset() == library_view(artists@).to_multiset(),
        r@.len() == artists@.len(),
        forall|i: int|
            0 <= i < r@.len() ==> exists|j: int|
                0 <= j < artists@.len() && #[trigger] library_view(r@)[i] == library_view(
                    artists@,
                )[j],
        library_tracks(library_view(r@)).to_multiset() == library_tracks(
            library_view(artists@),
        ).to_multiset(),
        total_duration(library_tracks(library_view(r@))) == total_duration(
            library_tracks(library_view(artists@)),
        ),
        album_count(library_view(r@)) == album_count(library_view(artists@)),
{
    let ghost v = library_view(artists@);
    let mut out: Vec<Artist> = Vec::new();
    let mut k: usize = 0;
    proof {
        assert(v.subrange(0, 0) =~= Seq::<ArtistView>::empty());
        assert(library_view(out@) =~= Seq::<ArtistView>::empty());
    }
    while k < artists.len()
        invariant
            k <= artists@.len(),
            v == library_view(artists@),
            out@.len() == k,
            keys_sorted(artist_keys(library_view(out@))),
            library_view(out@).to_multiset() == v.subrange(0, k as int).to_multiset(),
            library_tracks(library_view(out@)).to_multiset() == library_tracks(
                v.subrange(0, k as int),
            ).to_multiset(),
            total_duration(library_tracks(library_view(out@))) == total_duration(
                library_tracks(v.subrange(0, k as int)),
            ),
            album_count(library_view(out@)) == album_count(v.subrange(0, k as int)),
            forall|i: int|
                0 <= i < out@.len() ==> exists|j: int|
                    0 <= j < k && #[trigger] library_view(out@)[i] == v[j],
        decreases artists@.len() - k,
    {
        let a = artists[k].clone();
        let ghost before = library_view(out@);
        let ghost x = v[k as int];
        assert(a@ == x);
        insert_artist_sorted(&mut out, a);
        proof {
            let p = key_slot(artist_keys(before), lower_of(x.name)) as int;
            lemma_key_slot_bound(artist_keys(before), lower_of(x.name));
            let now = library_view(out@);
            assert(now == before.insert(p, x));
            lemma_library_insert_artist(before, p, x);
            lemma_library_prefix_step(v, k as int);
            vstd::seq_lib::to_multiset_insert(before, p, x);
            vstd::seq_lib::to_multiset_build(v.subrange(0, k as int), x);
            assert(v.subrange(0, k + 1) =~= v.subrange(0, k as int).push(x));
            assert forall|i: int| 0 <= i < out@.len() implies exists|j: int|
                0 <= j < k + 1 && #[trigger] library_view(out@)[i] == v[j] by {
                if i < p {
                    assert(now[i] == before[i]);
                } else if i > p {
                    assert(now[i] == before[i - 1]);
                } else {
                    assert(now[i] == v[k as int]);
                }
            }
        }
        k = k + 1;
    }
    proof {
        assert(v.subrange(0, v.len() as int) =~= v);
    }
    out
}

/// Builds the library from the tracks read from a music folder, in the
/// order given: each track filed as `add_to_database_helper` files it, into
/// a library that starts empty, with the statistics counted along; then the
/// artists are ordered by case-folded name.
pub fn build_library(tracks: Vec<Track>) -> (r: (Vec<Artist>, Stats))
    requires
        total_duration(tracks@) <= u64::MAX,
    ensures
        library_view(r.0@).to_multiset() == library_of(tracks@).to_multiset(),
        keys_sorted(artist_keys(library_view(r.0@))),
        forall|i: int|
            0 <= i < r.0@.len() ==> artist_wf(#[trigger] library_view(r.0@)[i]) && titles_unique(
                library_view(r.0@)[i].albums,
            ),
        library_grouped(library_view(r.0@)),
        library_tracks(library_view(r.0@)).to_multiset() == tracks@.to_multiset(),
        r.1.artists == r.0@.len(),
        r.1.albums == album_count(library_view(r.0@)),
        r.1.tracks == track_count(library_view(r.0@)),
        r.1.total_time == total_duration(library_tracks(library_view(r.0@))),
{
    let mut artists: Vec<Artist> = Vec::new();
    let mut stats = Stats::new();
    let mut i: usize = 0;
    proof {
        assert(library_view(artists@) =~= Seq::<ArtistView>::empty());
        assert(tracks@.subrange(0, 0) =~= Seq::<Track>::empty());
        lemma_total_prefix(tracks@, 0);
    }
    while i < tracks.len()
        invariant
            i <= tracks.len(),
            total_duration(tracks@) <= u64::MAX,
            library_view(artists@) == library_of(tracks@.subrange(0, i as int)),
            library_wf(library_view(artists@)),
            library_grouped(library_view(artists@)),
            library_tracks(library_view(artists@)).to_multiset() == tracks@.subrange(
                0,
                i as int,
            ).to_multiset(),
            stats.artists == artists@.len(),
            artists@.len() <= usize::MAX,
            stats.albums == album_count(library_view(artists@)),
            stats.tracks == i,
            stats.tracks == library_tracks(library_view(artists@)).len(),
            stats.total_time == total_duration(library_tracks(library_view(artists@))),
            stats.total_time == total_duration(tracks@.subrange(0, i as int)),
            stats.artists <= stats.tracks,
            stats.albums <= stats.tracks,
        decreases tracks.len() - i,
    {
        let t = tracks[i].clone();
        let ghost s = library_view(artists@);
        proof {
            lemma_total_prefix(tracks@, i as int + 1);
            assert(tracks@.subrange(0, i as int + 1).drop_last() =~= tracks@.subrange(0, i as int));
            lemma_library_add_counts(s, group_name(t), t.album@, t.year, t);
            lemma_library_add_grouped(s, t.year, t);
        }
        add_to_database_helper(t, &mut artists, &mut stats);
        proof {
            vstd::seq_lib::to_multiset_build(tracks@.subrange(0, i as int), t);
            assert(tracks@.subrange(0, i as int + 1) =~= tracks@.subrange(0, i as int).push(t));
        }
        i = i + 1;
    }
    proof {
        assert(tracks@.subrange(0, tracks@.len() as int) =~= tracks@);
    }
    let sorted = sort_artists(&artists);
    proof {
        let v = library_view(artists@);
        let w = library_view(sorted@);
        vstd::seq_lib::to_multiset_len(library_tracks(v));
        vstd::seq_lib::to_multiset_len(library_tracks(w));
        lemma_track_count(w);
        assert forall|i: int| 0 <= i < sorted@.len() implies artist_wf(#[trigger] w[i])
            && titles_unique(w[i].albums) && artist_grouped(w[i]) by {
            let j = choose|j: int| 0 <= j < artists@.len() && #[trigger] w[i] == v[j];
            assert(artist_wf(v[j]) && titles_unique(v[j].albums));
            assert(artist_grouped(v[j]));
        }
    }
    (sorted, stats)
}

/// A prefix lasts no longer than the whole sequence.
pub proof fn lemma_total_prefix(s: Seq<Track>, i: int)
    requires
        0 <= i <= s.len(),
    ensures
        total_duration(s.subrange(0, i)) <= total_duration(s),
    decreases s.len() - i,
{
    if i < s.len() {
        lemma_total_prefix(s, i + 1);
        assert(s.subrange(0, i + 1).drop_last() =~= s.subrange(0, i));
    } else {
        assert(s.subrange(0, i) =~= s);
    }
}

} // verus!
