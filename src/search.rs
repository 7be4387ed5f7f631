//! The search engine group: three fuzzy indexes over the library, keyed by
//! the coordinates of artists, albums and tracks.
use simsearch::SimSearch;
use vstd::prelude::*;

use crate::library::library_view;
use crate::record::{AlbumView, Artist, ArtistView};
use crate::terms::{Scope, SearchQuery, Term};

verus! {

#[verifier::external_type_specification]
#[verifier::external_body]
#[verifier::reject_recursive_types(Id)]
pub struct ExSimSearch<Id: Eq + PartialEq + Clone + std::hash::Hash + Ord>(SimSearch<Id>);

/// The entries of a fuzzy index: each id with the text filed under it.
pub uninterp spec fn engine_entries(e: SimSearch<usize>) -> Map<usize, Seq<char>>;

/// Relies on `SimSearch::new`: an index without entries.
#[verifier::external_body]
fn new_engine() -> (r: SimSearch<usize>)
    ensures
        engine_entries(r).dom().is_empty(),
{
    SimSearch::new()
}

/// Relies on `SimSearch::insert`: files `content` under `id`, replacing what
/// was filed under `id` before.
#[verifier::external_body]
fn engine_insert(e: &mut SimSearch<usize>, id: usize, content: &str)
    ensures
        engine_entries(*final(e)) == engine_entries(*old(e)).insert(id, content@),
{
    e.insert(id, content)
}

/// The ids that `SimSearch::search` finds for `pattern` among `entries`:
/// those with a token that scores above the threshold against one of the
/// pattern's tokens. The set depends on the entries and the pattern alone;
/// only the order of equal scores may vary.
pub uninterp spec fn sim_hits(entries: Map<usize, Seq<char>>, pattern: Seq<char>) -> Set<usize>;

/// Relies on `SimSearch::search`: the ids of the entries that match
/// `pattern`, each once, most relevant first.
#[verifier::external_body]
fn engine_search(e: &SimSearch<usize>, pattern: &str) -> (r: Vec<usize>)
    ensures
        forall|k: int| 0 <= k < r@.len() ==> engine_entries(*e).contains_key(#[trigger] r@[k]),
        r@.no_duplicates(),
        r@.to_set() == sim_hits(engine_entries(*e), pattern@),
{
    e.search(pattern)
}

/// What a search found, as coordinates into the library: artist `i`, album
/// `(i, j)`, track `(i, j, k)`.
pub enum SearchResult {
    Artists(Vec<usize>),
    Albums(Vec<(usize, usize)>),
    Tracks(Vec<(usize, usize, usize)>),
}

/// The three indexes, with the coordinates that the album and track
/// indexes' ids stand for.
pub struct EngineGroup {
    pub artists: SimSearch<usize>,
    pub albums: SimSearch<usize>,
    pub tracks: SimSearch<usize>,
    pub album_coords: Vec<(usize, usize)>,
    pub track_coords: Vec<(usize, usize, usize)>,
}

/// The album coordinates of artist `i`'s albums.
pub open spec fn artist_album_coords(i: int, albums: Seq<AlbumView>) -> Seq<(usize, usize)> {
    Seq::new(albums.len(), |j: int| (i as usize, j as usize))
}

/// The coordinates of every album of the library, in library order.
pub open spec fn album_coords_of(lib: Seq<ArtistView>) -> Seq<(usize, usize)>
    decreases lib.len(),
{
    if lib.len() == 0 {
        Seq::empty()
    } else {
        album_coords_of(lib.drop_last()) + artist_album_coords(lib.len() - 1, lib.last().albums)
    }
}

/// The track coordinates of artist `i`'s albums.
pub open spec fn artist_track_coords(i: int, albums: Seq<AlbumView>) -> Seq<(usize, usize, usize)>
    decreases albums.len(),
{
    if albums.len() == 0 {
        Seq::empty()
    } else {
        artist_track_coords(i, albums.drop_last()) + Seq::new(
            albums.last().tracks.len(),
            |k: int| (i as usize, (albums.len() - 1) as usize, k as usize),
        )
    }
}

/// The coordinates of every track of the library, in library order.
pub open spec fn track_coords_of(lib: Seq<ArtistView>) -> Seq<(usize, usize, usize)>
    decreases lib.len(),
{
    if lib.len() == 0 {
        Seq::empty()
    } else {
        track_coords_of(lib.drop_last()) + artist_track_coords(lib.len() - 1, lib.last().albums)
    }
}

impl EngineGroup {
    /// The indexes hold, for `lib`: each artist's name under its position;
    /// each album's title and each track's title under the position of its
    /// coordinates in library order.
    pub open spec fn indexes(&self, lib: Seq<ArtistView>) -> bool {
        &&& engine_entries(self.artists) == Map::new(
            |i: usize| i < lib.len(),
            |i: usize| lib[i as int].name,
        )
        &&& self.album_coords@ == album_coords_of(lib)
        &&& engine_entries(self.albums) == Map::new(
            |k: usize| k < self.album_coords@.len(),
            |k: usize| lib[self.album_coords@[k as int].0 as int].albums[self.album_coords@[k as int].1 as int].title,
        )
        &&& self.track_coords@ == track_coords_of(lib)
        &&& engine_entries(self.tracks) == Map::new(
            |k: usize| k < self.track_coords@.len(),
            |k: usize|
                {
                    let c = self.track_coords@[k as int];
                    lib[c.0 as int].albums[c.1 as int].tracks[c.2 as int].title@
                },
        )
    }
}


impl EngineGroup {
    /// Every id of the album and track indexes stands for a coordinate.
    pub open spec fn consistent(&self) -> bool {
        &&& forall|k: usize| #[trigger]
            engine_entries(self.albums).contains_key(k) ==> k < self.album_coords@.len()
        &&& forall|k: usize| #[trigger]
            engine_entries(self.tracks).contains_key(k) ==> k < self.track_coords@.len()
    }
}

/// Builds the three indexes over `records`: artist names under their
/// position, album and track titles under their coordinates.
pub fn create_fuzzy_searcher(records: &[Artist]) -> (r: Result<EngineGroup, ()>)
    ensures
        r matches Ok(g) && g.indexes(library_view(records@)) && g.consistent(),
{
    let ghost lib = library_view(records@);
    let mut artists = new_engine();
    let mut albums = new_engine();
    let mut tracks = new_engine();
    let mut album_coords: Vec<(usize, usize)> = Vec::new();
    let mut track_coords: Vec<(usize, usize, usize)> = Vec::new();
    let n = records.len();
    let mut i: usize = 0;
    proof {
        assert(lib.subrange(0, 0) =~= Seq::<ArtistView>::empty());
        assert(engine_entries(artists) =~= Map::new(|x: usize| x < 0, |x: usize| lib[x as int].name));
    }
    while i < n
        invariant
            i <= n,
            n == records@.len(),
            lib == library_view(records@),
            engine_entries(artists) == Map::new(|x: usize| x < i, |x: usize| lib[x as int].name),
            album_coords@ == album_coords_of(lib.subrange(0, i as int)),
            engine_entries(albums) == Map::new(
                |k: usize| k < album_coords@.len(),
                |k: usize| lib[album_coords@[k as int].0 as int].albums[album_coords@[k as int].1 as int].title,
            ),
            track_coords@ == track_coords_of(lib.subrange(0, i as int)),
            engine_entries(tracks) == Map::new(
                |k: usize| k < track_coords@.len(),
                |k: usize|
                    {
                        let c = track_coords@[k as int];
                        lib[c.0 as int].albums[c.1 as int].tracks[c.2 as int].title@
                    },
            ),
        decreases n - i,
    {
        let ghost ea = engine_entries(artists);
        engine_insert(&mut artists, i, records[i].name.as_str());
        proof {
            assert(engine_entries(artists) =~= Map::new(
                |x: usize| x < i + 1,
                |x: usize| lib[x as int].name,
            ));
        }
        let ghost r = lib[i as int];
        let ghost ac0 = album_coords@;
        let ghost tc0 = track_coords@;
        let m = records[i].albums.len();
        assert(r.albums.len() == m);
        let mut j: usize = 0;
        while j < m
            invariant
                i < n,
                j <= m,
                n == records@.len(),
                lib == library_view(records@),
                r == lib[i as int],
                m == r.albums.len(),
                engine_entries(artists) == Map::new(|x: usize| x < i + 1, |x: usize| lib[x as int].name),
                album_coords@ == ac0 + artist_album_coords(i as int, r.albums.subrange(0, j as int)),
                engine_entries(albums) == Map::new(
                    |k: usize| k < album_coords@.len(),
                    |k: usize| lib[album_coords@[k as int].0 as int].albums[album_coords@[k as int].1 as int].title,
                ),
                track_coords@ == tc0 + artist_track_coords(i as int, r.albums.subrange(0, j as int)),
                engine_entries(tracks) == Map::new(
                    |k: usize| k < track_coords@.len(),
                    |k: usize|
                        {
                            let c = track_coords@[k as int];
                            lib[c.0 as int].albums[c.1 as int].tracks[c.2 as int].title@
                        },
                ),
            decreases m - j,
        {
            let ghost al = r.albums[j as int];
            assert(al.title == records@[i as int].albums@[j as int].title@);
            let ghost pa = album_coords@;
            engine_insert(&mut albums, album_coords.len(), records[i].albums[j].title.as_str());
            album_coords.push((i, j));
            proof {
                assert(artist_album_coords(i as int, r.albums.subrange(0, j + 1)) =~= artist_album_coords(
                    i as int,
                    r.albums.subrange(0, j as int),
                ).push((i, j)));
                assert(engine_entries(albums) =~= Map::new(
                    |k: usize| k < album_coords@.len(),
                    |k: usize| lib[album_coords@[k as int].0 as int].albums[album_coords@[k as int].1 as int].title,
                ));
            }
            let ghost tc1 = track_coords@;
            let nt = records[i].albums[j].tracks.len();
            assert(al.tracks.len() == nt);
            let mut k: usize = 0;
            while k < nt
                invariant
                    i < n,
                    j < m,
                    k <= nt,
                    n == records@.len(),
                    lib == library_view(records@),
                    r == lib[i as int],
                    m == r.albums.len(),
                    al == r.albums[j as int],
                    nt == al.tracks.len(),
                    track_coords@ == tc1 + Seq::new(k as nat, |x: int| (i, j, x as usize)),
                    engine_entries(tracks) == Map::new(
                        |x: usize| x < track_coords@.len(),
                        |x: usize|
                            {
                                let c = track_coords@[x as int];
                                lib[c.0 as int].albums[c.1 as int].tracks[c.2 as int].title@
                            },
                    ),
                decreases nt - k,
            {
                assert(al.tracks[k as int] == records@[i as int].albums@[j as int].tracks@[k as int]);
                engine_insert(
                    &mut tracks,
                    track_coords.len(),
                    records[i].albums[j].tracks[k].title.as_str(),
                );
                let ghost pt = track_coords@;
                track_coords.push((i, j, k));
                proof {
                    assert(Seq::new((k + 1) as nat, |x: int| (i, j, x as usize)) =~= Seq::new(
                        k as nat,
                        |x: int| (i, j, x as usize),
                    ).push((i, j, k)));
                    assert(engine_entries(tracks) =~= Map::new(
                        |x: usize| x < track_coords@.len(),
                        |x: usize|
                            {
                                let c = track_coords@[x as int];
                                lib[c.0 as int].albums[c.1 as int].tracks[c.2 as int].title@
                            },
                    ));
                }
                k = k + 1;
            }
            proof {
                let s1 = r.albums.subrange(0, j + 1);
                assert(s1.drop_last() =~= r.albums.subrange(0, j as int));
                assert(Seq::new(nt as nat, |x: int| (i, j, x as usize)) =~= Seq::new(
                    s1.last().tracks.len(),
                    |x: int| (i as usize, (s1.len() - 1) as usize, x as usize),
                ));
            }
            j = j + 1;
        }
        proof {
            let s1 = lib.subrange(0, i + 1);
            assert(s1.drop_last() =~= lib.subrange(0, i as int));
            assert(r.albums.subrange(0, m as int) =~= r.albums);
            assert(s1.last() == r);
        }
        i = i + 1;
    }
    proof {
        assert(lib.subrange(0, n as int) =~= lib);
    }
    Ok(EngineGroup { artists, albums, tracks, album_coords, track_coords })
}

/// The coordinates that `ids` stand for, in the same order.
pub fn resolve_albums(ids: &Vec<usize>, coords: &Vec<(usize, usize)>) -> (r: Vec<(usize, usize)>)
    requires
        forall|k: int| 0 <= k < ids@.len() ==> ids@[k] < coords@.len(),
    ensures
        r@ == ids@.map_values(|x: usize| coords@[x as int]),
{
    let mut r: Vec<(usize, usize)> = Vec::new();
    let mut k: usize = 0;
    while k < ids.len()
        invariant
            k <= ids@.len(),
            forall|x: int| 0 <= x < ids@.len() ==> ids@[x] < coords@.len(),
            r@ == ids@.subrange(0, k as int).map_values(|x: usize| coords@[x as int]),
        decreases ids@.len() - k,
    {
        r.push(coords[ids[k]]);
        proof {
            assert(ids@.subrange(0, k + 1).map_values(|x: usize| coords@[x as int]) =~= ids@.subrange(
                0,
                k as int,
            ).map_values(|x: usize| coords@[x as int]).push(coords@[ids@[k as int] as int]));
        }
        k = k + 1;
    }
    proof {
        assert(ids@.subrange(0, ids@.len() as int) =~= ids@);
    }
    r
}

/// The coordinates that `ids` stand for, in the same order.
pub fn resolve_tracks(ids: &Vec<usize>, coords: &Vec<(usize, usize, usize)>) -> (r: Vec<
    (usize, usize, usize),
>)
    requires
        forall|k: int| 0 <= k < ids@.len() ==> ids@[k] < coords@.len(),
    ensures
        r@ == ids@.map_values(|x: usize| coords@[x as int]),
{
    let mut r: Vec<(usize, usize, usize)> = Vec::new();
    let mut k: usize = 0;
    while k < ids.len()
        invariant
            k <= ids@.len(),
            forall|x: int| 0 <= x < ids@.len() ==> ids@[x] < coords@.len(),
            r@ == ids@.subrange(0, k as int).map_values(|x: usize| coords@[x as int]),
        decreases ids@.len() - k,
    {
        r.push(coords[ids[k]]);
        proof {
            assert(ids@.subrange(0, k + 1).map_values(|x: usize| coords@[x as int]) =~= ids@.subrange(
                0,
                k as int,
            ).map_values(|x: usize| coords@[x as int]).push(coords@[ids@[k as int] as int]));
        }
        k = k + 1;
    }
    proof {
        assert(ids@.subrange(0, ids@.len() as int) =~= ids@);
    }
    r
}

/// `f` is what searching `e` for the scoped text `q` finds: hits of the
/// index that the scope selects, given as the coordinates their ids stand
/// for, and exactly the index's hits for the text.
pub open spec fn search_found(e: EngineGroup, q: (Scope, Seq<char>), f: SearchResult) -> bool {
    match f {
        SearchResult::Tracks(v) => q.0 == Scope::Title && v@.to_set() == sim_hits(
            engine_entries(e.tracks),
            q.1,
        ).map(|k: usize| e.track_coords@[k as int]),
        SearchResult::Albums(v) => q.0 == Scope::Album && v@.to_set() == sim_hits(
            engine_entries(e.albums),
            q.1,
        ).map(|k: usize| e.album_coords@[k as int]),
        SearchResult::Artists(v) => q.0 == Scope::Artist && v@.to_set() == sim_hits(
            engine_entries(e.artists),
            q.1,
        ),
    }
}

/// Mapping each item of a sequence maps the set of its items.
pub proof fn lemma_map_to_set<T>(ids: Seq<usize>, v: Seq<T>, f: spec_fn(usize) -> T)
    requires
        v == ids.map_values(f),
    ensures
        v.to_set() == ids.to_set().map(f),
{
    assert forall|x: T| v.to_set().contains(x) <==> ids.to_set().map(f).contains(x) by {
        if v.to_set().contains(x) {
            let i = choose|i: int| 0 <= i < v.len() && v[i] == x;
            assert(ids.to_set().contains(ids[i]));
            assert(f(ids[i]) == x);
        }
        if ids.to_set().map(f).contains(x) {
            let k = choose|k: usize| ids.to_set().contains(k) && f(k) == x;
            let i = choose|i: int| 0 <= i < ids.len() && ids[i] == k;
            assert(v[i] == x);
        }
    }
    assert(v.to_set() =~= ids.to_set().map(f));
}

/// Searches the index that the query's scope selects: track titles for
/// `title`, album titles for `album`, artist names for `artist`, and gives
/// the hits as the coordinates their ids stand for.
pub fn search(engine: &EngineGroup, query: SearchQuery) -> (r: SearchResult)
    requires
        engine.consistent(),
    ensures
        search_found(*engine, query.terms@, r),
        match r {
            SearchResult::Tracks(v) => forall|k: int|
                0 <= k < v@.len() ==> engine.track_coords@.contains(#[trigger] v@[k]),
            SearchResult::Albums(v) => forall|k: int|
                0 <= k < v@.len() ==> engine.album_coords@.contains(#[trigger] v@[k]),
            SearchResult::Artists(v) => forall|k: int|
                0 <= k < v@.len() ==> engine_entries(engine.artists).contains_key(#[trigger] v@[k]),
        },
{
    match query.terms {
        Term::Title(s) => {
            let ids = engine_search(&engine.tracks, s.as_str());
            let v = resolve_tracks(&ids, &engine.track_coords);
            proof {
                lemma_map_to_set(ids@, v@, |x: usize| engine.track_coords@[x as int]);
            }
            assert forall|k: int| 0 <= k < v@.len() implies engine.track_coords@.contains(
                #[trigger] v@[k],
            ) by {
                assert(engine_entries(engine.tracks).contains_key(ids@[k]));
                assert(engine.track_coords@[ids@[k] as int] == v@[k]);
            }
            SearchResult::Tracks(v)
        },
        Term::Album(s) => {
            let ids = engine_search(&engine.albums, s.as_str());
            let v = resolve_albums(&ids, &engine.album_coords);
            proof {
                lemma_map_to_set(ids@, v@, |x: usize| engine.album_coords@[x as int]);
            }
            assert forall|k: int| 0 <= k < v@.len() implies engine.album_coords@.contains(
                #[trigger] v@[k],
            ) by {
                assert(engine_entries(engine.albums).contains_key(ids@[k]));
                assert(engine.album_coords@[ids@[k] as int] == v@[k]);
            }
            SearchResult::Albums(v)
        },
        Term::Artist(s) => SearchResult::Artists(engine_search(&engine.artists, s.as_str())),
    }
}

} // verus!
