//! The UI task's state and decisions: what to enqueue, what to play, what a
//! search finds. The caller performs the sends that a decision returns.
use vstd::prelude::*;

use crate::library::{album_tracks, lemma_album_tracks_concat, lemma_total_concat, Stats, total_duration};
use crate::queue::SonikQueue;
use crate::record::{albums_view, Album, AlbumView, Artist, ArtistView, Track};
use crate::search::{search as engine_group_search, search_found, EngineGroup, SearchResult};
use crate::state::{next_index, prev_index, LibraryCols, TabsState};
use crate::terms::{parse_spec, SearchQuery};

verus! {

/// The tracks that the active column selects: the selected track; the
/// tracks of the selected album; or every track of the selected artist,
/// album after album.
pub open spec fn selection(c: LibraryCols) -> Seq<Track> {
    if c.current_active == 2 {
        if c.tracks.items@.len() == 0 {
            Seq::empty()
        } else {
            seq![c.tracks.items@[c.tracks.selected as int]]
        }
    } else if c.current_active == 1 {
        if c.albums.items@.len() == 0 {
            Seq::empty()
        } else {
            c.albums.items@[c.albums.selected as int].tracks@
        }
    } else {
        if c.artists.items@.len() == 0 {
            Seq::empty()
        } else {
            album_tracks(c.artists.items@[c.artists.selected as int]@.albums)
        }
    }
}

/// One search result, resolved to its record.
pub enum SearchHit {
    Artist(Artist),
    Album(Album),
    Track(Track),
}

/// The mathematical value of a search result.
pub enum HitView {
    Artist(ArtistView),
    Album(AlbumView),
    Track(Track),
}

impl View for SearchHit {
    type V = HitView;

    open spec fn view(&self) -> HitView {
        match self {
            SearchHit::Artist(a) => HitView::Artist(a@),
            SearchHit::Album(a) => HitView::Album(a@),
            SearchHit::Track(t) => HitView::Track(*t),
        }
    }
}

impl SearchHit {
    /// The name the result is listed under.
    pub fn name(&self) -> (r: &str)
        ensures
            r@ == match self {
                SearchHit::Artist(a) => a.name@,
                SearchHit::Album(a) => a.title@,
                SearchHit::Track(t) => t.title@,
            },
    {
        match self {
            SearchHit::Artist(a) => a.name.as_str(),
            SearchHit::Album(a) => a.title.as_str(),
            SearchHit::Track(t) => t.title.as_str(),
        }
    }
}

pub open spec fn hits_view(s: Seq<SearchHit>) -> Seq<HitView> {
    s.map_values(|h: SearchHit| h@)
}

/// The records that found coordinates name in `lib`, in order; a coordinate
/// that names nothing is passed over.
pub open spec fn hits_of(lib: Seq<Artist>, found: SearchResult) -> Seq<HitView> {
    match found {
        SearchResult::Artists(v) => artist_hits(lib, v@),
        SearchResult::Albums(v) => album_hits(lib, v@),
        SearchResult::Tracks(v) => track_hits(lib, v@),
    }
}

pub open spec fn artist_hits(lib: Seq<Artist>, ids: Seq<usize>) -> Seq<HitView>
    decreases ids.len(),
{
    if ids.len() == 0 {
        Seq::empty()
    } else {
        let i = ids.last() as int;
        artist_hits(lib, ids.drop_last()) + if i < lib.len() {
            seq![HitView::Artist(lib[i]@)]
        } else {
            Seq::empty()
        }
    }
}

pub open spec fn album_hits(lib: Seq<Artist>, cs: Seq<(usize, usize)>) -> Seq<HitView>
    decreases cs.len(),
{
    if cs.len() == 0 {
        Seq::empty()
    } else {
        let (i, j) = cs.last();
        album_hits(lib, cs.drop_last()) + if i < lib.len() && j < lib[i as int].albums@.len() {
            seq![HitView::Album(lib[i as int].albums@[j as int]@)]
        } else {
            Seq::empty()
        }
    }
}

pub open spec fn track_hits(lib: Seq<Artist>, cs: Seq<(usize, usize, usize)>) -> Seq<HitView>
    decreases cs.len(),
{
    if cs.len() == 0 {
        Seq::empty()
    } else {
        let (i, j, k) = cs.last();
        track_hits(lib, cs.drop_last()) + if i < lib.len() && j < lib[i as int].albums@.len() && k
            < lib[i as int].albums@[j as int].tracks@.len() {
            seq![HitView::Track(lib[i as int].albums@[j as int].tracks@[k as int])]
        } else {
            Seq::empty()
        }
    }
}

/// The tracks of `albums`, album after album.
fn album_list_tracks(albums: &Vec<Album>) -> (r: Vec<Track>)
    ensures
        r@ == album_tracks(albums_view(albums@)),
{
    let mut r: Vec<Track> = Vec::new();
    let mut j: usize = 0;
    while j < albums.len()
        invariant
            j <= albums@.len(),
            r@ == album_tracks(albums_view(albums@.subrange(0, j as int))),
        decreases albums@.len() - j,
    {
        let ghost before = r@;
        let n = albums[j].tracks.len();
        let mut k: usize = 0;
        while k < n
            invariant
                j < albums@.len(),
                k <= n,
                n == albums@[j as int].tracks@.len(),
                r@ == before + albums@[j as int].tracks@.subrange(0, k as int),
            decreases n - k,
        {
            r.push(albums[j].tracks[k].clone());
            proof {
                assert(albums@[j as int].tracks@.subrange(0, k + 1) =~= albums@[j as int].tracks@.subrange(
                    0,
                    k as int,
                ).push(albums@[j as int].tracks@[k as int]));
            }
            k = k + 1;
        }
        proof {
            let s1 = albums_view(albums@.subrange(0, j + 1));
            assert(s1.drop_last() =~= albums_view(albums@.subrange(0, j as int)));
            assert(albums@[j as int].tracks@.subrange(0, n as int) =~= albums@[j as int].tracks@);
        }
        j = j + 1;
    }
    proof {
        assert(albums@.subrange(0, albums@.len() as int) =~= albums@);
    }
    r
}

/// The UI task's state: tabs, library columns, queue, what is playing, the
/// search box and its results, and the library's statistics.
pub struct UI<'a> {
    pub queue: SonikQueue,
    pub should_quit: bool,
    pub tabs: TabsState<'a>,
    pub lib_cols: LibraryCols,
    pub now_playing: Track,
    pub search_input: String,
    pub engines: EngineGroup,
    pub search_results: Vec<SearchHit>,
    pub search_select: usize,
    pub stats: Stats,
}

impl<'a> UI<'a> {
    /// The queue's total is its tracks' and the columns are consistent.
    pub open spec fn wf(&self) -> bool {
        &&& self.queue.wf()
        &&& self.lib_cols.wf()
    }

    /// The search box, its results and cursor, the indexes and the tabs are
    /// those of `o`.
    pub open spec fn search_kept(&self, o: UI<'a>) -> bool {
        &&& self.search_input == o.search_input
        &&& self.search_results == o.search_results
        &&& self.search_select == o.search_select
        &&& self.engines == o.engines
        &&& self.tabs == o.tabs
    }

    /// The state at startup over `database`: tabs queue, library and search
    /// with the first current; an empty queue; nothing playing.
    pub fn new(database: &[Artist], engines: EngineGroup, stats: Stats) -> (r: UI<'a>)
        ensures
            r.wf(),
            r.tabs.index == 0,
            r.tabs.titles@.len() == 3,
            r.queue.tracks@.len() == 0,
            r.now_playing.is_dummy(),
            r.search_input@.len() == 0,
            r.search_results@.len() == 0,
            r.search_select == 0,
            r.lib_cols.current_active == 0,
            r.lib_cols.artists.items@.len() == database@.len(),
            forall|i: int|
                0 <= i < database@.len() ==> (#[trigger] r.lib_cols.artists.items@[i])@
                    == database@[i]@,
            r.engines == engines,
            r.stats == stats,
    {
        let mut titles: Vec<&'a str> = Vec::new();
        titles.push("queue");
        titles.push("library");
        titles.push("search");
        UI {
            queue: SonikQueue::new(),
            should_quit: false,
            tabs: TabsState::new(titles),
            lib_cols: LibraryCols::new(database),
            now_playing: Track::dummy(),
            search_input: String::new(),
            engines,
            search_results: Vec::new(),
            search_select: 0,
            stats,
        }
    }

    /// In the track column, the selected track becomes what is playing and
    /// is returned to be sent to the audio task; elsewhere nothing happens.
    pub fn play_now(&mut self) -> (r: Option<Track>)
        requires
            old(self).wf(),
        ensures
            final(self).search_kept(*old(self)),
            final(self).queue == old(self).queue,
            final(self).lib_cols == old(self).lib_cols,
            if old(self).lib_cols.current_active == 2 && old(self).lib_cols.tracks.items@.len() > 0 {
                let t = old(self).lib_cols.tracks.items@[old(self).lib_cols.tracks.selected as int];
                r == Some(t) && final(self).now_playing == t
            } else {
                r is None && final(self).now_playing == old(self).now_playing
            },
    {
        if self.lib_cols.current_active == 2 && self.lib_cols.tracks.items.len() > 0 {
            let track = self.lib_cols.tracks.items[self.lib_cols.tracks.selected].clone();
            let audio_copy = track.clone();
            self.now_playing = track;
            Some(audio_copy)
        } else {
            None
        }
    }

    /// Takes the front track of the queue; it becomes what is playing and is
    /// returned to be sent to the audio task.
    pub fn play_from_queue(&mut self) -> (r: Track)
        requires
            old(self).wf(),
            old(self).queue.tracks@.len() > 0,
        ensures
            final(self).search_kept(*old(self)),
            final(self).wf(),
            r == old(self).queue.tracks@[0],
            final(self).now_playing == r,
            final(self).queue.tracks@ == old(self).queue.tracks@.drop_first(),
            final(self).lib_cols == old(self).lib_cols,
    {
        let track = self.queue.take();
        let audio_copy = track.clone();
        self.now_playing = track;
        audio_copy
    }

    /// Pushes the tracks that the active column selects onto the back of
    /// the queue, in order.
    pub fn add_to_queue(&mut self)
        requires
            old(self).wf(),
            total_duration(old(self).queue.tracks@ + selection(old(self).lib_cols)) <= u64::MAX,
        ensures
            final(self).search_kept(*old(self)),
            final(self).wf(),
            final(self).queue.tracks@ == old(self).queue.tracks@ + selection(old(self).lib_cols),
            final(self).lib_cols == old(self).lib_cols,
            final(self).now_playing == old(self).now_playing,
    {
        let block = self.selected_tracks();
        self.enqueue_block(&block);
    }

    /// Pushes `block` onto the back of the queue, in order.
    fn enqueue_block(&mut self, block: &Vec<Track>)
        requires
            old(self).wf(),
            total_duration(old(self).queue.tracks@ + block@) <= u64::MAX,
        ensures
            final(self).search_kept(*old(self)),
            final(self).wf(),
            final(self).queue.tracks@ == old(self).queue.tracks@ + block@,
            final(self).lib_cols == old(self).lib_cols,
            final(self).now_playing == old(self).now_playing,
    {
        let ghost q0 = self.queue.tracks@;
        let mut k: usize = 0;
        while k < block.len()
            invariant
                k <= block@.len(),
                self.wf(),
                self.lib_cols == old(self).lib_cols,
                self.now_playing == old(self).now_playing,
                self.search_kept(*old(self)),
                total_duration(q0 + block@) <= u64::MAX,
                self.queue.tracks@ == q0 + block@.subrange(0, k as int),
            decreases block@.len() - k,
        {
            proof {
                let all = q0 + block@;
                assert((q0 + block@.subrange(0, k as int)).push(block@[k as int]) =~= all.subrange(0, q0.len() + k + 1));
                crate::library::lemma_total_prefix(all, q0.len() + k + 1);
                let p = all.subrange(0, q0.len() + k + 1);
                assert(p.drop_last() =~= q0 + block@.subrange(0, k as int));
            }
            self.queue.add(block[k].clone());
            proof {
                assert(block@.subrange(0, k + 1) =~= block@.subrange(0, k as int).push(block@[k as int]));
            }
            k = k + 1;
        }
        proof {
            assert(block@.subrange(0, block@.len() as int) =~= block@);
        }
    }

    /// The tracks that the active column selects, in order.
    pub fn selected_tracks(&self) -> (r: Vec<Track>)
        requires
            self.lib_cols.wf(),
        ensures
            r@ == selection(self.lib_cols),
    {
        let c = &self.lib_cols;
        let mut r: Vec<Track> = Vec::new();
        if c.current_active == 2 {
            if c.tracks.items.len() > 0 {
                r.push(c.tracks.items[c.tracks.selected].clone());
                assert(r@ =~= selection(self.lib_cols));
            }
            r
        } else if c.current_active == 1 {
            if c.albums.items.len() > 0 {
                r = c.albums.items[c.albums.selected].tracks.clone();
            }
            r
        } else {
            if c.artists.items.len() > 0 {
                r = album_list_tracks(&c.artists.items[c.artists.selected].albums);
            }
            r
        }
    }

    /// Puts the tracks that `add_to_queue` would add ahead of the queue
    /// instead, in the same order: they are pushed onto the front last
    /// first, so the first selected track ends up in front.
    pub fn add_to_front(&mut self)
        requires
            old(self).wf(),
            total_duration(selection(old(self).lib_cols) + old(self).queue.tracks@)
                <= u64::MAX,
        ensures
            final(self).search_kept(*old(self)),
            final(self).wf(),
            final(self).queue.tracks@ == selection(old(self).lib_cols)
                + old(self).queue.tracks@,
            final(self).lib_cols == old(self).lib_cols,
            final(self).now_playing == old(self).now_playing,
    {
        let block = self.selected_tracks();
        let ghost q0 = self.queue.tracks@;
        let mut k: usize = block.len();
        assert(block@.subrange(k as int, block@.len() as int) + q0 =~= q0);
        while k > 0
            invariant
                k <= block@.len(),
                self.wf(),
                self.lib_cols == old(self).lib_cols,
                self.now_playing == old(self).now_playing,
                self.search_kept(*old(self)),
                total_duration(block@ + q0) <= u64::MAX,
                self.queue.tracks@ == block@.subrange(k as int, block@.len() as int) + q0,
            decreases k,
        {
            proof {
                let all = block@ + q0;
                let tail = all.subrange(k - 1, all.len() as int);
                assert(all =~= all.subrange(0, k - 1) + tail);
                lemma_total_concat(all.subrange(0, k - 1), tail);
                assert(tail =~= seq![block@[k - 1]] + self.queue.tracks@);
                lemma_total_concat(seq![block@[k - 1]], self.queue.tracks@);
                crate::queue::lemma_total_single(block@[k - 1]);
            }
            self.queue.add_to_front(block[k - 1].clone());
            proof {
                assert(seq![block@[k - 1]] + block@.subrange(k as int, block@.len() as int) + q0
                    =~= block@.subrange(k - 1, block@.len() as int) + q0);
            }
            k = k - 1;
        }
        proof {
            assert(block@.subrange(0, block@.len() as int) =~= block@);
        }
    }

    /// Empties the queue.
    pub fn clear_queue(&mut self)
        requires
            old(self).wf(),
        ensures
            final(self).search_kept(*old(self)),
            final(self).wf(),
            final(self).queue.tracks@.len() == 0,
            final(self).queue.total_time == 0,
            final(self).lib_cols == old(self).lib_cols,
            final(self).now_playing == old(self).now_playing,
    {
        self.queue.clear();
    }

    /// Nothing is playing any more.
    pub fn blank_now_play(&mut self)
        ensures
            final(self).search_kept(*old(self)),
            final(self).now_playing.is_dummy(),
            final(self).queue == old(self).queue,
            final(self).lib_cols == old(self).lib_cols,
    {
        self.now_playing = Track::dummy();
    }

    /// What the UI does on a beacon from the audio task: when the sink has
    /// run dry, the front of the queue is played and returned to be sent;
    /// with an empty queue nothing is playing any more.
    pub fn on_beacon(&mut self, idle: bool) -> (r: Option<Track>)
        requires
            old(self).wf(),
        ensures
            final(self).search_kept(*old(self)),
            final(self).wf(),
            final(self).lib_cols == old(self).lib_cols,
            !idle ==> r is None && final(self).queue == old(self).queue && final(self).now_playing
                == old(self).now_playing,
            idle && old(self).queue.tracks@.len() == 0 ==> r is None && final(self).now_playing.is_dummy()
                && final(self).queue == old(self).queue,
            idle && old(self).queue.tracks@.len() > 0 ==> r == Some(old(self).queue.tracks@[0])
                && final(self).now_playing == old(self).queue.tracks@[0]
                && final(self).queue.tracks@ == old(self).queue.tracks@.drop_first(),
    {
        if !idle {
            None
        } else if self.queue.is_empty() {
            self.blank_now_play();
            None
        } else {
            Some(self.play_from_queue())
        }
    }
}


/// The tracks that enqueuing a search result adds: the track; the album's
/// tracks; every track of the artist, album after album.
pub open spec fn hit_tracks(h: HitView) -> Seq<Track> {
    match h {
        HitView::Artist(r) => album_tracks(r.albums),
        HitView::Album(a) => a.tracks,
        HitView::Track(t) => seq![t],
    }
}

/// The records that the coordinates of `found` name in `lib`, in order.
pub fn resolve_hits(lib: &Vec<Artist>, found: &SearchResult) -> (r: Vec<SearchHit>)
    ensures
        hits_view(r@) == hits_of(lib@, *found),
{
    let mut r: Vec<SearchHit> = Vec::new();
    match found {
        SearchResult::Artists(v) => {
            let mut k: usize = 0;
            while k < v.len()
                invariant
                    k <= v@.len(),
                    hits_view(r@) == artist_hits(lib@, v@.subrange(0, k as int)),
                decreases v@.len() - k,
            {
                let i = v[k];
                let ghost before = r@;
                if i < lib.len() {
                    r.push(SearchHit::Artist(lib[i].clone()));
                }
                proof {
                    assert(v@.subrange(0, k + 1).drop_last() =~= v@.subrange(0, k as int));
                    assert(hits_view(r@) =~= artist_hits(lib@, v@.subrange(0, k + 1)));
                }
                k = k + 1;
            }
            assert(v@.subrange(0, v@.len() as int) =~= v@);
        },
        SearchResult::Albums(v) => {
            let mut k: usize = 0;
            while k < v.len()
                invariant
                    k <= v@.len(),
                    hits_view(r@) == album_hits(lib@, v@.subrange(0, k as int)),
                decreases v@.len() - k,
            {
                let (i, j) = v[k];
                if i < lib.len() && j < lib[i].albums.len() {
                    r.push(SearchHit::Album(lib[i].albums[j].clone()));
                }
                proof {
                    assert(v@.subrange(0, k + 1).drop_last() =~= v@.subrange(0, k as int));
                    assert(hits_view(r@) =~= album_hits(lib@, v@.subrange(0, k + 1)));
                }
                k = k + 1;
            }
            assert(v@.subrange(0, v@.len() as int) =~= v@);
        },
        SearchResult::Tracks(v) => {
            let mut k: usize = 0;
            while k < v.len()
                invariant
                    k <= v@.len(),
                    hits_view(r@) == track_hits(lib@, v@.subrange(0, k as int)),
                decreases v@.len() - k,
            {
                let (i, j, x) = v[k];
                if i < lib.len() && j < lib[i].albums.len() && x < lib[i].albums[j].tracks.len() {
                    r.push(SearchHit::Track(lib[i].albums[j].tracks[x].clone()));
                }
                proof {
                    assert(v@.subrange(0, k + 1).drop_last() =~= v@.subrange(0, k as int));
                    assert(hits_view(r@) =~= track_hits(lib@, v@.subrange(0, k + 1)));
                }
                k = k + 1;
            }
            assert(v@.subrange(0, v@.len() as int) =~= v@);
        },
    }
    r
}

/// What running the search box does, from state `o` to state `n`: an empty
/// or unparsable input changes nothing of the search; otherwise the box is
/// emptied, the cursor goes to the first result, and the results are the
/// library's records at the coordinates that searching the indexes for the
/// parsed text finds.
pub open spec fn search_outcome<'a>(o: UI<'a>, n: UI<'a>) -> bool {
    &&& n.engines == o.engines
    &&& n.tabs == o.tabs
    &&& parse_spec(o.search_input@) is None ==> {
        &&& n.search_input == o.search_input
        &&& n.search_results == o.search_results
        &&& n.search_select == o.search_select
    }
    &&& parse_spec(o.search_input@) is Some ==> {
        &&& n.search_input@.len() == 0
        &&& n.search_select == 0
        &&& exists|f: SearchResult|
            #[trigger] search_found(o.engines, parse_spec(o.search_input@)->Some_0, f) && hits_view(
                n.search_results@,
            ) == hits_of(o.lib_cols.artists.items@, f)
    }
}

impl<'a> UI<'a> {
    /// The search cursor points at a result, or is 0 without results.
    pub open spec fn search_wf(&self) -> bool {
        if self.search_results@.len() == 0 {
            self.search_select == 0
        } else {
            self.search_select < self.search_results@.len()
        }
    }

    /// Runs the query in the search box. An empty or unparsable input
    /// changes nothing. Otherwise the box is emptied, the cursor goes to
    /// the first result, and the results are the records of the library
    /// that the index of the query's scope found.
    pub fn search(&mut self)
        requires
            old(self).wf(),
            old(self).search_wf(),
            old(self).engines.consistent(),
        ensures
            final(self).wf(),
            final(self).search_wf(),
            final(self).queue == old(self).queue,
            final(self).lib_cols == old(self).lib_cols,
            final(self).now_playing == old(self).now_playing,
            final(self).engines == old(self).engines,
            search_outcome(*old(self), *final(self)),
    {
        let query = SearchQuery::new(self.search_input.as_str());
        match query {
            None => {
                assert(parse_spec(self.search_input@) is None);
            },
            Some(q) => {
                let ghost terms = q.terms;
                assert(parse_spec(self.search_input@) == Some(terms@));
                let found = engine_group_search(&self.engines, q);
                let hits = resolve_hits(&self.lib_cols.artists.items, &found);
                self.search_input = String::new();
                self.search_results = hits;
                self.search_select = 0;
                assert(search_found(old(self).engines, terms@, found) && hits_view(
                    self.search_results@,
                ) == hits_of(old(self).lib_cols.artists.items@, found));
                assert(search_found(
                    old(self).engines,
                    parse_spec(old(self).search_input@)->Some_0,
                    found,
                ));
            },
        }
    }

    /// On the library tab, plays the selected track now; on the search tab,
    /// runs the search. Returns the track to send to the audio task.
    pub fn on_enter(&mut self) -> (r: Option<Track>)
        requires
            old(self).wf(),
            old(self).search_wf(),
            old(self).engines.consistent(),
        ensures
            final(self).search_wf(),
            final(self).engines == old(self).engines,
            final(self).wf(),
            old(self).tabs.index != 1 ==> r is None,
            old(self).tabs.index == 2 ==> search_outcome(*old(self), *final(self)),
            old(self).tabs.index != 2 ==> final(self).search_kept(*old(self)),
            old(self).tabs.index == 1 ==> (old(self).lib_cols.current_active == 2
                && old(self).lib_cols.tracks.items@.len() > 0 ==> r == Some(
                old(self).lib_cols.tracks.items@[old(self).lib_cols.tracks.selected as int],
            )),
            old(self).tabs.index == 1 ==> (!(old(self).lib_cols.current_active == 2
                && old(self).lib_cols.tracks.items@.len() > 0) ==> r is None),
    {
        if self.tabs.index == 1 {
            self.play_now()
        } else if self.tabs.index == 2 {
            self.search();
            None
        } else {
            None
        }
    }

    /// Moves the search cursor up, wrapping to the last result.
    pub fn on_up_search(&mut self)
        requires
            old(self).search_wf(),
        ensures
            final(self).engines == old(self).engines,
            final(self).search_input == old(self).search_input,
            final(self).search_wf(),
            final(self).search_results == old(self).search_results,
            final(self).search_select == prev_index(
                old(self).search_select,
                old(self).search_results@.len(),
            ),
            final(self).queue == old(self).queue,
            final(self).lib_cols == old(self).lib_cols,
    {
        let n = self.search_results.len();
        if n > 0 {
            if self.search_select > 0 {
                self.search_select = self.search_select - 1;
            } else {
                self.search_select = n - 1;
            }
        }
    }

    /// Moves the search cursor down, wrapping to the first result.
    pub fn on_down_search(&mut self)
        requires
            old(self).search_wf(),
        ensures
            final(self).engines == old(self).engines,
            final(self).search_input == old(self).search_input,
            final(self).search_wf(),
            final(self).search_results == old(self).search_results,
            final(self).search_select == next_index(
                old(self).search_select,
                old(self).search_results@.len(),
            ),
            final(self).queue == old(self).queue,
            final(self).lib_cols == old(self).lib_cols,
    {
        let n = self.search_results.len();
        if n > 0 {
            self.search_select = (self.search_select + 1) % n;
        }
    }

    /// The tracks that enqueuing the selected search result adds.
    pub fn selected_hit_tracks(&self) -> (r: Vec<Track>)
        requires
            self.search_wf(),
        ensures
            self.search_results@.len() == 0 ==> r@.len() == 0,
            self.search_results@.len() > 0 ==> r@ == hit_tracks(
                self.search_results@[self.search_select as int]@,
            ),
    {
        if self.search_results.len() == 0 {
            return Vec::new();
        }
        match &self.search_results[self.search_select] {
            SearchHit::Artist(a) => album_list_tracks(&a.albums),
            SearchHit::Album(a) => a.tracks.clone(),
            SearchHit::Track(t) => {
                let mut r: Vec<Track> = Vec::new();
                r.push(t.clone());
                assert(r@ =~= seq![*t]);
                r
            },
        }
    }

    /// Pushes the tracks of the selected search result onto the back of the
    /// queue, in order.
    pub fn enqueue_search_result(&mut self)
        requires
            old(self).wf(),
            old(self).search_wf(),
            old(self).search_results@.len() > 0 ==> total_duration(
                old(self).queue.tracks@ + hit_tracks(
                    old(self).search_results@[old(self).search_select as int]@,
                ),
            ) <= u64::MAX,
        ensures
            final(self).search_kept(*old(self)),
            final(self).wf(),
            final(self).search_wf(),
            old(self).search_results@.len() == 0 ==> final(self).queue == old(self).queue,
            old(self).search_results@.len() > 0 ==> final(self).queue.tracks@
                == old(self).queue.tracks@ + hit_tracks(
                old(self).search_results@[old(self).search_select as int]@,
            ),
            final(self).lib_cols == old(self).lib_cols,
            final(self).search_results == old(self).search_results,
    {
        if self.search_results.len() == 0 {
            return ;
        }
        let block = self.selected_hit_tracks();
        self.enqueue_block(&block);
    }
}

} // verus!
