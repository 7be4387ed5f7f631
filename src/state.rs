//! UI state: tabs, list cursors, and the library's three columns.
use vstd::prelude::*;

use crate::record::{albums_view, Album, AlbumView, Artist, Track};

verus! {

/// Tab titles and the current tab, which wraps around at both ends.
pub struct TabsState<'a> {
    pub titles: Vec<&'a str>,
    pub index: usize,
}

impl<'a> TabsState<'a> {
    /// The tabs `titles`, the first one current.
    pub fn new(titles: Vec<&'a str>) -> (r: TabsState<'a>)
        ensures
            r.titles@ == titles@,
            r.index == 0,
    {
        TabsState { titles, index: 0 }
    }

    /// Moves to the next tab, from the last back to the first.
    pub fn next(&mut self)
        requires
            old(self).index < old(self).titles@.len(),
        ensures
            final(self).titles == old(self).titles,
            final(self).index == (old(self).index + 1) % (old(self).titles@.len() as int),
    {
        let n = self.titles.len();
        self.index = (self.index + 1) % n;
    }

    /// Moves to the previous tab, from the first to the last.
    pub fn previous(&mut self)
        requires
            old(self).titles@.len() > 0,
        ensures
            final(self).titles == old(self).titles,
            final(self).index == if old(self).index > 0 {
                old(self).index - 1
            } else {
                old(self).titles@.len() - 1
            },
    {
        if self.index > 0 {
            self.index = self.index - 1;
        } else {
            self.index = self.titles.len() - 1;
        }
    }
}

/// The selection one step back, wrapping to the last item; unchanged on an
/// empty list.
pub open spec fn prev_index(s: usize, n: nat) -> usize {
    if n == 0 {
        s
    } else if s > 0 {
        (s - 1) as usize
    } else {
        (n - 1) as usize
    }
}

/// The selection one step on, wrapping to the first item; unchanged on an
/// empty list.
pub open spec fn next_index(s: usize, n: nat) -> usize {
    if n == 0 {
        s
    } else {
        ((s + 1) % (n as int)) as usize
    }
}

/// A list and the position of its selected item.
pub struct ListState<I> {
    pub items: Vec<I>,
    pub selected: usize,
}

impl<I> ListState<I> {
    /// The selection points at an item, or is 0 on an empty list.
    pub open spec fn wf(&self) -> bool {
        if self.items@.len() == 0 {
            self.selected == 0
        } else {
            self.selected < self.items@.len()
        }
    }

    /// An empty list.
    pub fn empty() -> (r: ListState<I>)
        ensures
            r.items@.len() == 0,
            r.selected == 0,
    {
        ListState { items: Vec::new(), selected: 0 }
    }

    /// Selects the previous item, or the last one from the first.
    pub fn select_previous(&mut self)
        requires
            old(self).wf(),
        ensures
            final(self).items == old(self).items,
            final(self).selected == prev_index(old(self).selected, old(self).items@.len()),
            final(self).wf(),
    {
        if self.items.len() == 0 {
            return ;
        }
        if self.selected > 0 {
            self.selected = self.selected - 1;
        } else {
            self.selected = self.items.len() - 1;
        }
    }

    /// Selects the next item, or the first one from the last.
    pub fn select_next(&mut self)
        requires
            old(self).wf(),
        ensures
            final(self).items == old(self).items,
            final(self).selected == next_index(old(self).selected, old(self).items@.len()),
            final(self).wf(),
    {
        if self.items.len() == 0 {
            return ;
        }
        self.selected = (self.selected + 1) % self.items.len();
    }
}

impl<I: Clone> ListState<I> {
    /// A copy of `items`, with the first selected.
    pub fn new(items: &[I]) -> (r: ListState<I>)
        ensures
            r.selected == 0,
            r.items@.len() == items@.len(),
            forall|k: int| 0 <= k < items@.len() ==> cloned(items@[k], #[trigger] r.items@[k]),
            r.wf(),
    {
        let mut v: Vec<I> = Vec::new();
        let mut k: usize = 0;
        while k < items.len()
            invariant
                k <= items@.len(),
                v@.len() == k,
                forall|x: int| 0 <= x < k ==> cloned(items@[x], #[trigger] v@[x]),
            decreases items@.len() - k,
        {
            v.push(items[k].clone());
            k = k + 1;
        }
        ListState { items: v, selected: 0 }
    }
}

/// The library's three columns: artists, the albums of the selected artist,
/// the tracks of the selected album; and which column is active (0 to 2).
pub struct LibraryCols {
    pub artists: ListState<Artist>,
    pub albums: ListState<Album>,
    pub tracks: ListState<Track>,
    pub current_active: usize,
}

/// The albums of the selected artist of `artists`; none where it is empty.
pub open spec fn albums_shown(artists: ListState<Artist>) -> Seq<AlbumView> {
    if artists.items@.len() == 0 {
        Seq::empty()
    } else {
        artists.items@[artists.selected as int]@.albums
    }
}

/// The tracks of the selected album of `albums`; none where it is empty.
pub open spec fn tracks_shown(albums: ListState<Album>) -> Seq<Track> {
    if albums.items@.len() == 0 {
        Seq::empty()
    } else {
        albums.items@[albums.selected as int].tracks@
    }
}

/// What `on_up` does to the columns: the active column's selection moves
/// up, wrapping; a move among artists or albums resets the columns to its
/// right to their first item.
pub open spec fn cols_up(o: LibraryCols, n: LibraryCols) -> bool {
    &&& (n.current_active == o.current_active)
    &&& (o.current_active == 0 ==> {
        &&& n.artists.items == o.artists.items
        &&& n.artists.selected == prev_index(
            o.artists.selected,
            o.artists.items@.len(),
        )
        &&& n.albums.selected == 0
        &&& n.tracks.selected == 0
    })
    &&& (o.current_active == 1 ==> {
        &&& n.artists == o.artists
        &&& n.albums.items == o.albums.items
        &&& n.albums.selected == prev_index(
            o.albums.selected,
            o.albums.items@.len(),
        )
        &&& n.tracks.selected == 0
    })
    &&& (o.current_active == 2 ==> {
        &&& n.artists == o.artists
        &&& n.albums == o.albums
        &&& n.tracks.items == o.tracks.items
        &&& n.tracks.selected == prev_index(
            o.tracks.selected,
            o.tracks.items@.len(),
        )
    })
    &&& (o.current_active > 2 ==> n == o)
}

/// What `on_down` does to the columns: as `cols_up`, moving down.
pub open spec fn cols_down(o: LibraryCols, n: LibraryCols) -> bool {
    &&& (n.current_active == o.current_active)
    &&& (o.current_active == 0 ==> {
        &&& n.artists.items == o.artists.items
        &&& n.artists.selected == next_index(
            o.artists.selected,
            o.artists.items@.len(),
        )
        &&& n.albums.selected == 0
        &&& n.tracks.selected == 0
    })
    &&& (o.current_active == 1 ==> {
        &&& n.artists == o.artists
        &&& n.albums.items == o.albums.items
        &&& n.albums.selected == next_index(
            o.albums.selected,
            o.albums.items@.len(),
        )
        &&& n.tracks.selected == 0
    })
    &&& (o.current_active == 2 ==> {
        &&& n.artists == o.artists
        &&& n.albums == o.albums
        &&& n.tracks.items == o.tracks.items
        &&& n.tracks.selected == next_index(
            o.tracks.selected,
            o.tracks.items@.len(),
        )
    })
    &&& (o.current_active > 2 ==> n == o)
}

impl LibraryCols {
    /// Each cursor points into its list, and each column shows what the
    /// column to its left selects.
    pub open spec fn wf(&self) -> bool {
        &&& self.artists.wf()
        &&& self.albums.wf()
        &&& self.tracks.wf()
        &&& albums_view(self.albums.items@) == albums_shown(self.artists)
        &&& self.tracks.items@ == tracks_shown(self.albums)
    }

    /// The columns for `database`: first artist, its first album, that
    /// album's first track selected; the artist column active.
    pub fn new(database: &[Artist]) -> (r: LibraryCols)
        ensures
            r.wf(),
            r.current_active == 0,
            r.artists.selected == 0,
            r.albums.selected == 0,
            r.tracks.selected == 0,
            r.artists.items@.len() == database@.len(),
            forall|i: int|
                0 <= i < database@.len() ==> (#[trigger] r.artists.items@[i])@ == database@[i]@,
    {
        let artists = ListState::new(database);
        let mut cols = LibraryCols {
            artists,
            albums: ListState::empty(),
            tracks: ListState::empty(),
            current_active: 0,
        };
        cols.refresh_albums();
        cols
    }

    /// Shows the tracks of the selected album, the first selected.
    fn refresh_tracks(&mut self)
        requires
            old(self).albums.wf(),
        ensures
            final(self).artists == old(self).artists,
            final(self).albums == old(self).albums,
            final(self).current_active == old(self).current_active,
            final(self).tracks.items@ == tracks_shown(old(self).albums),
            final(self).tracks.selected == 0,
            final(self).tracks.wf(),
    {
        if self.albums.items.len() == 0 {
            self.tracks = ListState::empty();
        } else {
            let l = ListState::new(self.albums.items[self.albums.selected].tracks.as_slice());
            assert(l.items@ =~= tracks_shown(self.albums));
            self.tracks = l;
        }
    }

    /// Shows the albums of the selected artist and the tracks of its first
    /// album, the first of each selected.
    fn refresh_albums(&mut self)
        requires
            old(self).artists.wf(),
        ensures
            final(self).artists == old(self).artists,
            final(self).current_active == old(self).current_active,
            final(self).albums.selected == 0,
            final(self).tracks.selected == 0,
            final(self).wf(),
    {
        if self.artists.items.len() == 0 {
            self.albums = ListState::empty();
            assert(albums_view(self.albums.items@) =~= albums_shown(self.artists));
        } else {
            let l = ListState::new(self.artists.items[self.artists.selected].albums.as_slice());
            assert(albums_view(l.items@) =~= albums_shown(self.artists));
            self.albums = l;
        }
        self.refresh_tracks();
    }

    /// Moves the active column one to the left, stopping at the first.
    pub fn switch_left(&mut self)
        ensures
            final(self).artists == old(self).artists,
            final(self).albums == old(self).albums,
            final(self).tracks == old(self).tracks,
            final(self).current_active == if old(self).current_active > 0 {
                old(self).current_active - 1
            } else {
                0int
            },
    {
        if self.current_active > 0 {
            self.current_active = self.current_active - 1;
        }
    }

    /// Moves the active column one to the right, stopping at the last.
    pub fn switch_right(&mut self)
        ensures
            final(self).artists == old(self).artists,
            final(self).albums == old(self).albums,
            final(self).tracks == old(self).tracks,
            final(self).current_active == if old(self).current_active < 2 {
                old(self).current_active + 1
            } else {
                old(self).current_active as int
            },
    {
        if self.current_active < 2 {
            self.current_active = self.current_active + 1;
        }
    }

    /// Moves the selection of the active column up (wrapping). A move among
    /// artists shows the new artist's first album and its tracks; a move
    /// among albums shows the new album's tracks.
    pub fn on_up(&mut self)
        requires
            old(self).wf(),
        ensures
            final(self).wf(),
            cols_up(*old(self), *final(self)),
    {
        if self.current_active == 0 {
            self.artists.select_previous();
            self.refresh_albums();
        } else if self.current_active == 1 {
            self.albums.select_previous();
            self.refresh_tracks();
        } else if self.current_active == 2 {
            self.tracks.select_previous();
        }
    }

    /// Moves the selection of the active column down (wrapping), refreshing
    /// the columns to its right as `on_up` does.
    pub fn on_down(&mut self)
        requires
            old(self).wf(),
        ensures
            final(self).wf(),
            cols_down(*old(self), *final(self)),
    {
        if self.current_active == 0 {
            self.artists.select_next();
            self.refresh_albums();
        } else if self.current_active == 1 {
            self.albums.select_next();
            self.refresh_tracks();
        } else if self.current_active == 2 {
            self.tracks.select_next();
        }
    }
}

} // verus!
