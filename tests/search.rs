use sonik::library::build_library;
use sonik::search::{create_fuzzy_searcher, search, SearchResult};
use sonik::terms::SearchQuery;
use sonik::record::Track;

fn track(path: &str, title: &str, album_artist: &str, album: &str, num: u32) -> Track {
    Track {
        file_path: path.to_string(),
        title: title.to_string(),
        artist: album_artist.to_string(),
        album_artist: album_artist.to_string(),
        album: album.to_string(),
        year: 1969,
        track_num: num,
        duration: 1000,
    }
}

fn library() -> Vec<sonik::record::Artist> {
    let (lib, _) = build_library(vec![
        track("/m/1.mp3", "Come Together", "The Beatles", "Abbey Road", 1),
        track("/m/2.mp3", "Something", "The Beatles", "Abbey Road", 2),
        track("/m/3.mp3", "Money", "Pink Floyd", "The Dark Side of the Moon", 6),
    ]);
    lib
}

#[test]
fn artist_search_finds_the_beatles() {
    let lib = library();
    let engines = create_fuzzy_searcher(&lib).unwrap();
    let beatles = lib.iter().position(|a| a.name == "The Beatles").unwrap();
    match search(&engines, SearchQuery::new("artist:beatles").unwrap()) {
        SearchResult::Artists(ids) => assert!(ids.contains(&beatles)),
        _ => panic!("wrong scope"),
    }
}

#[test]
fn album_search_returns_album_coordinates() {
    let lib = library();
    let engines = create_fuzzy_searcher(&lib).unwrap();
    match search(&engines, SearchQuery::new("album:abbey").unwrap()) {
        SearchResult::Albums(cs) => {
            assert!(!cs.is_empty());
            for (i, j) in cs {
                assert_eq!(lib[i].albums[j].title, "Abbey Road");
            }
        }
        _ => panic!("wrong scope"),
    }
}

#[test]
fn title_search_returns_track_coordinates() {
    let lib = library();
    let engines = create_fuzzy_searcher(&lib).unwrap();
    match search(&engines, SearchQuery::new("title:something").unwrap()) {
        SearchResult::Tracks(cs) => {
            assert!(cs.contains(&(1, 0, 1)));
            for (i, j, k) in cs {
                assert!(k < lib[i].albums[j].tracks.len());
            }
        }
        _ => panic!("wrong scope"),
    }
}

#[test]
fn indexes_hold_every_record() {
    let lib = library();
    let engines = create_fuzzy_searcher(&lib).unwrap();
    assert_eq!(engines.album_coords, vec![(0, 0), (1, 0)]);
    assert_eq!(engines.track_coords, vec![(0, 0, 0), (1, 0, 0), (1, 0, 1)]);
}
