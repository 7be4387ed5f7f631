use sonik::library::{add_to_database, build_library, Stats};
use sonik::record::{Album, Artist, TagInfo, Track};

fn track(path: &str, title: &str, album_artist: &str, album: &str, num: u32, dur: u32) -> Track {
    Track {
        file_path: path.to_string(),
        title: title.to_string(),
        artist: album_artist.to_string(),
        album_artist: album_artist.to_string(),
        album: album.to_string(),
        year: 2001,
        track_num: num,
        duration: dur,
    }
}

#[test]
fn empty_folder_gives_empty_library() {
    let (lib, stats) = build_library(Vec::new());
    assert!(lib.is_empty());
    assert_eq!(stats, Stats { artists: 0, albums: 0, tracks: 0, total_time: 0 });
}

#[test]
fn one_file_gives_one_artist_album_track() {
    let t = Track {
        file_path: "/music/a.mp3".to_string(),
        title: "A".to_string(),
        artist: "X".to_string(),
        album_artist: "X".to_string(),
        album: "Y".to_string(),
        year: 2001,
        track_num: 1,
        duration: 1000,
    };
    let (lib, stats) = build_library(vec![t.clone()]);
    assert_eq!(lib.len(), 1);
    assert_eq!(lib[0].name, "X");
    assert_eq!(lib[0].albums.len(), 1);
    assert_eq!(lib[0].albums[0].title, "Y");
    assert_eq!(lib[0].albums[0].artist, "X");
    assert_eq!(lib[0].albums[0].year, 2001);
    assert!(lib[0].albums[0].tracks == vec![t]);
    assert_eq!(stats, Stats { artists: 1, albums: 1, tracks: 1, total_time: 1000 });
}

#[test]
fn tracks_of_an_album_come_in_track_order() {
    let t2 = track("/m/2.mp3", "two", "X", "Y", 2, 10);
    let t1 = track("/m/1.mp3", "one", "X", "Y", 1, 20);
    let (lib, stats) = build_library(vec![t2, t1]);
    let nums: Vec<u32> = lib[0].albums[0].tracks.iter().map(|t| t.track_num).collect();
    assert_eq!(nums, vec![1, 2]);
    assert_eq!(stats.tracks, 2);
    assert_eq!(stats.albums, 1);
    assert_eq!(stats.total_time, 30);
}

#[test]
fn equal_track_numbers_keep_their_order() {
    let a = track("/m/a.mp3", "a", "X", "Y", 3, 1);
    let b = track("/m/b.mp3", "b", "X", "Y", 3, 1);
    let (lib, _) = build_library(vec![a, b]);
    assert_eq!(lib[0].albums[0].tracks[0].title, "a");
    assert_eq!(lib[0].albums[0].tracks[1].title, "b");
}

#[test]
fn artists_and_albums_sorted_case_folded() {
    let tracks = vec![
        track("/m/1.mp3", "t", "beta", "zeta", 1, 5),
        track("/m/2.mp3", "t", "Alpha", "one", 1, 5),
        track("/m/3.mp3", "t", "beta", "Alpha", 1, 5),
        track("/m/4.mp3", "t", "Gamma", "x", 1, 5),
        track("/m/5.mp3", "t", "beta", "mid", 1, 5),
    ];
    let (lib, stats) = build_library(tracks);
    let names: Vec<&str> = lib.iter().map(|a| a.name.as_str()).collect();
    assert_eq!(names, vec!["Alpha", "beta", "Gamma"]);
    let titles: Vec<&str> = lib[1].albums.iter().map(|a| a.title.as_str()).collect();
    assert_eq!(titles, vec!["Alpha", "mid", "zeta"]);
    assert_eq!(stats, Stats { artists: 3, albums: 5, tracks: 5, total_time: 25 });
}

#[test]
fn stats_match_library_contents() {
    let tracks = vec![
        track("/m/1.mp3", "a", "X", "Y", 2, 100),
        track("/m/2.mp3", "b", "X", "Z", 1, 200),
        track("/m/3.mp3", "c", "W", "Y", 1, 300),
        track("/m/4.mp3", "d", "X", "Y", 1, 400),
    ];
    let (lib, stats) = build_library(tracks);
    let count: usize = lib.iter().map(|r| r.albums.iter().map(|a| a.tracks.len()).sum::<usize>()).sum();
    let time: u64 = lib
        .iter()
        .flat_map(|r| r.albums.iter())
        .flat_map(|a| a.tracks.iter())
        .map(|t| t.duration as u64)
        .sum();
    assert_eq!(stats.tracks as usize, count);
    assert_eq!(stats.total_time, time);
    assert_eq!(stats.total_time, 1000);
    assert_eq!(stats.artists as usize, lib.len());
    assert_eq!(stats.albums, 3);
}

#[test]
fn different_capitalisations_are_different_artists() {
    let tracks = vec![
        track("/m/1.mp3", "a", "abba", "Y", 1, 1),
        track("/m/2.mp3", "b", "ABBA", "Y", 1, 1),
    ];
    let (lib, stats) = build_library(tracks);
    assert_eq!(lib.len(), 2);
    assert_eq!(stats.artists, 2);
}

#[test]
fn empty_album_artist_falls_back_to_artist() {
    let mut t = track("/m/1.mp3", "a", "", "Y", 1, 1);
    t.artist = "Solo".to_string();
    let (lib, _) = build_library(vec![t]);
    assert_eq!(lib[0].name, "Solo");
}

#[test]
fn add_to_database_counts_new_artist_and_album() {
    let mut artists: Vec<Artist> = Vec::new();
    let mut stats = Stats::new();
    let t = track("/m/1.mp3", "a", "X", "Y", 1, 7);
    add_to_database(&"X".to_string(), &"Y".to_string(), 1999, t, &mut artists, &mut stats);
    assert_eq!(stats, Stats { artists: 1, albums: 1, tracks: 1, total_time: 7 });
    assert_eq!(artists[0].albums[0].year, 1999);
    let t2 = track("/m/2.mp3", "b", "X", "Z", 1, 3);
    add_to_database(&"X".to_string(), &"Z".to_string(), 2000, t2, &mut artists, &mut stats);
    assert_eq!(stats, Stats { artists: 1, albums: 2, tracks: 2, total_time: 10 });
}

#[test]
fn track_from_tag_fills_defaults() {
    let tag = TagInfo {
        title: Some("Song".to_string()),
        artist: None,
        album_artist: Some("Band".to_string()),
        album: None,
        year: None,
        track_num: Some(4),
        duration: None,
    };
    let t = Track::from_tag("/m/s.ogg".to_string(), tag);
    assert_eq!(t.file_path, "/m/s.ogg");
    assert_eq!(t.title, "Song");
    assert_eq!(t.artist, "");
    assert_eq!(t.album_artist, "Band");
    assert_eq!(t.album, "");
    assert_eq!(t.year, 0);
    assert_eq!(t.track_num, 4);
    assert_eq!(t.duration, 0);
}

#[test]
fn dummy_track_is_blank() {
    let t = Track::dummy();
    assert_eq!(t.file_path, "");
    assert_eq!(t.title, "");
    assert_eq!(t.track_num, 0);
    assert_eq!(t.duration, 0);
}

#[test]
fn tracks_equal_by_path_alone() {
    let a = track("/m/1.mp3", "a", "X", "Y", 1, 1);
    let b = track("/m/1.mp3", "other", "Z", "W", 9, 9);
    let c = track("/m/2.mp3", "a", "X", "Y", 1, 1);
    assert!(a == b);
    assert!(a != c);
}

#[test]
fn album_update_and_sort_order_tracks() {
    let mut album = Album::new("Y".to_string(), "X".to_string(), 1990).unwrap();
    album.update_album(track("/m/3.mp3", "c", "X", "Y", 3, 1)).unwrap();
    album.update_album(track("/m/1.mp3", "a", "X", "Y", 1, 1)).unwrap();
    album.update_album(track("/m/2.mp3", "b", "X", "Y", 2, 1)).unwrap();
    let nums: Vec<u32> = album.tracks.iter().map(|t| t.track_num).collect();
    assert_eq!(nums, vec![1, 2, 3]);

    let mut loose = Album::new("L".to_string(), "X".to_string(), 1990).unwrap();
    loose.tracks.push(track("/m/9.mp3", "z", "X", "L", 9, 1));
    loose.tracks.push(track("/m/4.mp3", "y", "X", "L", 4, 1));
    loose.tracks.push(track("/m/6.mp3", "x", "X", "L", 6, 1));
    loose.sort();
    let nums: Vec<u32> = loose.tracks.iter().map(|t| t.track_num).collect();
    assert_eq!(nums, vec![4, 6, 9]);
}

#[test]
fn artist_add_album_orders_case_folded() {
    let mut artist = Artist::new("X".to_string()).unwrap();
    artist.add_album(Album::new("b".to_string(), "X".to_string(), 1).unwrap()).unwrap();
    artist.add_album(Album::new("C".to_string(), "X".to_string(), 1).unwrap()).unwrap();
    artist.add_album(Album::new("A".to_string(), "X".to_string(), 1).unwrap()).unwrap();
    let titles: Vec<&str> = artist.albums.iter().map(|a| a.title.as_str()).collect();
    assert_eq!(titles, vec!["A", "b", "C"]);
}

#[test]
fn albums_equal_by_title_and_tracks() {
    let mut a = Album::new("Y".to_string(), "X".to_string(), 1).unwrap();
    let mut b = Album::new("Y".to_string(), "Other".to_string(), 2).unwrap();
    a.tracks.push(track("/m/1.mp3", "a", "X", "Y", 1, 1));
    b.tracks.push(track("/m/1.mp3", "renamed", "X", "Y", 1, 1));
    assert!(a == b);
    b.tracks.push(track("/m/2.mp3", "b", "X", "Y", 2, 1));
    assert!(a != b);
    let c = Album::new("Z".to_string(), "X".to_string(), 1).unwrap();
    assert!(Album::new("Z".to_string(), "X".to_string(), 1).unwrap() == c);
    assert!(a != c);
}

#[test]
fn artists_equal_by_name_and_albums() {
    let (l1, _) = build_library(vec![track("/m/1.mp3", "a", "X", "Y", 1, 1)]);
    let (l2, _) = build_library(vec![track("/m/1.mp3", "a", "X", "Y", 1, 1)]);
    let (l3, _) = build_library(vec![track("/m/2.mp3", "a", "X", "Y", 1, 1)]);
    assert!(l1[0] == l2[0]);
    assert!(l1[0] != l3[0]);
}

#[test]
fn tracks_ordered_by_number() {
    let a = track("/m/1.mp3", "z", "X", "Y", 1, 1);
    let b = track("/m/2.mp3", "a", "X", "Y", 2, 1);
    assert!(a < b);
    assert!(b > a);
    assert_eq!(a.partial_cmp(&track("/m/3.mp3", "q", "Q", "Q", 1, 9)), Some(std::cmp::Ordering::Equal));
}

#[test]
fn albums_and_artists_ordered_by_title_and_name() {
    let a = Album::new("Abbey Road".to_string(), "X".to_string(), 1).unwrap();
    let b = Album::new("Help".to_string(), "X".to_string(), 1).unwrap();
    assert!(a < b);
    assert_eq!(a.partial_cmp(&Album::new("Abbey Road".to_string(), "Y".to_string(), 2).unwrap()), Some(std::cmp::Ordering::Equal));
    let x = Artist::new("Zappa".to_string()).unwrap();
    let y = Artist::new("abba".to_string()).unwrap();
    assert!(x < y);
}

#[test]
fn add_to_database_appends_new_artists() {
    let mut artists: Vec<Artist> = Vec::new();
    let mut stats = Stats::new();
    add_to_database(&"b".to_string(), &"Y".to_string(), 1, track("/m/1.mp3", "x", "b", "Y", 1, 1), &mut artists, &mut stats);
    add_to_database(&"A".to_string(), &"Y".to_string(), 1, track("/m/2.mp3", "x", "A", "Y", 1, 1), &mut artists, &mut stats);
    let names: Vec<&str> = artists.iter().map(|a| a.name.as_str()).collect();
    assert_eq!(names, vec!["b", "A"]);
    let sorted = sonik::library::sort_artists(&artists);
    let names: Vec<&str> = sorted.iter().map(|a| a.name.as_str()).collect();
    assert_eq!(names, vec!["A", "b"]);
}
