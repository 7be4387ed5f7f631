use sonik::config::{config_path, join, Config};
use sonik::files::is_music;

#[test]
fn music_extensions_case_sensitive() {
    assert!(is_music("/home/u/Music/song.mp3"));
    assert!(is_music("/home/u/Music/a.b/song.flac"));
    assert!(is_music("track.ogg"));
    assert!(!is_music("/home/u/Music/song.MP3"));
    assert!(!is_music("/home/u/Music/cover.jpg"));
    assert!(!is_music("/home/u/Music/.mp3"));
    assert!(!is_music("/home/u/mp3"));
    assert!(!is_music("/home/u/Music.mp3/notes"));
    assert!(!is_music(""));
}

#[test]
fn paths_join_with_one_separator() {
    assert_eq!(join("/home/u", "Music"), "/home/u/Music");
    assert_eq!(join("/home/u/", "Music"), "/home/u/Music");
    assert_eq!(join("", "Music"), "Music");
}

#[test]
fn default_layout_under_home() {
    let c = Config::for_home("/home/u");
    assert_eq!(c.music_folder, "/home/u/Music");
    assert_eq!(c.data_folder, "/home/u/.sonik");
    assert_eq!(c.database_path, "/home/u/.sonik/library.db");
    assert_eq!(c.art_map_path, "/home/u/.sonik/artists.map");
    assert_eq!(c.stats_path, "/home/u/.sonik/stats.db");
    assert_eq!(config_path("/home/u"), "/home/u/.sonik/config.toml");
    let d = Config::with_music_folder("/home/u", "/data/tunes");
    assert_eq!(d.music_folder, "/data/tunes");
    assert_eq!(d.database_path, "/home/u/.sonik/library.db");
}
