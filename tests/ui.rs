use sonik::keymap::{classify, Command, KeyAction, KeyPress};
use sonik::library::build_library;
use sonik::player::{SearchHit, UI};
use sonik::record::{Artist, Record, Track};
use sonik::search::create_fuzzy_searcher;
use sonik::state::{LibraryCols, ListState, TabsState};

fn track(path: &str, title: &str, album_artist: &str, album: &str, num: u32, dur: u32) -> Track {
    Track {
        file_path: path.to_string(),
        title: title.to_string(),
        artist: album_artist.to_string(),
        album_artist: album_artist.to_string(),
        album: album.to_string(),
        year: 2000,
        track_num: num,
        duration: dur,
    }
}

fn library() -> Vec<Artist> {
    let (lib, _) = build_library(vec![
        track("/m/a1.mp3", "a1", "A", "First", 1, 10),
        track("/m/a2.mp3", "a2", "A", "First", 2, 20),
        track("/m/b1.mp3", "b1", "A", "Second", 1, 30),
        track("/m/c1.mp3", "c1", "B", "Third", 1, 40),
    ]);
    lib
}

fn paths(ui: &UI) -> Vec<String> {
    ui.queue.tracks.iter().map(|t| t.file_path.clone()).collect()
}

fn make_ui(lib: &[Artist]) -> UI<'static> {
    let engines = create_fuzzy_searcher(lib).unwrap();
    let (_, stats) = build_library(Vec::new());
    UI::new(lib, engines, stats)
}

#[test]
fn tabs_wrap_both_ways() {
    let mut tabs = TabsState::new(vec!["queue", "library", "search"]);
    tabs.previous();
    assert_eq!(tabs.index, 2);
    tabs.next();
    assert_eq!(tabs.index, 0);
    tabs.next();
    assert_eq!(tabs.index, 1);
}

#[test]
fn list_selection_wraps() {
    let items = vec![1u8, 2, 3];
    let mut l = ListState::new(&items);
    l.select_previous();
    assert_eq!(l.selected, 2);
    l.select_next();
    assert_eq!(l.selected, 0);
    let mut e: ListState<u8> = ListState::empty();
    e.select_next();
    e.select_previous();
    assert_eq!(e.selected, 0);
}

#[test]
fn columns_follow_selection() {
    let lib = library();
    let mut cols = LibraryCols::new(&lib);
    assert_eq!(cols.albums.items.len(), 2);
    assert_eq!(cols.tracks.items.len(), 2);
    cols.on_down();
    assert_eq!(cols.artists.selected, 1);
    assert_eq!(cols.albums.items[0].title, "Third");
    assert_eq!(cols.tracks.items[0].title, "c1");
    cols.on_up();
    cols.switch_right();
    cols.on_down();
    assert_eq!(cols.albums.selected, 1);
    assert_eq!(cols.tracks.items[0].title, "b1");
    cols.switch_right();
    cols.switch_right();
    assert_eq!(cols.current_active, 2);
    cols.switch_left();
    cols.switch_left();
    cols.switch_left();
    assert_eq!(cols.current_active, 0);
}

#[test]
fn add_to_queue_by_column() {
    let lib = library();
    let mut ui = make_ui(&lib);
    ui.add_to_queue();
    assert_eq!(paths(&ui), vec!["/m/a1.mp3", "/m/a2.mp3", "/m/b1.mp3"]);
    assert_eq!(ui.queue.total_time_ms(), 60);
    ui.clear_queue();
    ui.lib_cols.switch_right();
    ui.add_to_queue();
    assert_eq!(paths(&ui), vec!["/m/a1.mp3", "/m/a2.mp3"]);
    ui.lib_cols.switch_right();
    ui.lib_cols.on_down();
    ui.add_to_queue();
    assert_eq!(paths(&ui), vec!["/m/a1.mp3", "/m/a2.mp3", "/m/a2.mp3"]);
}

#[test]
fn add_to_front_keeps_album_order() {
    let lib = library();
    let mut ui = make_ui(&lib);
    ui.lib_cols.on_down();
    ui.add_to_queue();
    ui.lib_cols.on_up();
    ui.lib_cols.switch_right();
    ui.add_to_front();
    assert_eq!(paths(&ui), vec!["/m/a1.mp3", "/m/a2.mp3", "/m/c1.mp3"]);
    ui.clear_queue();
    ui.lib_cols.switch_left();
    ui.add_to_front();
    assert_eq!(paths(&ui), vec!["/m/a1.mp3", "/m/a2.mp3", "/m/b1.mp3"]);
}

#[test]
fn play_now_only_from_track_column() {
    let lib = library();
    let mut ui = make_ui(&lib);
    assert!(ui.play_now().is_none());
    ui.lib_cols.switch_right();
    ui.lib_cols.switch_right();
    ui.lib_cols.on_down();
    let sent = ui.play_now().unwrap();
    assert_eq!(sent.file_path, "/m/a2.mp3");
    assert_eq!(ui.now_playing.file_path, "/m/a2.mp3");
}

#[test]
fn auto_advance_then_blank() {
    let lib = library();
    let mut ui = make_ui(&lib);
    ui.lib_cols.on_down();
    ui.add_to_queue();
    assert!(ui.on_beacon(false).is_none());
    assert_eq!(ui.queue.len(), 1);
    let sent = ui.on_beacon(true).unwrap();
    assert_eq!(sent.file_path, "/m/c1.mp3");
    assert_eq!(ui.now_playing.file_path, "/m/c1.mp3");
    assert!(ui.queue.is_empty());
    assert!(ui.on_beacon(true).is_none());
    assert_eq!(ui.now_playing.file_path, "");
    assert_eq!(ui.now_playing.title, "");
}

#[test]
fn play_from_queue_takes_front() {
    let lib = library();
    let mut ui = make_ui(&lib);
    ui.add_to_queue();
    let t = ui.play_from_queue();
    assert_eq!(t.file_path, "/m/a1.mp3");
    assert_eq!(ui.now_playing.file_path, "/m/a1.mp3");
    assert_eq!(ui.queue.len(), 2);
    assert_eq!(ui.queue.total_time_ms(), 50);
}

#[test]
fn search_resolves_and_enqueues() {
    let lib = library();
    let mut ui = make_ui(&lib);
    ui.tabs.index = 2;
    ui.search_input = "album:second".to_string();
    assert!(ui.on_enter().is_none());
    assert_eq!(ui.search_input, "");
    assert_eq!(ui.search_select, 0);
    assert!(!ui.search_results.is_empty());
    match &ui.search_results[0] {
        SearchHit::Album(a) => assert_eq!(a.title, "Second"),
        _ => panic!("expected an album"),
    }
    assert_eq!(ui.search_results[0].name(), "Second");
    ui.enqueue_search_result();
    assert_eq!(paths(&ui), vec!["/m/b1.mp3"]);
}

#[test]
fn unparsable_search_changes_nothing() {
    let lib = library();
    let mut ui = make_ui(&lib);
    ui.search_input = "nope:x".to_string();
    ui.search();
    assert_eq!(ui.search_input, "nope:x");
    assert!(ui.search_results.is_empty());
    ui.search_input = String::new();
    ui.search();
    assert!(ui.search_results.is_empty());
}

#[test]
fn search_cursor_wraps() {
    let lib = library();
    let mut ui = make_ui(&lib);
    ui.search_input = "artist:a".to_string();
    ui.search();
    let n = ui.search_results.len();
    assert!(n >= 1);
    ui.on_up_search();
    assert_eq!(ui.search_select, n - 1);
    ui.on_down_search();
    assert_eq!(ui.search_select, 0);
}

#[test]
fn record_names() {
    let lib = library();
    assert_eq!(lib[0].name(), "A");
    assert_eq!(lib[0].albums[0].name(), "First");
    assert_eq!(lib[0].albums[0].tracks[0].name(), "a1");
}

#[test]
fn durations_split_into_hours_minutes_seconds() {
    assert_eq!(sonik::display::hours_mins_secs(0), (0, 0, 0));
    assert_eq!(sonik::display::hours_mins_secs(3_723_456), (1, 2, 3));
    assert_eq!(sonik::display::hours_mins_secs(59_999), (0, 0, 59));
}

#[test]
fn lists_scroll_to_the_selection() {
    assert_eq!(sonik::display::scroll_offset(3, 10), 0);
    assert_eq!(sonik::display::scroll_offset(10, 10), 1);
    assert_eq!(sonik::display::scroll_offset(25, 10), 16);
}

#[test]
fn keymap_by_tab() {
    assert_eq!(classify(0, &KeyPress::Esc, false), KeyAction::Quit);
    assert_eq!(classify(1, &KeyPress::Char('p'), false), KeyAction::TogglePause);
    assert_eq!(classify(2, &KeyPress::Char('p'), false), KeyAction::Type('p'));
    assert_eq!(classify(2, &KeyPress::Char(' '), false), KeyAction::Type(' '));
    assert_eq!(classify(2, &KeyPress::Char(' '), true), KeyAction::EnqueueResult);
    assert_eq!(classify(1, &KeyPress::Char(' '), true), KeyAction::Enqueue);
    assert_eq!(classify(2, &KeyPress::Char('3'), false), KeyAction::Tab(2));
    assert_eq!(classify(0, &KeyPress::Char('>'), false), KeyAction::Skip);
    assert_eq!(classify(0, &KeyPress::Char('n'), false), KeyAction::AddFront);
    assert_eq!(classify(0, &KeyPress::Char('c'), false), KeyAction::Clear);
    assert_eq!(classify(0, &KeyPress::Char('s'), false), KeyAction::Shuffle);
    assert_eq!(classify(0, &KeyPress::Char('x'), false), KeyAction::Ignore);
    assert_eq!(classify(0, &KeyPress::Backspace, false), KeyAction::Ignore);
    assert_eq!(classify(2, &KeyPress::Backspace, false), KeyAction::Erase);
    assert_eq!(classify(1, &KeyPress::Enter, false), KeyAction::Enter);
}

#[test]
fn keys_drive_the_ui() {
    let lib = library();
    let mut ui = make_ui(&lib);
    assert!(matches!(ui.on_key(KeyPress::Char('2')), Command::Nothing));
    assert_eq!(ui.tabs.index, 1);
    ui.on_key(KeyPress::Char(' '));
    assert_eq!(paths(&ui), vec!["/m/a1.mp3", "/m/a2.mp3", "/m/b1.mp3"]);
    match ui.on_key(KeyPress::Char('>')) {
        Command::Play(t) => assert_eq!(t.file_path, "/m/a1.mp3"),
        _ => panic!("expected a track to play"),
    }
    assert!(matches!(ui.on_key(KeyPress::Char('p')), Command::TogglePause));
    ui.on_key(KeyPress::Char('3'));
    for c in "album:third".chars() {
        ui.on_key(KeyPress::Char(c));
    }
    ui.on_key(KeyPress::Char('x'));
    ui.on_key(KeyPress::Backspace);
    assert_eq!(ui.search_input, "album:third");
    ui.on_key(KeyPress::Enter);
    assert_eq!(ui.search_input, "");
    assert!(!ui.search_results.is_empty());
    ui.on_key(KeyPress::Char(' '));
    assert_eq!(paths(&ui), vec!["/m/a2.mp3", "/m/b1.mp3", "/m/c1.mp3"]);
    ui.on_key(KeyPress::Char('1'));
    ui.on_key(KeyPress::Char('c'));
    assert!(ui.queue.is_empty());
    assert!(matches!(ui.on_key(KeyPress::Char('>')), Command::Nothing));
    assert!(matches!(ui.on_key(KeyPress::Esc), Command::Quit));
}

#[test]
fn arrow_and_enter_keys() {
    let lib = library();
    let mut ui = make_ui(&lib);
    ui.on_key(KeyPress::Down);
    assert_eq!(ui.lib_cols.artists.selected, 0);
    ui.on_key(KeyPress::Char('2'));
    ui.on_key(KeyPress::Down);
    assert_eq!(ui.lib_cols.artists.selected, 1);
    ui.on_key(KeyPress::Right);
    ui.on_key(KeyPress::Right);
    assert_eq!(ui.lib_cols.current_active, 2);
    match ui.on_key(KeyPress::Enter) {
        Command::Play(t) => assert_eq!(t.file_path, "/m/c1.mp3"),
        _ => panic!("expected a track to play"),
    }
    ui.on_key(KeyPress::Left);
    assert_eq!(ui.lib_cols.current_active, 1);
    ui.on_key(KeyPress::Up);
    assert_eq!(ui.lib_cols.albums.selected, 0);
}
