use myuzik::catalog::{LibError, Library, Song};

fn song(name: &str, path: &str) -> Song {
    Song::new(String::from(name), String::from(path))
}

#[test]
fn empty_library_has_no_playlists() {
    let lib = Library::new();
    assert!(lib.list_playlists().is_empty());
}

#[test]
fn catalog_creates_playlist_and_appends_in_order() {
    let mut lib = Library::new();
    lib.catalog("road-trip", song("song-a.mp3", "/store/song-a.mp3"));
    lib.catalog("road-trip", song("song-b.mp3", "/store/song-b.mp3"));

    let pls = lib.list_playlists();
    assert_eq!(pls.len(), 1);
    assert_eq!(pls[0].0, "road-trip");
    assert_eq!(pls[0].1, 2);

    let songs = lib.list_songs("road-trip").unwrap();
    assert_eq!(songs.len(), 2);
    assert_eq!(songs[0].name, "song-a.mp3");
    assert_eq!(songs[1].name, "song-b.mp3");
}

#[test]
fn catalog_keeps_each_playlist_once() {
    let mut lib = Library::new();
    lib.catalog("a", song("one.mp3", "/store/one.mp3"));
    lib.catalog("b", song("two.mp3", "/store/two.mp3"));
    lib.catalog("a", song("three.mp3", "/store/three.mp3"));

    let pls = lib.list_playlists();
    assert_eq!(pls.len(), 2);
    assert_eq!(pls[0].0, "a");
    assert_eq!(pls[0].1, 2);
    assert_eq!(pls[1].0, "b");
    assert_eq!(pls[1].1, 1);
}

#[test]
fn libraries_stay_well_formed() {
    let mut lib = Library::new();
    assert!(lib.well_formed());
    lib.catalog("a", song("one.mp3", "/store/one.mp3"));
    lib.catalog("b", song("two.mp3", "/store/two.mp3"));
    lib.catalog("a", song("three.mp3", "/store/three.mp3"));
    assert!(lib.well_formed());
}

#[test]
fn listing_missing_playlist_is_not_found() {
    let lib = Library::new();
    assert_eq!(lib.list_songs("nonexistent").unwrap_err(), LibError::PlaylistNotFound);
}

#[test]
fn resolving_missing_song_is_not_found() {
    let mut lib = Library::new();
    lib.catalog("p", song("present.mp3", "/store/present.mp3"));
    assert_eq!(lib.resolve_playable("p", "nonexistent").unwrap_err(), LibError::SongNotFound);
    assert_eq!(lib.resolve_playable("q", "present.mp3").unwrap_err(), LibError::PlaylistNotFound);
}

#[test]
fn resolve_returns_first_matching_file_path() {
    let mut lib = Library::new();
    lib.catalog("p", song("dup.mp3", "/store/first.mp3"));
    lib.catalog("p", song("dup.mp3", "/store/second.mp3"));
    assert_eq!(lib.resolve_playable("p", "dup.mp3").unwrap(), "/store/first.mp3");
}

#[test]
fn search_is_case_insensitive() {
    let mut lib = Library::new();
    lib.catalog("mix", song("song-a.mp3", "/store/song-a.mp3"));
    lib.catalog("mix", song("Other.mp3", "/store/Other.mp3"));

    let hits = lib.search("SONG-A");
    assert_eq!(hits.len(), 1);
    assert_eq!(hits[0].0, "mix");
    assert_eq!(hits[0].1.name, "song-a.mp3");

    let hits = lib.search("other");
    assert_eq!(hits.len(), 1);
    assert_eq!(hits[0].1.name, "Other.mp3");
}

#[test]
fn search_scans_playlists_in_order() {
    let mut lib = Library::new();
    lib.catalog("one", song("hit-1.mp3", "/store/1.mp3"));
    lib.catalog("two", song("hit-2.mp3", "/store/2.mp3"));
    lib.catalog("one", song("hit-3.mp3", "/store/3.mp3"));

    let hits = lib.search("hit");
    assert_eq!(hits.len(), 3);
    assert_eq!(hits[0].1.name, "hit-1.mp3");
    assert_eq!(hits[1].1.name, "hit-3.mp3");
    assert_eq!(hits[2].1.name, "hit-2.mp3");
}

#[test]
fn search_with_empty_query_matches_every_song() {
    let mut lib = Library::new();
    lib.catalog("p", song("x.mp3", "/store/x.mp3"));
    lib.catalog("q", song("y.mp3", "/store/y.mp3"));
    assert_eq!(lib.search("").len(), 2);
}

#[test]
fn search_without_match_is_empty() {
    let mut lib = Library::new();
    assert!(lib.search("anything").is_empty());
    lib.catalog("p", song("x.mp3", "/store/x.mp3"));
    assert!(lib.search("zzz").is_empty());
}
