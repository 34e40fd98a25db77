use myuzik::catalog::{LibError, Library, Song};
use myuzik::codec::{load_string, save_string};

fn song(name: &str, path: &str) -> Song {
    Song::new(String::from(name), String::from(path))
}

#[test]
fn empty_library_document_is_exact() {
    let lib = Library::new();
    assert_eq!(save_string(&lib), "{\"playlists\":{}}");
}

#[test]
fn one_song_document_is_exact() {
    let mut lib = Library::new();
    lib.catalog("mix", song("a.mp3", "/store/a.mp3"));
    assert_eq!(
        save_string(&lib),
        "{\"playlists\":{\"mix\":{\"name\":\"mix\",\"songs\":[{\"name\":\"a.mp3\",\"file_path\":\"/store/a.mp3\"}]}}}"
    );
}

#[test]
fn quotes_and_backslashes_are_escaped() {
    let mut lib = Library::new();
    lib.catalog("p", song("a\"b\\c.mp3", "/store/a\"b\\c.mp3"));
    let doc = save_string(&lib);
    assert!(doc.contains("a\\\"b\\\\c.mp3"));
    let back = load_string(&doc).unwrap();
    let songs = back.list_songs("p").unwrap();
    assert_eq!(songs[0].name, "a\"b\\c.mp3");
    assert_eq!(songs[0].file_path, "/store/a\"b\\c.mp3");
}

#[test]
fn round_trip_preserves_the_library() {
    let mut lib = Library::new();
    lib.catalog("road-trip", song("song-a.mp3", "/store/song-a.mp3"));
    lib.catalog("road-trip", song("song-b.mp3", "/store/song-b.mp3"));
    lib.catalog("quiet", song("rain.mp3", "/store/rain.mp3"));

    let back = load_string(&save_string(&lib)).unwrap();
    let pls = back.list_playlists();
    assert_eq!(pls.len(), 2);
    assert_eq!(pls[0].0, "road-trip");
    assert_eq!(pls[0].1, 2);
    assert_eq!(pls[1].0, "quiet");
    assert_eq!(pls[1].1, 1);
    let songs = back.list_songs("road-trip").unwrap();
    assert_eq!(songs[0].name, "song-a.mp3");
    assert_eq!(songs[0].file_path, "/store/song-a.mp3");
    assert_eq!(songs[1].name, "song-b.mp3");
}

#[test]
fn save_load_save_is_byte_stable() {
    let mut lib = Library::new();
    lib.catalog("p", song("x.mp3", "/store/x.mp3"));
    lib.catalog("q", song("y \"quoted\".mp3", "/store/y.mp3"));

    let first = save_string(&lib);
    let reloaded = load_string(&first).unwrap();
    let second = save_string(&reloaded);
    assert_eq!(first, second);
}

#[test]
fn empty_round_trip() {
    let back = load_string(&save_string(&Library::new())).unwrap();
    assert!(back.list_playlists().is_empty());
}

#[test]
fn garbage_documents_are_corrupt() {
    for doc in [
        "",
        "not a document",
        "{\"playlists\":",
        "{\"playlists\":{}",
        "{\"playlists\":{}}trailing",
        "{\"playlists\":[]}",
        "{\"playlists\":{\"p\":{\"name\":\"other\",\"songs\":[]}}}",
        "{\"playlists\":{\"p\":{\"name\":\"p\",\"songs\":[]},\"p\":{\"name\":\"p\",\"songs\":[]}}}",
    ] {
        assert_eq!(load_string(doc).unwrap_err(), LibError::CorruptStore, "doc: {}", doc);
    }
}

#[test]
fn well_formed_document_loads() {
    let doc = "{\"playlists\":{\"p\":{\"name\":\"p\",\"songs\":[{\"name\":\"a.mp3\",\"file_path\":\"/s/a.mp3\"},{\"name\":\"b.mp3\",\"file_path\":\"/s/b.mp3\"}]}}}";
    let lib = load_string(doc).unwrap();
    let songs = lib.list_songs("p").unwrap();
    assert_eq!(songs.len(), 2);
    assert_eq!(songs[1].name, "b.mp3");
}
