use myuzik::acquire::{
    acquisition_outcome, download_args, expected_song, is_valid_youtube_url, output_template,
    title_of_stdout,
};
use myuzik::catalog::{LibError, Library};

#[test]
fn download_args_are_exact() {
    let args = download_args("/work/storage/%(title)s.%(ext)s", "https://youtu.be/abc");
    let expect = vec![
        "-x",
        "--audio-format",
        "mp3",
        "--audio-quality",
        "0",
        "-o",
        "/work/storage/%(title)s.%(ext)s",
        "https://youtu.be/abc",
    ];
    assert_eq!(args.len(), expect.len());
    for (a, e) in args.iter().zip(expect.iter()) {
        assert_eq!(a, e);
    }
}

#[test]
fn output_template_is_rooted_at_the_storage_directory() {
    assert_eq!(output_template("/work/storage"), "/work/storage/%(title)s.%(ext)s");
}

#[test]
fn title_is_the_first_line_trimmed() {
    assert_eq!(title_of_stdout("My Title\n"), "My Title");
    assert_eq!(title_of_stdout("  My Title \r\nsecond line\n"), "My Title");
    assert_eq!(title_of_stdout("plain"), "plain");
    assert_eq!(title_of_stdout("\n"), "");
    assert_eq!(title_of_stdout("   \n"), "");
}

#[test]
fn expected_song_joins_directory_title_and_extension() {
    let s = expected_song("/work/storage", "My Title\n");
    assert_eq!(s.name, "My Title.mp3");
    assert_eq!(s.file_path, "/work/storage/My Title.mp3");
}

#[test]
fn failed_download_is_an_acquisition_failure_and_leaves_the_library_alone() {
    let lib = Library::new();
    let before = lib.list_playlists();

    let candidate = expected_song("/work/storage", "My Title\n");
    let r = acquisition_outcome(candidate, false, false, "network unreachable");
    assert_eq!(
        r.unwrap_err(),
        LibError::AcquisitionFailure(String::from("Download failed: network unreachable"))
    );

    assert_eq!(lib.list_playlists(), before);
    assert!(lib.list_playlists().is_empty());
}

#[test]
fn missing_output_file_is_an_acquisition_failure() {
    let candidate = expected_song("/work/storage", "My Title\n");
    let r = acquisition_outcome(candidate, true, false, "");
    assert_eq!(
        r.unwrap_err(),
        LibError::AcquisitionFailure(String::from("File not found after download"))
    );
}

#[test]
fn successful_download_yields_the_expected_song() {
    let candidate = expected_song("/work/storage", "My Title\n");
    let r = acquisition_outcome(candidate, true, true, "").unwrap();
    assert_eq!(r.name, "My Title.mp3");
    assert_eq!(r.file_path, "/work/storage/My Title.mp3");
}

#[test]
fn recognized_source_urls_are_accepted() {
    for url in [
        "https://www.youtube.com/watch?v=abc",
        "http://youtube.com/watch?v=abc",
        "https://youtu.be/abc",
        "youtu.be/abc",
        "www.youtube.com/watch?v=abc",
        "youtube.com/",
    ] {
        assert!(is_valid_youtube_url(url), "url: {}", url);
    }
}

#[test]
fn unrecognized_source_urls_are_rejected() {
    for url in [
        "",
        "https://vimeo.com/123",
        "youtube.com",
        "ftp://youtube.com/abc",
        "https://youtube.org/abc",
        "https://www.you tube.com/abc",
    ] {
        assert!(!is_valid_youtube_url(url), "url: {}", url);
    }
}
