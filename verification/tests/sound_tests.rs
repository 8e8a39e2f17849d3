use jukebox::sound::{
    nice_name, MetaSound, PlaybackState, Playlist, SoundError, SoundQueue, TagError, TagInfo,
};

fn track(path: &str) -> MetaSound {
    MetaSound::default().with_path(path)
}

#[test]
fn nice_name_replaces_separators() {
    assert_eq!(nice_name("music/my_song-live.mp3"), "my song live.mp3");
}

#[test]
fn nice_name_without_directory() {
    assert_eq!(nice_name("some_tune.ogg"), "some tune.ogg");
}

#[test]
fn nice_name_of_empty_path_is_fallback() {
    assert_eq!(nice_name(""), "no path");
}

#[test]
fn nice_name_of_directory_path_is_fallback() {
    assert_eq!(nice_name("music/albums/"), "no path");
}

#[test]
fn with_path_sets_path_and_name_and_keeps_the_rest() {
    let mut base = MetaSound::default();
    base.sample_rate = 44100;
    base.channels = 2;
    base.duration_ms = 1234;
    base.looped = true;
    let s = base.with_path("a/b/tr_ack.mp3");
    assert_eq!(s.path, "a/b/tr_ack.mp3");
    assert_eq!(s.name, "tr ack.mp3");
    assert_eq!(s.sample_rate, 44100);
    assert_eq!(s.channels, 2);
    assert_eq!(s.duration_ms, 1234);
    assert!(s.looped);
    assert!(!s.loaded);
    assert!(s.playback.is_none());
}

#[test]
fn supported_extensions_are_accepted() {
    for p in [
        "a.mp3",
        "dir/b.m4a",
        "c.ogg",
        "d.flac",
        "e.wav",
        "dots.in.name.mp3",
    ] {
        assert!(track(p).is_supported(), "{p} should be supported");
    }
}

#[test]
fn unsupported_extensions_are_rejected() {
    for p in [
        "a.txt",
        "b",
        "c.",
        ".mp3",
        "dir.mp3/noext",
        "",
        "d.MP3",
        "e.mp4",
        "f.wave",
    ] {
        assert!(!track(p).is_supported(), "{p} should not be supported");
    }
}

#[test]
fn load_tag_formats_the_display_name() {
    let tag = TagInfo {
        title: Some("Title".to_string()),
        artist: Some("Artist".to_string()),
        album: Some("Album".to_string()),
    };
    let named = track("x.mp3").load_tag(&tag).unwrap();
    assert_eq!(named.name, "Artist - Title | Album");
    assert_eq!(named.path, "x.mp3");
}

#[test]
fn load_tag_reports_the_first_missing_part() {
    let full = || TagInfo {
        title: Some("t".to_string()),
        artist: Some("a".to_string()),
        album: Some("b".to_string()),
    };
    let s = track("x.mp3");

    let mut tag = full();
    tag.title = None;
    assert_eq!(s.load_tag(&tag).unwrap_err(), TagError::MissingTitle);

    let mut tag = full();
    tag.artist = None;
    assert_eq!(s.load_tag(&tag).unwrap_err(), TagError::MissingArtist);

    let mut tag = full();
    tag.album = None;
    assert_eq!(s.load_tag(&tag).unwrap_err(), TagError::MissingAlbum);

    let mut tag = full();
    tag.title = None;
    tag.album = None;
    assert_eq!(s.load_tag(&tag).unwrap_err(), TagError::MissingTitle);
}

#[test]
fn try_meta_keeps_the_record_on_an_incomplete_tag() {
    let s = track("keep_me.mp3");
    let tag = TagInfo {
        title: Some("t".to_string()),
        artist: None,
        album: None,
    };
    let kept = s.try_meta(&tag);
    assert_eq!(kept.name, "keep me.mp3");
    assert_eq!(kept.path, "keep_me.mp3");
}

#[test]
fn try_meta_names_the_record_on_a_complete_tag() {
    let s = track("x.mp3");
    let tag = TagInfo {
        title: Some("Song".to_string()),
        artist: Some("Band".to_string()),
        album: Some("Record".to_string()),
    };
    assert_eq!(s.try_meta(&tag).name, "Band - Song | Record");
}

#[test]
fn play_fails_without_a_handle() {
    let mut s = track("x.mp3");
    assert_eq!(s.play(), Err(SoundError::NotLoaded));
    assert!(s.playback.is_none());
}

#[test]
fn play_starts_a_loaded_sound() {
    let mut s = track("x.mp3").load_soundhandle(true);
    assert_eq!(s.play(), Ok(()));
    assert_eq!(s.playback, Some(PlaybackState::Playing));
}

#[test]
fn load_soundhandle_only_changes_loaded() {
    let s = track("x.mp3");
    let loaded = s.load_soundhandle(true);
    assert!(loaded.loaded);
    assert_eq!(loaded.path, s.path);
    assert_eq!(loaded.name, s.name);
    let unloaded = loaded.load_soundhandle(false);
    assert!(!unloaded.loaded);
}

#[test]
fn play_load_mut_takes_the_measured_duration() {
    let mut s = track("x.mp3");
    assert_eq!(s.play_load_mut(Some(90_000)), Ok(()));
    assert!(s.loaded);
    assert_eq!(s.duration_ms, 90_000);
    assert_eq!(s.playback, Some(PlaybackState::Playing));
}

#[test]
fn play_load_mut_fails_when_the_engine_cannot_load() {
    let mut s = track("x.mp3").load_soundhandle(true);
    assert_eq!(s.play_load_mut(None), Err(SoundError::NotLoaded));
    assert!(!s.loaded);
}

#[test]
fn stop_stops_a_running_instance() {
    let mut s = track("x.mp3").load_soundhandle(true);
    s.play().unwrap();
    s.stop();
    assert_eq!(s.playback, Some(PlaybackState::Stopped));
}

#[test]
fn stop_without_a_handle_changes_nothing() {
    let mut s = track("x.mp3");
    s.playback = Some(PlaybackState::Playing);
    s.loaded = false;
    s.stop();
    assert_eq!(s.playback, Some(PlaybackState::Playing));
}

#[test]
fn equality_goes_by_path_alone() {
    let mut a = track("same.mp3");
    let mut b = track("same.mp3");
    a.name = "one".to_string();
    b.name = "two".to_string();
    assert_eq!(a, b);
    assert_ne!(track("same.mp3"), track("other.mp3"));
}

#[test]
fn queue_contains_and_to_index_go_by_path() {
    let queue: SoundQueue = vec![track("a.mp3"), track("b.mp3"), track("b.mp3")];
    assert!(queue.contains(&track("a.mp3")));
    assert!(!queue.contains(&track("c.mp3")));
    assert_eq!(queue.to_index(&track("b.mp3")), Some(1));
    assert_eq!(queue.to_index(&track("c.mp3")), None);
}

#[test]
fn default_record_is_empty() {
    let s = MetaSound::default();
    assert_eq!(s.path, "");
    assert_eq!(s.name, "");
    assert_eq!(s.sample_rate, 0);
    assert_eq!(s.channels, 0);
    assert_eq!(s.duration_ms, 0);
    assert!(!s.looped);
    assert!(!s.loaded);
    assert!(s.playback.is_none());
    assert!(s.bookmarks.is_empty());
}
