use jukebox::app::{add_bookmark, append_if_supported, should_repaint, ApplicationState, MAX_VOLUME};
use jukebox::collections::SoundSet;
use jukebox::sound::{MetaSound, PlaybackState, Playlist};
use jukebox::theme::Theme;

fn track(path: &str) -> MetaSound {
    MetaSound::default().with_path(path)
}

#[test]
fn a_fresh_player_is_empty_and_quietly_saving_power() {
    let s = ApplicationState::default();
    assert!(s.active_sound.is_none());
    assert_eq!(s.volume, 1000);
    assert!(s.queue.is_empty());
    assert!(s.play_count.as_vec().is_empty());
    assert!(s.favourites.as_vec().is_empty());
    assert!(s.bookmarks.as_vec().is_empty());
    assert_eq!(s.theme, Theme::Red);
    assert!(s.powersave);
}

#[test]
fn the_volume_stops_at_the_top_of_the_slider() {
    let mut s = ApplicationState::default();
    s.set_volume(2500);
    assert_eq!(s.volume, 2500);
    s.set_volume(MAX_VOLUME + 1);
    assert_eq!(s.volume, MAX_VOLUME);
    s.set_volume(0);
    assert_eq!(s.volume, 0);
}

#[test]
fn a_startup_sound_becomes_active_and_queued() {
    let mut s = ApplicationState::default();
    let loaded = track("first.mp3").load_soundhandle(true);
    s.activate_startup_sound(&loaded);
    let active = s.active_sound.as_ref().unwrap();
    assert_eq!(active.path, "first.mp3");
    assert_eq!(active.playback, Some(PlaybackState::Playing));
    assert_eq!(s.queue.len(), 1);
    // the queued copy is the handed-over one, not the started one
    assert!(s.queue[0].playback.is_none());
}

#[test]
fn a_startup_sound_already_queued_is_not_queued_again() {
    let mut s = ApplicationState::default();
    s.queue.push(track("first.mp3"));
    s.activate_startup_sound(&track("first.mp3").load_soundhandle(true));
    assert_eq!(s.queue.len(), 1);
}

#[test]
fn dropped_files_join_the_queue_only_when_supported() {
    let mut queue = Vec::new();
    assert!(append_if_supported(&mut queue, track("song.flac")));
    assert!(!append_if_supported(&mut queue, track("notes.txt")));
    assert!(append_if_supported(&mut queue, track("other.wav")));
    assert!(!append_if_supported(&mut queue, track("noextension")));
    assert_eq!(queue.len(), 2);
    assert!(queue.contains(&track("song.flac")));
    assert!(queue.contains(&track("other.wav")));
    assert!(!queue.contains(&track("notes.txt")));
}

#[test]
fn repaint_follows_hover_and_powersave() {
    assert!(should_repaint(true, true));
    assert!(should_repaint(true, false));
    assert!(!should_repaint(false, true));
    assert!(should_repaint(false, false));
}

#[test]
fn a_bookmark_joins_the_stored_ones_sorted_and_unique() {
    let mut store = SoundSet::new();
    let mut carried = track("a.mp3");
    carried.bookmarks = vec![9_000, 2_000];
    store.insert(carried);

    let mut live = track("a.mp3");
    live.bookmarks = vec![2_000, 5_000];
    add_bookmark(&mut live, 7_000, &mut store);

    assert_eq!(live.bookmarks, vec![2_000, 5_000, 7_000, 9_000]);
    let stored = store.get(&track("a.mp3")).unwrap();
    assert_eq!(stored.bookmarks, vec![2_000, 5_000, 7_000, 9_000]);
}

#[test]
fn a_first_bookmark_starts_the_stored_list() {
    let mut store = SoundSet::new();
    let mut live = track("b.mp3");
    add_bookmark(&mut live, 1_500, &mut store);
    assert_eq!(live.bookmarks, vec![1_500]);
    assert_eq!(store.get(&track("b.mp3")).unwrap().bookmarks, vec![1_500]);
    assert_eq!(store.as_vec().len(), 1);
}

#[test]
fn bookmarking_one_track_leaves_others_alone() {
    let mut store = SoundSet::new();
    let mut other = track("other.mp3");
    other.bookmarks = vec![42];
    store.insert(other);
    let mut live = track("mine.mp3");
    add_bookmark(&mut live, 7, &mut store);
    assert_eq!(store.get(&track("other.mp3")).unwrap().bookmarks, vec![42]);
}
