use jukebox::collections::PlayCounts;
use jukebox::sound::{MetaSound, PlaybackState};
use jukebox::theme::Theme;
use jukebox::ui_components::{
    jump_to_bookmark, next_track_index, play_as_active, press_transport, prev_track_index,
    progress_permille, reorder_queue, scrub_target_ms, sound_finished, transport_buttons,
    TransportButton,
};

fn track(path: &str) -> MetaSound {
    MetaSound::default().with_path(path)
}

fn playing(path: &str) -> MetaSound {
    let mut s = track(path).load_soundhandle(true);
    s.play().unwrap();
    s
}

#[test]
fn transport_offers_pause_and_stop_while_playing() {
    assert_eq!(
        transport_buttons(&playing("a.mp3")),
        vec![TransportButton::Pause, TransportButton::Stop]
    );
}

#[test]
fn transport_offers_play_and_stop_while_paused() {
    let mut s = playing("a.mp3");
    s.playback = Some(PlaybackState::Paused);
    assert_eq!(
        transport_buttons(&s),
        vec![TransportButton::Play, TransportButton::Stop]
    );
}

#[test]
fn transport_offers_play_when_stopped_or_never_started() {
    let mut s = playing("a.mp3");
    s.stop();
    assert_eq!(transport_buttons(&s), vec![TransportButton::Play]);
    assert_eq!(transport_buttons(&track("a.mp3")), vec![TransportButton::Play]);
}

#[test]
fn transport_offers_nothing_without_a_handle() {
    let mut s = playing("a.mp3");
    s.loaded = false;
    assert_eq!(transport_buttons(&s), Vec::<TransportButton>::new());
}

#[test]
fn pressing_play_on_a_fresh_track_loads_starts_and_counts() {
    let mut s = track("a.mp3");
    let mut counts = PlayCounts::new();
    press_transport(&mut s, TransportButton::Play, true, &mut counts);
    assert!(s.loaded);
    assert_eq!(s.playback, Some(PlaybackState::Playing));
    assert_eq!(counts.count(&track("a.mp3")), 1);
}

#[test]
fn pressing_play_counts_even_when_the_load_fails() {
    let mut s = track("a.mp3");
    let mut counts = PlayCounts::new();
    press_transport(&mut s, TransportButton::Play, false, &mut counts);
    assert!(!s.loaded);
    assert!(s.playback.is_none());
    assert_eq!(counts.count(&track("a.mp3")), 1);
}

#[test]
fn transport_transitions_between_states() {
    let mut counts = PlayCounts::new();

    let mut s = playing("a.mp3");
    press_transport(&mut s, TransportButton::Pause, false, &mut counts);
    assert_eq!(s.playback, Some(PlaybackState::Paused));

    press_transport(&mut s, TransportButton::Play, false, &mut counts);
    assert_eq!(s.playback, Some(PlaybackState::Playing));

    press_transport(&mut s, TransportButton::Stop, false, &mut counts);
    assert_eq!(s.playback, Some(PlaybackState::Stopped));

    press_transport(&mut s, TransportButton::Play, false, &mut counts);
    assert_eq!(s.playback, Some(PlaybackState::Playing));

    // none of these presses counted a play
    assert_eq!(counts.count(&track("a.mp3")), 0);
}

#[test]
fn disabled_presses_change_nothing() {
    let mut counts = PlayCounts::new();
    let mut s = playing("a.mp3");
    s.stop();
    press_transport(&mut s, TransportButton::Pause, false, &mut counts);
    assert_eq!(s.playback, Some(PlaybackState::Stopped));
}

#[test]
fn play_as_active_swaps_the_track_and_counts() {
    let mut active = Some(playing("old.mp3"));
    let mut counts = PlayCounts::new();
    let next = track("new.mp3");
    play_as_active(&mut active, &next, Some(60_000), &mut counts);
    let a = active.unwrap();
    assert_eq!(a.path, "new.mp3");
    assert!(a.loaded);
    assert_eq!(a.duration_ms, 60_000);
    assert_eq!(a.playback, Some(PlaybackState::Playing));
    assert_eq!(counts.count(&next), 1);
    assert_eq!(counts.count(&track("old.mp3")), 0);
}

#[test]
fn jump_to_bookmark_keeps_the_same_track() {
    let mut active = Some(playing("a.mp3"));
    let switched = jump_to_bookmark(&mut active, &track("a.mp3"), Some(1000));
    assert!(!switched);
    assert_eq!(active.unwrap().playback, Some(PlaybackState::Playing));
}

#[test]
fn jump_to_bookmark_switches_to_another_track() {
    let mut active = Some(playing("a.mp3"));
    let switched = jump_to_bookmark(&mut active, &track("b.mp3"), Some(5000));
    assert!(switched);
    let a = active.unwrap();
    assert_eq!(a.path, "b.mp3");
    assert_eq!(a.duration_ms, 5000);
    assert_eq!(a.playback, Some(PlaybackState::Playing));
}

#[test]
fn reorder_moves_an_entry_to_the_drop_index() {
    let mut queue = vec![track("a.mp3"), track("b.mp3"), track("c.mp3"), track("d.mp3")];
    reorder_queue(&mut queue, 0, 2);
    let order: Vec<&str> = queue.iter().map(|s| s.path.as_str()).collect();
    assert_eq!(order, vec!["b.mp3", "c.mp3", "a.mp3", "d.mp3"]);

    reorder_queue(&mut queue, 3, 0);
    let order: Vec<&str> = queue.iter().map(|s| s.path.as_str()).collect();
    assert_eq!(order, vec!["d.mp3", "b.mp3", "c.mp3", "a.mp3"]);
}

#[test]
fn a_sound_is_finished_close_to_its_end() {
    assert!(!sound_finished(0, 1000));
    assert!(!sound_finished(949, 1000));
    assert!(!sound_finished(950, 1000));
    assert!(sound_finished(951, 1000));
    assert!(sound_finished(1000, 1000));
    assert!(sound_finished(0, 49));
}

#[test]
fn next_and_prev_indices_stay_inside_the_queue() {
    assert_eq!(next_track_index(0, 3), 1);
    assert_eq!(next_track_index(2, 3), 2);
    assert_eq!(prev_track_index(0), 0);
    assert_eq!(prev_track_index(2), 1);
}

#[test]
fn progress_is_the_position_share_in_thousandths() {
    assert_eq!(progress_permille(0, 1000), 0);
    assert_eq!(progress_permille(500, 1000), 500);
    assert_eq!(progress_permille(1000, 1000), 1000);
    assert_eq!(progress_permille(90_000, 360_000), 250);
    // a position past the end fills the bar, no further
    assert_eq!(progress_permille(2000, 1000), 1000);
}

#[test]
fn a_click_seeks_to_its_share_of_the_duration() {
    assert_eq!(scrub_target_ms(0, 100, 90_000), 0);
    assert_eq!(scrub_target_ms(50, 100, 90_000), 45_000);
    assert_eq!(scrub_target_ms(100, 100, 90_000), 90_000);
    assert_eq!(scrub_target_ms(1, 3, 10_000), 3_333);
}

#[test]
fn themes_default_and_listing() {
    assert_eq!(Theme::default(), Theme::Red);
    assert_eq!(
        Theme::selectable(),
        vec![Theme::EguiDark, Theme::EguiLight, Theme::Red]
    );
    assert_eq!(Theme::Grey.label(), "Grey");
    assert_eq!(Theme::Red.label(), "Red");
}
