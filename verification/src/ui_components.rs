//! What the player window decides each frame.
//!
//! Every control of the window comes down to one of the functions here: the
//! transport row offers buttons by the active track's state and applies the
//! one pressed, the playlist reorders and activates tracks, bookmarks jump,
//! and the scrub bar turns a click into a position. The drawing itself, and
//! the audio engine calls these decisions ask for, happen outside this
//! crate; the engine's answers (did a load produce a handle, and with what
//! duration) come in as arguments.

use vstd::prelude::*;

use crate::collections::PlayCounts;
use crate::sound::{same_track, MetaSound, PlaybackState, SoundQueue, TrackView};

verus! {

/// A transport control the window can show.
#[derive(Clone, Copy, Debug, PartialEq, Eq, Structural)]
pub enum TransportButton {
    /// Start, or resume, playback.
    Play,
    Pause,
    Stop,
}

/// The transport controls shown for a track: a running instance offers
/// pause/stop while playing, play/stop while paused and play alone when
/// stopped; a track without an instance offers play (which loads it first);
/// an instance whose sound lost its handle offers nothing.
pub open spec fn spec_transport_buttons(s: TrackView) -> Seq<TransportButton> {
    match s.playback {
        None => seq![TransportButton::Play],
        Some(st) => if !s.loaded {
            Seq::empty()
        } else {
            match st {
                PlaybackState::Playing => seq![TransportButton::Pause, TransportButton::Stop],
                PlaybackState::Paused => seq![TransportButton::Play, TransportButton::Stop],
                PlaybackState::Stopped => seq![TransportButton::Play],
            }
        },
    }
}

/// The transport controls to show for a track, in display order.
pub fn transport_buttons(sound: &MetaSound) -> (v: Vec<TransportButton>)
    ensures
        v@ == spec_transport_buttons(sound@),
{
    let mut v: Vec<TransportButton> = Vec::new();
    match sound.playback {
        None => {
            v.push(TransportButton::Play);
            proof {
                assert(v@ =~= seq![TransportButton::Play]);
            }
        },
        Some(st) => {
            if sound.loaded {
                match st {
                    PlaybackState::Playing => {
                        v.push(TransportButton::Pause);
                        v.push(TransportButton::Stop);
                        proof {
                            assert(v@ =~= seq![TransportButton::Pause, TransportButton::Stop]);
                        }
                    },
                    PlaybackState::Paused => {
                        v.push(TransportButton::Play);
                        v.push(TransportButton::Stop);
                        proof {
                            assert(v@ =~= seq![TransportButton::Play, TransportButton::Stop]);
                        }
                    },
                    PlaybackState::Stopped => {
                        v.push(TransportButton::Play);
                        proof {
                            assert(v@ =~= seq![TransportButton::Play]);
                        }
                    },
                }
            } else {
                proof {
                    assert(v@ =~= Seq::<TransportButton>::empty());
                }
            }
        },
    }
    v
}

/// Whether pressing a button counts a play: only starting a track that has
/// no running instance does.
pub open spec fn spec_press_counts(s: TrackView, b: TransportButton) -> bool {
    s.playback is None && b == TransportButton::Play
}

/// The track after a transport press. A track without an instance is loaded
/// anew (`load_ok` is the engine's answer) and starts only if that
/// succeeded; a running instance pauses, resumes, restarts or stops by its
/// state; a press its state does not offer changes nothing.
pub open spec fn spec_press(s: TrackView, b: TransportButton, load_ok: bool) -> TrackView {
    match s.playback {
        None => if b == TransportButton::Play {
            TrackView {
                loaded: load_ok,
                playback: if load_ok {
                    Some(PlaybackState::Playing)
                } else {
                    None
                },
                ..s
            }
        } else {
            s
        },
        Some(st) => if !s.loaded {
            s
        } else {
            match (st, b) {
                (PlaybackState::Playing, TransportButton::Pause) => TrackView {
                    playback: Some(PlaybackState::Paused),
                    ..s
                },
                (PlaybackState::Playing, TransportButton::Stop) => TrackView {
                    playback: Some(PlaybackState::Stopped),
                    ..s
                },
                (PlaybackState::Paused, TransportButton::Play) => TrackView {
                    playback: Some(PlaybackState::Playing),
                    ..s
                },
                (PlaybackState::Paused, TransportButton::Stop) => TrackView {
                    playback: Some(PlaybackState::Stopped),
                    ..s
                },
                (PlaybackState::Stopped, TransportButton::Play) => TrackView {
                    playback: Some(PlaybackState::Playing),
                    ..s
                },
                _ => s,
            }
        },
    }
}

/// Apply a transport press to the active track, counting the play when it
/// starts a track that had no instance.
pub fn press_transport(
    sound: &mut MetaSound,
    button: TransportButton,
    load_ok: bool,
    play_count: &mut PlayCounts,
)
    requires
        old(play_count).wf(),
        spec_press_counts(old(sound)@, button) ==> old(play_count).spec_count(old(sound)@.path)
            < u64::MAX,
    ensures
        final(sound)@ == spec_press(old(sound)@, button, load_ok),
        final(play_count).wf(),
        spec_press_counts(old(sound)@, button) ==> final(play_count).spec_count(old(sound)@.path)
            == old(play_count).spec_count(old(sound)@.path) + 1 && forall|p: Seq<char>|
            p != old(sound)@.path ==> final(play_count).spec_count(p) == old(
                play_count,
            ).spec_count(p),
        !spec_press_counts(old(sound)@, button) ==> final(play_count)@ == old(play_count)@,
{
    match sound.playback {
        None => {
            if let TransportButton::Play = button {
                let reloaded = sound.load_soundhandle(load_ok);
                *sound = reloaded;
                let _ = sound.play();
                play_count.increment(sound);
            }
        },
        Some(st) => {
            if sound.loaded {
                match (st, button) {
                    (PlaybackState::Playing, TransportButton::Pause) => {
                        sound.playback = Some(PlaybackState::Paused);
                    },
                    (PlaybackState::Playing, TransportButton::Stop) => {
                        sound.stop();
                    },
                    (PlaybackState::Paused, TransportButton::Play) => {
                        sound.playback = Some(PlaybackState::Playing);
                    },
                    (PlaybackState::Paused, TransportButton::Stop) => {
                        sound.stop();
                    },
                    (PlaybackState::Stopped, TransportButton::Play) => {
                        sound.playback = Some(PlaybackState::Playing);
                    },
                    _ => {},
                }
            }
        },
    }
}

/// A freshly loaded and started copy of a track: the engine's answer to the
/// load carries the duration it measured.
pub open spec fn spec_play_loaded(s: TrackView, load: Option<u64>) -> TrackView {
    match load {
        Some(d) => TrackView {
            loaded: true,
            duration_ms: d,
            playback: Some(PlaybackState::Playing),
            ..s
        },
        None => TrackView { loaded: false, ..s },
    }
}

/// Make the given track the active one: the one active so far is stopped
/// and dropped, the new one is loaded anew and started, and its play is
/// counted whether or not the engine could load it.
pub fn play_as_active(
    active_sound: &mut Option<MetaSound>,
    sound: &MetaSound,
    load: Option<u64>,
    counter: &mut PlayCounts,
)
    requires
        old(counter).wf(),
        old(counter).spec_count(sound@.path) < u64::MAX,
    ensures
        *final(active_sound) matches Some(a) && a@ == spec_play_loaded(sound@, load),
        final(counter).wf(),
        final(counter).spec_count(sound@.path) == old(counter).spec_count(sound@.path) + 1,
        forall|p: Seq<char>|
            p != sound@.path ==> final(counter).spec_count(p) == old(counter).spec_count(p),
{
    match active_sound {
        Some(s) => {
            s.stop();
        },
        None => {},
    }
    *active_sound = Some(sound.clone());
    match active_sound {
        Some(s) => {
            let _ = s.play_load_mut(load);
        },
        None => {},
    }
    counter.increment(sound);
}

/// Jump to a bookmarked position. When the bookmark belongs to the track
/// already active, only the position moves (the move itself is the
/// engine's); otherwise the active track is stopped and the bookmark's
/// track takes its place, loaded anew and started. Says whether the active
/// track was switched.
pub fn jump_to_bookmark(
    active_sound: &mut Option<MetaSound>,
    sound: &MetaSound,
    load: Option<u64>,
) -> (switched: bool)
    ensures
        *old(active_sound) is None ==> *final(active_sound) is None && !switched,
        (*old(active_sound) matches Some(a) && same_track(a, *sound)) ==> *final(active_sound)
            == *old(active_sound) && !switched,
        (*old(active_sound) matches Some(a) && !same_track(a, *sound)) ==> switched
            && (*final(active_sound) matches Some(n) && n@ == spec_play_loaded(sound@, load)),
{
    match active_sound {
        None => false,
        Some(active) => {
            if *active == *sound {
                false
            } else {
                active.stop();
                *active_sound = Some(sound.clone());
                match active_sound {
                    Some(s) => {
                        let _ = s.play_load_mut(load);
                    },
                    None => {},
                }
                true
            }
        },
    }
}

/// Move the entry at `drag` so that it stands at `drop_to`: the drop of a
/// drag-to-reorder. The entry is taken out and put back at the target
/// index; everything else keeps its order.
pub fn reorder_queue(queue: &mut SoundQueue, drag: usize, drop_to: usize)
    requires
        drag < old(queue)@.len(),
        drop_to < old(queue)@.len(),
    ensures
        final(queue)@ == old(queue)@.remove(drag as int).insert(
            drop_to as int,
            old(queue)@[drag as int],
        ),
{
    let elem = queue.remove(drag);
    queue.insert(drop_to, elem);
}

/// Whether a sound has run to its end: the player treats a position within
/// 50 milliseconds of the duration as finished.
pub fn sound_finished(position_ms: u64, duration_ms: u64) -> (r: bool)
    ensures
        r == (position_ms + 50 > duration_ms),
{
    if duration_ms < 50 {
        true
    } else {
        position_ms > duration_ms - 50
    }
}

/// The queue index played after `i`: the next one, or the last entry again
/// when the queue ends.
pub fn next_track_index(i: usize, len: usize) -> (r: usize)
    requires
        0 < len,
        i < len,
    ensures
        r == if i + 1 < len {
            i + 1
        } else {
            (len - 1) as int
        },
{
    if i + 1 < len {
        i + 1
    } else {
        len - 1
    }
}

/// The queue index played before `i`: the previous one, or the first entry
/// again from the start.
pub fn prev_track_index(i: usize) -> (r: usize)
    ensures
        r == if i == 0 {
            0
        } else {
            (i - 1) as int
        },
{
    if i == 0 {
        0
    } else {
        i - 1
    }
}

/// The fill of the scrub bar, in thousandths, clamped to full: how far the
/// position stands in the duration.
pub open spec fn spec_progress_permille(position_ms: u64, duration_ms: u64) -> int
    recommends
        duration_ms > 0,
{
    let q = (position_ms * 1000) / (duration_ms as int);
    if q > 1000 {
        1000
    } else {
        q
    }
}

/// The fill of the scrub bar for a position, in thousandths.
pub fn progress_permille(position_ms: u64, duration_ms: u64) -> (p: u64)
    requires
        duration_ms > 0,
    ensures
        p == spec_progress_permille(position_ms, duration_ms),
{
    let wide = (position_ms as u128) * 1000;
    let q = wide / (duration_ms as u128);
    if q > 1000 {
        1000
    } else {
        q as u64
    }
}

/// The position a click on the scrub bar seeks to: the click's share of the
/// bar's width, taken of the duration.
pub fn scrub_target_ms(click_x: u64, width: u64, duration_ms: u64) -> (t: u64)
    requires
        0 < width,
        click_x <= width,
    ensures
        t == (click_x * duration_ms) / (width as int),
{
    proof {
        vstd::arithmetic::mul::lemma_mul_upper_bound(
            click_x as int,
            u64::MAX as int,
            duration_ms as int,
            u64::MAX as int,
        );
    }
    let wide = (click_x as u128) * (duration_ms as u128);
    let t = wide / (width as u128);
    proof {
        assert((click_x * duration_ms) / (width as int) <= duration_ms) by (nonlinear_arith)
            requires
                0 < width,
                click_x <= width,
        ;
    }
    t as u64
}

} // verus!
