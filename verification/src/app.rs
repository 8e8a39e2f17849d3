//! The whole player state, and the decisions its frame callback makes that
//! do not belong to a single control: taking in dropped files, auto-playing
//! a file named on the command line, bookmarking the playing position, the
//! volume, and whether a frame needs a repaint.

use vstd::prelude::*;
use vstd::seq_lib::group_to_multiset_ensures;

use crate::collections::{
    lemma_contains_concat, lemma_contains_push, sorted_positions, dedup_sorted, PlayCounts,
    SoundSet,
};
use crate::sound::{
    copy_positions, queue_has_track, spec_is_supported, MetaSound, PlaybackState, SoundQueue,
    TrackView,
};
use crate::theme::Theme;

verus! {

broadcast use group_to_multiset_ensures;

/// The top of the volume slider, in thousandths of full gain.
pub const MAX_VOLUME: u32 = 3000;

/// Everything the player remembers between frames. The live audio manager
/// stands outside this crate; all state it feeds back comes in through the
/// functions' arguments.
pub struct ApplicationState {
    /// The track the transport row and scrub bar act on.
    pub active_sound: Option<MetaSound>,
    /// Volume in thousandths of full gain, up to [`MAX_VOLUME`].
    pub volume: u32,
    /// The playlist.
    pub queue: SoundQueue,
    /// How often each track was played.
    pub play_count: PlayCounts,
    /// The tracks marked with a heart.
    pub favourites: SoundSet,
    /// The tracks that carry bookmarks.
    pub bookmarks: SoundSet,
    pub theme: Theme,
    /// Repaint only on hover when set.
    pub powersave: bool,
}

impl ApplicationState {
    /// The stores hold at most one record per path.
    pub open spec fn wf(&self) -> bool {
        self.play_count.wf() && self.favourites.wf() && self.bookmarks.wf()
    }
}

impl Default for ApplicationState {
    /// A fresh player: nothing queued or active, full volume, the default
    /// theme, powersave on.
    fn default() -> (s: Self)
        ensures
            s.wf(),
            s.active_sound is None,
            s.volume == 1000,
            s.queue@ == Seq::<MetaSound>::empty(),
            s.play_count@ == Seq::<(MetaSound, u64)>::empty(),
            s.favourites@ == Seq::<MetaSound>::empty(),
            s.bookmarks@ == Seq::<MetaSound>::empty(),
            s.theme == Theme::Red,
            s.powersave,
    {
        ApplicationState {
            active_sound: None,
            volume: 1000,
            queue: Vec::new(),
            play_count: PlayCounts::new(),
            favourites: SoundSet::new(),
            bookmarks: SoundSet::new(),
            theme: Theme::default(),
            powersave: true,
        }
    }
}

impl ApplicationState {
    /// Set the volume as the slider does: values beyond its top stop there.
    pub fn set_volume(&mut self, v: u32)
        ensures
            final(self).volume == if v > MAX_VOLUME {
                MAX_VOLUME as int
            } else {
                v as int
            },
            final(self).active_sound == old(self).active_sound,
            final(self).queue == old(self).queue,
            final(self).play_count == old(self).play_count,
            final(self).favourites == old(self).favourites,
            final(self).bookmarks == old(self).bookmarks,
            final(self).theme == old(self).theme,
            final(self).powersave == old(self).powersave,
    {
        self.volume = if v > MAX_VOLUME {
            MAX_VOLUME
        } else {
            v
        };
    }

    /// Take in a sound handed over at startup: it becomes the active track
    /// and starts if its load produced a handle, and it is appended to the
    /// queue unless a track with its path is already queued.
    pub fn activate_startup_sound(&mut self, sound: &MetaSound)
        ensures
            final(self).active_sound matches Some(a) && a@ == (TrackView {
                playback: if sound@.loaded {
                    Some(PlaybackState::Playing)
                } else {
                    sound@.playback
                },
                ..sound@
            }),
            queue_has_track(old(self).queue@, *sound) ==> final(self).queue@ == old(
                self,
            ).queue@,
            !queue_has_track(old(self).queue@, *sound) ==> (
            final(self).queue@.len() == old(self).queue@.len() + 1 && final(self).queue@.subrange(
                0,
                old(self).queue@.len() as int,
            ) == old(self).queue@ && final(self).queue@.last()@ == sound@),
            final(self).volume == old(self).volume,
            final(self).play_count == old(self).play_count,
            final(self).favourites == old(self).favourites,
            final(self).bookmarks == old(self).bookmarks,
            final(self).theme == old(self).theme,
            final(self).powersave == old(self).powersave,
    {
        self.active_sound = Some(sound.clone());
        match &mut self.active_sound {
            Some(s) => {
                let _ = s.play();
            },
            None => {},
        }
        let queued = crate::sound::Playlist::contains(&self.queue, sound);
        if !queued {
            let ghost before = self.queue@;
            self.queue.push(sound.clone());
            proof {
                assert(self.queue@.subrange(0, before.len() as int) =~= before);
            }
        }
    }
}

/// Whether a frame is followed by another repaint at once: always while
/// powersave is off, and on hover otherwise.
pub fn should_repaint(hovered: bool, powersave: bool) -> (r: bool)
    ensures
        r == (hovered || !powersave),
{
    hovered || !powersave
}

/// Take in one dropped or discovered file: the track is appended to the
/// queue exactly when the player supports its extension.
pub fn append_if_supported(queue: &mut SoundQueue, sound: MetaSound) -> (added: bool)
    ensures
        added == spec_is_supported(sound@.path),
        added ==> final(queue)@ == old(queue)@.push(sound),
        !added ==> final(queue)@ == old(queue)@,
{
    if sound.is_supported() {
        queue.push(sound);
        true
    } else {
        false
    }
}

/// Bookmark the playing position of a track. The position joins the
/// track's own bookmarks and whatever bookmarks the store already carries
/// for its path; the track then carries them all, each once, in rising
/// order, and the store holds the updated record under its path.
pub fn add_bookmark(sound: &mut MetaSound, position_ms: u64, bookmarks: &mut SoundSet)
    requires
        old(bookmarks).wf(),
    ensures
        final(bookmarks).wf(),
        final(sound)@ == (TrackView { bookmarks: final(sound)@.bookmarks, ..old(sound)@ }),
        forall|i: int, j: int|
            0 <= i < j < final(sound)@.bookmarks.len() ==> final(sound)@.bookmarks[i]
                < final(sound)@.bookmarks[j],
        forall|x: u64|
            final(sound)@.bookmarks.contains(x) <==> (old(sound)@.bookmarks.contains(x) || old(
                bookmarks,
            ).spec_bookmarks(old(sound)@.path).contains(x) || x == position_ms),
        final(bookmarks).spec_contains(old(sound)@.path),
        final(bookmarks).spec_bookmarks(old(sound)@.path) == final(sound)@.bookmarks,
        forall|p: Seq<char>|
            p != old(sound)@.path ==> final(bookmarks).spec_contains(p) == old(
                bookmarks,
            ).spec_contains(p) && final(bookmarks).spec_bookmarks(p) == old(
                bookmarks,
            ).spec_bookmarks(p),
{
    let ghost own0 = sound@.bookmarks;
    let ghost stored0 = bookmarks.spec_bookmarks(sound@.path);
    sound.bookmarks.push(position_ms);
    let mut merged: Vec<u64> = match bookmarks.get(sound) {
        Some(stored) => copy_positions(&stored.bookmarks),
        None => Vec::new(),
    };
    proof {
        assert(merged@ == stored0);
    }
    let mut k: usize = 0;
    let n = sound.bookmarks.len();
    while k < n
        invariant
            n == sound.bookmarks@.len(),
            k <= n,
            merged@ == stored0 + sound.bookmarks@.subrange(0, k as int),
        decreases n - k,
    {
        merged.push(sound.bookmarks[k]);
        k = k + 1;
        proof {
            assert(merged@ =~= stored0 + sound.bookmarks@.subrange(0, k as int));
        }
    }
    proof {
        assert(sound.bookmarks@.subrange(0, n as int) =~= sound.bookmarks@);
        assert(merged@ == stored0 + own0.push(position_ms));
    }
    let sorted = sorted_positions(&merged);
    let deduped = dedup_sorted(&sorted);
    proof {
        assert forall|x: u64|
            deduped@.contains(x) <==> (own0.contains(x) || stored0.contains(x) || x
                == position_ms) by {
            assert(sorted@.to_multiset().count(x) == merged@.to_multiset().count(x));
            assert(sorted@.contains(x) == (sorted@.to_multiset().count(x) > 0));
            assert(merged@.contains(x) == (merged@.to_multiset().count(x) > 0));
            lemma_contains_concat(stored0, own0.push(position_ms), x);
            lemma_contains_push(own0, position_ms, x);
        }
    }
    sound.bookmarks = deduped;
    bookmarks.replace(sound.clone());
}

} // verus!
