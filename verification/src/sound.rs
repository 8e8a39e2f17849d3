//! The track record and the playlist it is queued in.
//!
//! A [`MetaSound`] describes one audio file: where it lives, what it is
//! called, its sample rate, channel count and duration, and the state of
//! its live engine handles. The engine itself lives outside this crate;
//! here a loaded sound is the fact `loaded`, and a running instance is the
//! playback state it carries. Two track records are the same track exactly
//! when their paths are equal.

use vstd::prelude::*;
use vstd::string::*;

use crate::paths::{
    chars_of, file_name_start, find_file_name_start, find_last_dot, last_dot, spec_extension,
    spec_file_name,
};

verus! {

/// What a running playback instance is doing.
#[derive(Clone, Copy, Debug, PartialEq, Eq, Structural)]
pub enum PlaybackState {
    Playing,
    Paused,
    Stopped,
}

/// Why a sound could not start playing.
#[derive(Clone, Copy, Debug, PartialEq, Eq, Structural)]
pub enum SoundError {
    /// The sound has no loaded engine handle.
    NotLoaded,
}

/// What a tag read from an audio file may carry. Each field is absent when
/// the file's tag does not hold it.
pub struct TagInfo {
    pub title: Option<String>,
    pub artist: Option<String>,
    pub album: Option<String>,
}

/// Which part of a tag was missing when a display name was asked of it.
#[derive(Clone, Copy, Debug, PartialEq, Eq, Structural)]
pub enum TagError {
    MissingTitle,
    MissingArtist,
    MissingAlbum,
}

/// The mathematical value of a track record.
#[verifier::ext_equal]
pub ghost struct TrackView {
    pub path: Seq<char>,
    pub name: Seq<char>,
    pub sample_rate: u32,
    pub channels: u16,
    pub duration_ms: u64,
    pub looped: bool,
    pub loaded: bool,
    pub playback: Option<PlaybackState>,
    pub bookmarks: Seq<u64>,
}

/// A high-level sound: one audio file and the state of its live handles.
/// Durations, positions and bookmarks are milliseconds.
#[derive(Debug)]
pub struct MetaSound {
    /// Location of the sound.
    pub path: String,
    /// Nice name of the sound, shown in every list.
    pub name: String,
    pub sample_rate: u32,
    pub channels: u16,
    pub duration_ms: u64,
    pub looped: bool,
    /// Whether the engine holds a loaded handle for this sound.
    pub loaded: bool,
    /// The running instance's state, or `None` when none was ever started.
    pub playback: Option<PlaybackState>,
    /// Bookmarked positions, in milliseconds.
    pub bookmarks: Vec<u64>,
}

impl View for MetaSound {
    type V = TrackView;

    open spec fn view(&self) -> TrackView {
        TrackView {
            path: self.path@,
            name: self.name@,
            sample_rate: self.sample_rate,
            channels: self.channels,
            duration_ms: self.duration_ms,
            looped: self.looped,
            loaded: self.loaded,
            playback: self.playback,
            bookmarks: self.bookmarks@,
        }
    }
}

/// Two records describe the same track exactly when their paths are equal.
pub open spec fn same_track(a: MetaSound, b: MetaSound) -> bool {
    a@.path == b@.path
}

/// Whether some entry of a track sequence is the same track as the given
/// one.
pub open spec fn queue_has_track(q: Seq<MetaSound>, sound: MetaSound) -> bool {
    exists|i: int| 0 <= i < q.len() && same_track(q[i], sound)
}

impl PartialEq for MetaSound {
    fn eq(&self, other: &Self) -> bool {
        self.path == other.path
    }
}

impl vstd::std_specs::cmp::PartialEqSpecImpl for MetaSound {
    open spec fn obeys_eq_spec() -> bool {
        true
    }

    open spec fn eq_spec(&self, other: &Self) -> bool {
        self.path@ == other.path@
    }
}

impl Eq for MetaSound {}

/// The milliseconds of a bookmark list, copied.
pub(crate) fn copy_positions(v: &Vec<u64>) -> (r: Vec<u64>)
    ensures
        r@ == v@,
{
    let mut r: Vec<u64> = Vec::new();
    let mut i: usize = 0;
    while i < v.len()
        invariant
            i <= v@.len(),
            r@ == v@.subrange(0, i as int),
        decreases v@.len() - i,
    {
        r.push(v[i]);
        i = i + 1;
        proof {
            assert(r@ =~= v@.subrange(0, i as int));
        }
    }
    proof {
        assert(r@ =~= v@);
    }
    r
}

impl Clone for MetaSound {
    fn clone(&self) -> (r: Self)
        ensures
            r@ == self@,
    {
        MetaSound {
            path: self.path.clone(),
            name: self.name.clone(),
            sample_rate: self.sample_rate,
            channels: self.channels,
            duration_ms: self.duration_ms,
            looped: self.looped,
            loaded: self.loaded,
            playback: self.playback,
            bookmarks: copy_positions(&self.bookmarks),
        }
    }
}

impl Default for MetaSound {
    /// A record with no path, no name, zero metadata and no live handles.
    fn default() -> (s: Self)
        ensures
            s@.path == Seq::<char>::empty(),
            s@.name == Seq::<char>::empty(),
            s@.sample_rate == 0,
            s@.channels == 0,
            s@.duration_ms == 0,
            !s@.looped,
            !s@.loaded,
            s@.playback is None,
            s@.bookmarks == Seq::<u64>::empty(),
    {
        MetaSound {
            path: String::new(),
            name: String::new(),
            sample_rate: 0,
            channels: 0,
            duration_ms: 0,
            looped: false,
            loaded: false,
            playback: None,
            bookmarks: Vec::new(),
        }
    }
}

/// The display name read from a complete tag: `artist - title | album`.
pub open spec fn spec_tag_name(artist: Seq<char>, title: Seq<char>, album: Seq<char>) -> Seq<
    char,
> {
    artist + " - "@ + title + " | "@ + album
}

/// A display character: `_` and `-` read as spaces.
pub open spec fn spec_display_char(c: char) -> char {
    if c == '_' || c == '-' {
        ' '
    } else {
        c
    }
}

/// A file name with `_` and `-` read as spaces.
pub open spec fn spec_display_name(s: Seq<char>) -> Seq<char> {
    s.map_values(|c: char| spec_display_char(c))
}

/// The nice name of a path: its file name with `_` and `-` read as spaces,
/// or `no path` when the path has no file name.
pub open spec fn spec_nice_name(p: Seq<char>) -> Seq<char> {
    if spec_file_name(p).len() == 0 {
        "no path"@
    } else {
        spec_display_name(spec_file_name(p))
    }
}

/// The nice name of a path, computed.
pub fn nice_name(p: &str) -> (r: String)
    ensures
        r@ == spec_nice_name(p@),
{
    let v = chars_of(p);
    let start = find_file_name_start(&v);
    proof {
        crate::paths::lemma_file_name_start_bounds(p@);
    }
    let n = v.len();
    if start == n {
        return "no path".to_owned();
    }
    let mut out = String::new();
    let mut i = start;
    proof {
        assert(out@ =~= spec_display_name(p@.subrange(start as int, start as int)));
    }
    while i < n
        invariant
            v@ == p@,
            n == p@.len(),
            start == file_name_start(p@),
            start <= i <= n,
            out@ == spec_display_name(p@.subrange(start as int, i as int)),
        decreases n - i,
    {
        let c = v[i];
        if c == '_' || c == '-' {
            out.append(" ");
        } else {
            let piece = p.substring_char(i, i + 1);
            out.append(piece);
        }
        i = i + 1;
        proof {
            reveal_strlit(" ");
            assert(out@ =~= spec_display_name(p@.subrange(start as int, i as int)));
        }
    }
    proof {
        assert(p@.subrange(start as int, n as int) == spec_file_name(p@));
        assert(out@ == spec_nice_name(p@));
    }
    out
}

/// The extensions the player accepts.
pub open spec fn spec_supported_ext(e: Seq<char>) -> bool {
    ||| e == seq!['m', 'p', '3']
    ||| e == seq!['m', '4', 'a']
    ||| e == seq!['o', 'g', 'g']
    ||| e == seq!['f', 'l', 'a', 'c']
    ||| e == seq!['w', 'a', 'v']
}

/// Whether a path names a file the player accepts: its extension is one of
/// mp3, m4a, ogg, flac, wav.
pub open spec fn spec_is_supported(p: Seq<char>) -> bool {
    match spec_extension(p) {
        Some(e) => spec_supported_ext(e),
        None => false,
    }
}

impl MetaSound {
    /// This record pointed at a new path, named by the path's nice name.
    /// Everything else is kept.
    pub fn with_path(&self, path: &str) -> (s: Self)
        ensures
            s@ == (TrackView { path: path@, name: spec_nice_name(path@), ..self@ }),
    {
        MetaSound {
            path: path.to_owned(),
            name: nice_name(path),
            sample_rate: self.sample_rate,
            channels: self.channels,
            duration_ms: self.duration_ms,
            looped: self.looped,
            loaded: self.loaded,
            playback: self.playback,
            bookmarks: copy_positions(&self.bookmarks),
        }
    }

    /// Whether the path's extension is one the player accepts.
    pub fn is_supported(&self) -> (r: bool)
        ensures
            r == spec_is_supported(self@.path),
    {
        let v = chars_of(self.path.as_str());
        let start = find_file_name_start(&v);
        proof {
            crate::paths::lemma_file_name_start_bounds(v@);
        }
        let d = find_last_dot(&v, start);
        let ghost f = spec_file_name(self.path@);
        proof {
            assert(f =~= v@.subrange(start as int, v@.len() as int));
        }
        match d {
            None => {
                proof {
                    assert(last_dot(f) == -1);
                }
                false
            },
            Some(j) => {
                proof {
                    assert(last_dot(f) == j - start);
                }
                if j == start {
                    proof {
                        assert(spec_extension(self.path@) is None);
                    }
                    false
                } else {
                    let n = v.len();
                    let ghost e = f.subrange(last_dot(f) + 1, f.len() as int);
                    proof {
                        assert(spec_extension(self.path@) == Some(e));
                        assert(e.len() == n - (j + 1));
                        assert(forall|k: int|
                            0 <= k < e.len() ==> e[k] == v@[j + 1 + k]);
                    }
                    let ext_len = n - (j + 1);
                    if ext_len == 3 {
                        let c0 = v[j + 1];
                        let c1 = v[j + 2];
                        let c2 = v[j + 3];
                        let r = (c0 == 'm' && c1 == 'p' && c2 == '3') || (c0 == 'm' && c1 == '4'
                            && c2 == 'a') || (c0 == 'o' && c1 == 'g' && c2 == 'g') || (c0 == 'w'
                            && c1 == 'a' && c2 == 'v');
                        proof {
                            if r {
                                if c0 == 'm' && c1 == 'p' && c2 == '3' {
                                    assert(e =~= seq!['m', 'p', '3']);
                                } else if c0 == 'm' && c1 == '4' && c2 == 'a' {
                                    assert(e =~= seq!['m', '4', 'a']);
                                } else if c0 == 'o' && c1 == 'g' && c2 == 'g' {
                                    assert(e =~= seq!['o', 'g', 'g']);
                                } else {
                                    assert(e =~= seq!['w', 'a', 'v']);
                                }
                            } else {
                                assert(e[0] == c0 && e[1] == c1 && e[2] == c2);
                            }
                        }
                        r
                    } else if ext_len == 4 {
                        let c0 = v[j + 1];
                        let c1 = v[j + 2];
                        let c2 = v[j + 3];
                        let c3 = v[j + 4];
                        let r = c0 == 'f' && c1 == 'l' && c2 == 'a' && c3 == 'c';
                        proof {
                            if r {
                                assert(e =~= seq!['f', 'l', 'a', 'c']);
                            } else {
                                assert(e[0] == c0 && e[1] == c1 && e[2] == c2 && e[3] == c3);
                            }
                        }
                        r
                    } else {
                        false
                    }
                }
            },
        }
    }

    /// This record named from a tag: `artist - title | album`, when the tag
    /// holds all three; otherwise the first missing part, looked for in the
    /// order title, artist, album.
    pub fn load_tag(&self, tag: &TagInfo) -> (r: Result<Self, TagError>)
        ensures
            tag.title is None ==> r == Result::<MetaSound, TagError>::Err(TagError::MissingTitle),
            tag.title is Some && tag.artist is None ==> r == Result::<MetaSound, TagError>::Err(
                TagError::MissingArtist,
            ),
            tag.title is Some && tag.artist is Some && tag.album is None ==> r == Result::<
                MetaSound,
                TagError,
            >::Err(TagError::MissingAlbum),
            tag.title is Some && tag.artist is Some && tag.album is Some ==> (r matches Ok(s)
                && s@ == (TrackView {
                name: spec_tag_name(tag.artist->0@, tag.title->0@, tag.album->0@),
                ..self@
            })),
    {
        let title = match &tag.title {
            Some(t) => t,
            None => {
                return Err(TagError::MissingTitle);
            },
        };
        let artist = match &tag.artist {
            Some(a) => a,
            None => {
                return Err(TagError::MissingArtist);
            },
        };
        let album = match &tag.album {
            Some(b) => b,
            None => {
                return Err(TagError::MissingAlbum);
            },
        };
        let mut name = artist.clone();
        name.append(" - ");
        name.append(title.as_str());
        name.append(" | ");
        name.append(album.as_str());
        Ok(
            MetaSound {
                path: self.path.clone(),
                name,
                sample_rate: self.sample_rate,
                channels: self.channels,
                duration_ms: self.duration_ms,
                looped: self.looped,
                loaded: self.loaded,
                playback: self.playback,
                bookmarks: copy_positions(&self.bookmarks),
            },
        )
    }

    /// This record named from a tag when the tag is complete, and unchanged
    /// otherwise: reading a tag never fails the caller.
    pub fn try_meta(&self, tag: &TagInfo) -> (s: Self)
        ensures
            tag.title is Some && tag.artist is Some && tag.album is Some ==> s@ == (TrackView {
                name: spec_tag_name(tag.artist->0@, tag.title->0@, tag.album->0@),
                ..self@
            }),
            !(tag.title is Some && tag.artist is Some && tag.album is Some) ==> s@ == self@,
    {
        match self.load_tag(tag) {
            Ok(named) => named,
            Err(_) => self.clone(),
        }
    }

    /// This record with the engine's answer to loading it: `loaded` says
    /// whether the engine produced a handle. Everything else is kept.
    pub fn load_soundhandle(&self, loaded: bool) -> (s: Self)
        ensures
            s@ == (TrackView { loaded: loaded, ..self@ }),
    {
        MetaSound {
            path: self.path.clone(),
            name: self.name.clone(),
            sample_rate: self.sample_rate,
            channels: self.channels,
            duration_ms: self.duration_ms,
            looped: self.looped,
            loaded,
            playback: self.playback,
            bookmarks: copy_positions(&self.bookmarks),
        }
    }

    /// Start an instance of a loaded sound: the playback state becomes
    /// `Playing`. A sound that is not loaded cannot start and is unchanged.
    pub fn play(&mut self) -> (r: Result<(), SoundError>)
        ensures
            !old(self)@.loaded ==> r == Result::<(), SoundError>::Err(SoundError::NotLoaded)
                && final(self)@ == old(self)@,
            old(self)@.loaded ==> r == Result::<(), SoundError>::Ok(()) && final(self)@
                == (TrackView { playback: Some(PlaybackState::Playing), ..old(self)@ }),
    {
        if !self.loaded {
            return Err(SoundError::NotLoaded);
        }
        self.playback = Some(PlaybackState::Playing);
        Ok(())
    }

    /// Load this record anew and start it: the engine's answer carries the
    /// duration it measured, in milliseconds. When the engine produced no
    /// handle the record is left unloaded and nothing starts.
    pub fn play_load_mut(&mut self, load: Option<u64>) -> (r: Result<(), SoundError>)
        ensures
            load matches Some(d) ==> r == Result::<(), SoundError>::Ok(()) && final(self)@
                == (TrackView {
                loaded: true,
                duration_ms: d,
                playback: Some(PlaybackState::Playing),
                ..old(self)@
            }),
            load is None ==> r == Result::<(), SoundError>::Err(SoundError::NotLoaded)
                && final(self)@ == (TrackView { loaded: false, ..old(self)@ }),
    {
        match load {
            Some(d) => {
                self.loaded = true;
                self.duration_ms = d;
            },
            None => {
                self.loaded = false;
            },
        }
        self.play()
    }

    /// Stop a loaded sound: its running instance, if any, becomes `Stopped`.
    /// Without a loaded handle there is nothing to stop.
    pub fn stop(&mut self)
        ensures
            old(self)@.loaded && old(self)@.playback is Some ==> final(self)@ == (TrackView {
                playback: Some(PlaybackState::Stopped),
                ..old(self)@
            }),
            !(old(self)@.loaded && old(self)@.playback is Some) ==> final(self)@ == old(self)@,
    {
        if self.loaded && self.playback.is_some() {
            self.playback = Some(PlaybackState::Stopped);
        }
    }
}

/// The playlist.
pub type SoundQueue = Vec<MetaSound>;

/// What an ordered collection of tracks answers about its contents.
pub trait Playlist {
    /// The tracks, in order.
    spec fn tracks(&self) -> Seq<MetaSound>;

    /// Whether some entry is the same track as the given one.
    fn contains(&self, sound: &MetaSound) -> (r: bool)
        ensures
            r == queue_has_track(self.tracks(), *sound),
    ;

    /// The first index whose entry is the same track as the given one.
    fn to_index(&self, sound: &MetaSound) -> (r: Option<usize>)
        ensures
            match r {
                Some(i) => i < self.tracks().len() && same_track(self.tracks()[i as int], *sound)
                    && forall|j: int| 0 <= j < i ==> !same_track(self.tracks()[j], *sound),
                None => forall|j: int|
                    0 <= j < self.tracks().len() ==> !same_track(self.tracks()[j], *sound),
            },
    ;
}

impl Playlist for SoundQueue {
    open spec fn tracks(&self) -> Seq<MetaSound> {
        self@
    }

    fn contains(&self, sound: &MetaSound) -> (r: bool) {
        let n = self.len();
        let mut i: usize = 0;
        while i < n
            invariant
                n == self@.len(),
                i <= n,
                forall|j: int| 0 <= j < i ==> !same_track(self@[j], *sound),
            decreases n - i,
        {
            if self[i] == *sound {
                proof {
                    assert(0 <= i < self.tracks().len() && same_track(
                        self.tracks()[i as int],
                        *sound,
                    ));
                    assert(queue_has_track(self.tracks(), *sound));
                }
                return true;
            }
            i = i + 1;
        }
        false
    }

    fn to_index(&self, sound: &MetaSound) -> (r: Option<usize>) {
        let n = self.len();
        let mut i: usize = 0;
        while i < n
            invariant
                n == self@.len(),
                i <= n,
                forall|j: int| 0 <= j < i ==> !same_track(self@[j], *sound),
            decreases n - i,
        {
            if self[i] == *sound {
                proof {
                    assert(same_track(self@[i as int], *sound));
                }
                return Some(i);
            }
            i = i + 1;
        }
        None
    }
}

} // verus!
