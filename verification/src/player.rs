//! The player's decisions: which lecture of the course playlist is current,
//! where `next`/`prev` and the end of a file lead, which remembered track
//! selections to apply, and how the tracks mpv reports are presented. Driving
//! mpv and the window happens outside the library.

use vstd::prelude::*;
use crate::error::DeskemyError;
use crate::scanner::file_name_of;
use crate::text::{chars_of, string_of};
use crate::scanner::file_name_chars;

verus! {

// ---------------------------------------------------------------------------
// Playlist
// ---------------------------------------------------------------------------

#[derive(Debug, Clone)]
pub struct PlaylistItem {
    pub lecture_id: String,
    pub path: String,
}

/// The ordered playable lectures of the open course and the current one.
#[derive(Debug)]
pub struct Playlist {
    pub course_id: String,
    pub items: Vec<PlaylistItem>,
    pub index: usize,
}

/// What the end of a file leads to.
#[derive(Debug, Clone, Copy, PartialEq, Eq, Structural)]
pub enum EndAction {
    /// The next lecture became current and should be loaded.
    Advanced,
    /// Playback stays on the finished lecture, paused at its end.
    Stopped,
}

pub open spec fn ids(items: Seq<PlaylistItem>) -> Seq<Seq<char>> {
    items.map_values(|it: PlaylistItem| it.lecture_id@)
}

/// Position of the first item with lecture id `id` at or after `k`, or the
/// length when there is none.
pub open spec fn first_with_id(items: Seq<PlaylistItem>, id: Seq<char>, k: int) -> int
    decreases items.len() - k,
{
    if k < 0 || k >= items.len() {
        items.len() as int
    } else if items[k].lecture_id@ == id {
        k
    } else {
        first_with_id(items, id, k + 1)
    }
}

/// The index a playlist opens at: the lecture's position, or the first item
/// when the lecture is not in it.
pub open spec fn open_index(items: Seq<PlaylistItem>, id: Seq<char>) -> int {
    let p = first_with_id(items, id, 0);
    if p < items.len() {
        p
    } else {
        0
    }
}

/// Where a step of `delta` from `index` leads: `None` when it leaves the
/// playlist. The index is taken as an `i32` as the player does.
pub open spec fn step_target(index: usize, delta: i32, len: nat) -> Option<int> {
    let n = (index as i32) as int + delta as int;
    if n < 0 || n >= len {
        None
    } else {
        Some(n)
    }
}

impl Playlist {
    /// An empty playlist.
    pub fn new() -> (r: Self)
        ensures
            r.course_id@.len() == 0,
            r.items@.len() == 0,
            r.index == 0,
    {
        Playlist { course_id: String::new(), items: Vec::new(), index: 0 }
    }

    /// Replace the playlist with a course's items, current at `lecture_id`
    /// (or at the first item when it is not among them).
    pub fn open(&mut self, course_id: String, items: Vec<PlaylistItem>, lecture_id: &str)
        ensures
            final(self).course_id == course_id,
            final(self).items == items,
            final(self).index == open_index(items@, lecture_id@),
    {
        let id = lecture_id.to_owned();
        let mut k: usize = 0;
        while k < items.len() && !(items[k].lecture_id == id)
            invariant
                k <= items@.len(),
                id@ == lecture_id@,
                first_with_id(items@, lecture_id@, 0) == first_with_id(items@, lecture_id@, k as int),
            decreases items@.len() - k,
        {
            k += 1;
        }
        self.course_id = course_id;
        self.index = if k < items.len() {
            k
        } else {
            0
        };
        self.items = items;
    }

    /// Move by `delta` (`+1` next, `-1` previous). A step that would leave
    /// the playlist changes nothing; returns whether the index moved.
    pub fn step(&mut self, delta: i32) -> (moved: bool)
        requires
            i32::MIN <= (old(self).index as i32) as int + delta as int <= i32::MAX,
        ensures
            final(self).course_id == old(self).course_id,
            final(self).items == old(self).items,
            moved == step_target(old(self).index, delta, old(self).items@.len()).is_some(),
            final(self).index == match step_target(old(self).index, delta, old(self).items@.len()) {
                Some(n) => n,
                None => old(self).index as int,
            },
    {
        let n = self.index as i32 + delta;
        if n < 0 || n as usize >= self.items.len() {
            return false;
        }
        self.index = n as usize;
        true
    }

    /// The current item; an error for an empty playlist.
    pub fn current(&self) -> (r: Result<&PlaylistItem, DeskemyError>)
        ensures
            match r {
                Ok(it) => self.index < self.items@.len() && *it == self.items@[self.index as int],
                Err(e) => self.index >= self.items@.len() && (e matches DeskemyError::Other(m)
                    && m@ == "empty playlist"@),
            },
    {
        if self.index < self.items.len() {
            Ok(&self.items[self.index])
        } else {
            Err(DeskemyError::Other("empty playlist".to_owned()))
        }
    }

    /// The end of the current file: with autoplay and a next item, advance
    /// to it; otherwise stay.
    pub fn on_ended(&mut self, autoplay: bool) -> (a: EndAction)
        ensures
            final(self).course_id == old(self).course_id,
            final(self).items == old(self).items,
            (autoplay && old(self).index + 1 < old(self).items@.len()) ==> a == EndAction::Advanced
                && final(self).index == old(self).index + 1,
            !(autoplay && old(self).index + 1 < old(self).items@.len()) ==> a == EndAction::Stopped
                && final(self).index == old(self).index,
    {
        if autoplay && self.index < self.items.len() && self.index + 1 < self.items.len() {
            self.index = self.index + 1;
            EndAction::Advanced
        } else {
            EndAction::Stopped
        }
    }

    /// The course whose preferences a change is remembered for: none while
    /// nothing is loaded.
    pub fn remembered_course(&self) -> (r: Option<&String>)
        ensures
            match r {
                Some(c) => self.items@.len() > 0 && *c == self.course_id,
                None => self.items@.len() == 0,
            },
    {
        if self.items.len() == 0 {
            None
        } else {
            Some(&self.course_id)
        }
    }
}

/// Stepping forward and then back returns to the same lecture.
pub proof fn law_next_then_prev_returns(index: usize, len: nat)
    requires
        index < len,
        index + 1 < len,
        len <= i32::MAX,
    ensures
        step_target(index, 1i32, len) == Some(index + 1),
        step_target((index + 1) as usize, -1i32, len) == Some(index as int),
{
    assert((index as i32) as int == index as int) by (bit_vector)
        requires
            index < 0x7fff_ffffusize,
    ;
    assert(((index + 1) as usize as i32) as int == index + 1) by (bit_vector)
        requires
            index < 0x7fff_fffeusize,
    ;
}

proof fn lemma_first_with_id(items: Seq<PlaylistItem>, id: Seq<char>, k: int)
    requires
        0 <= k <= items.len(),
    ensures
        k <= first_with_id(items, id, k) <= items.len(),
    decreases items.len() - k,
{
    if k < items.len() && items[k].lecture_id@ != id {
        lemma_first_with_id(items, id, k + 1);
    }
}

/// A non-empty playlist is always on one of its items: opening lands on one
/// and a step either lands on one or leaves the index where it was.
pub proof fn law_index_stays_in_playlist(
    items: Seq<PlaylistItem>,
    id: Seq<char>,
    index: usize,
    delta: i32,
)
    requires
        items.len() > 0,
    ensures
        0 <= open_index(items, id) < items.len(),
        step_target(index, delta, items.len()) matches Some(n) ==> 0 <= n < items.len(),
{
    lemma_first_with_id(items, id, 0);
}

// ---------------------------------------------------------------------------
// Tracks
// ---------------------------------------------------------------------------

#[derive(Debug, Clone)]
pub struct TrackInfo {
    pub id: i64,
    /// "audio" | "sub" (as mpv names the track type).
    pub kind: String,
    pub lang: Option<String>,
    pub title: Option<String>,
    pub codec: Option<String>,
    pub selected: bool,
    /// For external tracks (e.g. sidecar .srt): the file's base name.
    pub filename: Option<String>,
}

/// An mpv flag property: `"yes"` is true, any other reading false, and a
/// missing reading keeps `default`.
pub open spec fn flag_spec(v: Option<Seq<char>>, default: bool) -> bool {
    match v {
        Some(s) => s == "yes"@,
        None => default,
    }
}

/// Reads an mpv flag property value.
pub fn flag_or(v: &Option<String>, default: bool) -> (r: bool)
    ensures
        r == flag_spec(
            match v {
                Some(s) => Some(s@),
                None => None,
            },
            default,
        ),
{
    match v {
        Some(s) => {
            let yes = "yes".to_owned();
            *s == yes
        },
        None => default,
    }
}

pub open spec fn opt_chars(o: Option<String>) -> Option<Seq<char>> {
    match o {
        Some(s) => Some(s@),
        None => None,
    }
}

/// One track as mpv describes it; `external` is the path of an external
/// track's file, of which only the base name is kept.
pub fn track_info(
    id: Option<i64>,
    kind: Option<String>,
    lang: Option<String>,
    title: Option<String>,
    codec: Option<String>,
    selected: Option<String>,
    external: Option<String>,
) -> (t: TrackInfo)
    ensures
        t.id == match id {
            Some(i) => i,
            None => 0,
        },
        t.kind@ == match kind {
            Some(k) => k@,
            None => Seq::<char>::empty(),
        },
        t.lang == lang,
        t.title == title,
        t.codec == codec,
        t.selected == flag_spec(opt_chars(selected), false),
        opt_chars(t.filename) == match external {
            Some(p) => file_name_of(p@),
            None => None,
        },
{
    let sel = flag_or(&selected, false);
    let filename = match external {
        Some(p) => {
            let v = chars_of(p.as_str());
            match file_name_chars(&v) {
                Some(n) => Some(string_of(&n)),
                None => None,
            }
        },
        None => None,
    };
    TrackInfo {
        id: match id {
            Some(i) => i,
            None => 0,
        },
        kind: match kind {
            Some(k) => k,
            None => String::new(),
        },
        lang,
        title,
        codec,
        selected: sel,
        filename,
    }
}

/// The tracks among the first `n` of the given kind, in order.
pub open spec fn tracks_of_kind(ts: Seq<TrackInfo>, kind: Seq<char>, n: int) -> Seq<TrackInfo>
    decreases n,
{
    if n <= 0 {
        Seq::empty()
    } else if ts[n - 1].kind@ == kind {
        tracks_of_kind(ts, kind, n - 1).push(ts[n - 1])
    } else {
        tracks_of_kind(ts, kind, n - 1)
    }
}

/// Audio tracks then subtitle tracks, each in mpv's order; tracks of any
/// other kind (video) are left out.
pub fn split_tracks(tracks: Vec<TrackInfo>) -> (r: (Vec<TrackInfo>, Vec<TrackInfo>))
    ensures
        r.0@ == tracks_of_kind(tracks@, "audio"@, tracks@.len() as int),
        r.1@ == tracks_of_kind(tracks@, "sub"@, tracks@.len() as int),
{
    let audio_name = "audio".to_owned();
    let sub_name = "sub".to_owned();
    let mut audio: Vec<TrackInfo> = Vec::new();
    let mut subs: Vec<TrackInfo> = Vec::new();
    let ghost all = tracks@;
    let total = tracks.len();
    let mut rest = tracks;
    let mut i: usize = 0;
    proof {
        reveal_strlit("audio");
        reveal_strlit("sub");
        assert("audio"@.len() != "sub"@.len());
    }
    while rest.len() > 0
        invariant
            i <= all.len() == total,
            "audio"@ != "sub"@,
            rest@ == all.subrange(i as int, all.len() as int),
            audio_name@ == "audio"@,
            sub_name@ == "sub"@,
            audio@ == tracks_of_kind(all, "audio"@, i as int),
            subs@ == tracks_of_kind(all, "sub"@, i as int),
        decreases rest@.len(),
    {
        let t = rest.remove(0);
        assert(t == all[i as int]);
        if t.kind == audio_name {
            audio.push(t);
        } else if t.kind == sub_name {
            subs.push(t);
        }
        i += 1;
        assert(rest@ =~= all.subrange(i as int, all.len() as int));
    }
    (audio, subs)
}

// ---------------------------------------------------------------------------
// Remembered track selections
// ---------------------------------------------------------------------------

/// A course's remembered track selections (the playback speed is kept
/// beside them, outside the library).
#[derive(Debug, Clone, Copy, PartialEq, Eq, Structural)]
pub struct TrackPrefs {
    /// The subtitle track last selected.
    pub subtitle_id: Option<i64>,
    /// Whether subtitles were on.
    pub subtitles_on: bool,
    pub audio_id: Option<i64>,
}

/// What to do with the subtitle track when a lecture loads.
#[derive(Debug, Clone, Copy, PartialEq, Eq, Structural)]
pub enum SubtitleChoice {
    /// Leave mpv's own choice.
    Keep,
    /// Turn subtitles off.
    Off,
    /// Select this track.
    Select(i64),
}

/// No selection recorded yet.
pub fn no_prefs() -> (p: TrackPrefs)
    ensures
        p == (TrackPrefs { subtitle_id: None, subtitles_on: false, audio_id: None }),
{
    TrackPrefs { subtitle_id: None, subtitles_on: false, audio_id: None }
}

pub open spec fn remember_subtitle_spec(p: TrackPrefs, sid: Option<i64>) -> TrackPrefs {
    match sid {
        Some(id) => TrackPrefs { subtitle_id: Some(id), subtitles_on: true, ..p },
        None => TrackPrefs { subtitles_on: false, ..p },
    }
}

pub open spec fn remember_audio_spec(p: TrackPrefs, aid: Option<i64>) -> TrackPrefs {
    TrackPrefs { audio_id: aid, ..p }
}

/// Remember a subtitle selection: a track records it and turns subtitles
/// on; `None` turns them off and keeps the last track.
pub fn remember_subtitle(p: TrackPrefs, sid: Option<i64>) -> (r: TrackPrefs)
    ensures
        r == remember_subtitle_spec(p, sid),
{
    match sid {
        Some(id) => TrackPrefs { subtitle_id: Some(id), subtitles_on: true, audio_id: p.audio_id },
        None => TrackPrefs { subtitle_id: p.subtitle_id, subtitles_on: false, audio_id: p.audio_id },
    }
}

/// Remember an audio selection.
pub fn remember_audio(p: TrackPrefs, aid: Option<i64>) -> (r: TrackPrefs)
    ensures
        r == remember_audio_spec(p, aid),
{
    TrackPrefs { subtitle_id: p.subtitle_id, subtitles_on: p.subtitles_on, audio_id: aid }
}

pub open spec fn subtitle_choice_spec(p: TrackPrefs) -> SubtitleChoice {
    if p.subtitles_on {
        match p.subtitle_id {
            Some(s) => SubtitleChoice::Select(s),
            None => SubtitleChoice::Keep,
        }
    } else {
        SubtitleChoice::Off
    }
}

/// The selections to apply when a lecture of the course loads: the audio
/// track to select (if any) and the subtitle choice. Without recorded
/// preferences mpv's defaults stay.
pub fn remembered_tracks(prefs: Option<TrackPrefs>) -> (r: (Option<i64>, SubtitleChoice))
    ensures
        r == match prefs {
            Some(p) => (p.audio_id, subtitle_choice_spec(p)),
            None => (None, SubtitleChoice::Keep),
        },
{
    match prefs {
        Some(p) => {
            let sub = if p.subtitles_on {
                match p.subtitle_id {
                    Some(s) => SubtitleChoice::Select(s),
                    None => SubtitleChoice::Keep,
                }
            } else {
                SubtitleChoice::Off
            };
            (p.audio_id, sub)
        },
        None => (None, SubtitleChoice::Keep),
    }
}

/// What the player remembers is what the next load applies: the last
/// subtitle selection (a track, or off) and the last audio selection, each
/// unaffected by a later change of the other.
pub proof fn law_remembered_selection_is_restored(p: TrackPrefs, sid: Option<i64>, aid: Option<i64>)
    ensures
        ({
            let q = remember_audio_spec(remember_subtitle_spec(p, sid), aid);
            let q2 = remember_subtitle_spec(remember_audio_spec(p, aid), sid);
            let expected = match sid {
                Some(id) => SubtitleChoice::Select(id),
                None => SubtitleChoice::Off,
            };
            &&& subtitle_choice_spec(q) == expected && q.audio_id == aid
            &&& subtitle_choice_spec(q2) == expected && q2.audio_id == aid
        }),
{
}

} // verus!
