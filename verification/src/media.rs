//! Media probing abstraction. Callers depend only on `MediaProber` and the
//! `MediaMetadata` it returns, never on a specific backend. `StubProber`
//! needs no native library: it infers the container from the extension and
//! assumes the file plays.

use vstd::prelude::*;
use std::time::Duration;
use crate::error::DeskemyError;
use crate::scanner::{lower_extension, lower_extension_chars};
use crate::text::{chars_of, string_of};


verus! {

#[derive(Debug, Clone)]
pub struct VideoTrack {
    pub id: i64,
    pub codec: String,
    pub width: Option<u32>,
    pub height: Option<u32>,
}

#[derive(Debug, Clone)]
pub struct AudioTrack {
    pub id: i64,
    pub codec: String,
    pub lang: Option<String>,
    pub channels: Option<u32>,
}

#[derive(Debug, Clone)]
pub struct SubtitleTrack {
    pub id: i64,
    pub lang: Option<String>,
    pub title: Option<String>,
}

#[derive(Debug)]
pub struct Chapter {
    pub index: usize,
    pub title: Option<String>,
    pub start: Duration,
}

/// The single object every `MediaProber` implementation returns.
#[derive(Debug)]
pub struct MediaMetadata {
    /// `None` when the backend can't determine it (e.g. the stub prober).
    pub duration: Option<Duration>,
    /// `false` when the file exists but can't be opened/decoded (corrupted).
    pub playable: bool,
    pub video_tracks: Vec<VideoTrack>,
    pub audio_tracks: Vec<AudioTrack>,
    pub subtitle_tracks: Vec<SubtitleTrack>,
    pub chapters: Vec<Chapter>,
    pub container: String,
    pub video_codec: Option<String>,
    /// Path of an extracted thumbnail, if the backend made one.
    pub thumbnail: Option<String>,
}

/// A media backend: reads the metadata of the video at a path.
pub trait MediaProber {
    /// Whether `r` is an outcome this backend may report for the video at
    /// `path`.
    spec fn probed(&self, path: Seq<char>, r: Result<MediaMetadata, DeskemyError>) -> bool;

    fn probe(&self, path: &str) -> (r: Result<MediaMetadata, DeskemyError>)
        ensures
            self.probed(path@, r),
    ;
}

/// What the placeholder backend reports for a path: the lower-cased
/// extension as container, playable, and nothing else known.
pub open spec fn stub_metadata(path: Seq<char>, m: MediaMetadata) -> bool {
    &&& m.duration is None
    &&& m.playable
    &&& m.video_tracks@.len() == 0
    &&& m.audio_tracks@.len() == 0
    &&& m.subtitle_tracks@.len() == 0
    &&& m.chapters@.len() == 0
    &&& m.container@ == lower_extension(path)
    &&& m.video_codec is None
    &&& m.thumbnail is None
}

/// Placeholder prober: container from the lower-cased extension, playable,
/// no duration, tracks or chapters.
pub struct StubProber;

impl MediaProber for StubProber {
    open spec fn probed(&self, path: Seq<char>, r: Result<MediaMetadata, DeskemyError>) -> bool {
        r matches Ok(m) && stub_metadata(path, m)
    }

    fn probe(&self, path: &str) -> (r: Result<MediaMetadata, DeskemyError>) {
        let v = chars_of(path);
        let ext = lower_extension_chars(&v);
        Ok(
            MediaMetadata {
                duration: None,
                playable: true,
                video_tracks: Vec::new(),
                audio_tracks: Vec::new(),
                subtitle_tracks: Vec::new(),
                chapters: Vec::new(),
                container: string_of(&ext),
                video_codec: None,
                thumbnail: None,
            },
        )
    }
}

/// The container name a lecture records: `None` when the backend reported
/// none (an empty name).
pub fn container_of(meta: &MediaMetadata) -> (r: Option<String>)
    ensures
        match r {
            Some(c) => meta.container@.len() > 0 && c@ == meta.container@,
            None => meta.container@.len() == 0,
        },
{
    if meta.container.as_str().is_empty() {
        None
    } else {
        Some(meta.container.clone())
    }
}

/// One track as a backend describes it, before it is typed.
#[derive(Debug, Clone)]
pub struct RawTrack {
    /// "video" | "audio" | "sub".
    pub kind: String,
    pub id: i64,
    pub lang: Option<String>,
    pub title: Option<String>,
    pub codec: String,
    pub width: Option<i64>,
    pub height: Option<i64>,
    pub channels: Option<i64>,
}

pub open spec fn opt_u32(o: Option<i64>) -> Option<u32> {
    match o {
        Some(v) => Some(v as u32),
        None => None,
    }
}

fn opt_u32_exec(o: Option<i64>) -> (r: Option<u32>)
    ensures
        r == opt_u32(o),
{
    match o {
        Some(v) => Some(v as u32),
        None => None,
    }
}

pub open spec fn video_of(t: RawTrack) -> (int, Seq<char>, Option<u32>, Option<u32>) {
    (t.id as int, t.codec@, opt_u32(t.width), opt_u32(t.height))
}

pub open spec fn audio_of(t: RawTrack) -> (int, Seq<char>, Option<String>, Option<u32>) {
    (t.id as int, t.codec@, t.lang, opt_u32(t.channels))
}

pub open spec fn sub_of(t: RawTrack) -> (int, Option<String>, Option<String>) {
    (t.id as int, t.lang, t.title)
}

/// The raw tracks of the given kind among the first `n`, in order.
pub open spec fn raw_of_kind(ts: Seq<RawTrack>, kind: Seq<char>, n: int) -> Seq<RawTrack>
    decreases n,
{
    if n <= 0 || n > ts.len() {
        Seq::empty()
    } else if ts[n - 1].kind@ == kind {
        raw_of_kind(ts, kind, n - 1).push(ts[n - 1])
    } else {
        raw_of_kind(ts, kind, n - 1)
    }
}

/// Sort a backend's tracks into video, audio and subtitle tracks, each in
/// the backend's order; other kinds are dropped. Sizes and channel counts
/// are taken as `u32` (`as`).
pub fn typed_tracks(raw: Vec<RawTrack>) -> (r: (Vec<VideoTrack>, Vec<AudioTrack>, Vec<SubtitleTrack>))
    ensures
        r.0@.map_values(|v: VideoTrack| (v.id as int, v.codec@, v.width, v.height)) == raw_of_kind(
            raw@,
            "video"@,
            raw@.len() as int,
        ).map_values(|t: RawTrack| video_of(t)),
        r.1@.map_values(|a: AudioTrack| (a.id as int, a.codec@, a.lang, a.channels)) == raw_of_kind(
            raw@,
            "audio"@,
            raw@.len() as int,
        ).map_values(|t: RawTrack| audio_of(t)),
        r.2@.map_values(|s: SubtitleTrack| (s.id as int, s.lang, s.title)) == raw_of_kind(
            raw@,
            "sub"@,
            raw@.len() as int,
        ).map_values(|t: RawTrack| sub_of(t)),
{
    let video_name = "video".to_owned();
    let audio_name = "audio".to_owned();
    let sub_name = "sub".to_owned();
    proof {
        reveal_strlit("video");
        reveal_strlit("audio");
        reveal_strlit("sub");
        assert("audio"@.len() != "sub"@.len());
        assert("audio"@[0] != "video"@[0]);
        assert("sub"@.len() != "video"@.len());
    }
    let ghost all = raw@;
    let total = raw.len();
    let mut rest = raw;
    let mut videos: Vec<VideoTrack> = Vec::new();
    let mut audios: Vec<AudioTrack> = Vec::new();
    let mut subs: Vec<SubtitleTrack> = Vec::new();
    let mut i: usize = 0;
    while rest.len() > 0
        invariant
            i <= all.len() == total,
            rest@ == all.subrange(i as int, all.len() as int),
            video_name@ == "video"@,
            audio_name@ == "audio"@,
            sub_name@ == "sub"@,
            "audio"@ != "sub"@,
            "audio"@ != "video"@,
            "sub"@ != "video"@,
            videos@.map_values(|v: VideoTrack| (v.id as int, v.codec@, v.width, v.height))
                == raw_of_kind(all, "video"@, i as int).map_values(|t: RawTrack| video_of(t)),
            audios@.map_values(|a: AudioTrack| (a.id as int, a.codec@, a.lang, a.channels))
                == raw_of_kind(all, "audio"@, i as int).map_values(|t: RawTrack| audio_of(t)),
            subs@.map_values(|s: SubtitleTrack| (s.id as int, s.lang, s.title)) == raw_of_kind(
                all,
                "sub"@,
                i as int,
            ).map_values(|t: RawTrack| sub_of(t)),
        decreases rest@.len(),
    {
        let t = rest.remove(0);
        assert(t == all[i as int]);
        let ghost vb = videos@;
        let ghost ab = audios@;
        let ghost sb = subs@;
        if t.kind == video_name {
            let w = opt_u32_exec(t.width);
            let h = opt_u32_exec(t.height);
            videos.push(VideoTrack { id: t.id, codec: t.codec, width: w, height: h });
            assert(videos@.map_values(|v: VideoTrack| (v.id as int, v.codec@, v.width, v.height))
                =~= vb.map_values(|v: VideoTrack| (v.id as int, v.codec@, v.width, v.height)).push(
                video_of(t),
            ));
            assert(raw_of_kind(all, "video"@, i + 1).map_values(|t: RawTrack| video_of(t))
                =~= raw_of_kind(all, "video"@, i as int).map_values(|t: RawTrack| video_of(t)).push(
                video_of(t),
            ));
        } else if t.kind == audio_name {
            let c = opt_u32_exec(t.channels);
            audios.push(AudioTrack { id: t.id, codec: t.codec, lang: t.lang, channels: c });
            assert(audios@.map_values(|a: AudioTrack| (a.id as int, a.codec@, a.lang, a.channels))
                =~= ab.map_values(|a: AudioTrack| (a.id as int, a.codec@, a.lang, a.channels)).push(
                audio_of(t),
            ));
            assert(raw_of_kind(all, "audio"@, i + 1).map_values(|t: RawTrack| audio_of(t))
                =~= raw_of_kind(all, "audio"@, i as int).map_values(|t: RawTrack| audio_of(t)).push(
                audio_of(t),
            ));
        } else if t.kind == sub_name {
            subs.push(SubtitleTrack { id: t.id, lang: t.lang, title: t.title });
            assert(subs@.map_values(|s: SubtitleTrack| (s.id as int, s.lang, s.title)) =~= sb.map_values(
                |s: SubtitleTrack| (s.id as int, s.lang, s.title),
            ).push(sub_of(t)));
            assert(raw_of_kind(all, "sub"@, i + 1).map_values(|t: RawTrack| sub_of(t))
                =~= raw_of_kind(all, "sub"@, i as int).map_values(|t: RawTrack| sub_of(t)).push(
                sub_of(t),
            ));
        }
        i += 1;
        assert(rest@ =~= all.subrange(i as int, all.len() as int));
    }
    (videos, audios, subs)
}

} // verus!
