//! Structuring a scanned course folder: sections and ordered, cleaned
//! lectures, and where subtitles and resource files belong.
//!
//! The rules, tuned against real course downloads:
//! - immediate subfolders are sections; loose root videos form "Introduction"
//! - resources attach to the lecture sharing their stem, else their leading
//!   number, in the same folder
//! - subtitles attach to the video whose stem prefixes the subtitle name
//!
//! Reading files, generating ids and writing the database happen outside
//! the library, on the plan computed here.

use vstd::prelude::*;
use crate::text::{chars_eq, chars_of, eq_chars, lowercase, string_of, to_lowercase};
use crate::structure::{
    clean_title_chars, clean_title_spec, leading_number_chars, leading_number_spec, title_stem,
};
use crate::scanner::{file_name_of, FileKind, ScannedFile, ScannedTree};
use crate::ordering::{is_stable_order, key_view, stable_order, view_le, view_lt, SortKey};
use crate::media::{MediaMetadata, MediaProber};
use crate::error::DeskemyError;
use crate::hashing::{content_hash_of, content_hash_spec};

verus! {

// ---------------------------------------------------------------------------
// Section keys
// ---------------------------------------------------------------------------

pub open spec fn rel_views(r: Seq<String>) -> Seq<Seq<char>> {
    r.map_values(|s: String| s@)
}

/// The top-level folder of a file relative to the course root (empty for
/// files in the root itself).
pub open spec fn section_key_of(f: ScannedFile) -> Seq<char> {
    if f.rel_dir@.len() > 0 {
        f.rel_dir@[0]@
    } else {
        Seq::empty()
    }
}

pub open spec fn is_video(f: ScannedFile) -> bool {
    f.kind == FileKind::Video
}

fn section_key_chars(f: &ScannedFile) -> (r: Vec<char>)
    ensures
        r@ == section_key_of(*f),
{
    if f.rel_dir.len() > 0 {
        chars_of(f.rel_dir[0].as_str())
    } else {
        Vec::new()
    }
}

/// The section a file belongs to: its top-level folder ("" = course root).
pub fn section_key(f: &ScannedFile) -> (r: String)
    ensures
        r@ == section_key_of(*f),
{
    let k = section_key_chars(f);
    string_of(&k)
}

/// Order of sections: the course root ("Introduction") first; then numbered
/// sections ascending; then unnumbered ones, by lower-cased name.
pub open spec fn section_order(key: Seq<char>) -> (int, int, Seq<char>) {
    if key.len() == 0 {
        (0, 0, Seq::empty())
    } else {
        (
            1,
            match leading_number_spec(key) {
                Some(n) => n,
                None => i64::MAX as int,
            },
            lowercase(key),
        )
    }
}

fn section_order_key(key: &Vec<char>) -> (r: SortKey)
    ensures
        key_view(r) == section_order(key@),
{
    if key.len() == 0 {
        SortKey { rank: 0, number: 0, text: Vec::new() }
    } else {
        let n = match leading_number_chars(key) {
            Some(n) => n,
            None => i64::MAX,
        };
        SortKey { rank: 1, number: n, text: to_lowercase(key) }
    }
}

/// Introduction (root, empty key) first; then numbered sections ascending;
/// then unnumbered named sections alphabetically.
pub fn section_sort_key(key: &str) -> (r: (u8, i64, String))
    ensures
        (r.0 as int, r.1 as int, r.2@) == section_order(key@),
{
    let v = chars_of(key);
    let k = section_order_key(&v);
    (k.rank, k.number, string_of(&k.text))
}

/// The order of lectures within a section: `sort_key` of the file name.
pub open spec fn lecture_order(name: Seq<char>) -> (int, int, Seq<char>) {
    match leading_number_spec(name) {
        Some(n) => (0, n, lowercase(name)),
        None => (1, 0, lowercase(name)),
    }
}

fn lecture_order_key(name: &Vec<char>) -> (r: SortKey)
    ensures
        key_view(r) == lecture_order(name@),
{
    let low = to_lowercase(name);
    match leading_number_chars(name) {
        Some(n) => SortKey { rank: 0, number: n, text: low },
        None => SortKey { rank: 1, number: 0, text: low },
    }
}

/// Some video file has this section key.
pub open spec fn is_video_key(files: Seq<ScannedFile>, k: Seq<char>) -> bool {
    exists|i: int| 0 <= i < files.len() && is_video(files[i]) && section_key_of(files[i]) == k
}

/// Distinct section keys of the video files, in order of first appearance.
fn video_section_keys(files: &Vec<ScannedFile>) -> (keys: Vec<Vec<char>>)
    ensures
        forall|p: int, q: int| 0 <= p < q < keys.len() ==> keys@[p]@ != keys@[q]@,
        forall|p: int| 0 <= p < keys.len() ==> is_video_key(files@, #[trigger] keys@[p]@),
        forall|i: int|
            0 <= i < files.len() && is_video(#[trigger] files@[i]) ==> exists|p: int|
                0 <= p < keys.len() && keys@[p]@ == section_key_of(files@[i]),
{
    let mut keys: Vec<Vec<char>> = Vec::new();
    let mut i: usize = 0;
    while i < files.len()
        invariant
            i <= files.len(),
            forall|p: int, q: int| 0 <= p < q < keys.len() ==> keys@[p]@ != keys@[q]@,
            forall|p: int| 0 <= p < keys.len() ==> is_video_key(files@, #[trigger] keys@[p]@),
            forall|j: int|
                0 <= j < i && is_video(#[trigger] files@[j]) ==> exists|p: int|
                    0 <= p < keys.len() && keys@[p]@ == section_key_of(files@[j]),
        decreases files.len() - i,
    {
        if files[i].kind == FileKind::Video {
            let k = section_key_chars(&files[i]);
            let mut found = false;
            let mut p: usize = 0;
            while p < keys.len()
                invariant
                    p <= keys.len(),
                    found ==> exists|q: int| 0 <= q < keys.len() && keys@[q]@ == k@,
                    !found ==> forall|q: int| 0 <= q < p ==> keys@[q]@ != k@,
                decreases keys.len() - p,
            {
                if chars_eq(&keys[p], &k) {
                    found = true;
                }
                p += 1;
            }
            if !found {
                let ghost old_keys = keys@;
                keys.push(k);
                assert(keys@[old_keys.len() as int]@ == section_key_of(files@[i as int]));
                assert forall|j: int|
                    0 <= j < i + 1 && is_video(#[trigger] files@[j]) implies exists|p: int|
                    0 <= p < keys.len() && keys@[p]@ == section_key_of(files@[j]) by {
                    if j < i {
                        let p = choose|p: int|
                            0 <= p < old_keys.len() && old_keys[p]@ == section_key_of(files@[j]);
                        assert(keys@[p] == old_keys[p]);
                    } else {
                        assert(keys@[old_keys.len() as int]@ == section_key_of(files@[j]));
                    }
                }
                assert forall|p: int| 0 <= p < keys.len() implies is_video_key(
                    files@,
                    #[trigger] keys@[p]@,
                ) by {
                    if p < old_keys.len() {
                        assert(keys@[p] == old_keys[p]);
                    } else {
                        assert(section_key_of(files@[i as int]) == keys@[p]@);
                    }
                }
            }
        }
        i += 1;
    }
    keys
}


// ---------------------------------------------------------------------------
// Planned sections and lectures
// ---------------------------------------------------------------------------

/// One lecture of the plan: a video file with its display title and place.
pub struct PlannedLecture {
    /// Index of the video in the scanned files.
    pub file: usize,
    pub title: String,
    /// Position within its section.
    pub position: usize,
    pub number: Option<i64>,
    /// File name without extension (matches sidecar files).
    pub stem: String,
    pub rel_dir: Vec<String>,
    pub path: String,
    /// Whether the video can be opened (filled in by probing).
    pub playable: bool,
    /// Content hash for rename detection (filled in by hashing).
    pub content_hash: Option<String>,
}

/// One section of the plan.
pub struct PlannedSection {
    pub key: String,
    pub title: String,
    pub position: usize,
    pub lectures: Vec<PlannedLecture>,
}

/// `Path::file_stem` of a file name, or the name itself when it has none.
pub open spec fn file_stem_spec(name: Seq<char>) -> Seq<char> {
    match file_name_of(name) {
        Some(n) => title_stem(n),
        None => name,
    }
}

pub open spec fn intro_title() -> Seq<char> {
    seq!['I', 'n', 't', 'r', 'o', 'd', 'u', 'c', 't', 'i', 'o', 'n']
}

/// A section's title: "Introduction" for loose root videos, else the
/// cleaned folder name.
pub open spec fn section_title(key: Seq<char>) -> Seq<char> {
    if key.len() == 0 {
        intro_title()
    } else {
        clean_title_spec(key)
    }
}

pub open spec fn number_matches(n: Option<i64>, s: Option<int>) -> bool {
    match n {
        Some(x) => s == Some(x as int),
        None => s is None,
    }
}

/// A planned lecture describes file `l.file` at position `k`.
pub open spec fn lecture_fits(l: PlannedLecture, files: Seq<ScannedFile>, k: int) -> bool {
    &&& l.file < files.len()
    &&& l.position == k
    &&& l.title@ == clean_title_spec(files[l.file as int].name@)
    &&& number_matches(l.number, leading_number_spec(files[l.file as int].name@))
    &&& l.stem@ == file_stem_spec(files[l.file as int].name@)
    &&& rel_views(l.rel_dir@) == rel_views(files[l.file as int].rel_dir@)
    &&& l.path@ == files[l.file as int].path@
}

/// File `x` comes before file `y` among a section's lectures: by `sort_key`
/// of the names, ties in scan order.
pub open spec fn lecture_before(files: Seq<ScannedFile>, x: int, y: int) -> bool {
    let a = lecture_order(files[x].name@);
    let b = lecture_order(files[y].name@);
    view_lt(a, b) || (a == b && x < y)
}

/// A planned section at position `p`: exactly the videos under its folder,
/// in lecture order, each described by its planned lecture.
pub open spec fn section_fits(s: PlannedSection, files: Seq<ScannedFile>, p: int) -> bool {
    &&& s.position == p
    &&& s.title@ == section_title(s.key@)
    &&& s.lectures@.len() > 0
    &&& forall|k: int| 0 <= k < s.lectures@.len() ==> lecture_fits(#[trigger] s.lectures@[k], files, k)
    &&& forall|k: int|
        0 <= k < s.lectures@.len() ==> is_video(files[#[trigger] s.lectures@[k].file as int])
            && section_key_of(files[s.lectures@[k].file as int]) == s.key@
    &&& forall|i: int|
        0 <= i < files.len() && is_video(files[i]) && section_key_of(#[trigger] files[i]) == s.key@
            ==> exists|k: int| 0 <= k < s.lectures@.len() && s.lectures@[k].file == i
    &&& forall|a: int, b: int|
        0 <= a < b < s.lectures@.len() ==> lecture_before(
            files,
            #[trigger] s.lectures@[a].file as int,
            #[trigger] s.lectures@[b].file as int,
        )
}

/// A fresh plan of a scan: one section per folder holding videos, in section
/// order, each as `section_fits` describes; nothing probed or hashed yet.
pub open spec fn plan_fits(files: Seq<ScannedFile>, secs: Seq<PlannedSection>) -> bool {
    &&& forall|p: int| 0 <= p < secs.len() ==> section_fits(#[trigger] secs[p], files, p)
    &&& forall|p: int, q: int| 0 <= p < q < secs.len() ==> secs[p].key@ != secs[q].key@
    &&& forall|i: int|
        0 <= i < files.len() && is_video(#[trigger] files[i]) ==> exists|p: int|
            0 <= p < secs.len() && secs[p].key@ == section_key_of(files[i])
    &&& forall|p: int, q: int|
        0 <= p < q < secs.len() ==> view_le(
            section_order(#[trigger] secs[p].key@),
            section_order(#[trigger] secs[q].key@),
        )
    &&& forall|p: int, k: int|
        0 <= p < secs.len() && 0 <= k < secs[p].lectures@.len() ==> (#[trigger] secs[p].lectures@[k]).playable
            && secs[p].lectures@[k].content_hash is None
}

fn copy_strings(v: &Vec<String>) -> (r: Vec<String>)
    ensures
        r@ == v@,
        rel_views(r@) == rel_views(v@),
{
    let mut r: Vec<String> = Vec::new();
    let mut i: usize = 0;
    while i < v.len()
        invariant
            i <= v.len(),
            r@ == v@.take(i as int),
        decreases v.len() - i,
    {
        let c = v[i].clone();
        r.push(c);
        assert(r@ =~= v@.take(i + 1));
        i += 1;
    }
    assert(v@.take(v.len() as int) =~= v@);
    r
}

fn file_stem_chars(name: &Vec<char>) -> (r: Vec<char>)
    ensures
        r@ == file_stem_spec(name@),
{
    match crate::scanner::file_name_chars(name) {
        Some(n) => crate::structure::title_stem_chars(&n),
        None => crate::text::slice_chars(name, 0, name.len()),
    }
}

fn plan_lecture(files: &Vec<ScannedFile>, file: usize, position: usize) -> (l: PlannedLecture)
    requires
        file < files.len(),
    ensures
        lecture_fits(l, files@, position as int),
        l.file == file,
        l.playable,
        l.content_hash is None,
{
    let f = &files[file];
    let name = chars_of(f.name.as_str());
    let title = clean_title_chars(&name);
    let stem = file_stem_chars(&name);
    assert(name@.subrange(0, name@.len() as int) =~= name@);
    PlannedLecture {
        file,
        title: string_of(&title),
        position,
        number: leading_number_chars(&name),
        stem: string_of(&stem),
        rel_dir: copy_strings(&f.rel_dir),
        path: f.path.clone(),
        playable: true,
        content_hash: None,
    }
}

fn literal_chars(lit: &[char]) -> (r: Vec<char>)
    ensures
        r@ == lit@,
{
    let mut r: Vec<char> = Vec::new();
    let mut i: usize = 0;
    while i < lit.len()
        invariant
            i <= lit@.len(),
            r@ == lit@.take(i as int),
        decreases lit.len() - i,
    {
        r.push(lit[i]);
        assert(r@ =~= lit@.take(i + 1));
        i += 1;
    }
    assert(lit@.take(lit@.len() as int) =~= lit@);
    r
}

fn section_title_chars(key: &Vec<char>) -> (r: Vec<char>)
    ensures
        r@ == section_title(key@),
{
    if key.len() == 0 {
        let intro: [char; 12] = ['I', 'n', 't', 'r', 'o', 'd', 'u', 'c', 't', 'i', 'o', 'n'];
        assert(intro@ =~= intro_title());
        literal_chars(&intro)
    } else {
        clean_title_chars(key)
    }
}


/// The section for `key`: its videos, in lecture order.
fn plan_section(files: &Vec<ScannedFile>, key: &Vec<char>, position: usize) -> (s: PlannedSection)
    requires
        is_video_key(files@, key@),
    ensures
        section_fits(s, files@, position as int),
        s.key@ == key@,
        forall|k: int|
            0 <= k < s.lectures@.len() ==> (#[trigger] s.lectures@[k]).playable
                && s.lectures@[k].content_hash is None,
{
    let mut idxs: Vec<usize> = Vec::new();
    let mut lkeys: Vec<SortKey> = Vec::new();
    let mut i: usize = 0;
    while i < files.len()
        invariant
            i <= files.len(),
            idxs.len() == lkeys.len(),
            forall|t: int| 0 <= t < idxs.len() ==> #[trigger] idxs@[t] < i,
            forall|a: int, b: int| 0 <= a < b < idxs.len() ==> #[trigger] idxs@[a] < #[trigger] idxs@[b],
            forall|t: int|
                0 <= t < idxs.len() ==> is_video(files@[#[trigger] idxs@[t] as int])
                    && section_key_of(files@[idxs@[t] as int]) == key@,
            forall|t: int|
                0 <= t < idxs.len() ==> key_view(#[trigger] lkeys@[t]) == lecture_order(
                    files@[idxs@[t] as int].name@,
                ),
            forall|j: int|
                0 <= j < i && is_video(files@[j]) && section_key_of(#[trigger] files@[j]) == key@
                    ==> exists|t: int| 0 <= t < idxs.len() && idxs@[t] == j,
        decreases files.len() - i,
    {
        if files[i].kind == FileKind::Video {
            let k = section_key_chars(&files[i]);
            if chars_eq(&k, key) {
                let name = chars_of(files[i].name.as_str());
                let lk = lecture_order_key(&name);
                let ghost old_idxs = idxs@;
                idxs.push(i);
                lkeys.push(lk);
                assert forall|j: int|
                    0 <= j < i + 1 && is_video(files@[j]) && section_key_of(#[trigger] files@[j])
                        == key@ implies exists|t: int| 0 <= t < idxs.len() && idxs@[t] == j by {
                    if j < i {
                        let t = choose|t: int| 0 <= t < old_idxs.len() && old_idxs[t] == j;
                        assert(idxs@[t] == j);
                    } else {
                        assert(idxs@[old_idxs.len() as int] == j);
                    }
                }
            }
        }
        i += 1;
    }
    let order = stable_order(&lkeys);
    let mut lectures: Vec<PlannedLecture> = Vec::new();
    let mut t: usize = 0;
    while t < order.len()
        invariant
            t <= order.len(),
            order.len() == lkeys.len(),
            idxs.len() == lkeys.len(),
            forall|u: int| 0 <= u < order.len() ==> #[trigger] order@[u] < lkeys.len(),
            forall|u: int| 0 <= u < idxs.len() ==> #[trigger] idxs@[u] < files.len(),
            lectures.len() == t,
            forall|u: int|
                0 <= u < t ==> lecture_fits(#[trigger] lectures@[u], files@, u) && lectures@[u].file
                    == idxs@[order@[u] as int] && lectures@[u].playable
                    && lectures@[u].content_hash is None,
        decreases order.len() - t,
    {
        let l = plan_lecture(files, idxs[order[t]], t);
        lectures.push(l);
        t += 1;
    }
    let title = section_title_chars(key);
    let s = PlannedSection {
        key: string_of(key),
        title: string_of(&title),
        position,
        lectures,
    };
    proof {
        let ls = s.lectures@;
        assert forall|k: int| 0 <= k < ls.len() implies is_video(
            files@[#[trigger] ls[k].file as int],
        ) && section_key_of(files@[ls[k].file as int]) == key@ by {
            assert(lecture_fits(ls[k], files@, k));
            assert(ls[k].file == idxs@[order@[k] as int]);
        }
        assert forall|j: int|
            0 <= j < files.len() && is_video(files@[j]) && section_key_of(#[trigger] files@[j])
                == key@ implies exists|k: int| 0 <= k < ls.len() && ls[k].file == j by {
            let t0 = choose|t: int| 0 <= t < idxs.len() && idxs@[t] == j;
            assert(order@.contains(t0 as usize));
            let u = choose|u: int| 0 <= u < order@.len() && order@[u] == t0 as usize;
            assert(lecture_fits(ls[u], files@, u));
            assert(ls[u].file == j);
        }
        let j0 = choose|j: int|
            0 <= j < files.len() && is_video(files@[j]) && section_key_of(files@[j]) == key@;
        assert(section_key_of(files@[j0]) == key@);
        assert(exists|k: int| 0 <= k < ls.len() && ls[k].file == j0);
        assert forall|a: int, b: int| 0 <= a < b < ls.len() implies lecture_before(
            files@,
            #[trigger] ls[a].file as int,
            #[trigger] ls[b].file as int,
        ) by {
            assert(lecture_fits(ls[a], files@, a));
            assert(lecture_fits(ls[b], files@, b));
            let oa = order@[a] as int;
            let ob = order@[b] as int;
            assert(crate::ordering::index_before(lkeys@, oa, ob));
            assert(key_view(lkeys@[oa]) == lecture_order(files@[idxs@[oa] as int].name@));
            assert(key_view(lkeys@[ob]) == lecture_order(files@[idxs@[ob] as int].name@));
            if oa < ob {
                assert(idxs@[oa] < idxs@[ob]);
            }
        }
        assert forall|k: int| 0 <= k < ls.len() implies lecture_fits(#[trigger] ls[k], files@, k) by {
        }
    }
    s
}

/// Build the section/lecture plan of a scan (ordered and cleaned): one
/// section per top-level folder holding videos (loose root videos form
/// "Introduction"), sections in section order, lectures in lecture order.
pub fn plan_sections(files: &Vec<ScannedFile>) -> (secs: Vec<PlannedSection>)
    ensures
        plan_fits(files@, secs@),
{
    let keys = video_section_keys(files);
    let mut skeys: Vec<SortKey> = Vec::new();
    let mut p: usize = 0;
    while p < keys.len()
        invariant
            p <= keys.len(),
            skeys.len() == p,
            forall|q: int| 0 <= q < p ==> key_view(#[trigger] skeys@[q]) == section_order(keys@[q]@),
        decreases keys.len() - p,
    {
        skeys.push(section_order_key(&keys[p]));
        p += 1;
    }
    let order = stable_order(&skeys);
    let mut secs: Vec<PlannedSection> = Vec::new();
    let mut t: usize = 0;
    while t < order.len()
        invariant
            t <= order.len(),
            order.len() == keys.len(),
            skeys.len() == keys.len(),
            forall|u: int| 0 <= u < order.len() ==> #[trigger] order@[u] < keys.len(),
            forall|q: int| 0 <= q < keys.len() ==> is_video_key(files@, #[trigger] keys@[q]@),
            secs.len() == t,
            forall|u: int|
                0 <= u < t ==> section_fits(#[trigger] secs@[u], files@, u) && secs@[u].key@
                    == keys@[order@[u] as int]@ && forall|k: int|
                    0 <= k < secs@[u].lectures@.len() ==> (#[trigger] secs@[u].lectures@[k]).playable
                        && secs@[u].lectures@[k].content_hash is None,
        decreases order.len() - t,
    {
        let sec = plan_section(files, &keys[order[t]], t);
        secs.push(sec);
        t += 1;
    }
    proof {
        let ss = secs@;
        assert forall|a: int, b: int| 0 <= a < b < ss.len() implies ss[a].key@ != ss[b].key@ by {
            assert(order@[a] != order@[b]);
        }
        assert forall|i: int| 0 <= i < files.len() && is_video(#[trigger] files@[i]) implies exists|
            q: int,
        | 0 <= q < ss.len() && ss[q].key@ == section_key_of(files@[i]) by {
            let kq = choose|kq: int| 0 <= kq < keys.len() && keys@[kq]@ == section_key_of(files@[i]);
            assert(order@.contains(kq as usize));
            let u = choose|u: int| 0 <= u < order@.len() && order@[u] == kq as usize;
            assert(ss[u].key@ == keys@[kq]@);
        }
        assert forall|a: int, b: int| 0 <= a < b < ss.len() implies view_le(
            section_order(#[trigger] ss[a].key@),
            section_order(#[trigger] ss[b].key@),
        ) by {
            let oa = order@[a] as int;
            let ob = order@[b] as int;
            assert(crate::ordering::index_before(skeys@, oa, ob));
            assert(key_view(skeys@[oa]) == section_order(keys@[oa]@));
            assert(key_view(skeys@[ob]) == section_order(keys@[ob]@));
        }
        assert forall|a: int, k: int|
            0 <= a < ss.len() && 0 <= k < ss[a].lectures@.len() implies (#[trigger] ss[a].lectures@[k]).playable
            && ss[a].lectures@[k].content_hash is None by {
        }
    }
    secs
}

} // verus!


verus! {

// ---------------------------------------------------------------------------
// Matching subtitles and resources to lectures
// ---------------------------------------------------------------------------

/// `Path::file_stem` of a file name (`None` for `""`, `"."`, `".."`).
pub open spec fn stem_opt(name: Seq<char>) -> Option<Seq<char>> {
    match file_name_of(name) {
        Some(n) => Some(title_stem(n)),
        None => None,
    }
}

pub open spec fn same_dir(l: PlannedLecture, f: ScannedFile) -> bool {
    rel_views(l.rel_dir@) == rel_views(f.rel_dir@)
}

/// Lecture `k` has exactly the subtitle's stem, in the subtitle's folder.
pub open spec fn exact_at(ls: Seq<PlannedLecture>, f: ScannedFile, sub: Seq<char>, k: int) -> bool {
    same_dir(ls[k], f) && ls[k].stem@ == sub
}

/// The subtitle's stem is lecture `k`'s stem, a dot and a non-empty
/// language tag (`name.en` for lecture `name`), in the same folder.
pub open spec fn lang_at(ls: Seq<PlannedLecture>, f: ScannedFile, sub: Seq<char>, k: int) -> bool {
    let st = ls[k].stem@;
    &&& same_dir(ls[k], f)
    &&& sub.len() > st.len() + 1
    &&& sub.take(st.len() as int) == st
    &&& sub[st.len() as int] == '.'
}

/// First index at or after `k` with an exact stem match, or the length.
pub open spec fn first_exact(ls: Seq<PlannedLecture>, f: ScannedFile, sub: Seq<char>, k: int) -> int
    decreases ls.len() - k,
{
    if 0 <= k < ls.len() && !exact_at(ls, f, sub, k) {
        first_exact(ls, f, sub, k + 1)
    } else {
        k
    }
}

/// Among the first `n` lectures, the first whose stem is the longest that
/// a language tag follows.
pub open spec fn best_lang(ls: Seq<PlannedLecture>, f: ScannedFile, sub: Seq<char>, n: int) -> Option<int>
    decreases n,
{
    if n <= 0 || n > ls.len() {
        None
    } else {
        let b = best_lang(ls, f, sub, n - 1);
        if lang_at(ls, f, sub, n - 1) && (match b {
            Some(x) => ls[n - 1].stem@.len() > ls[x].stem@.len(),
            None => true,
        }) {
            Some(n - 1)
        } else {
            b
        }
    }
}

/// Match a subtitle file to a lecture of its section: the first lecture with
/// exactly its stem (no language), else the one with the longest stem that
/// a `.lang` tag follows (`name.en.srt` → `Some("en")`).
pub open spec fn match_subtitle_spec(ls: Seq<PlannedLecture>, f: ScannedFile) -> Option<
    (int, Option<Seq<char>>),
> {
    match stem_opt(f.name@) {
        None => None,
        Some(sub) => {
            let e = first_exact(ls, f, sub, 0);
            if e < ls.len() {
                Some((e, None))
            } else {
                match best_lang(ls, f, sub, ls.len() as int) {
                    Some(b) => Some((b, Some(sub.skip(ls[b].stem@.len() as int + 1)))),
                    None => None,
                }
            }
        }
    }
}

fn rel_eq(a: &Vec<String>, b: &Vec<String>) -> (r: bool)
    ensures
        r == (rel_views(a@) == rel_views(b@)),
{
    if a.len() != b.len() {
        assert(rel_views(a@).len() != rel_views(b@).len());
        return false;
    }
    let mut i: usize = 0;
    while i < a.len()
        invariant
            i <= a.len() == b.len(),
            forall|k: int| 0 <= k < i ==> a@[k]@ == b@[k]@,
        decreases a.len() - i,
    {
        let x = chars_of(a[i].as_str());
        let y = chars_of(b[i].as_str());
        if !chars_eq(&x, &y) {
            assert(rel_views(a@)[i as int] != rel_views(b@)[i as int]);
            return false;
        }
        i += 1;
    }
    assert(rel_views(a@) =~= rel_views(b@));
    true
}

fn stem_opt_chars(name: &Vec<char>) -> (r: Option<Vec<char>>)
    ensures
        r matches Some(s) ==> stem_opt(name@) == Some(s@),
        r is None ==> stem_opt(name@) is None,
{
    match crate::scanner::file_name_chars(name) {
        Some(n) => Some(crate::structure::title_stem_chars(&n)),
        None => None,
    }
}

/// Whether `sub` is `stem`, a dot and at least one more character.
fn is_lang_of(sub: &Vec<char>, stem: &Vec<char>) -> (r: bool)
    ensures
        r == (sub@.len() > stem@.len() + 1 && sub@.take(stem@.len() as int) == stem@
            && sub@[stem@.len() as int] == '.'),
{
    if sub.len() <= stem.len() || sub.len() - stem.len() < 2 {
        return false;
    }
    let mut i: usize = 0;
    while i < stem.len()
        invariant
            i <= stem.len() < sub.len(),
            forall|k: int| 0 <= k < i ==> sub@[k] == stem@[k],
        decreases stem.len() - i,
    {
        if sub[i] != stem[i] {
            assert(sub@.take(stem@.len() as int)[i as int] != stem@[i as int]);
            return false;
        }
        i += 1;
    }
    assert(sub@.take(stem@.len() as int) =~= stem@);
    sub[stem.len()] == '.'
}

/// Match a subtitle file to a lecture in its section by stem prefix.
/// Returns the lecture's index and the parsed language (`name.en.srt` →
/// `Some("en")`).
pub fn match_subtitle(f: &ScannedFile, section: &PlannedSection) -> (r: Option<(usize, Option<String>)>)
    ensures
        match r {
            Some((k, lang)) => match match_subtitle_spec(section.lectures@, *f) {
                Some((k2, lang2)) => k == k2 && match lang {
                    Some(l) => lang2 == Some(l@),
                    None => lang2 is None,
                },
                None => false,
            },
            None => match_subtitle_spec(section.lectures@, *f) is None,
        },
{
    let name = chars_of(f.name.as_str());
    let sub = match stem_opt_chars(&name) {
        Some(s) => s,
        None => {
            return None;
        },
    };
    let ls = &section.lectures;
    let mut best: Option<usize> = None;
    let mut best_len: usize = 0;
    let mut k: usize = 0;
    while k < ls.len()
        invariant
            k <= ls.len(),
            ls@ == section.lectures@,
            stem_opt(f.name@) == Some(sub@),
            first_exact(ls@, *f, sub@, 0) == first_exact(ls@, *f, sub@, k as int),
            best matches Some(b) ==> lang_at(ls@, *f, sub@, b as int),
            best_lang(ls@, *f, sub@, k as int) == match best {
                Some(b) => Some(b as int),
                None => None::<int>,
            },
            best matches Some(b) ==> b < k && best_len == ls@[b as int].stem@.len(),
        decreases ls.len() - k,
    {
        let lec = &ls[k];
        if rel_eq(&lec.rel_dir, &f.rel_dir) {
            let st = chars_of(lec.stem.as_str());
            if chars_eq(&sub, &st) {
                assert(exact_at(ls@, *f, sub@, k as int));
                return Some((k, None));
            }
            if is_lang_of(&sub, &st) {
                let better = match best {
                    Some(_) => st.len() > best_len,
                    None => true,
                };
                if better {
                    best = Some(k);
                    best_len = st.len();
                }
            }
        }
        k += 1;
    }
    match best {
        Some(b) => {
            let st = chars_of(ls[b].stem.as_str());
            assert(lang_at(ls@, *f, sub@, b as int));
            assert(st@ == ls@[b as int].stem@);
            assert(st@.len() + 1 < sub@.len());
            let a: usize = st.len();
            assert(a < sub.len());
            let lang = crate::text::slice_chars(&sub, a + 1, sub.len());
            assert(lang@ =~= sub@.skip(ls@[b as int].stem@.len() as int + 1));
            Some((b, Some(string_of(&lang))))
        },
        None => None,
    }
}

/// The stem used to match a resource file (empty when the name has none).
pub open spec fn attachment_stem(name: Seq<char>) -> Seq<char> {
    match stem_opt(name) {
        Some(s) => s,
        None => Seq::empty(),
    }
}

/// First lecture at or after `k`, in the file's folder, with this stem.
pub open spec fn first_stem_match(ls: Seq<PlannedLecture>, f: ScannedFile, st: Seq<char>, k: int) -> int
    decreases ls.len() - k,
{
    if 0 <= k < ls.len() && !(same_dir(ls[k], f) && ls[k].stem@ == st) {
        first_stem_match(ls, f, st, k + 1)
    } else {
        k
    }
}

/// First lecture at or after `k`, in the file's folder, with this number.
pub open spec fn first_number_match(ls: Seq<PlannedLecture>, f: ScannedFile, n: int, k: int) -> int
    decreases ls.len() - k,
{
    if 0 <= k < ls.len() && !(same_dir(ls[k], f) && ls[k].number == Some(n as i64) && i64::MIN
        <= n <= i64::MAX) {
        first_number_match(ls, f, n, k + 1)
    } else {
        k
    }
}

/// Match a resource file to a lecture: exact stem first, then the same
/// leading number, within the file's folder.
pub open spec fn match_attachment_spec(ls: Seq<PlannedLecture>, f: ScannedFile) -> Option<int> {
    let e = first_stem_match(ls, f, attachment_stem(f.name@), 0);
    if e < ls.len() {
        Some(e)
    } else {
        match leading_number_spec(f.name@) {
            Some(n) => {
                let m = first_number_match(ls, f, n, 0);
                if m < ls.len() {
                    Some(m)
                } else {
                    None
                }
            },
            None => None,
        }
    }
}

/// Match a resource file to a lecture: exact stem, then same leading number
/// within the section.
pub fn match_attachment(f: &ScannedFile, section: &PlannedSection) -> (r: Option<usize>)
    ensures
        match r {
            Some(k) => match_attachment_spec(section.lectures@, *f) == Some(k as int),
            None => match_attachment_spec(section.lectures@, *f) is None,
        },
{
    let name = chars_of(f.name.as_str());
    let st = match stem_opt_chars(&name) {
        Some(s) => s,
        None => Vec::new(),
    };
    let ls = &section.lectures;
    let mut k: usize = 0;
    while k < ls.len()
        invariant
            k <= ls.len(),
            ls@ == section.lectures@,
            st@ == attachment_stem(f.name@),
            name@ == f.name@,
            first_stem_match(ls@, *f, st@, 0) == first_stem_match(ls@, *f, st@, k as int),
        decreases ls.len() - k,
    {
        let lst = chars_of(ls[k].stem.as_str());
        if rel_eq(&ls[k].rel_dir, &f.rel_dir) && chars_eq(&lst, &st) {
            return Some(k);
        }
        k += 1;
    }
    let n = match leading_number_chars(&name) {
        Some(n) => n,
        None => {
            return None;
        },
    };
    let mut m: usize = 0;
    while m < ls.len()
        invariant
            m <= ls.len(),
            ls@ == section.lectures@,
            name@ == f.name@,
            leading_number_spec(f.name@) == Some(n as int),
            first_stem_match(ls@, *f, attachment_stem(f.name@), 0) == ls.len(),
            first_number_match(ls@, *f, n as int, 0) == first_number_match(
                ls@,
                *f,
                n as int,
                m as int,
            ),
        decreases ls.len() - m,
    {
        let hit = match ls[m].number {
            Some(x) => x == n,
            None => false,
        };
        if hit && rel_eq(&ls[m].rel_dir, &f.rel_dir) {
            return Some(m);
        }
        m += 1;
    }
    None
}


// ---------------------------------------------------------------------------
// Resource kinds
// ---------------------------------------------------------------------------

pub open spec fn is_pdf_ext(e: Seq<char>) -> bool {
    ||| e == seq!['p', 'd', 'f']
}

pub open spec fn is_archive_ext(e: Seq<char>) -> bool {
    ||| e == seq!['z', 'i', 'p']
    ||| e == seq!['r', 'a', 'r']
    ||| e == seq!['7', 'z']
    ||| e == seq!['t', 'a', 'r']
    ||| e == seq!['g', 'z']
}

pub open spec fn is_html_ext(e: Seq<char>) -> bool {
    ||| e == seq!['h', 't', 'm', 'l']
    ||| e == seq!['h', 't', 'm']
}

pub open spec fn is_code_ext(e: Seq<char>) -> bool {
    ||| e == seq!['s', 'q', 'l']
    ||| e == seq!['j', 's']
    ||| e == seq!['t', 's']
    ||| e == seq!['p', 'y']
    ||| e == seq!['j', 's', 'o', 'n']
    ||| e == seq!['d', 'b', 'm', 'l']
    ||| e == seq!['j', 'a', 'v', 'a']
    ||| e == seq!['r', 'b']
    ||| e == seq!['g', 'o']
    ||| e == seq!['r', 's']
    ||| e == seq!['c', 's', 's']
    ||| e == seq!['c']
    ||| e == seq!['c', 'p', 'p']
    ||| e == seq!['h']
    ||| e == seq!['s', 'h']
    ||| e == seq!['y', 'm', 'l']
    ||| e == seq!['y', 'a', 'm', 'l']
    ||| e == seq!['x', 'm', 'l']
    ||| e == seq!['m', 'd']
}

pub open spec fn is_text_ext(e: Seq<char>) -> bool {
    ||| e == seq!['t', 'x', 't']
}

/// The kind recorded for a resource file, by its lower-cased extension.
pub open spec fn attachment_kind_spec(name: Seq<char>) -> Seq<char> {
    let e = crate::scanner::lower_extension(name);
    if is_pdf_ext(e) {
        seq!['p', 'd', 'f']
    } else if is_archive_ext(e) {
        seq!['a', 'r', 'c', 'h', 'i', 'v', 'e']
    } else if is_html_ext(e) {
        seq!['h', 't', 'm', 'l']
    } else if is_code_ext(e) {
        seq!['c', 'o', 'd', 'e']
    } else if is_text_ext(e) {
        seq!['t', 'e', 'x', 't']
    } else {
        seq!['o', 't', 'h', 'e', 'r']
    }
}

fn eq_char1(v: &Vec<char>, c: char) -> (r: bool)
    ensures
        r == (v@ == seq![c]),
{
    let r = v.len() == 1 && v[0] == c;
    assert(r ==> v@ =~= seq![c]);
    r
}

/// The kind of a resource file (pdf, archive, html, code, text or other).
pub fn attachment_kind(f: &ScannedFile) -> (r: &'static str)
    ensures
        r@ == attachment_kind_spec(f.name@),
{
    let name = chars_of(f.name.as_str());
    let e = crate::scanner::lower_extension_chars(&name);
    if eq_chars(&e, &['p', 'd', 'f']) {
        proof {
            reveal_strlit("pdf");
        }
        "pdf"
    } else if eq_chars(&e, &['z', 'i', 'p']) || eq_chars(&e, &['r', 'a', 'r']) || eq_chars(&e, &['7', 'z']) || eq_chars(&e, &['t', 'a', 'r']) || eq_chars(&e, &['g', 'z']) {
        proof {
            reveal_strlit("archive");
        }
        "archive"
    } else if eq_chars(&e, &['h', 't', 'm', 'l']) || eq_chars(&e, &['h', 't', 'm']) {
        proof {
            reveal_strlit("html");
        }
        "html"
    } else if eq_chars(&e, &['s', 'q', 'l']) || eq_chars(&e, &['j', 's']) || eq_chars(&e, &['t', 's']) || eq_chars(&e, &['p', 'y']) || eq_chars(&e, &['j', 's', 'o', 'n']) || eq_chars(&e, &['d', 'b', 'm', 'l']) || eq_chars(&e, &['j', 'a', 'v', 'a']) || eq_chars(&e, &['r', 'b']) || eq_chars(&e, &['g', 'o']) || eq_chars(&e, &['r', 's']) || eq_chars(&e, &['c', 's', 's']) || eq_char1(&e, 'c') || eq_chars(&e, &['c', 'p', 'p']) || eq_char1(&e, 'h') || eq_chars(&e, &['s', 'h']) || eq_chars(&e, &['y', 'm', 'l']) || eq_chars(&e, &['y', 'a', 'm', 'l']) || eq_chars(&e, &['x', 'm', 'l']) || eq_chars(&e, &['m', 'd']) {
        proof {
            reveal_strlit("code");
        }
        "code"
    } else if eq_chars(&e, &['t', 'x', 't']) {
        proof {
            reveal_strlit("text");
        }
        "text"
    } else {
        proof {
            reveal_strlit("other");
        }
        "other"
    }
}


// ---------------------------------------------------------------------------
// Course thumbnail
// ---------------------------------------------------------------------------

pub open spec fn is_root_image(f: ScannedFile) -> bool {
    f.kind == FileKind::Image && section_key_of(f).len() == 0
}

/// The name up to its last `.` (the whole name when there is none).
pub open spec fn cover_stem(name: Seq<char>) -> Seq<char> {
    let d = crate::text::last_of(name, '.', name.len() as int);
    if d >= 0 {
        name.take(d)
    } else {
        name
    }
}

pub open spec fn is_cover_name(low: Seq<char>) -> bool {
    ||| low == seq!['c', 'o', 'v', 'e', 'r']
    ||| low == seq!['t', 'h', 'u', 'm', 'b', 'n', 'a', 'i', 'l']
    ||| low == seq!['p', 'o', 's', 't', 'e', 'r']
    ||| low == seq!['f', 'o', 'l', 'd', 'e', 'r']
    ||| low == seq!['c', 'o', 'u', 'r', 's', 'e']
}

/// A root image conventionally named as a cover.
pub open spec fn is_cover(f: ScannedFile) -> bool {
    is_root_image(f) && is_cover_name(lowercase(cover_stem(f.name@)))
}

pub open spec fn first_cover(files: Seq<ScannedFile>, i: int) -> int
    decreases files.len() - i,
{
    if 0 <= i < files.len() && !is_cover(files[i]) {
        first_cover(files, i + 1)
    } else {
        i
    }
}

pub open spec fn first_root_image(files: Seq<ScannedFile>, i: int) -> int
    decreases files.len() - i,
{
    if 0 <= i < files.len() && !is_root_image(files[i]) {
        first_root_image(files, i + 1)
    } else {
        i
    }
}

/// The course cover: the first image in the course root named cover,
/// thumbnail, poster, folder or course (any case, any extension); else the
/// first image in the root; else none.
pub open spec fn thumbnail_spec(files: Seq<ScannedFile>) -> Option<Seq<char>> {
    let c = first_cover(files, 0);
    let r = first_root_image(files, 0);
    if c < files.len() {
        Some(files[c].path@)
    } else if r < files.len() {
        Some(files[r].path@)
    } else {
        None
    }
}

fn is_root_image_exec(f: &ScannedFile) -> (r: bool)
    ensures
        r == is_root_image(*f),
{
    f.kind == FileKind::Image && f.rel_dir.len() == 0 || (f.kind == FileKind::Image
        && section_key_chars(f).len() == 0)
}

fn is_cover_exec(f: &ScannedFile) -> (r: bool)
    ensures
        r == is_cover(*f),
{
    if !is_root_image_exec(f) {
        return false;
    }
    let name = chars_of(f.name.as_str());
    proof {
        crate::text::lemma_last_of(name@, '.', name@.len() as int);
        assert(name@.subrange(0, name@.len() as int) =~= name@);
    }
    let stem = match crate::text::last_char_before(&name, '.', name.len()) {
        Some(d) => crate::text::slice_chars(&name, 0, d),
        None => crate::text::slice_chars(&name, 0, name.len()),
    };
    assert(stem@ =~= cover_stem(name@));
    let low = to_lowercase(&stem);
    eq_chars(&low, &['c', 'o', 'v', 'e', 'r']) || eq_chars(
        &low,
        &['t', 'h', 'u', 'm', 'b', 'n', 'a', 'i', 'l'],
    ) || eq_chars(&low, &['p', 'o', 's', 't', 'e', 'r']) || eq_chars(
        &low,
        &['f', 'o', 'l', 'd', 'e', 'r'],
    ) || eq_chars(&low, &['c', 'o', 'u', 'r', 's', 'e'])
}

/// The course thumbnail: a conventionally named cover image in the course
/// root, else the first root image.
pub fn detect_thumbnail(files: &Vec<ScannedFile>) -> (r: Option<String>)
    ensures
        match r {
            Some(p) => thumbnail_spec(files@) == Some(p@),
            None => thumbnail_spec(files@) is None,
        },
{
    let mut i: usize = 0;
    while i < files.len() && !is_cover_exec(&files[i])
        invariant
            i <= files.len(),
            first_cover(files@, 0) == first_cover(files@, i as int),
        decreases files.len() - i,
    {
        i += 1;
    }
    if i < files.len() {
        return Some(files[i].path.clone());
    }
    let mut j: usize = 0;
    while j < files.len() && !is_root_image_exec(&files[j])
        invariant
            j <= files.len(),
            first_root_image(files@, 0) == first_root_image(files@, j as int),
        decreases files.len() - j,
    {
        j += 1;
    }
    if j < files.len() {
        Some(files[j].path.clone())
    } else {
        None
    }
}

// ---------------------------------------------------------------------------
// Where subtitles and resources go
// ---------------------------------------------------------------------------

/// A subtitle file attached to a lecture.
pub struct SubtitleLink {
    pub file: usize,
    pub section: usize,
    pub lecture: usize,
    pub lang: Option<String>,
}

/// A resource file attached to a course, and to a section and lecture when
/// one matches.
pub struct ResourceLink {
    pub file: usize,
    pub section: Option<usize>,
    pub lecture: Option<usize>,
    pub kind: &'static str,
}

/// The last section (among the first `n`) whose key is `key`.
pub open spec fn section_with_key(secs: Seq<PlannedSection>, key: Seq<char>, n: int) -> Option<int>
    decreases n,
{
    if n <= 0 || n > secs.len() {
        None
    } else if secs[n - 1].key@ == key {
        Some(n - 1)
    } else {
        section_with_key(secs, key, n - 1)
    }
}

pub open spec fn opt_view(o: Option<String>) -> Option<Seq<char>> {
    match o {
        Some(s) => Some(s@),
        None => None,
    }
}

pub open spec fn subtitle_link_view(l: SubtitleLink) -> (int, int, int, Option<Seq<char>>) {
    (l.file as int, l.section as int, l.lecture as int, opt_view(l.lang))
}

pub open spec fn resource_link_view(l: ResourceLink) -> (int, Option<int>, Option<int>, Seq<char>) {
    (
        l.file as int,
        match l.section {
            Some(x) => Some(x as int),
            None => None,
        },
        match l.lecture {
            Some(x) => Some(x as int),
            None => None,
        },
        l.kind@,
    )
}

/// The link of file `i` if it is a subtitle matching a lecture of the
/// section of its folder.
pub open spec fn subtitle_link_of(files: Seq<ScannedFile>, secs: Seq<PlannedSection>, i: int) -> Option<
    (int, int, int, Option<Seq<char>>),
> {
    let f = files[i];
    if f.kind != FileKind::Subtitle {
        None
    } else {
        match section_with_key(secs, section_key_of(f), secs.len() as int) {
            None => None,
            Some(p) => match match_subtitle_spec(secs[p].lectures@, f) {
                Some((k, lang)) => Some((i, p, k, lang)),
                None => None,
            },
        }
    }
}

/// The link of file `i` if it is a resource file.
pub open spec fn resource_link_of(files: Seq<ScannedFile>, secs: Seq<PlannedSection>, i: int) -> Option<
    (int, Option<int>, Option<int>, Seq<char>),
> {
    let f = files[i];
    if f.kind != FileKind::Attachment {
        None
    } else {
        let sec = section_with_key(secs, section_key_of(f), secs.len() as int);
        let lec = match sec {
            Some(p) => match_attachment_spec(secs[p].lectures@, f),
            None => None,
        };
        Some((i, sec, lec, attachment_kind_spec(f.name@)))
    }
}

pub open spec fn subtitle_links_upto(files: Seq<ScannedFile>, secs: Seq<PlannedSection>, n: int) -> Seq<
    (int, int, int, Option<Seq<char>>),
>
    decreases n,
{
    if n <= 0 || n > files.len() {
        Seq::empty()
    } else {
        let prev = subtitle_links_upto(files, secs, n - 1);
        match subtitle_link_of(files, secs, n - 1) {
            Some(l) => prev.push(l),
            None => prev,
        }
    }
}

pub open spec fn resource_links_upto(files: Seq<ScannedFile>, secs: Seq<PlannedSection>, n: int) -> Seq<
    (int, Option<int>, Option<int>, Seq<char>),
>
    decreases n,
{
    if n <= 0 || n > files.len() {
        Seq::empty()
    } else {
        let prev = resource_links_upto(files, secs, n - 1);
        match resource_link_of(files, secs, n - 1) {
            Some(l) => prev.push(l),
            None => prev,
        }
    }
}

fn find_section(secs: &Vec<PlannedSection>, key: &Vec<char>) -> (r: Option<usize>)
    ensures
        match r {
            Some(p) => section_with_key(secs@, key@, secs@.len() as int) == Some(p as int),
            None => section_with_key(secs@, key@, secs@.len() as int) is None,
        },
        r matches Some(p) ==> p < secs.len(),
{
    let mut found: Option<usize> = None;
    let mut p: usize = 0;
    while p < secs.len()
        invariant
            p <= secs.len(),
            section_with_key(secs@, key@, p as int) == match found {
                Some(x) => Some(x as int),
                None => None::<int>,
            },
            found matches Some(x) ==> x < p,
        decreases secs.len() - p,
    {
        let k = chars_of(secs[p].key.as_str());
        if chars_eq(&k, key) {
            found = Some(p);
        }
        p += 1;
    }
    found
}

/// Attach subtitles to lectures and resources to sections/lectures: one
/// link per subtitle that matches a lecture of its folder's section, and one
/// per resource file, in scan order.
pub fn associate_resources(files: &Vec<ScannedFile>, secs: &Vec<PlannedSection>) -> (r: (
    Vec<SubtitleLink>,
    Vec<ResourceLink>,
))
    ensures
        r.0@.map_values(|l: SubtitleLink| subtitle_link_view(l)) == subtitle_links_upto(
            files@,
            secs@,
            files@.len() as int,
        ),
        r.1@.map_values(|l: ResourceLink| resource_link_view(l)) == resource_links_upto(
            files@,
            secs@,
            files@.len() as int,
        ),
{
    let mut subs: Vec<SubtitleLink> = Vec::new();
    let mut res: Vec<ResourceLink> = Vec::new();
    let mut i: usize = 0;
    while i < files.len()
        invariant
            i <= files.len(),
            subs@.map_values(|l: SubtitleLink| subtitle_link_view(l)) == subtitle_links_upto(
                files@,
                secs@,
                i as int,
            ),
            res@.map_values(|l: ResourceLink| resource_link_view(l)) == resource_links_upto(
                files@,
                secs@,
                i as int,
            ),
        decreases files.len() - i,
    {
        let f = &files[i];
        let ghost sv = subs@.map_values(|l: SubtitleLink| subtitle_link_view(l));
        let ghost rv = res@.map_values(|l: ResourceLink| resource_link_view(l));
        if f.kind == FileKind::Subtitle {
            let key = section_key_chars(f);
            match find_section(secs, &key) {
                Some(p) => {
                    match match_subtitle(f, &secs[p]) {
                        Some((k, lang)) => {
                            let link = SubtitleLink { file: i, section: p, lecture: k, lang };
                            subs.push(link);
                            assert(subs@.map_values(|l: SubtitleLink| subtitle_link_view(l))
                                =~= sv.push(subtitle_link_view(link)));
                        },
                        None => {},
                    }
                },
                None => {},
            }
        } else if f.kind == FileKind::Attachment {
            let key = section_key_chars(f);
            let sec = find_section(secs, &key);
            let lec = match sec {
                Some(p) => match_attachment(f, &secs[p]),
                None => None,
            };
            let link = ResourceLink { file: i, section: sec, lecture: lec, kind: attachment_kind(f) };
            res.push(link);
            assert(res@.map_values(|l: ResourceLink| resource_link_view(l)) =~= rv.push(
                resource_link_view(link),
            ));
        }
        i += 1;
    }
    (subs, res)
}


// ---------------------------------------------------------------------------
// Carrying user data over a re-import
// ---------------------------------------------------------------------------

pub open spec fn hash_is(h: Option<String>, x: Seq<char>) -> bool {
    match h {
        Some(s) => s@ == x,
        None => false,
    }
}

/// Among the first `n` lectures, the last with this path.
pub open spec fn last_path_in(ls: Seq<PlannedLecture>, path: Seq<char>, n: int) -> Option<int>
    decreases n,
{
    if n <= 0 || n > ls.len() {
        None
    } else if ls[n - 1].path@ == path {
        Some(n - 1)
    } else {
        last_path_in(ls, path, n - 1)
    }
}

/// Among the first `n` lectures, the last with this content hash.
pub open spec fn last_hash_in(ls: Seq<PlannedLecture>, h: Seq<char>, n: int) -> Option<int>
    decreases n,
{
    if n <= 0 || n > ls.len() {
        None
    } else if hash_is(ls[n - 1].content_hash, h) {
        Some(n - 1)
    } else {
        last_hash_in(ls, h, n - 1)
    }
}

/// Among the first `n` sections, the last lecture (section, index) with
/// this path.
pub open spec fn last_path(secs: Seq<PlannedSection>, path: Seq<char>, n: int) -> Option<(int, int)>
    decreases n,
{
    if n <= 0 || n > secs.len() {
        None
    } else {
        match last_path_in(secs[n - 1].lectures@, path, secs[n - 1].lectures@.len() as int) {
            Some(k) => Some((n - 1, k)),
            None => last_path(secs, path, n - 1),
        }
    }
}

/// Among the first `n` sections, the last lecture with this content hash.
pub open spec fn last_hash(secs: Seq<PlannedSection>, h: Seq<char>, n: int) -> Option<(int, int)>
    decreases n,
{
    if n <= 0 || n > secs.len() {
        None
    } else {
        match last_hash_in(secs[n - 1].lectures@, h, secs[n - 1].lectures@.len() as int) {
            Some(k) => Some((n - 1, k)),
            None => last_hash(secs, h, n - 1),
        }
    }
}

/// Where a lecture's user data goes after a re-import: the new lecture with
/// the same file path; failing that, the one with the same content hash
/// (the file was renamed or moved).
pub open spec fn remap_spec(secs: Seq<PlannedSection>, path: Seq<char>, hash: Option<Seq<char>>) -> Option<
    (int, int),
> {
    match last_path(secs, path, secs.len() as int) {
        Some(x) => Some(x),
        None => match hash {
            Some(h) => last_hash(secs, h, secs.len() as int),
            None => None,
        },
    }
}

fn last_in_section(ls: &Vec<PlannedLecture>, path: &Vec<char>, hash: &Option<Vec<char>>) -> (r: (
    Option<usize>,
    Option<usize>,
))
    ensures
        match r.0 {
            Some(k) => last_path_in(ls@, path@, ls@.len() as int) == Some(k as int),
            None => last_path_in(ls@, path@, ls@.len() as int) is None,
        },
        match hash {
            Some(h) => match r.1 {
                Some(k) => last_hash_in(ls@, h@, ls@.len() as int) == Some(k as int),
                None => last_hash_in(ls@, h@, ls@.len() as int) is None,
            },
            None => true,
        },
{
    let mut by_path: Option<usize> = None;
    let mut by_hash: Option<usize> = None;
    let mut k: usize = 0;
    while k < ls.len()
        invariant
            k <= ls.len(),
            match by_path {
                Some(x) => last_path_in(ls@, path@, k as int) == Some(x as int),
                None => last_path_in(ls@, path@, k as int) is None,
            },
            match hash {
                Some(h) => match by_hash {
                    Some(x) => last_hash_in(ls@, h@, k as int) == Some(x as int),
                    None => last_hash_in(ls@, h@, k as int) is None,
                },
                None => true,
            },
        decreases ls.len() - k,
    {
        let p = chars_of(ls[k].path.as_str());
        if chars_eq(&p, path) {
            by_path = Some(k);
        }
        match (hash, &ls[k].content_hash) {
            (Some(h), Some(lh)) => {
                let lc = chars_of(lh.as_str());
                if chars_eq(&lc, h) {
                    by_hash = Some(k);
                }
            },
            _ => {},
        }
        k += 1;
    }
    (by_path, by_hash)
}

/// Resolve an old lecture (file path, content hash) to a new lecture of the
/// plan: exact path first, then hash (the file was renamed or moved).
pub fn remap(secs: &Vec<PlannedSection>, path: &str, hash: &Option<String>) -> (r: Option<(usize, usize)>)
    ensures
        match r {
            Some((p, k)) => remap_spec(secs@, path@, opt_view(*hash)) == Some((p as int, k as int)),
            None => remap_spec(secs@, path@, opt_view(*hash)) is None,
        },
{
    let pv = chars_of(path);
    let hv: Option<Vec<char>> = match hash {
        Some(h) => Some(chars_of(h.as_str())),
        None => None,
    };
    let mut by_path: Option<(usize, usize)> = None;
    let mut by_hash: Option<(usize, usize)> = None;
    let mut p: usize = 0;
    while p < secs.len()
        invariant
            p <= secs.len(),
            pv@ == path@,
            opt_view(*hash) == match hv {
                Some(h) => Some(h@),
                None => None::<Seq<char>>,
            },
            match by_path {
                Some((a, b)) => last_path(secs@, path@, p as int) == Some((a as int, b as int)),
                None => last_path(secs@, path@, p as int) is None,
            },
            match hv {
                Some(h) => match by_hash {
                    Some((a, b)) => last_hash(secs@, h@, p as int) == Some((a as int, b as int)),
                    None => last_hash(secs@, h@, p as int) is None,
                },
                None => true,
            },
        decreases secs.len() - p,
    {
        let (lp, lh) = last_in_section(&secs[p].lectures, &pv, &hv);
        match lp {
            Some(k) => {
                by_path = Some((p, k));
            },
            None => {},
        }
        match (&hv, lh) {
            (Some(_), Some(k)) => {
                by_hash = Some((p, k));
            },
            _ => {},
        }
        p += 1;
    }
    match by_path {
        Some(x) => Some(x),
        None => match hv {
            Some(_) => by_hash,
            None => None,
        },
    }
}

// ---------------------------------------------------------------------------
// Plan figures and the reuse rule
// ---------------------------------------------------------------------------

pub open spec fn lectures_upto(secs: Seq<PlannedSection>, n: int) -> int
    decreases n,
{
    if n <= 0 || n > secs.len() {
        0
    } else {
        lectures_upto(secs, n - 1) + secs[n - 1].lectures@.len()
    }
}

pub open spec fn nonempty_upto(secs: Seq<PlannedSection>, n: int) -> int
    decreases n,
{
    if n <= 0 || n > secs.len() {
        0
    } else {
        nonempty_upto(secs, n - 1) + if secs[n - 1].lectures@.len() > 0 {
            1int
        } else {
            0
        }
    }
}

pub open spec fn unplayable_in(ls: Seq<PlannedLecture>, n: int) -> int
    decreases n,
{
    if n <= 0 || n > ls.len() {
        0
    } else {
        unplayable_in(ls, n - 1) + if !ls[n - 1].playable {
            1int
        } else {
            0
        }
    }
}

pub open spec fn unplayable_upto(secs: Seq<PlannedSection>, n: int) -> int
    decreases n,
{
    if n <= 0 || n > secs.len() {
        0
    } else {
        unplayable_upto(secs, n - 1) + unplayable_in(
            secs[n - 1].lectures@,
            secs[n - 1].lectures@.len() as int,
        )
    }
}

pub open spec fn count_kind(files: Seq<ScannedFile>, kind: FileKind, n: int) -> int
    decreases n,
{
    if n <= 0 || n > files.len() {
        0
    } else {
        count_kind(files, kind, n - 1) + if files[n - 1].kind == kind {
            1int
        } else {
            0
        }
    }
}

proof fn lemma_unplayable_in_bound(ls: Seq<PlannedLecture>, n: int)
    requires
        0 <= n <= ls.len(),
    ensures
        0 <= unplayable_in(ls, n) <= n,
    decreases n,
{
    if n > 0 {
        lemma_unplayable_in_bound(ls, n - 1);
    }
}

proof fn lemma_counts_bounded(secs: Seq<PlannedSection>, n: int)
    requires
        0 <= n <= secs.len(),
    ensures
        0 <= nonempty_upto(secs, n) <= n,
        0 <= unplayable_upto(secs, n) <= lectures_upto(secs, n),
        0 <= lectures_upto(secs, n),
    decreases n,
{
    if n > 0 {
        lemma_counts_bounded(secs, n - 1);
        lemma_unplayable_in_bound(secs[n - 1].lectures@, secs[n - 1].lectures@.len() as int);
    }
}

proof fn lemma_lectures_upto_monotone(secs: Seq<PlannedSection>, a: int, b: int)
    requires
        0 <= a <= b <= secs.len(),
    ensures
        lectures_upto(secs, a) <= lectures_upto(secs, b),
    decreases b - a,
{
    if a < b {
        lemma_lectures_upto_monotone(secs, a, b - 1);
    }
}

proof fn lemma_count_kind_bound(files: Seq<ScannedFile>, kind: FileKind, n: int)
    requires
        0 <= n <= files.len(),
    ensures
        0 <= count_kind(files, kind, n) <= n,
    decreases n,
{
    if n > 0 {
        lemma_count_kind_bound(files, kind, n - 1);
    }
}

/// Total lectures across all sections (0 = nothing playable found).
pub fn lecture_count(secs: &Vec<PlannedSection>) -> (r: usize)
    requires
        lectures_upto(secs@, secs@.len() as int) <= usize::MAX,
    ensures
        r == lectures_upto(secs@, secs@.len() as int),
{
    let mut total: usize = 0;
    let mut p: usize = 0;
    while p < secs.len()
        invariant
            p <= secs.len(),
            total == lectures_upto(secs@, p as int),
            lectures_upto(secs@, secs@.len() as int) <= usize::MAX,
        decreases secs.len() - p,
    {
        proof {
            lemma_lectures_upto_monotone(secs@, p + 1, secs@.len() as int);
        }
        total = total + secs[p].lectures.len();
        p += 1;
    }
    total
}

/// Sections that contain at least one lecture.
pub fn section_count(secs: &Vec<PlannedSection>) -> (r: usize)
    ensures
        r == nonempty_upto(secs@, secs@.len() as int),
{
    let mut n: usize = 0;
    let mut p: usize = 0;
    while p < secs.len()
        invariant
            p <= secs.len(),
            n == nonempty_upto(secs@, p as int),
        decreases secs.len() - p,
    {
        proof {
            lemma_counts_bounded(secs@, p as int);
        }
        if secs[p].lectures.len() > 0 {
            n = n + 1;
        }
        p += 1;
    }
    n
}

/// Lectures that could not be opened (imported but flagged unplayable).
pub fn unplayable_count(secs: &Vec<PlannedSection>) -> (r: usize)
    requires
        lectures_upto(secs@, secs@.len() as int) <= usize::MAX,
    ensures
        r == unplayable_upto(secs@, secs@.len() as int),
{
    let mut n: usize = 0;
    let mut p: usize = 0;
    while p < secs.len()
        invariant
            p <= secs.len(),
            n == unplayable_upto(secs@, p as int),
            lectures_upto(secs@, secs@.len() as int) <= usize::MAX,
        decreases secs.len() - p,
    {
        let ls = &secs[p].lectures;
        let mut k: usize = 0;
        while k < ls.len()
            invariant
                k <= ls.len(),
                p < secs.len(),
                ls@ == secs@[p as int].lectures@,
                n == unplayable_upto(secs@, p as int) + unplayable_in(ls@, k as int),
                lectures_upto(secs@, secs@.len() as int) <= usize::MAX,
            decreases ls.len() - k,
        {
            proof {
                lemma_counts_bounded(secs@, p as int);
                lemma_unplayable_in_bound(ls@, k as int);
                lemma_lectures_upto_monotone(secs@, p + 1, secs@.len() as int);
            }
            if !ls[k].playable {
                n = n + 1;
            }
            k += 1;
        }
        p += 1;
    }
    n
}

/// Files of the given kind in a scan.
pub fn kind_count(files: &Vec<ScannedFile>, kind: FileKind) -> (r: usize)
    ensures
        r == count_kind(files@, kind, files@.len() as int),
{
    let mut n: usize = 0;
    let mut i: usize = 0;
    while i < files.len()
        invariant
            i <= files.len(),
            n == count_kind(files@, kind, i as int),
        decreases files.len() - i,
    {
        proof {
            lemma_count_kind_bound(files@, kind, i as int);
        }
        if files[i].kind == kind {
            n = n + 1;
        }
        i += 1;
    }
    n
}

/// Attachment (resource) files detected in the scan.
pub fn resource_count(files: &Vec<ScannedFile>) -> (r: usize)
    ensures
        r == count_kind(files@, FileKind::Attachment, files@.len() as int),
{
    kind_count(files, FileKind::Attachment)
}

/// Sidecar subtitle files detected in the scan.
pub fn subtitle_count(files: &Vec<ScannedFile>) -> (r: usize)
    ensures
        r == count_kind(files@, FileKind::Subtitle, files@.len() as int),
{
    kind_count(files, FileKind::Subtitle)
}

/// Whether a re-scanned video can reuse its stored media metadata instead
/// of being probed again: same size and modification time as recorded, and
/// a duration was recorded (files imported before probing was available
/// get probed on rescan).
pub fn reuse_prior(
    prior_size: Option<i64>,
    prior_mtime: Option<i64>,
    prior_has_duration: bool,
    size: u64,
    mtime: i64,
) -> (r: bool)
    ensures
        r == (prior_size == Some(size as i64) && prior_mtime == Some(mtime) && prior_has_duration),
{
    let s = size as i64;
    prior_size == Some(s) && prior_mtime == Some(mtime) && prior_has_duration
}


// ---------------------------------------------------------------------------
// Plans
// ---------------------------------------------------------------------------

/// The in-memory plan for a course, ready to persist: the scan and the
/// planned sections.
pub struct ImportPlan {
    pub scan: ScannedTree,
    pub sections: Vec<PlannedSection>,
}

impl ImportPlan {
    /// Total lectures across all sections (0 = nothing playable found).
    pub fn lecture_count(&self) -> (r: usize)
        requires
            lectures_upto(self.sections@, self.sections@.len() as int) <= usize::MAX,
        ensures
            r == lectures_upto(self.sections@, self.sections@.len() as int),
    {
        lecture_count(&self.sections)
    }

    /// Sections that contain at least one lecture.
    pub fn section_count(&self) -> (r: usize)
        ensures
            r == nonempty_upto(self.sections@, self.sections@.len() as int),
    {
        section_count(&self.sections)
    }

    /// Lectures the backend couldn't open (imported but flagged unplayable).
    pub fn unplayable_count(&self) -> (r: usize)
        requires
            lectures_upto(self.sections@, self.sections@.len() as int) <= usize::MAX,
        ensures
            r == unplayable_upto(self.sections@, self.sections@.len() as int),
    {
        unplayable_count(&self.sections)
    }

    /// Attachment (resource) files detected in the scan.
    pub fn resource_count(&self) -> (r: usize)
        ensures
            r == count_kind(self.scan.files@, FileKind::Attachment, self.scan.files@.len() as int),
    {
        resource_count(&self.scan.files)
    }

    /// Sidecar subtitle files detected in the scan.
    pub fn subtitle_count(&self) -> (r: usize)
        ensures
            r == count_kind(self.scan.files@, FileKind::Subtitle, self.scan.files@.len() as int),
    {
        subtitle_count(&self.scan.files)
    }
}

/// A plan with no lecture is refused before anything is written.
pub fn check_plan(plan: &ImportPlan, folder_path: &str) -> (r: Result<(), DeskemyError>)
    requires
        lectures_upto(plan.sections@, plan.sections@.len() as int) <= usize::MAX,
    ensures
        match r {
            Ok(()) => lectures_upto(plan.sections@, plan.sections@.len() as int) > 0,
            Err(e) => lectures_upto(plan.sections@, plan.sections@.len() as int) == 0 && (
            e matches DeskemyError::Import(m) && m@ == "no playable video files found in "@
                + folder_path@),
        },
{
    if plan.lecture_count() == 0 {
        let mut m = chars_of("no playable video files found in ");
        crate::text::append_chars(&mut m, &chars_of(folder_path));
        return Err(DeskemyError::Import(string_of(&m)));
    }
    Ok(())
}

/// The title of a course imported from `folder_path`: the folder's name,
/// or the whole path when it has none.
pub fn course_title(folder_path: &str) -> (r: String)
    ensures
        r@ == match file_name_of(folder_path@) {
            Some(n) => n,
            None => folder_path@,
        },
{
    match crate::scanner::file_name_chars(&chars_of(folder_path)) {
        Some(n) => string_of(&n),
        None => folder_path.to_owned(),
    }
}

// ---------------------------------------------------------------------------
// Probing and hashing
// ---------------------------------------------------------------------------

/// Builds course plans; owns the media backend used to probe videos.
pub struct Importer<P: MediaProber> {
    pub prober: P,
}

impl<P: MediaProber> Importer<P> {
    pub fn new(prober: P) -> (r: Self)
        ensures
            r.prober == prober,
    {
        Importer { prober }
    }

    /// The media metadata of a video: `None` when the stored metadata is
    /// reused (no probe), else what the backend reports for `path`. A backend
    /// error is passed on unchanged.
    pub fn probe_video(&self, path: &str, reuse: bool) -> (r: Result<
        Option<MediaMetadata>,
        DeskemyError,
    >)
        ensures
            reuse ==> r matches Ok(None),
            !reuse ==> match r {
                Ok(Some(m)) => self.prober.probed(path@, Ok(m)),
                Err(e) => self.prober.probed(path@, Err(e)),
                Ok(None) => false,
            },
    {
        if reuse {
            Ok(None)
        } else {
            match self.prober.probe(path) {
                Ok(m) => Ok(Some(m)),
                Err(e) => Err(e),
            }
        }
    }
}

/// The content hash a lecture records: the stored one when the file is
/// unchanged and one was stored, else a fresh one from the file's size and
/// head sample (`None` when the sample could not be read).
pub open spec fn lecture_hash_spec(
    reused: Option<Seq<char>>,
    size: u64,
    sample: Option<Seq<u8>>,
) -> Option<Seq<char>> {
    match reused {
        Some(h) => Some(h),
        None => match sample {
            Some(b) => Some(content_hash_spec(size, b)),
            None => None,
        },
    }
}

/// Content hash of a lecture file from its size and head sample; `None` when
/// the sample could not be read.
pub fn hash_lecture_file(size: u64, sample: Option<&[u8]>) -> (r: Option<String>)
    ensures
        match r {
            Some(h) => sample.is_some() && h@ == content_hash_spec(size, sample.unwrap()@),
            None => sample.is_none(),
        },
{
    match sample {
        Some(b) => Some(content_hash_of(size, b)),
        None => None,
    }
}

/// The hash a planned lecture gets: the stored one for an unchanged file
/// that has one, else `hash_lecture_file` of the sample.
pub fn lecture_hash(reused: Option<String>, size: u64, sample: Option<&[u8]>) -> (r: Option<
    String,
>)
    ensures
        opt_view(r) == lecture_hash_spec(
            opt_view(reused),
            size,
            match sample {
                Some(b) => Some(b@),
                None => None,
            },
        ),
{
    match reused {
        Some(h) => Some(h),
        None => hash_lecture_file(size, sample),
    }
}

// ---------------------------------------------------------------------------
// Laws
// ---------------------------------------------------------------------------

proof fn lemma_no_path_in(ls: Seq<PlannedLecture>, path: Seq<char>, n: int)
    requires
        0 <= n <= ls.len(),
        forall|k: int| 0 <= k < n ==> (#[trigger] ls[k]).path@ != path,
    ensures
        last_path_in(ls, path, n) is None,
    decreases n,
{
    if n > 0 {
        lemma_no_path_in(ls, path, n - 1);
    }
}

proof fn lemma_no_path(secs: Seq<PlannedSection>, path: Seq<char>, n: int)
    requires
        0 <= n <= secs.len(),
        forall|p: int, k: int|
            0 <= p < n && 0 <= k < secs[p].lectures@.len() ==> (#[trigger] secs[p].lectures@[k]).path@
                != path,
    ensures
        last_path(secs, path, n) is None,
    decreases n,
{
    if n > 0 {
        let ls = secs[n - 1].lectures@;
        assert forall|k: int| 0 <= k < ls.len() implies (#[trigger] ls[k]).path@ != path by {
            assert(secs[n - 1].lectures@[k] == ls[k]);
        }
        lemma_no_path_in(ls, path, ls.len() as int);
        lemma_no_path(secs, path, n - 1);
    }
}

proof fn lemma_unique_hash_in(ls: Seq<PlannedLecture>, h: Seq<char>, n: int, k0: int)
    requires
        0 <= n <= ls.len(),
        forall|k: int| 0 <= k < n && k != k0 ==> !hash_is((#[trigger] ls[k]).content_hash, h),
        0 <= k0 < ls.len() ==> hash_is(ls[k0].content_hash, h),
    ensures
        last_hash_in(ls, h, n) == (if 0 <= k0 < n {
            Some(k0)
        } else {
            None::<int>
        }),
    decreases n,
{
    if n > 0 {
        lemma_unique_hash_in(ls, h, n - 1, k0);
    }
}

proof fn lemma_unique_hash(secs: Seq<PlannedSection>, h: Seq<char>, n: int, p0: int, k0: int)
    requires
        0 <= n <= secs.len(),
        0 <= p0 < secs.len(),
        0 <= k0 < secs[p0].lectures@.len(),
        hash_is(secs[p0].lectures@[k0].content_hash, h),
        forall|p: int, k: int|
            0 <= p < secs.len() && 0 <= k < secs[p].lectures@.len() && (p, k) != (p0, k0)
                ==> !hash_is((#[trigger] secs[p].lectures@[k]).content_hash, h),
    ensures
        last_hash(secs, h, n) == (if p0 < n {
            Some((p0, k0))
        } else {
            None::<(int, int)>
        }),
    decreases n,
{
    if n > 0 {
        let ls = secs[n - 1].lectures@;
        let kk = if n - 1 == p0 {
            k0
        } else {
            -1
        };
        assert forall|k: int| 0 <= k < ls.len() && k != kk implies !hash_is(
            (#[trigger] ls[k]).content_hash,
            h,
        ) by {
            assert(secs[n - 1].lectures@[k] == ls[k]);
        }
        lemma_unique_hash_in(ls, h, ls.len() as int, kk);
        lemma_unique_hash(secs, h, n - 1, p0, k0);
    }
}

/// Rename-safe: when no lecture of the new plan has an old lecture's path,
/// and exactly one has its content hash, the old lecture's user data goes to
/// that one.
pub proof fn law_renamed_file_keeps_its_data(
    secs: Seq<PlannedSection>,
    path: Seq<char>,
    h: Seq<char>,
    p0: int,
    k0: int,
)
    requires
        forall|p: int, k: int|
            0 <= p < secs.len() && 0 <= k < secs[p].lectures@.len() ==> (#[trigger] secs[p].lectures@[k]).path@
                != path,
        0 <= p0 < secs.len(),
        0 <= k0 < secs[p0].lectures@.len(),
        hash_is(secs[p0].lectures@[k0].content_hash, h),
        forall|p: int, k: int|
            0 <= p < secs.len() && 0 <= k < secs[p].lectures@.len() && (p, k) != (p0, k0)
                ==> !hash_is((#[trigger] secs[p].lectures@[k]).content_hash, h),
    ensures
        remap_spec(secs, path, Some(h)) == Some((p0, k0)),
{
    lemma_no_path(secs, path, secs.len() as int);
    lemma_unique_hash(secs, h, secs.len() as int, p0, k0);
}

proof fn lemma_last_path_in_hit(ls: Seq<PlannedLecture>, path: Seq<char>, n: int)
    requires
        0 <= n <= ls.len(),
    ensures
        last_path_in(ls, path, n) matches Some(k) ==> 0 <= k < n && ls[k].path@ == path,
    decreases n,
{
    if n > 0 {
        lemma_last_path_in_hit(ls, path, n - 1);
    }
}

proof fn lemma_last_path_hit(secs: Seq<PlannedSection>, path: Seq<char>, n: int)
    requires
        0 <= n <= secs.len(),
    ensures
        last_path(secs, path, n) matches Some((p, k)) ==> 0 <= p < n && 0 <= k
            < secs[p].lectures@.len() && secs[p].lectures@[k].path@ == path,
    decreases n,
{
    if n > 0 {
        lemma_last_path_in_hit(secs[n - 1].lectures@, path, secs[n - 1].lectures@.len() as int);
        lemma_last_path_hit(secs, path, n - 1);
    }
}

/// A file that is still at its old path keeps its user data: when some
/// lecture of the new plan has the old path, the data goes to a lecture with
/// that path, whatever the hashes say.
pub proof fn law_same_path_wins(
    secs: Seq<PlannedSection>,
    path: Seq<char>,
    hash: Option<Seq<char>>,
    p0: int,
    k0: int,
)
    requires
        0 <= p0 < secs.len(),
        0 <= k0 < secs[p0].lectures@.len(),
        secs[p0].lectures@[k0].path@ == path,
    ensures
        remap_spec(secs, path, hash) matches Some((p, k)) && 0 <= p < secs.len() && 0 <= k
            < secs[p].lectures@.len() && secs[p].lectures@[k].path@ == path,
{
    lemma_last_path_hit(secs, path, secs.len() as int);
    if last_path(secs, path, secs.len() as int) is None {
        lemma_path_found(secs, path, secs.len() as int, p0, k0);
    }
}

proof fn lemma_path_found_in(ls: Seq<PlannedLecture>, path: Seq<char>, n: int, k0: int)
    requires
        0 <= k0 < n <= ls.len(),
        ls[k0].path@ == path,
    ensures
        last_path_in(ls, path, n) is Some,
    decreases n,
{
    if n - 1 != k0 {
        lemma_path_found_in(ls, path, n - 1, k0);
    }
}

proof fn lemma_path_found(secs: Seq<PlannedSection>, path: Seq<char>, n: int, p0: int, k0: int)
    requires
        0 <= p0 < n <= secs.len(),
        0 <= k0 < secs[p0].lectures@.len(),
        secs[p0].lectures@[k0].path@ == path,
    ensures
        last_path(secs, path, n) is Some,
    decreases n,
{
    if n - 1 == p0 {
        lemma_path_found_in(secs[p0].lectures@, path, secs[p0].lectures@.len() as int, k0);
    } else {
        lemma_path_found(secs, path, n - 1, p0, k0);
    }
}

/// Loose videos in the course root form the first section, "Introduction".
pub proof fn law_root_videos_open_the_course(files: Seq<ScannedFile>, secs: Seq<PlannedSection>, i: int)
    requires
        plan_fits(files, secs),
        0 <= i < files.len(),
        is_video(files[i]),
        section_key_of(files[i]).len() == 0,
    ensures
        secs.len() > 0,
        secs[0].key@.len() == 0,
        secs[0].title@ == intro_title(),
{
    let p = choose|p: int| 0 <= p < secs.len() && secs[p].key@ == section_key_of(files[i]);
    assert(secs[p].key@.len() == 0);
    if secs[0].key@.len() != 0 {
        assert(p != 0);
        assert(view_le(section_order(secs[0].key@), section_order(secs[p].key@)));
        assert(section_order(secs[p].key@) == (0int, 0int, Seq::<char>::empty()));
    }
    assert(section_fits(secs[0], files, 0));
}

/// Sections follow the course order: the root's "Introduction" can only be
/// first, and of two sections whose folder names carry a leading number,
/// the earlier one's number is at most the later one's.
pub proof fn law_sections_ordered_by_number(files: Seq<ScannedFile>, secs: Seq<PlannedSection>, p: int, q: int)
    requires
        plan_fits(files, secs),
        0 <= p < q < secs.len(),
    ensures
        secs[q].key@.len() > 0,
        leading_number_spec(secs[p].key@) is Some && leading_number_spec(secs[q].key@) is Some
            ==> leading_number_spec(secs[p].key@)->0 <= leading_number_spec(secs[q].key@)->0,
{
    assert(secs[p].key@ != secs[q].key@);
    assert(view_le(section_order(secs[p].key@), section_order(secs[q].key@)));
    if secs[q].key@.len() == 0 && secs[p].key@.len() == 0 {
        assert(secs[p].key@ =~= secs[q].key@);
    }
}

/// Every video of the scan is planned exactly once: in the section of its
/// top-level folder, as exactly one lecture; and every planned lecture is a
/// video of the scan.
pub proof fn law_plan_covers_each_video_once(files: Seq<ScannedFile>, secs: Seq<PlannedSection>, i: int)
    requires
        plan_fits(files, secs),
        0 <= i < files.len(),
        is_video(files[i]),
    ensures
        exists|p: int, k: int|
            0 <= p < secs.len() && 0 <= k < secs[p].lectures@.len() && secs[p].lectures@[k].file
                == i,
        forall|p1: int, k1: int, p2: int, k2: int|
            0 <= p1 < secs.len() && 0 <= k1 < secs[p1].lectures@.len() && 0 <= p2 < secs.len()
                && 0 <= k2 < secs[p2].lectures@.len() && #[trigger] secs[p1].lectures@[k1].file == i
                && #[trigger] secs[p2].lectures@[k2].file == i ==> p1 == p2 && k1 == k2,
{
    let p = choose|p: int| 0 <= p < secs.len() && secs[p].key@ == section_key_of(files[i]);
    assert(section_fits(secs[p], files, p));
    let k = choose|k: int| 0 <= k < secs[p].lectures@.len() && secs[p].lectures@[k].file == i;
    assert(secs[p].lectures@[k].file == i);
    assert forall|p1: int, k1: int, p2: int, k2: int|
        0 <= p1 < secs.len() && 0 <= k1 < secs[p1].lectures@.len() && 0 <= p2 < secs.len() && 0
            <= k2 < secs[p2].lectures@.len() && #[trigger] secs[p1].lectures@[k1].file == i
            && #[trigger] secs[p2].lectures@[k2].file == i implies p1 == p2 && k1 == k2 by {
        assert(section_fits(secs[p1], files, p1));
        assert(section_fits(secs[p2], files, p2));
        assert(secs[p1].key@ == section_key_of(files[i]));
        assert(secs[p2].key@ == section_key_of(files[i]));
        if p1 != p2 {
            if p1 < p2 {
                assert(secs[p1].key@ != secs[p2].key@);
            } else {
                assert(secs[p2].key@ != secs[p1].key@);
            }
        }
        if k1 != k2 {
            let ls = secs[p1].lectures@;
            let a = if k1 < k2 { k1 } else { k2 };
            let b = if k1 < k2 { k2 } else { k1 };
            assert(lecture_before(files, ls[a].file as int, ls[b].file as int));
            crate::ordering::lemma_view_lt_irreflexive(lecture_order(files[i].name@));
        }
    }
}


/// Within a planned section, lectures with a leading number come first, in
/// ascending order of that number: of two lectures, the earlier one's number
/// is at most the later one's, and an unnumbered lecture is followed only by
/// unnumbered ones.
pub proof fn law_lectures_ordered_by_number(
    files: Seq<ScannedFile>,
    secs: Seq<PlannedSection>,
    p: int,
    a: int,
    b: int,
)
    requires
        plan_fits(files, secs),
        0 <= p < secs.len(),
        0 <= a < b < secs[p].lectures@.len(),
    ensures
        secs[p].lectures@[a].number is Some && secs[p].lectures@[b].number is Some
            ==> secs[p].lectures@[a].number->0 <= secs[p].lectures@[b].number->0,
        secs[p].lectures@[a].number is None ==> secs[p].lectures@[b].number is None,
{
    let ls = secs[p].lectures@;
    assert(section_fits(secs[p], files, p));
    assert(lecture_fits(ls[a], files, a));
    assert(lecture_fits(ls[b], files, b));
    let fa = ls[a].file as int;
    let fb = ls[b].file as int;
    assert(lecture_before(files, fa, fb));
}

/// Scanning `[k, ls.len())`: with no exact stem match there, the search for
/// one ends at the length.
proof fn lemma_first_exact_none(ls: Seq<PlannedLecture>, f: ScannedFile, sub: Seq<char>, k: int)
    requires
        0 <= k <= ls.len(),
        forall|j: int| k <= j < ls.len() ==> !exact_at(ls, f, sub, j),
    ensures
        first_exact(ls, f, sub, k) == ls.len(),
    decreases ls.len() - k,
{
    if k < ls.len() {
        assert(!exact_at(ls, f, sub, k));
        lemma_first_exact_none(ls, f, sub, k + 1);
    }
}

/// `best_lang` among the first `n` lectures picks one whose stem a language
/// tag follows, with a stem at least as long as every other such lecture's;
/// it finds none only when there is none.
proof fn lemma_best_lang(ls: Seq<PlannedLecture>, f: ScannedFile, sub: Seq<char>, n: int)
    requires
        0 <= n <= ls.len(),
    ensures
        match best_lang(ls, f, sub, n) {
            Some(b) => 0 <= b < n && lang_at(ls, f, sub, b) && forall|j: int|
                0 <= j < n && lang_at(ls, f, sub, j) ==> ls[j].stem@.len() <= ls[b].stem@.len(),
            None => forall|j: int| 0 <= j < n ==> !lang_at(ls, f, sub, j),
        },
    decreases n,
{
    if n > 0 {
        lemma_best_lang(ls, f, sub, n - 1);
    }
}

/// A subtitle named after a lecture and a language tag (`name.en.srt` for
/// lecture `name`) is matched when no lecture in its folder has exactly its
/// stem: to a lecture in its folder whose stem, a dot and a non-empty tag
/// make up the subtitle's stem, the tag being its language; and of all such
/// lectures, to one with the longest stem.
pub proof fn law_tagged_subtitle_is_matched(
    ls: Seq<PlannedLecture>,
    f: ScannedFile,
    sub: Seq<char>,
    k: int,
    tag: Seq<char>,
)
    requires
        stem_opt(f.name@) == Some(sub),
        forall|j: int| 0 <= j < ls.len() ==> !(same_dir(ls[j], f) && ls[j].stem@ == sub),
        0 <= k < ls.len(),
        same_dir(ls[k], f),
        tag.len() > 0,
        sub == ls[k].stem@ + seq!['.'] + tag,
    ensures
        match_subtitle_spec(ls, f) matches Some((b, Some(lang))) && 0 <= b < ls.len() && same_dir(
            ls[b],
            f,
        ) && lang.len() > 0 && sub == ls[b].stem@ + seq!['.'] + lang && ls[b].stem@.len()
            >= ls[k].stem@.len(),
{
    let st = ls[k].stem@;
    lemma_first_exact_none(ls, f, sub, 0);
    assert(sub.take(st.len() as int) =~= st);
    assert(sub[st.len() as int] == '.');
    assert(lang_at(ls, f, sub, k));
    lemma_best_lang(ls, f, sub, ls.len() as int);
    let b = best_lang(ls, f, sub, ls.len() as int)->0;
    let sb = ls[b].stem@;
    let lang = sub.skip(sb.len() as int + 1);
    assert forall|i: int| 0 <= i < sb.len() implies sub[i] == sb[i] by {
        assert(sub.take(sb.len() as int)[i] == sub[i]);
    }
    assert(sub =~= sb + seq!['.'] + lang);
}

/// Scanning from `k0`: the search for a lecture in the file's folder with
/// stem `st` stops at the first one, no later than a known match `k`.
proof fn lemma_first_stem_match(ls: Seq<PlannedLecture>, f: ScannedFile, st: Seq<char>, k0: int, k: int)
    requires
        0 <= k0 <= k < ls.len(),
        same_dir(ls[k], f),
        ls[k].stem@ == st,
    ensures
        k0 <= first_stem_match(ls, f, st, k0) <= k,
        same_dir(ls[first_stem_match(ls, f, st, k0)], f),
        ls[first_stem_match(ls, f, st, k0)].stem@ == st,
        forall|j: int|
            k0 <= j < first_stem_match(ls, f, st, k0) ==> !(same_dir(ls[j], f) && ls[j].stem@ == st),
    decreases k - k0,
{
    if !(same_dir(ls[k0], f) && ls[k0].stem@ == st) {
        lemma_first_stem_match(ls, f, st, k0 + 1, k);
    }
}

/// A resource file is attached to the first lecture of its section that
/// lies in its folder and has exactly its file stem, whenever there is one.
pub proof fn law_resource_attaches_by_stem(ls: Seq<PlannedLecture>, f: ScannedFile, st: Seq<char>, k: int)
    requires
        stem_opt(f.name@) == Some(st),
        0 <= k < ls.len(),
        same_dir(ls[k], f),
        ls[k].stem@ == st,
    ensures
        match_attachment_spec(ls, f) matches Some(e) && 0 <= e <= k && same_dir(ls[e], f)
            && ls[e].stem@ == st && forall|j: int|
            0 <= j < e ==> !(same_dir(ls[j], f) && ls[j].stem@ == st),
{
    assert(attachment_stem(f.name@) == st);
    lemma_first_stem_match(ls, f, st, 0, k);
}


/// Resource kinds by extension, in any letter case: pdf is a pdf; zip, rar,
/// 7z, tar and gz are archives; html and htm are html; txt is text.
pub proof fn law_resource_kinds(name: Seq<char>)
    ensures
        crate::scanner::lower_extension(name) == seq!['p', 'd', 'f'] ==> attachment_kind_spec(name)
            == seq!['p', 'd', 'f'],
        crate::scanner::lower_extension(name) == seq!['z', 'i', 'p'] ==> attachment_kind_spec(name)
            == seq!['a', 'r', 'c', 'h', 'i', 'v', 'e'],
        crate::scanner::lower_extension(name) == seq!['r', 'a', 'r'] ==> attachment_kind_spec(name)
            == seq!['a', 'r', 'c', 'h', 'i', 'v', 'e'],
        crate::scanner::lower_extension(name) == seq!['7', 'z'] ==> attachment_kind_spec(name)
            == seq!['a', 'r', 'c', 'h', 'i', 'v', 'e'],
        crate::scanner::lower_extension(name) == seq!['t', 'a', 'r'] ==> attachment_kind_spec(name)
            == seq!['a', 'r', 'c', 'h', 'i', 'v', 'e'],
        crate::scanner::lower_extension(name) == seq!['g', 'z'] ==> attachment_kind_spec(name)
            == seq!['a', 'r', 'c', 'h', 'i', 'v', 'e'],
        crate::scanner::lower_extension(name) == seq!['h', 't', 'm', 'l'] ==> attachment_kind_spec(
            name,
        ) == seq!['h', 't', 'm', 'l'],
        crate::scanner::lower_extension(name) == seq!['h', 't', 'm'] ==> attachment_kind_spec(name)
            == seq!['h', 't', 'm', 'l'],
        crate::scanner::lower_extension(name) == seq!['t', 'x', 't'] ==> attachment_kind_spec(name)
            == seq!['t', 'e', 'x', 't'],
        crate::scanner::lower_extension(name).len() == 0 ==> attachment_kind_spec(name) == seq![
            'o',
            't',
            'h',
            'e',
            'r',
        ],
{
}

/// What the extensions of the pdf, archive and html kinds look like.
proof fn lemma_non_code_ext_shape(e: Seq<char>)
    ensures
        is_pdf_ext(e) ==> e.len() == 3 && e[0] == 'p' && e[1] == 'd',
        is_archive_ext(e) ==> (e.len() == 3 && (e[0] == 'z' || e[0] == 'r' || e[0] == 't')) || (
        e.len() == 2 && (e[0] == '7' || (e[0] == 'g' && e[1] == 'z'))),
        is_html_ext(e) ==> e.len() >= 3 && e[0] == 'h',
{
}

/// Source files are code resources, by extension in any letter case: sql,
/// js, ts, py, json, dbml, java, rb, go, rs, css, c, cpp, h, sh, yml, yaml,
/// xml and md.
pub proof fn law_code_resource_kinds(name: Seq<char>)
    ensures
        ({
            let e = crate::scanner::lower_extension(name);
            (e == seq!['s', 'q', 'l'] || e == seq!['j', 's'] || e == seq!['t', 's'] || e == seq![
                'p',
                'y',
            ] || e == seq!['j', 's', 'o', 'n'] || e == seq!['d', 'b', 'm', 'l'] || e == seq![
                'j',
                'a',
                'v',
                'a',
            ] || e == seq!['r', 'b'] || e == seq!['g', 'o'] || e == seq!['r', 's'] || e == seq![
                'c',
                's',
                's',
            ] || e == seq!['c'] || e == seq!['c', 'p', 'p'] || e == seq!['h'] || e == seq!['s', 'h']
                || e == seq!['y', 'm', 'l'] || e == seq!['y', 'a', 'm', 'l'] || e == seq![
                'x',
                'm',
                'l',
            ] || e == seq!['m', 'd']) ==> attachment_kind_spec(name) == seq!['c', 'o', 'd', 'e']
        }),
{
    lemma_non_code_ext_shape(crate::scanner::lower_extension(name));
}

proof fn lemma_first_cover(files: Seq<ScannedFile>, i: int, c: int)
    requires
        0 <= i <= c < files.len(),
        is_cover(files[c]),
    ensures
        i <= first_cover(files, i) <= c,
        is_cover(files[first_cover(files, i)]),
        forall|j: int| i <= j < first_cover(files, i) ==> !is_cover(files[j]),
    decreases c - i,
{
    if !is_cover(files[i]) {
        lemma_first_cover(files, i + 1, c);
    }
}

proof fn lemma_first_root_image(files: Seq<ScannedFile>, i: int)
    requires
        0 <= i <= files.len(),
    ensures
        i <= first_root_image(files, i) <= files.len(),
        first_root_image(files, i) < files.len() ==> is_root_image(files[first_root_image(files, i)]),
        forall|j: int| i <= j < first_root_image(files, i) ==> !is_root_image(files[j]),
    decreases files.len() - i,
{
    if i < files.len() && !is_root_image(files[i]) {
        lemma_first_root_image(files, i + 1);
    }
}

proof fn lemma_no_cover(files: Seq<ScannedFile>, i: int)
    requires
        0 <= i <= files.len(),
        forall|j: int| i <= j < files.len() ==> !is_cover(files[j]),
    ensures
        first_cover(files, i) == files.len(),
    decreases files.len() - i,
{
    if i < files.len() {
        assert(!is_cover(files[i]));
        lemma_no_cover(files, i + 1);
    }
}

/// The course cover: when an image in the course root is named as a cover
/// (cover, thumbnail, poster, folder or course), the first such image is the
/// thumbnail.
pub proof fn law_named_cover_is_thumbnail(files: Seq<ScannedFile>, c: int)
    requires
        0 <= c < files.len(),
        is_cover(files[c]),
    ensures
        thumbnail_spec(files) matches Some(t) && exists|k: int|
            0 <= k <= c && is_cover(#[trigger] files[k]) && t == files[k].path@ && forall|j: int|
                0 <= j < k ==> !is_cover(files[j]),
{
    lemma_first_cover(files, 0, c);
    let k = first_cover(files, 0);
    assert(is_cover(files[k]));
}

/// Without a cover-named image, the first image in the course root is the
/// thumbnail; a course whose root holds no image has none.
pub proof fn law_first_root_image_is_thumbnail(files: Seq<ScannedFile>)
    requires
        forall|j: int| 0 <= j < files.len() ==> !is_cover(#[trigger] files[j]),
    ensures
        match thumbnail_spec(files) {
            Some(t) => exists|k: int|
                0 <= k < files.len() && is_root_image(#[trigger] files[k]) && t == files[k].path@
                    && forall|j: int| 0 <= j < k ==> !is_root_image(files[j]),
            None => forall|j: int| 0 <= j < files.len() ==> !is_root_image(#[trigger] files[j]),
        },
{
    lemma_first_root_image(files, 0);
    lemma_no_cover(files, 0);
    let r = first_root_image(files, 0);
    if r < files.len() {
        assert(is_root_image(files[r]));
    }
}


proof fn lemma_first_exact(ls: Seq<PlannedLecture>, f: ScannedFile, sub: Seq<char>, k0: int, k: int)
    requires
        0 <= k0 <= k < ls.len(),
        exact_at(ls, f, sub, k),
    ensures
        k0 <= first_exact(ls, f, sub, k0) <= k,
        exact_at(ls, f, sub, first_exact(ls, f, sub, k0)),
    decreases k - k0,
{
    if !exact_at(ls, f, sub, k0) {
        lemma_first_exact(ls, f, sub, k0 + 1, k);
    }
}

/// A subtitle with exactly the stem of a lecture in its folder
/// (`name.srt` for lecture `name`) is matched, with no language, to the
/// first such lecture.
pub proof fn law_exact_subtitle_is_matched(ls: Seq<PlannedLecture>, f: ScannedFile, sub: Seq<char>, k: int)
    requires
        stem_opt(f.name@) == Some(sub),
        0 <= k < ls.len(),
        same_dir(ls[k], f),
        ls[k].stem@ == sub,
    ensures
        match_subtitle_spec(ls, f) matches Some((e, lang)) && lang is None && 0 <= e <= k && same_dir(
            ls[e],
            f,
        ) && ls[e].stem@ == sub,
{
    lemma_first_exact(ls, f, sub, 0, k);
}

proof fn lemma_no_stem_match(ls: Seq<PlannedLecture>, f: ScannedFile, st: Seq<char>, k: int)
    requires
        0 <= k <= ls.len(),
        forall|j: int| k <= j < ls.len() ==> !(same_dir(ls[j], f) && ls[j].stem@ == st),
    ensures
        first_stem_match(ls, f, st, k) == ls.len(),
    decreases ls.len() - k,
{
    if k < ls.len() {
        assert(!(same_dir(ls[k], f) && ls[k].stem@ == st));
        lemma_no_stem_match(ls, f, st, k + 1);
    }
}

proof fn lemma_first_number_match(ls: Seq<PlannedLecture>, f: ScannedFile, n: int, k0: int, k: int)
    requires
        0 <= k0 <= k < ls.len(),
        i64::MIN <= n <= i64::MAX,
        same_dir(ls[k], f),
        ls[k].number == Some(n as i64),
    ensures
        k0 <= first_number_match(ls, f, n, k0) <= k,
        same_dir(ls[first_number_match(ls, f, n, k0)], f),
        ls[first_number_match(ls, f, n, k0)].number == Some(n as i64),
    decreases k - k0,
{
    if !(same_dir(ls[k0], f) && ls[k0].number == Some(n as i64)) {
        lemma_first_number_match(ls, f, n, k0 + 1, k);
    }
}

/// A resource file that no lecture in its folder shares a stem with is
/// attached by its leading number: to the first lecture in its folder with
/// the same number, when there is one.
pub proof fn law_resource_attaches_by_number(ls: Seq<PlannedLecture>, f: ScannedFile, n: int, k: int)
    requires
        forall|j: int|
            0 <= j < ls.len() ==> !(same_dir(ls[j], f) && ls[j].stem@ == attachment_stem(f.name@)),
        leading_number_spec(f.name@) == Some(n),
        0 <= k < ls.len(),
        same_dir(ls[k], f),
        ls[k].number == Some(n as i64),
    ensures
        match_attachment_spec(ls, f) matches Some(e) && 0 <= e <= k && same_dir(ls[e], f)
            && ls[e].number == Some(n as i64),
{
    lemma_no_stem_match(ls, f, attachment_stem(f.name@), 0);
    lemma_first_number_match(ls, f, n, 0, k);
}

} // verus!
