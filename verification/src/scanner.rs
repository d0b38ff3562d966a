//! Classification of scanned files, and the flat record of a scanned folder.
//! Walking the file system happens outside the library; it hands each file
//! over as plain values.

use vstd::prelude::*;
use crate::watcher::{components, components_of, comps_prefix};
use crate::db::{secs_as_i64, unix_seconds};
use crate::text::{chars_of, eq_chars, lowercase, string_of, to_lowercase};
use crate::structure::last_dot;

verus! {

#[derive(Debug, Clone, Copy, PartialEq, Eq, Structural)]
pub enum FileKind {
    Video,
    Subtitle,
    Image,
    Attachment,
}

// ---------------------------------------------------------------------------
// File names and extensions of paths
// ---------------------------------------------------------------------------

/// Path separators (the Windows set: `/` and `\`).
pub open spec fn is_path_sep(c: char) -> bool {
    c == '/' || c == '\\'
}

/// Start of the path component that ends at `j`.
pub open spec fn component_start(s: Seq<char>, j: int) -> int
    decreases j,
{
    if j <= 0 || j > s.len() || is_path_sep(s[j - 1]) {
        j
    } else {
        component_start(s, j - 1)
    }
}

/// `Path::file_name`: the last component, skipping trailing separators and
/// `.` components; `None` for an empty path, a root, or a path ending in `..`.
pub open spec fn file_name_of(s: Seq<char>) -> Option<Seq<char>>
    decreases s.len(),
{
    if s.len() == 0 {
        None
    } else if is_path_sep(s.last()) {
        file_name_of(s.drop_last())
    } else {
        let st = component_start(s, s.len() as int);
        let c = s.subrange(st, s.len() as int);
        if c == seq!['.'] {
            if 0 <= st < s.len() {
                file_name_of(s.subrange(0, st))
            } else {
                None
            }
        } else if c == seq!['.', '.'] {
            None
        } else {
            Some(c)
        }
    }
}

/// `Path::extension` of a file name: the part after the last `.`, unless
/// that dot is the name's first character or there is none.
pub open spec fn name_extension(name: Seq<char>) -> Option<Seq<char>> {
    let d = last_dot(name);
    if d > 0 {
        Some(name.subrange(d + 1, name.len() as int))
    } else {
        None
    }
}

/// `Path::extension` of a path.
pub open spec fn path_extension(path: Seq<char>) -> Option<Seq<char>> {
    match file_name_of(path) {
        Some(n) => name_extension(n),
        None => None,
    }
}

/// The lower-cased extension, or the empty string when there is none.
pub open spec fn lower_extension(path: Seq<char>) -> Seq<char> {
    lowercase(
        match path_extension(path) {
            Some(e) => e,
            None => Seq::empty(),
        },
    )
}

pub open spec fn is_video_ext(e: Seq<char>) -> bool {
    ||| e == seq!['m', 'p', '4']
    ||| e == seq!['m', 'k', 'v']
    ||| e == seq!['w', 'e', 'b', 'm']
    ||| e == seq!['a', 'v', 'i']
    ||| e == seq!['m', 'o', 'v']
    ||| e == seq!['m', '4', 'v']
    ||| e == seq!['f', 'l', 'v']
    ||| e == seq!['t', 's']
    ||| e == seq!['w', 'm', 'v']
    ||| e == seq!['m', 'p', 'g']
    ||| e == seq!['m', 'p', 'e', 'g']
    ||| e == seq!['o', 'g', 'v']
    ||| e == seq!['3', 'g', 'p']
}

pub open spec fn is_subtitle_ext(e: Seq<char>) -> bool {
    ||| e == seq!['s', 'r', 't']
    ||| e == seq!['v', 't', 't']
    ||| e == seq!['a', 's', 's']
    ||| e == seq!['s', 's', 'a']
    ||| e == seq!['s', 'u', 'b']
}

pub open spec fn is_image_ext(e: Seq<char>) -> bool {
    ||| e == seq!['j', 'p', 'g']
    ||| e == seq!['j', 'p', 'e', 'g']
    ||| e == seq!['p', 'n', 'g']
    ||| e == seq!['w', 'e', 'b', 'p']
    ||| e == seq!['g', 'i', 'f']
    ||| e == seq!['b', 'm', 'p']
}

/// The kind of a file with the given lower-cased extension.
pub open spec fn kind_of_ext(e: Seq<char>) -> FileKind {
    if is_video_ext(e) {
        FileKind::Video
    } else if is_subtitle_ext(e) {
        FileKind::Subtitle
    } else if is_image_ext(e) {
        FileKind::Image
    } else {
        FileKind::Attachment
    }
}

pub open spec fn classify_spec(path: Seq<char>) -> FileKind {
    kind_of_ext(lower_extension(path))
}

/// A file whose extension, in any letter case, is one of mp4, mkv, webm,
/// avi, mov, m4v, flv, ts, wmv, mpg, mpeg, ogv or 3gp is a video, and so
/// becomes a lecture.
pub proof fn law_video_extensions(path: Seq<char>)
    ensures
        lower_extension(path) == seq!['m', 'p', '4'] ==> classify_spec(path) == FileKind::Video,
        lower_extension(path) == seq!['m', 'k', 'v'] ==> classify_spec(path) == FileKind::Video,
        lower_extension(path) == seq!['w', 'e', 'b', 'm'] ==> classify_spec(path) == FileKind::Video,
        lower_extension(path) == seq!['a', 'v', 'i'] ==> classify_spec(path) == FileKind::Video,
        lower_extension(path) == seq!['m', 'o', 'v'] ==> classify_spec(path) == FileKind::Video,
        lower_extension(path) == seq!['m', '4', 'v'] ==> classify_spec(path) == FileKind::Video,
        lower_extension(path) == seq!['f', 'l', 'v'] ==> classify_spec(path) == FileKind::Video,
        lower_extension(path) == seq!['t', 's'] ==> classify_spec(path) == FileKind::Video,
        lower_extension(path) == seq!['w', 'm', 'v'] ==> classify_spec(path) == FileKind::Video,
        lower_extension(path) == seq!['m', 'p', 'g'] ==> classify_spec(path) == FileKind::Video,
        lower_extension(path) == seq!['m', 'p', 'e', 'g'] ==> classify_spec(path) == FileKind::Video,
        lower_extension(path) == seq!['o', 'g', 'v'] ==> classify_spec(path) == FileKind::Video,
        lower_extension(path) == seq!['3', 'g', 'p'] ==> classify_spec(path) == FileKind::Video,
{
}

/// A file whose extension, in any letter case, is srt, vtt, ass, ssa or sub
/// is a subtitle.
pub proof fn law_subtitle_extensions(path: Seq<char>)
    ensures
        lower_extension(path) == seq!['s', 'r', 't'] ==> classify_spec(path) == FileKind::Subtitle,
        lower_extension(path) == seq!['v', 't', 't'] ==> classify_spec(path) == FileKind::Subtitle,
        lower_extension(path) == seq!['a', 's', 's'] ==> classify_spec(path) == FileKind::Subtitle,
        lower_extension(path) == seq!['s', 's', 'a'] ==> classify_spec(path) == FileKind::Subtitle,
        lower_extension(path) == seq!['s', 'u', 'b'] ==> classify_spec(path) == FileKind::Subtitle,
{
}

/// A file whose extension, in any letter case, is jpg, jpeg, png, webp, gif
/// or bmp is an image.
pub proof fn law_image_extensions(path: Seq<char>)
    ensures
        lower_extension(path) == seq!['j', 'p', 'g'] ==> classify_spec(path) == FileKind::Image,
        lower_extension(path) == seq!['j', 'p', 'e', 'g'] ==> classify_spec(path) == FileKind::Image,
        lower_extension(path) == seq!['p', 'n', 'g'] ==> classify_spec(path) == FileKind::Image,
        lower_extension(path) == seq!['w', 'e', 'b', 'p'] ==> classify_spec(path) == FileKind::Image,
        lower_extension(path) == seq!['g', 'i', 'f'] ==> classify_spec(path) == FileKind::Image,
        lower_extension(path) == seq!['b', 'm', 'p'] ==> classify_spec(path) == FileKind::Image,
{
}

/// The start of the component ending at `j`.
fn component_start_exec(v: &Vec<char>, j: usize) -> (r: usize)
    requires
        j <= v.len(),
    ensures
        r == component_start(v@, j as int),
        r <= j,
{
    let mut i = j;
    while i > 0 && v[i - 1] != '/' && v[i - 1] != '\\'
        invariant
            i <= j <= v.len(),
            component_start(v@, j as int) == component_start(v@, i as int),
        decreases i,
    {
        i -= 1;
    }
    i
}

/// `Path::file_name` on the characters of a path.
pub fn file_name_chars(v: &Vec<char>) -> (r: Option<Vec<char>>)
    ensures
        r matches Some(n) ==> file_name_of(v@) == Some(n@),
        r is None ==> file_name_of(v@) is None,
{
    let mut end: usize = v.len();
    assert(v@.subrange(0, v.len() as int) =~= v@);
    while end > 0
        invariant
            end <= v.len(),
            file_name_of(v@) == file_name_of(v@.subrange(0, end as int)),
        decreases end,
    {
        let ghost s = v@.subrange(0, end as int);
        assert(s.len() > 0 && s.last() == v@[end - 1]);
        if v[end - 1] == '/' || v[end - 1] == '\\' {
            assert(file_name_of(s) == file_name_of(s.drop_last()));
            assert(s.drop_last() =~= v@.subrange(0, end - 1));
            end -= 1;
        } else {
            let st = component_start_exec(v, end);
            assert(component_start(s, end as int) == component_start(v@, end as int)) by {
                lemma_component_start_prefix(v@, end as int, end as int);
            }
            let c = crate::text::slice_chars(v, st, end);
            assert(c@ =~= s.subrange(st as int, s.len() as int));
            assert(!is_path_sep(s.last()));
            assert(s.len() == end);
            assert(st == component_start(s, s.len() as int));
            let one_dot: [char; 1] = ['.'];
            let two_dots: [char; 2] = ['.', '.'];
            assert(one_dot@ =~= seq!['.']);
            assert(two_dots@ =~= seq!['.', '.']);
            if eq_chars(&c, &one_dot) {
                if st < end {
                    assert(s.subrange(0, st as int) =~= v@.subrange(0, st as int));
                    end = st;
                } else {
                    return None;
                }
            } else if eq_chars(&c, &two_dots) {
                return None;
            } else {
                assert(c@ != seq!['.']);
                assert(c@ != seq!['.', '.']);
                assert(file_name_of(s) == Some(c@));
                return Some(c);
            }
        }
    }
    assert(v@.subrange(0, 0) =~= Seq::<char>::empty());
    None
}

proof fn lemma_component_start_prefix(s: Seq<char>, j: int, e: int)
    requires
        0 <= j <= e <= s.len(),
    ensures
        component_start(s.subrange(0, e), j) == component_start(s, j),
    decreases j,
{
    if j > 0 {
        assert(s.subrange(0, e)[j - 1] == s[j - 1]);
        lemma_component_start_prefix(s, j - 1, e);
    }
}

/// `Path::extension` of a file name.
pub fn name_extension_chars(name: &Vec<char>) -> (r: Option<Vec<char>>)
    ensures
        r matches Some(e) ==> name_extension(name@) == Some(e@),
        r is None ==> name_extension(name@) is None,
{
    let mut j: usize = name.len();
    while j > 0 && name[j - 1] != '.'
        invariant
            j <= name.len(),
            last_dot(name@) == crate::structure::last_dot_before(name@, j as int),
        decreases j,
    {
        j -= 1;
    }
    if j > 1 {
        Some(crate::text::slice_chars(name, j, name.len()))
    } else {
        None
    }
}

/// The lower-cased extension of a path (empty when there is none).
pub fn lower_extension_chars(path: &Vec<char>) -> (r: Vec<char>)
    ensures
        r@ == lower_extension(path@),
{
    let ext = match file_name_chars(path) {
        Some(n) => match name_extension_chars(&n) {
            Some(e) => e,
            None => Vec::new(),
        },
        None => Vec::new(),
    };
    assert(ext@ == match path_extension(path@) {
        Some(e) => e,
        None => Seq::<char>::empty(),
    });
    to_lowercase(&ext)
}

/// The kind of a file with the given lower-cased extension.
pub fn kind_of_extension(e: &Vec<char>) -> (k: FileKind)
    ensures
        k == kind_of_ext(e@),
{
    if eq_chars(e, &['m', 'p', '4']) || eq_chars(e, &['m', 'k', 'v']) || eq_chars(
        e,
        &['w', 'e', 'b', 'm'],
    ) || eq_chars(e, &['a', 'v', 'i']) || eq_chars(e, &['m', 'o', 'v']) || eq_chars(
        e,
        &['m', '4', 'v'],
    ) || eq_chars(e, &['f', 'l', 'v']) || eq_chars(e, &['t', 's']) || eq_chars(
        e,
        &['w', 'm', 'v'],
    ) || eq_chars(e, &['m', 'p', 'g']) || eq_chars(e, &['m', 'p', 'e', 'g']) || eq_chars(
        e,
        &['o', 'g', 'v'],
    ) || eq_chars(e, &['3', 'g', 'p']) {
        FileKind::Video
    } else if eq_chars(e, &['s', 'r', 't']) || eq_chars(e, &['v', 't', 't']) || eq_chars(
        e,
        &['a', 's', 's'],
    ) || eq_chars(e, &['s', 's', 'a']) || eq_chars(e, &['s', 'u', 'b']) {
        FileKind::Subtitle
    } else if eq_chars(e, &['j', 'p', 'g']) || eq_chars(e, &['j', 'p', 'e', 'g']) || eq_chars(
        e,
        &['p', 'n', 'g'],
    ) || eq_chars(e, &['w', 'e', 'b', 'p']) || eq_chars(e, &['g', 'i', 'f']) || eq_chars(
        e,
        &['b', 'm', 'p'],
    ) {
        FileKind::Image
    } else {
        FileKind::Attachment
    }
}

/// Classify a file purely by extension (compared case-insensitively).
pub fn classify(path: &str) -> (k: FileKind)
    ensures
        k == classify_spec(path@),
{
    let v = chars_of(path);
    let e = lower_extension_chars(&v);
    kind_of_extension(&e)
}

// ---------------------------------------------------------------------------
// Scanned records
// ---------------------------------------------------------------------------

/// One file found under a course folder.
#[derive(Debug, Clone)]
pub struct ScannedFile {
    /// Absolute path.
    pub path: String,
    /// File name including extension.
    pub name: String,
    pub kind: FileKind,
    pub size: u64,
    /// Modification time as unix seconds (0 if unavailable).
    pub mtime: i64,
    /// Components of the directory holding the file, relative to the scan
    /// root (empty for files directly in the root).
    pub rel_dir: Vec<String>,
}

impl ScannedFile {
    /// The record of a file, classified by its path.
    pub fn new(path: String, name: String, size: u64, mtime: i64, rel_dir: Vec<String>) -> (f:
        ScannedFile)
        ensures
            f.path@ == path@,
            f.name@ == name@,
            f.kind == classify_spec(path@),
            f.size == size,
            f.mtime == mtime,
            f.rel_dir@ == rel_dir@,
    {
        let kind = classify(path.as_str());
        ScannedFile { path, name, kind, size, mtime, rel_dir }
    }
}

/// Every file under a scan root, in walk order.
#[derive(Debug, Clone)]
pub struct ScannedTree {
    pub root: String,
    pub files: Vec<ScannedFile>,
}

/// The folders between the scan root and a file: the components of the
/// file's parent after those of the root, or none when the parent is not
/// under the root.
pub open spec fn rel_dir_spec(root: Seq<char>, path: Seq<char>) -> Seq<Seq<char>> {
    let pc = components(path);
    let rc = components(root);
    if pc.len() >= 1 && rc.len() <= pc.len() - 1 && pc.subrange(0, rc.len() as int) == rc {
        pc.subrange(rc.len() as int, pc.len() - 1)
    } else {
        Seq::empty()
    }
}

/// The record of a file found while walking `root`: classified by its path,
/// with its folder relative to the root and its modification time in unix
/// seconds (0 when unavailable or before the epoch).
pub fn scanned_file(root: &str, path: String, name: String, size: u64, modified: Option<u64>) -> (f:
    ScannedFile)
    ensures
        f.path@ == path@,
        f.name@ == name@,
        f.kind == classify_spec(path@),
        f.size == size,
        f.mtime == match modified {
            Some(s) => secs_as_i64(s),
            None => 0,
        },
        f.rel_dir@.map_values(|s: String| s@) == rel_dir_spec(root@, path@),
{
    let pc = components_of(&chars_of(path.as_str()));
    let rc = components_of(&chars_of(root));
    let ghost pv = pc@.map_values(|c: Vec<char>| c@);
    let ghost rv = rc@.map_values(|c: Vec<char>| c@);
    let mut rel: Vec<String> = Vec::new();
    if pc.len() >= 1 && rc.len() <= pc.len() - 1 && comps_prefix(&pc, &rc) {
        let mut k = rc.len();
        while k < pc.len() - 1
            invariant
                rc@.len() <= k <= pc@.len() - 1,
                pc@.len() >= 1,
                pv == pc@.map_values(|c: Vec<char>| c@),
                rel@.map_values(|s: String| s@) == pv.subrange(rc@.len() as int, k as int),
            decreases pc@.len() - 1 - k,
        {
            let ghost before = rel@.map_values(|s: String| s@);
            let seg = string_of(&pc[k]);
            assert(seg@ == pv[k as int]);
            rel.push(seg);
            assert(rel@.map_values(|s: String| s@) =~= before.push(seg@));
            assert(rel@.map_values(|s: String| s@) =~= pv.subrange(rc@.len() as int, k + 1));
            k += 1;
        }
    } else {
        assert(rel@.map_values(|s: String| s@) =~= Seq::<Seq<char>>::empty());
    }
    let mtime = unix_seconds(modified);
    ScannedFile::new(path, name, size, mtime, rel)
}

} // verus!
