//! Auto-rescan decisions. Changed paths reported by the filesystem watcher
//! are mapped to the course folders that own them, or to new course folders
//! directly under a library root; the course being played is never
//! re-imported. Watching, checking that a new folder is a directory and
//! re-importing happen outside the library.
//!
//! Paths are compared by component, as `Path::starts_with` does with
//! Windows paths: a leading separator is the root component, a leading
//! drive (`C:`) its own component followed by the root when a separator
//! comes next, a leading `.` the current-directory component; after that,
//! the segments between `/` or `\` separators, with empty and `.` segments
//! dropped. Other Windows prefixes (`\\server\share`, `\\?\`) are not
//! told apart from a root.

use vstd::prelude::*;
use crate::scanner::is_path_sep;
use crate::text::{chars_eq, chars_of, string_of, append_chars};

verus! {

// ---------------------------------------------------------------------------
// Components
// ---------------------------------------------------------------------------

/// `done` with the segment `cur` appended when it is a real component.
pub open spec fn flush(done: Seq<Seq<char>>, cur: Seq<char>) -> Seq<Seq<char>> {
    if cur.len() == 0 || cur == seq!['.'] {
        done
    } else {
        done.push(cur)
    }
}

/// Splitting the first `n` characters: finished components and the
/// segment in progress.
pub open spec fn split_state(s: Seq<char>, n: int) -> (Seq<Seq<char>>, Seq<char>)
    decreases n,
{
    if n <= 0 || n > s.len() {
        (Seq::empty(), Seq::empty())
    } else {
        let (done, cur) = split_state(s, n - 1);
        if is_path_sep(s[n - 1]) {
            (flush(done, cur), Seq::empty())
        } else {
            (done, cur.push(s[n - 1]))
        }
    }
}

/// The named segments of a path: text between separators, without empty
/// and `.` segments.
pub open spec fn segments(s: Seq<char>) -> Seq<Seq<char>> {
    let (done, cur) = split_state(s, s.len() as int);
    flush(done, cur)
}

/// The root component, written as it is joined: `\`.
pub open spec fn root_component() -> Seq<char> {
    seq!['\\']
}

pub open spec fn is_ascii_letter(c: char) -> bool {
    ('a' <= c && c <= 'z') || ('A' <= c && c <= 'Z')
}

/// Whether the path begins with a drive (`X:`).
pub open spec fn has_drive(s: Seq<char>) -> bool {
    s.len() >= 2 && is_ascii_letter(s[0]) && s[1] == ':'
}

/// The components of a path (`Path::components`).
pub open spec fn components(s: Seq<char>) -> Seq<Seq<char>> {
    if s.len() > 0 && is_path_sep(s[0]) {
        seq![root_component()] + segments(s)
    } else if has_drive(s) {
        if s.len() > 2 && is_path_sep(s[2]) {
            seq![s.take(2), root_component()] + segments(s.skip(2))
        } else {
            seq![s.take(2)] + segments(s.skip(2))
        }
    } else if s.len() > 0 && s[0] == '.' && (s.len() == 1 || is_path_sep(s[1])) {
        seq![seq!['.']] + segments(s)
    } else {
        segments(s)
    }
}

/// `Path::starts_with`: the components of `base` begin those of `p`.
pub open spec fn starts_with(p: Seq<char>, base: Seq<char>) -> bool {
    components(base).len() <= components(p).len() && components(p).subrange(
        0,
        components(base).len() as int,
    ) == components(base)
}

fn flush_exec(done: &mut Vec<Vec<char>>, cur: Vec<char>)
    ensures
        final(done)@.map_values(|c: Vec<char>| c@) == flush(
            old(done)@.map_values(|c: Vec<char>| c@),
            cur@,
        ),
{
    let dot = cur.len() == 1 && cur[0] == '.';
    if cur.len() == 0 || dot {
        if dot {
            assert(cur@ =~= seq!['.']);
        }
    } else {
        assert(cur@ != seq!['.']) by {
            if cur@ == seq!['.'] {
                assert(cur@[0] == '.');
            }
        }
        let ghost before = done@;
        done.push(cur);
        assert(done@.map_values(|c: Vec<char>| c@) =~= before.map_values(|c: Vec<char>| c@).push(
            cur@,
        ));
    }
}

fn segments_of(s: &Vec<char>) -> (r: Vec<Vec<char>>)
    ensures
        r@.map_values(|c: Vec<char>| c@) == segments(s@),
{
    let mut done: Vec<Vec<char>> = Vec::new();
    let mut cur: Vec<char> = Vec::new();
    let mut i: usize = 0;
    while i < s.len()
        invariant
            i <= s@.len(),
            split_state(s@, i as int) == (done@.map_values(|c: Vec<char>| c@), cur@),
        decreases s@.len() - i,
    {
        let c = s[i];
        if c == '/' || c == '\\' {
            let seg = cur;
            cur = Vec::new();
            flush_exec(&mut done, seg);
        } else {
            cur.push(c);
        }
        i += 1;
    }
    flush_exec(&mut done, cur);
    done
}

fn prepend(r: &mut Vec<Vec<char>>, c: Vec<char>)
    ensures
        final(r)@.map_values(|x: Vec<char>| x@) == seq![c@] + old(r)@.map_values(
            |x: Vec<char>| x@,
        ),
{
    let ghost before = r@.map_values(|x: Vec<char>| x@);
    r.insert(0, c);
    assert(r@.map_values(|x: Vec<char>| x@) =~= seq![c@] + before);
}

/// The components of a path.
pub fn components_of(s: &Vec<char>) -> (r: Vec<Vec<char>>)
    ensures
        r@.map_values(|c: Vec<char>| c@) == components(s@),
{
    let n = s.len();
    let mut root: Vec<char> = Vec::new();
    root.push('\\');
    assert(root@ =~= root_component());
    if n > 0 && (s[0] == '/' || s[0] == '\\') {
        let mut r = segments_of(s);
        prepend(&mut r, root);
        r
    } else if n >= 2 && (('a' <= s[0] && s[0] <= 'z') || ('A' <= s[0] && s[0] <= 'Z')) && s[1] == ':' {
        let rest = crate::text::slice_chars(s, 2, n);
        assert(rest@ =~= s@.skip(2));
        let mut r = segments_of(&rest);
        if n > 2 && (s[2] == '/' || s[2] == '\\') {
            prepend(&mut r, root);
        }
        let drive = crate::text::slice_chars(s, 0, 2);
        assert(drive@ =~= s@.take(2));
        prepend(&mut r, drive);
        proof {
            if n > 2 && is_path_sep(s@[2]) {
                assert(seq![s@.take(2)] + (seq![root_component()] + segments(s@.skip(2)))
                    =~= seq![s@.take(2), root_component()] + segments(s@.skip(2)));
            }
        }
        r
    } else if n > 0 && s[0] == '.' && (n == 1 || s[1] == '/' || s[1] == '\\') {
        let mut r = segments_of(s);
        let mut dot: Vec<char> = Vec::new();
        dot.push('.');
        assert(dot@ =~= seq!['.']);
        prepend(&mut r, dot);
        r
    } else {
        segments_of(s)
    }
}

pub fn comps_prefix(p: &Vec<Vec<char>>, base: &Vec<Vec<char>>) -> (r: bool)
    ensures
        r == (base@.len() <= p@.len() && p@.map_values(|c: Vec<char>| c@).subrange(
            0,
            base@.len() as int,
        ) == base@.map_values(|c: Vec<char>| c@)),
{
    if base.len() > p.len() {
        return false;
    }
    let mut i: usize = 0;
    while i < base.len()
        invariant
            i <= base@.len() <= p@.len(),
            forall|k: int| 0 <= k < i ==> (#[trigger] p@[k])@ == base@[k]@,
        decreases base@.len() - i,
    {
        if !chars_eq(&p[i], &base[i]) {
            assert(p@.map_values(|c: Vec<char>| c@).subrange(0, base@.len() as int)[i as int]
                != base@.map_values(|c: Vec<char>| c@)[i as int]);
            return false;
        }
        i += 1;
    }
    assert(p@.map_values(|c: Vec<char>| c@).subrange(0, base@.len() as int) =~= base@.map_values(
        |c: Vec<char>| c@,
    ));
    true
}

/// `Path::starts_with` on component lists.
pub fn path_starts_with(p: &str, base: &str) -> (r: bool)
    ensures
        r == starts_with(p@, base@),
{
    let pc = components_of(&chars_of(p));
    let bc = components_of(&chars_of(base));
    comps_prefix(&pc, &bc)
}

// ---------------------------------------------------------------------------
// Which folders a change re-imports
// ---------------------------------------------------------------------------

/// A course known to the library and the folder it was imported from.
#[derive(Debug, Clone)]
pub struct CourseFolder {
    pub id: String,
    pub folder: String,
    /// The library root it lies under, if any.
    pub root_id: Option<String>,
}

/// A registered library root.
#[derive(Debug, Clone)]
pub struct LibraryRoot {
    pub id: String,
    pub path: String,
}

/// A folder to re-import after a change.
#[derive(Debug, Clone)]
pub struct RescanTarget {
    pub folder: String,
    pub root_id: Option<String>,
    /// A folder directly under a root that is not a known course: it is
    /// re-imported only if it is a directory.
    pub new_folder: bool,
}

pub open spec fn opt_chars(o: Option<String>) -> Option<Seq<char>> {
    match o {
        Some(s) => Some(s@),
        None => None,
    }
}

/// Index of the first course at or after `k` whose folder holds `p`, or
/// the count.
pub open spec fn first_course(courses: Seq<CourseFolder>, p: Seq<char>, k: int) -> int
    decreases courses.len() - k,
{
    if k < 0 || k >= courses.len() {
        courses.len() as int
    } else if starts_with(p, courses[k].folder@) {
        k
    } else {
        first_course(courses, p, k + 1)
    }
}

/// Index of the first root at or after `k` that holds `p`, or the count.
pub open spec fn first_root(roots: Seq<LibraryRoot>, p: Seq<char>, k: int) -> int
    decreases roots.len() - k,
{
    if k < 0 || k >= roots.len() {
        roots.len() as int
    } else if starts_with(p, roots[k].path@) {
        k
    } else {
        first_root(roots, p, k + 1)
    }
}

/// `root.join(seg)` for a plain segment: a `\` goes between unless the root
/// is empty or already ends in a separator.
pub open spec fn join_spec(root: Seq<char>, seg: Seq<char>) -> Seq<char> {
    if root.len() == 0 {
        seg
    } else if is_path_sep(root.last()) {
        root + seg
    } else {
        root + seq!['\\'] + seg
    }
}

/// The folder directly under `root` on the way to `p`.
pub open spec fn immediate_child_spec(root: Seq<char>, p: Seq<char>) -> Option<Seq<char>> {
    if starts_with(p, root) && components(p).len() > components(root).len() {
        Some(join_spec(root, components(p)[components(root).len() as int]))
    } else {
        None
    }
}

/// What a changed path asks to re-import: the first course folder holding
/// it (nothing if that course is the one playing), else the folder directly
/// under the first root holding it.
pub open spec fn target_of(
    p: Seq<char>,
    courses: Seq<CourseFolder>,
    roots: Seq<LibraryRoot>,
    active: Option<Seq<char>>,
) -> Option<(Seq<char>, Option<Seq<char>>, bool)> {
    let c = first_course(courses, p, 0);
    if c < courses.len() {
        if active == Some(courses[c].id@) {
            None
        } else {
            Some((courses[c].folder@, opt_chars(courses[c].root_id), false))
        }
    } else {
        let r = first_root(roots, p, 0);
        if r < roots.len() {
            match immediate_child_spec(roots[r].path@, p) {
                Some(ch) => Some((ch, Some(roots[r].id@), true)),
                None => None,
            }
        } else {
            None
        }
    }
}

/// Whether a target for the folder with components `key` is listed.
pub open spec fn has_folder(ts: Seq<(Seq<char>, Option<Seq<char>>, bool)>, key: Seq<Seq<char>>) -> bool {
    exists|j: int| 0 <= j < ts.len() && components(#[trigger] ts[j].0) == key
}

/// The targets of the first `n` changed paths, each folder once (the first
/// path that names it decides its root).
pub open spec fn targets_upto(
    paths: Seq<String>,
    courses: Seq<CourseFolder>,
    roots: Seq<LibraryRoot>,
    active: Option<Seq<char>>,
    n: int,
) -> Seq<(Seq<char>, Option<Seq<char>>, bool)>
    decreases n,
{
    if n <= 0 || n > paths.len() {
        Seq::empty()
    } else {
        let prev = targets_upto(paths, courses, roots, active, n - 1);
        match target_of(paths[n - 1]@, courses, roots, active) {
            Some(t) => if has_folder(prev, components(t.0)) {
                prev
            } else {
                prev.push(t)
            },
            None => prev,
        }
    }
}

pub open spec fn target_view(t: RescanTarget) -> (Seq<char>, Option<Seq<char>>, bool) {
    (t.folder@, opt_chars(t.root_id), t.new_folder)
}

fn opt_string_clone(o: &Option<String>) -> (r: Option<String>)
    ensures
        opt_chars(r) == opt_chars(*o),
{
    match o {
        Some(s) => Some(s.clone()),
        None => None,
    }
}

fn join_exec(root: &str, seg: &Vec<char>) -> (r: String)
    ensures
        r@ == join_spec(root@, seg@),
{
    let mut v = chars_of(root);
    if v.len() > 0 && !(v[v.len() - 1] == '/' || v[v.len() - 1] == '\\') {
        v.push('\\');
    }
    append_chars(&mut v, seg);
    string_of(&v)
}

fn target_exec(
    p: &str,
    courses: &Vec<CourseFolder>,
    roots: &Vec<LibraryRoot>,
    active: &Option<String>,
) -> (r: Option<RescanTarget>)
    ensures
        match r {
            Some(t) => target_of(p@, courses@, roots@, opt_chars(*active)) == Some(target_view(t)),
            None => target_of(p@, courses@, roots@, opt_chars(*active)).is_none(),
        },
{
    let mut c: usize = 0;
    while c < courses.len() && !path_starts_with(p, courses[c].folder.as_str())
        invariant
            c <= courses@.len(),
            first_course(courses@, p@, 0) == first_course(courses@, p@, c as int),
        decreases courses@.len() - c,
    {
        c += 1;
    }
    if c < courses.len() {
        let is_active = match active {
            Some(a) => *a == courses[c].id,
            None => false,
        };
        if is_active {
            return None;
        }
        return Some(
            RescanTarget {
                folder: courses[c].folder.clone(),
                root_id: opt_string_clone(&courses[c].root_id),
                new_folder: false,
            },
        );
    }
    let mut r: usize = 0;
    while r < roots.len() && !path_starts_with(p, roots[r].path.as_str())
        invariant
            r <= roots@.len(),
            first_root(roots@, p@, 0) == first_root(roots@, p@, r as int),
        decreases roots@.len() - r,
    {
        r += 1;
    }
    if r >= roots.len() {
        return None;
    }
    let pc = components_of(&chars_of(p));
    let rc = components_of(&chars_of(roots[r].path.as_str()));
    if pc.len() <= rc.len() {
        return None;
    }
    let child = join_exec(roots[r].path.as_str(), &pc[rc.len()]);
    Some(RescanTarget { folder: child, root_id: Some(roots[r].id.clone()), new_folder: true })
}

fn comps_equal(a: &Vec<Vec<char>>, b: &Vec<Vec<char>>) -> (r: bool)
    ensures
        r == (a@.map_values(|c: Vec<char>| c@) == b@.map_values(|c: Vec<char>| c@)),
{
    if a.len() != b.len() {
        assert(a@.map_values(|c: Vec<char>| c@).len() != b@.map_values(|c: Vec<char>| c@).len());
        return false;
    }
    let r = comps_prefix(a, b);
    assert(a@.map_values(|c: Vec<char>| c@).subrange(0, b@.len() as int) =~= a@.map_values(
        |c: Vec<char>| c@,
    ));
    r
}

/// The folders to re-import after the watcher reported `paths`, in the
/// order the paths first name them. `active_course` is the course being
/// played, if any. Auto-rescan is opt-in: with `auto_rescan` off nothing is
/// re-imported.
pub fn rescan_targets(
    paths: &Vec<String>,
    courses: &Vec<CourseFolder>,
    roots: &Vec<LibraryRoot>,
    active_course: &Option<String>,
    auto_rescan: bool,
) -> (r: Vec<RescanTarget>)
    ensures
        !auto_rescan ==> r@.len() == 0,
        auto_rescan ==> r@.map_values(|t: RescanTarget| target_view(t)) == targets_upto(
            paths@,
            courses@,
            roots@,
            opt_chars(*active_course),
            paths@.len() as int,
        ),
{
    if !auto_rescan {
        return Vec::new();
    }
    let ghost active = opt_chars(*active_course);
    let mut out: Vec<RescanTarget> = Vec::new();
    let mut keys: Vec<Vec<Vec<char>>> = Vec::new();
    let mut i: usize = 0;
    while i < paths.len()
        invariant
            i <= paths@.len(),
            active == opt_chars(*active_course),
            keys@.len() == out@.len(),
            forall|j: int|
                0 <= j < keys@.len() ==> (#[trigger] keys@[j])@.map_values(|c: Vec<char>| c@)
                    == components(out@[j].folder@),
            out@.map_values(|t: RescanTarget| target_view(t)) == targets_upto(
                paths@,
                courses@,
                roots@,
                active,
                i as int,
            ),
        decreases paths@.len() - i,
    {
        let ghost prev = out@.map_values(|t: RescanTarget| target_view(t));
        match target_exec(paths[i].as_str(), courses, roots, active_course) {
            Some(t) => {
                let key = components_of(&chars_of(t.folder.as_str()));
                let mut j: usize = 0;
                let mut found = false;
                while j < keys.len() && !found
                    invariant
                        j <= keys@.len() == out@.len() == prev.len(),
                        prev == out@.map_values(|t: RescanTarget| target_view(t)),
                        forall|m: int|
                            0 <= m < keys@.len() ==> (#[trigger] keys@[m])@.map_values(
                                |c: Vec<char>| c@,
                            ) == components(out@[m].folder@),
                        key@.map_values(|c: Vec<char>| c@) == components(t.folder@),
                        found ==> has_folder(prev, components(t.folder@)),
                        !found ==> forall|m: int|
                            0 <= m < j ==> components(#[trigger] prev[m].0) != components(
                                t.folder@,
                            ),
                    decreases keys@.len() - j + if found {
                        0int
                    } else {
                        1int
                    },
                {
                    if comps_equal(&keys[j], &key) {
                        assert(components(prev[j as int].0) == components(t.folder@));
                        found = true;
                    } else {
                        j += 1;
                    }
                }
                if !found {
                    assert(!has_folder(prev, components(t.folder@)));
                    out.push(t);
                    keys.push(key);
                    assert(out@.map_values(|t: RescanTarget| target_view(t)) =~= prev.push(
                        target_view(out@[out@.len() - 1]),
                    ));
                }
            },
            None => {},
        }
        i += 1;
    }
    out
}

/// Standalone course folders (not under a root) among the first `n`.
pub open spec fn standalone_upto(courses: Seq<CourseFolder>, n: int) -> Seq<Seq<char>>
    decreases n,
{
    if n <= 0 || n > courses.len() {
        Seq::empty()
    } else if courses[n - 1].root_id.is_none() {
        standalone_upto(courses, n - 1).push(courses[n - 1].folder@)
    } else {
        standalone_upto(courses, n - 1)
    }
}

/// The paths to watch: every library root, then every course folder that
/// is not under a root (those are covered by the root's watch).
pub fn watch_paths(roots: &Vec<LibraryRoot>, courses: &Vec<CourseFolder>) -> (r: Vec<String>)
    ensures
        r@.map_values(|s: String| s@) == roots@.map_values(|rt: LibraryRoot| rt.path@)
            + standalone_upto(courses@, courses@.len() as int),
{
    let mut out: Vec<String> = Vec::new();
    let mut i: usize = 0;
    while i < roots.len()
        invariant
            i <= roots@.len(),
            out@.map_values(|s: String| s@) == roots@.subrange(0, i as int).map_values(
                |rt: LibraryRoot| rt.path@,
            ),
        decreases roots@.len() - i,
    {
        let ghost before = out@.map_values(|s: String| s@);
        let p = roots[i].path.clone();
        assert(p@ == roots@[i as int].path@);
        out.push(p);
        assert(out@.map_values(|s: String| s@) =~= before.push(roots@[i as int].path@));
        assert(out@.map_values(|s: String| s@) =~= roots@.subrange(0, i + 1).map_values(
            |rt: LibraryRoot| rt.path@,
        ));
        i += 1;
    }
    assert(roots@.subrange(0, roots@.len() as int) =~= roots@);
    let ghost head = out@.map_values(|s: String| s@);
    let mut k: usize = 0;
    while k < courses.len()
        invariant
            k <= courses@.len(),
            head == roots@.map_values(|rt: LibraryRoot| rt.path@),
            out@.map_values(|s: String| s@) == head + standalone_upto(courses@, k as int),
        decreases courses@.len() - k,
    {
        if courses[k].root_id.is_none() {
            let ghost before = out@.map_values(|s: String| s@);
            let f = courses[k].folder.clone();
            assert(f@ == courses@[k as int].folder@);
            out.push(f);
            assert(out@.map_values(|s: String| s@) =~= before.push(courses@[k as int].folder@));
            assert(out@.map_values(|s: String| s@) =~= head + standalone_upto(courses@, k + 1));
        }
        k += 1;
    }
    out
}

/// A change inside the folder of the course being played re-imports
/// nothing: the player's lecture ids stay valid.
pub proof fn law_playing_course_is_left_alone(
    p: Seq<char>,
    courses: Seq<CourseFolder>,
    roots: Seq<LibraryRoot>,
    active: Seq<char>,
)
    requires
        first_course(courses, p, 0) < courses.len(),
        courses[first_course(courses, p, 0)].id@ == active,
    ensures
        target_of(p, courses, roots, Some(active)).is_none(),
{
}

/// Each folder is re-imported at most once per batch of changes, and every
/// changed path that names a folder has that folder in the batch.
pub proof fn law_each_folder_once(
    paths: Seq<String>,
    courses: Seq<CourseFolder>,
    roots: Seq<LibraryRoot>,
    active: Option<Seq<char>>,
    n: int,
)
    requires
        0 <= n <= paths.len(),
    ensures
        ({
            let ts = targets_upto(paths, courses, roots, active, n);
            &&& forall|a: int, b: int|
                0 <= a < b < ts.len() ==> components(#[trigger] ts[a].0) != components(
                    #[trigger] ts[b].0,
                )
            &&& forall|i: int|
                0 <= i < n && #[trigger] target_of(paths[i]@, courses, roots, active).is_some()
                    ==> has_folder(
                    ts,
                    components(target_of(paths[i]@, courses, roots, active).unwrap().0),
                )
        }),
    decreases n,
{
    if n > 0 {
        law_each_folder_once(paths, courses, roots, active, n - 1);
        let prev = targets_upto(paths, courses, roots, active, n - 1);
        let ts = targets_upto(paths, courses, roots, active, n);
        match target_of(paths[n - 1]@, courses, roots, active) {
            Some(t) => {
                if !has_folder(prev, components(t.0)) {
                    assert(ts == prev.push(t));
                    assert forall|a: int, b: int|
                        0 <= a < b < ts.len() implies components(#[trigger] ts[a].0) != components(
                        #[trigger] ts[b].0,
                    ) by {
                        if b == ts.len() - 1 {
                            assert(ts[a] == prev[a]);
                        } else {
                            assert(ts[a] == prev[a] && ts[b] == prev[b]);
                        }
                    }
                    assert forall|i: int|
                        0 <= i < n && #[trigger] target_of(paths[i]@, courses, roots, active).is_some()
                            implies has_folder(
                        ts,
                        components(target_of(paths[i]@, courses, roots, active).unwrap().0),
                    ) by {
                        if i < n - 1 {
                            let key = components(target_of(paths[i]@, courses, roots, active).unwrap().0);
                            let j = choose|j: int| 0 <= j < prev.len() && components(#[trigger] prev[j].0) == key;
                            assert(ts[j] == prev[j]);
                        } else {
                            assert(ts[ts.len() - 1] == t);
                        }
                    }
                }
            },
            None => {},
        }
    }
}

} // verus!
