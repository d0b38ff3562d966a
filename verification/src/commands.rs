//! The shapes the front end receives and the bookkeeping behind the library
//! maintenance commands: reconciling the library with the files on disk,
//! collecting unreferenced thumbnails and looking up library roots. The
//! database and file system are reached outside the library.

use vstd::prelude::*;
use crate::error::DeskemyError;
use crate::scanner::{file_name_of, file_name_chars};
use crate::text::{chars_of, string_of, append_chars, chars_eq, trim, trim_chars};

verus! {

#[derive(Debug, Clone)]
pub struct RootDto {
    pub id: String,
    pub path: String,
}

#[derive(Debug, Clone)]
pub struct ScanResult {
    pub imported: usize,
    pub errors: Vec<String>,
}

#[derive(Debug, Clone, Copy, PartialEq, Eq, Structural)]
pub struct ReconcileReport {
    pub courses_checked: i64,
    pub courses_missing: i64,
    pub files_missing: i64,
}

#[derive(Debug, Clone, Copy, PartialEq, Eq, Structural)]
pub struct GcReport {
    pub removed: i64,
    pub freed_bytes: i64,
}

#[derive(Debug, Clone)]
pub struct LectureView {
    pub id: String,
    pub title: String,
    pub course_id: String,
    pub course_title: String,
    pub section_title: String,
}

// ---------------------------------------------------------------------------
// Tags
// ---------------------------------------------------------------------------

/// The tag a request to tag a course adds: the text trimmed of white space;
/// nothing when only white space remains.
pub fn tag_to_add(tag: &str) -> (r: Option<String>)
    ensures
        match r {
            Some(t) => t@ == trim(tag@) && t@.len() > 0,
            None => trim(tag@).len() == 0,
        },
{
    let t = trim_chars(&chars_of(tag));
    if t.len() == 0 {
        None
    } else {
        Some(string_of(&t))
    }
}

// ---------------------------------------------------------------------------
// Library roots
// ---------------------------------------------------------------------------

/// Position of the first root with id `id` at or after `k`, or the count.
pub open spec fn root_position(roots: Seq<RootDto>, id: Seq<char>, k: int) -> int
    decreases roots.len() - k,
{
    if k < 0 || k >= roots.len() {
        roots.len() as int
    } else if roots[k].id@ == id {
        k
    } else {
        root_position(roots, id, k + 1)
    }
}

/// The path of the library root `root_id`; `NotFound` when there is none.
pub fn root_path(roots: &Vec<RootDto>, root_id: &str) -> (r: Result<String, DeskemyError>)
    ensures
        ({
            let p = root_position(roots@, root_id@, 0);
            match r {
                Ok(path) => p < roots@.len() && path@ == roots@[p].path@,
                Err(e) => p == roots@.len() && (e matches DeskemyError::NotFound(m) && m@
                    == "library root "@ + root_id@),
            }
        }),
{
    let id = root_id.to_owned();
    let mut k: usize = 0;
    while k < roots.len() && !(roots[k].id == id)
        invariant
            k <= roots@.len(),
            id@ == root_id@,
            root_position(roots@, root_id@, 0) == root_position(roots@, root_id@, k as int),
        decreases roots@.len() - k,
    {
        k += 1;
    }
    if k < roots.len() {
        Ok(roots[k].path.clone())
    } else {
        let mut m = chars_of("library root ");
        append_chars(&mut m, &chars_of(root_id));
        Err(DeskemyError::NotFound(string_of(&m)))
    }
}

// ---------------------------------------------------------------------------
// Reconcile
// ---------------------------------------------------------------------------

pub open spec fn entry_views(es: Seq<(String, bool)>) -> Seq<(Seq<char>, bool)> {
    es.map_values(|e: (String, bool)| (e.0@, e.1))
}

/// The courses of the first `n` entries, each once, in order of first
/// appearance.
pub open spec fn courses_upto(es: Seq<(Seq<char>, bool)>, n: int) -> Seq<Seq<char>>
    decreases n,
{
    if n <= 0 || n > es.len() {
        Seq::empty()
    } else {
        let p = courses_upto(es, n - 1);
        if p.contains(es[n - 1].0) {
            p
        } else {
            p.push(es[n - 1].0)
        }
    }
}

proof fn lemma_courses_upto_contains(es: Seq<(Seq<char>, bool)>, n: int, k: int)
    requires
        0 <= k < n <= es.len(),
    ensures
        courses_upto(es, n).contains(es[k].0),
    decreases n,
{
    let p = courses_upto(es, n - 1);
    if k < n - 1 {
        lemma_courses_upto_contains(es, n - 1, k);
        if !p.contains(es[n - 1].0) {
            let w = choose|w: int| 0 <= w < p.len() && p[w] == es[k].0;
            assert(p.push(es[n - 1].0)[w] == es[k].0);
        }
    } else if !p.contains(es[n - 1].0) {
        assert(p.push(es[n - 1].0)[p.len() as int] == es[k].0);
    }
}

/// Whether a file of course `id` among the first `n` entries is missing.
pub open spec fn course_missing(es: Seq<(Seq<char>, bool)>, id: Seq<char>, n: int) -> bool {
    exists|k: int| 0 <= k < n && (#[trigger] es[k]).0 == id && !es[k].1
}

/// Missing files among the first `n` entries.
pub open spec fn files_missing_upto(es: Seq<(Seq<char>, bool)>, n: int) -> int
    decreases n,
{
    if n <= 0 || n > es.len() {
        0
    } else {
        files_missing_upto(es, n - 1) + if es[n - 1].1 {
            0int
        } else {
            1
        }
    }
}

/// Courses among `ids` with a missing file.
pub open spec fn missing_courses(es: Seq<(Seq<char>, bool)>, ids: Seq<Seq<char>>, m: int) -> int
    decreases m,
{
    if m <= 0 || m > ids.len() {
        0
    } else {
        missing_courses(es, ids, m - 1) + if course_missing(es, ids[m - 1], es.len() as int) {
            1int
        } else {
            0
        }
    }
}

/// What reconciling decides: each course's missing flag, in order of first
/// appearance, and the report.
#[derive(Debug)]
pub struct ReconcilePlan {
    pub flags: Vec<(String, bool)>,
    pub report: ReconcileReport,
}

/// Reconcile the library with the disk. Each entry is a lecture's course
/// and whether its file exists; a course is flagged missing when any of its
/// files is.
pub fn library_reconcile(entries: &Vec<(String, bool)>) -> (r: ReconcilePlan)
    requires
        entries@.len() <= i64::MAX,
    ensures
        ({
            let es = entry_views(entries@);
            let ids = courses_upto(es, es.len() as int);
            &&& r.flags@.len() == ids.len()
            &&& forall|j: int|
                0 <= j < ids.len() ==> (#[trigger] r.flags@[j]).0@ == ids[j] && r.flags@[j].1
                    == course_missing(es, ids[j], es.len() as int)
            &&& r.report.courses_checked == ids.len()
            &&& r.report.courses_missing == missing_courses(es, ids, ids.len() as int)
            &&& r.report.files_missing == files_missing_upto(es, es.len() as int)
        }),
{
    let ghost es = entry_views(entries@);
    let mut ids: Vec<String> = Vec::new();
    let mut missing: Vec<bool> = Vec::new();
    let mut files_missing: i64 = 0;
    let mut i: usize = 0;
    while i < entries.len()
        invariant
            i <= entries@.len() <= i64::MAX,
            es == entry_views(entries@),
            ids@.len() == missing@.len(),
            ids@.len() <= i,
            ids@.map_values(|s: String| s@) == courses_upto(es, i as int),
            forall|a: int, b: int| 0 <= a < b < ids@.len() ==> (#[trigger] ids@[a])@ != (#[trigger] ids@[b])@,
            forall|j: int|
                0 <= j < ids@.len() ==> #[trigger] missing@[j] == course_missing(
                    es,
                    ids@[j]@,
                    i as int,
                ),
            files_missing == files_missing_upto(es, i as int),
            0 <= files_missing <= i,
        decreases entries@.len() - i,
    {
        let ghost prev_ids = ids@.map_values(|s: String| s@);
        let cid = &entries[i].0;
        let exists_on_disk = entries[i].1;
        assert(es[i as int] == (cid@, exists_on_disk));
        let mut j: usize = 0;
        while j < ids.len() && !(ids[j] == *cid)
            invariant
                j <= ids@.len(),
                forall|m: int| 0 <= m < j ==> ids@[m]@ != cid@,
            decreases ids@.len() - j,
        {
            j += 1;
        }
        if j == ids.len() {
            assert(!prev_ids.contains(cid@)) by {
                if prev_ids.contains(cid@) {
                    let m = choose|m: int| 0 <= m < prev_ids.len() && prev_ids[m] == cid@;
                    assert(ids@[m]@ == cid@);
                }
            }
            ids.push(cid.clone());
            missing.push(!exists_on_disk);
            assert(ids@.map_values(|s: String| s@) =~= prev_ids.push(cid@));
            assert forall|a: int, b: int| 0 <= a < b < ids@.len() implies (#[trigger] ids@[a])@ != (#[trigger] ids@[b])@ by {
                if b == ids@.len() - 1 {
                    assert(prev_ids[a] == ids@[a]@);
                }
            }
        } else {
            assert(prev_ids[j as int] == cid@);
            assert(prev_ids.contains(cid@));
            if !exists_on_disk {
                missing.set(j, true);
            }
        }
        assert forall|m: int| 0 <= m < ids@.len() implies #[trigger] missing@[m] == course_missing(
            es,
            ids@[m]@,
            i + 1,
        ) by {
            if ids@[m]@ == cid@ && !exists_on_disk {
                assert(es[i as int].0 == ids@[m]@ && !es[i as int].1);
            }
            if course_missing(es, ids@[m]@, i + 1) && !course_missing(es, ids@[m]@, i as int) {
                let k = choose|k: int| 0 <= k < i + 1 && (#[trigger] es[k]).0 == ids@[m]@ && !es[k].1;
                assert(k == i);
            }
            if course_missing(es, ids@[m]@, i as int) {
                let k = choose|k: int| 0 <= k < i && (#[trigger] es[k]).0 == ids@[m]@ && !es[k].1;
                assert(course_missing(es, ids@[m]@, i + 1));
                if m == prev_ids.len() {
                    lemma_courses_upto_contains(es, i as int, k);
                }
            }
            if m < prev_ids.len() && ids@[m]@ == cid@ {
                assert(ids@[j as int]@ == cid@);
                assert(m == j);
            }
        }
        if !exists_on_disk {
            files_missing = files_missing + 1;
        }
        i += 1;
    }
    let ghost ids_v = ids@.map_values(|s: String| s@);
    let mut flags: Vec<(String, bool)> = Vec::new();
    let mut courses_missing: i64 = 0;
    let mut k: usize = 0;
    while k < ids.len()
        invariant
            k <= ids@.len() == missing@.len() <= entries@.len() <= i64::MAX,
            ids_v == ids@.map_values(|s: String| s@),
            ids_v == courses_upto(es, es.len() as int),
            es.len() == entries@.len(),
            forall|j: int|
                0 <= j < ids@.len() ==> #[trigger] missing@[j] == course_missing(
                    es,
                    ids@[j]@,
                    es.len() as int,
                ),
            flags@.len() == k,
            forall|j: int|
                0 <= j < k ==> (#[trigger] flags@[j]).0@ == ids_v[j] && flags@[j].1 == course_missing(
                    es,
                    ids_v[j],
                    es.len() as int,
                ),
            courses_missing == missing_courses(es, ids_v, k as int),
            0 <= courses_missing <= k,
        decreases ids@.len() - k,
    {
        assert(ids@[k as int]@ == ids_v[k as int]);
        let flag = missing[k];
        flags.push((ids[k].clone(), flag));
        if flag {
            courses_missing = courses_missing + 1;
        }
        k += 1;
    }
    ReconcilePlan {
        flags,
        report: ReconcileReport {
            courses_checked: ids.len() as i64,
            courses_missing,
            files_missing,
        },
    }
}

// ---------------------------------------------------------------------------
// Thumbnail cache collection
// ---------------------------------------------------------------------------

/// Whether `name` is the file name of one of the referenced paths.
pub open spec fn referenced(paths: Seq<String>, name: Seq<char>) -> bool {
    exists|k: int| 0 <= k < paths.len() && file_name_of((#[trigger] paths[k])@) == Some(name)
}

/// Which cache files to delete: those whose name no course references.
pub fn thumbnails_to_remove(referenced_paths: &Vec<String>, cache_names: &Vec<String>) -> (r: Vec<
    bool,
>)
    ensures
        r@.len() == cache_names@.len(),
        forall|i: int|
            0 <= i < cache_names@.len() ==> #[trigger] r@[i] == !referenced(
                referenced_paths@,
                cache_names@[i]@,
            ),
{
    let mut names: Vec<Vec<char>> = Vec::new();
    let mut named: Vec<bool> = Vec::new();
    let mut k: usize = 0;
    while k < referenced_paths.len()
        invariant
            k <= referenced_paths@.len(),
            names@.len() == k,
            named@.len() == k,
            forall|j: int|
                0 <= j < k ==> (#[trigger] named@[j] ==> file_name_of(referenced_paths@[j]@) == Some(
                    names@[j]@,
                )) && (!named@[j] ==> file_name_of(referenced_paths@[j]@).is_none()),
        decreases referenced_paths@.len() - k,
    {
        match file_name_chars(&chars_of(referenced_paths[k].as_str())) {
            Some(n) => {
                names.push(n);
                named.push(true);
            },
            None => {
                names.push(Vec::new());
                named.push(false);
            },
        }
        k += 1;
    }
    let mut out: Vec<bool> = Vec::new();
    let mut i: usize = 0;
    while i < cache_names.len()
        invariant
            i <= cache_names@.len(),
            names@.len() == named@.len() == referenced_paths@.len(),
            forall|j: int|
                0 <= j < names@.len() ==> (#[trigger] named@[j] ==> file_name_of(referenced_paths@[j]@)
                    == Some(names@[j]@)) && (!named@[j] ==> file_name_of(
                    referenced_paths@[j]@,
                ).is_none()),
            out@.len() == i,
            forall|m: int|
                0 <= m < i ==> #[trigger] out@[m] == !referenced(
                    referenced_paths@,
                    cache_names@[m]@,
                ),
        decreases cache_names@.len() - i,
    {
        let name = chars_of(cache_names[i].as_str());
        let mut j: usize = 0;
        let mut found = false;
        while j < names.len() && !found
            invariant
                j <= names@.len() == named@.len() == referenced_paths@.len(),
                name@ == cache_names@[i as int]@,
                forall|q: int|
                    0 <= q < names@.len() ==> (#[trigger] named@[q] ==> file_name_of(
                        referenced_paths@[q]@,
                    ) == Some(names@[q]@)) && (!named@[q] ==> file_name_of(
                        referenced_paths@[q]@,
                    ).is_none()),
                found ==> referenced(referenced_paths@, name@),
                !found ==> forall|q: int|
                    0 <= q < j ==> file_name_of((#[trigger] referenced_paths@[q])@) != Some(name@),
            decreases names@.len() - j + if found {
                0int
            } else {
                1int
            },
        {
            if named[j] && chars_eq(&names[j], &name) {
                assert(file_name_of(referenced_paths@[j as int]@) == Some(name@));
                found = true;
            } else {
                j += 1;
            }
        }
        out.push(!found);
        i += 1;
    }
    out
}

/// Totals of a collection: each `(removed, size)` outcome of a deletion
/// attempt counts when the file was removed.
pub open spec fn gc_totals(outcomes: Seq<(bool, i64)>, n: int) -> (int, int)
    decreases n,
{
    if n <= 0 || n > outcomes.len() {
        (0, 0)
    } else {
        let (r, f) = gc_totals(outcomes, n - 1);
        if outcomes[n - 1].0 {
            (r + 1, f + outcomes[n - 1].1)
        } else {
            (r, f)
        }
    }
}

/// The report of a collection. The running total of freed bytes must fit
/// an `i64`.
pub fn gc_report(outcomes: &Vec<(bool, i64)>) -> (r: GcReport)
    requires
        outcomes@.len() <= i64::MAX,
        forall|n: int|
            0 <= n <= outcomes@.len() ==> i64::MIN <= #[trigger] gc_totals(outcomes@, n).1
                <= i64::MAX,
    ensures
        r.removed == gc_totals(outcomes@, outcomes@.len() as int).0,
        r.freed_bytes == gc_totals(outcomes@, outcomes@.len() as int).1,
{
    let mut removed: i64 = 0;
    let mut freed: i64 = 0;
    let mut i: usize = 0;
    while i < outcomes.len()
        invariant
            i <= outcomes@.len() <= i64::MAX,
            forall|n: int|
                0 <= n <= outcomes@.len() ==> i64::MIN <= #[trigger] gc_totals(outcomes@, n).1
                    <= i64::MAX,
            (removed as int, freed as int) == gc_totals(outcomes@, i as int),
            0 <= removed <= i,
        decreases outcomes@.len() - i,
    {
        let (ok, size) = outcomes[i];
        if ok {
            assert(gc_totals(outcomes@, i + 1).1 == freed + size);
            assert(i64::MIN <= gc_totals(outcomes@, i + 1).1 <= i64::MAX);
            removed = removed + 1;
            freed = freed + size;
        }
        i += 1;
    }
    GcReport { removed, freed_bytes: freed }
}

// ---------------------------------------------------------------------------
// Course detail and relocation
// ---------------------------------------------------------------------------

/// Position of the first of the first `n` sections with id `id`, or -1.
pub open spec fn first_section(sids: Seq<String>, id: Seq<char>, n: int) -> int
    decreases n,
{
    if n <= 0 || n > sids.len() {
        -1
    } else if first_section(sids, id, n - 1) >= 0 {
        first_section(sids, id, n - 1)
    } else if sids[n - 1]@ == id {
        n - 1
    } else {
        -1
    }
}

/// Indices among the first `n` lectures whose section id is `id`, in order.
pub open spec fn lectures_in(lsids: Seq<String>, id: Seq<char>, n: int) -> Seq<usize>
    decreases n,
{
    if n <= 0 || n > lsids.len() {
        Seq::empty()
    } else if lsids[n - 1]@ == id {
        lectures_in(lsids, id, n - 1).push((n - 1) as usize)
    } else {
        lectures_in(lsids, id, n - 1)
    }
}

/// The lectures each section of a course lists: section `j` gets, in order,
/// the lectures whose section id is its id, unless an earlier section has
/// the same id (which took them). `lecture_sections[k]` is lecture `k`'s
/// section id; the result holds lecture indices.
pub fn group_by_section(lecture_sections: &Vec<String>, section_ids: &Vec<String>) -> (r: Vec<
    Vec<usize>,
>)
    ensures
        r@.len() == section_ids@.len(),
        forall|j: int|
            0 <= j < section_ids@.len() ==> (#[trigger] r@[j])@ == if first_section(
                section_ids@,
                section_ids@[j]@,
                section_ids@.len() as int,
            ) == j {
                lectures_in(lecture_sections@, section_ids@[j]@, lecture_sections@.len() as int)
            } else {
                Seq::empty()
            },
{
    let mut out: Vec<Vec<usize>> = Vec::new();
    let mut j: usize = 0;
    while j < section_ids.len()
        invariant
            j <= section_ids@.len(),
            out@.len() == j,
            forall|q: int|
                0 <= q < j ==> (#[trigger] out@[q])@ == if first_section(
                    section_ids@,
                    section_ids@[q]@,
                    section_ids@.len() as int,
                ) == q {
                    lectures_in(lecture_sections@, section_ids@[q]@, lecture_sections@.len() as int)
                } else {
                    Seq::empty()
                },
        decreases section_ids@.len() - j,
    {
        let sid = &section_ids[j];
        let mut earlier = false;
        let mut q: usize = 0;
        while q < j && !earlier
            invariant
                q <= j < section_ids@.len(),
                sid@ == section_ids@[j as int]@,
                earlier ==> exists|w: int| 0 <= w < j && (#[trigger] section_ids@[w])@ == sid@,
                !earlier ==> forall|w: int| 0 <= w < q ==> (#[trigger] section_ids@[w])@ != sid@,
            decreases j - q + if earlier {
                0int
            } else {
                1int
            },
        {
            if section_ids[q] == *sid {
                earlier = true;
            } else {
                q += 1;
            }
        }
        proof {
            lemma_first_section(section_ids@, sid@, section_ids@.len() as int);
            lemma_first_section(section_ids@, sid@, j + 1);
        }
        let mut group: Vec<usize> = Vec::new();
        if !earlier {
            let mut k: usize = 0;
            while k < lecture_sections.len()
                invariant
                    k <= lecture_sections@.len(),
                    group@ == lectures_in(lecture_sections@, sid@, k as int),
                decreases lecture_sections@.len() - k,
            {
                if lecture_sections[k] == *sid {
                    group.push(k);
                }
                k += 1;
            }
        }
        out.push(group);
        j += 1;
    }
    out
}

proof fn lemma_first_section(sids: Seq<String>, id: Seq<char>, n: int)
    requires
        0 <= n <= sids.len(),
    ensures
        -1 <= first_section(sids, id, n) < n,
        first_section(sids, id, n) >= 0 ==> sids[first_section(sids, id, n)]@ == id,
        forall|w: int| 0 <= w < n && w < first_section(sids, id, n) ==> (#[trigger] sids[w])@ != id,
        first_section(sids, id, n) == -1 ==> forall|w: int|
            0 <= w < n ==> (#[trigger] sids[w])@ != id,
    decreases n,
{
    if n > 0 {
        lemma_first_section(sids, id, n - 1);
    }
}

/// A lecture path after its course folder moved from `old_folder` to
/// `new_folder`: the new folder followed by what comes after the old
/// folder's length in the path.
pub open spec fn relocated(path: Seq<char>, old_folder: Seq<char>, new_folder: Seq<char>) -> Seq<
    char,
> {
    if old_folder.len() <= path.len() {
        new_folder + path.skip(old_folder.len() as int)
    } else {
        new_folder
    }
}

/// The path of a file of a relocated course.
pub fn relocated_path(path: &str, old_folder: &str, new_folder: &str) -> (r: String)
    ensures
        r@ == relocated(path@, old_folder@, new_folder@),
{
    let p = chars_of(path);
    let old_len = chars_of(old_folder).len();
    let mut v = chars_of(new_folder);
    if old_len <= p.len() {
        let rest = crate::text::slice_chars(&p, old_len, p.len());
        append_chars(&mut v, &rest);
    }
    string_of(&v)
}

/// Moving a course folder and moving it back restores every path under it.
pub proof fn law_relocate_round_trip(path: Seq<char>, old_folder: Seq<char>, new_folder: Seq<char>)
    requires
        old_folder.len() <= path.len(),
    ensures
        relocated(relocated(path, old_folder, new_folder), new_folder, old_folder) == old_folder
            + path.skip(old_folder.len() as int),
        path.take(old_folder.len() as int) == old_folder ==> relocated(
            relocated(path, old_folder, new_folder),
            new_folder,
            old_folder,
        ) == path,
{
    let moved = relocated(path, old_folder, new_folder);
    assert(moved.skip(new_folder.len() as int) =~= path.skip(old_folder.len() as int));
    if path.take(old_folder.len() as int) == old_folder {
        assert(old_folder + path.skip(old_folder.len() as int) =~= path);
    }
}

} // verus!
