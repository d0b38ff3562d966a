//! Domain records: plain, persistence-agnostic values that the storage layer
//! fills and the user interface shows.

use vstd::prelude::*;

verus! {

/// Lifecycle of a course's import/scan. Stored as TEXT.
#[derive(Debug, Clone, Copy, PartialEq, Eq, Structural)]
pub enum ScanStatus {
    Importing,
    Scanning,
    Ready,
    Missing,
    Error,
}

impl ScanStatus {
    /// The stored text of a status.
    pub open spec fn text(self) -> Seq<char> {
        match self {
            ScanStatus::Importing => seq!['I', 'm', 'p', 'o', 'r', 't', 'i', 'n', 'g'],
            ScanStatus::Scanning => seq!['S', 'c', 'a', 'n', 'n', 'i', 'n', 'g'],
            ScanStatus::Ready => seq!['R', 'e', 'a', 'd', 'y'],
            ScanStatus::Missing => seq!['M', 'i', 's', 's', 'i', 'n', 'g'],
            ScanStatus::Error => seq!['E', 'r', 'r', 'o', 'r'],
        }
    }

    pub fn as_str(self) -> (r: &'static str)
        ensures
            r@ == self.text(),
    {
        match self {
            ScanStatus::Importing => {
                proof {
                    reveal_strlit("Importing");
                }
                "Importing"
            },
            ScanStatus::Scanning => {
                proof {
                    reveal_strlit("Scanning");
                }
                "Scanning"
            },
            ScanStatus::Ready => {
                proof {
                    reveal_strlit("Ready");
                }
                "Ready"
            },
            ScanStatus::Missing => {
                proof {
                    reveal_strlit("Missing");
                }
                "Missing"
            },
            ScanStatus::Error => {
                proof {
                    reveal_strlit("Error");
                }
                "Error"
            },
        }
    }
}

/// Distinct statuses are stored as distinct texts, so a stored status reads
/// back as the one written.
pub proof fn law_scan_status_texts_distinct(a: ScanStatus, b: ScanStatus)
    ensures
        a.text() == b.text() ==> a == b,
{
    if a != b {
        match a {
            ScanStatus::Importing => assert(a.text()[0] == 'I'),
            ScanStatus::Scanning => assert(a.text()[0] == 'S'),
            ScanStatus::Ready => assert(a.text()[0] == 'R'),
            ScanStatus::Missing => assert(a.text()[0] == 'M'),
            ScanStatus::Error => assert(a.text()[0] == 'E'),
        }
        match b {
            ScanStatus::Importing => assert(b.text()[0] == 'I'),
            ScanStatus::Scanning => assert(b.text()[0] == 'S'),
            ScanStatus::Ready => assert(b.text()[0] == 'R'),
            ScanStatus::Missing => assert(b.text()[0] == 'M'),
            ScanStatus::Error => assert(b.text()[0] == 'E'),
        }
    }
}

/// The status with the given stored text, if any.
pub fn status_from_text(t: &str) -> (r: Option<ScanStatus>)
    ensures
        match r {
            Some(st) => st.text() == t@,
            None => forall|st: ScanStatus| st.text() != t@,
        },
{
    let v = crate::text::chars_of(t);
    if crate::text::eq_chars(&v, &['I', 'm', 'p', 'o', 'r', 't', 'i', 'n', 'g']) {
        Some(ScanStatus::Importing)
    } else if crate::text::eq_chars(&v, &['S', 'c', 'a', 'n', 'n', 'i', 'n', 'g']) {
        Some(ScanStatus::Scanning)
    } else if crate::text::eq_chars(&v, &['R', 'e', 'a', 'd', 'y']) {
        Some(ScanStatus::Ready)
    } else if crate::text::eq_chars(&v, &['M', 'i', 's', 's', 'i', 'n', 'g']) {
        Some(ScanStatus::Missing)
    } else if crate::text::eq_chars(&v, &['E', 'r', 'r', 'o', 'r']) {
        Some(ScanStatus::Error)
    } else {
        assert forall|st: ScanStatus| st.text() != t@ by {
            match st {
                ScanStatus::Importing => assert(st.text() =~= seq!['I', 'm', 'p', 'o', 'r', 't', 'i', 'n', 'g']),
                ScanStatus::Scanning => assert(st.text() =~= seq!['S', 'c', 'a', 'n', 'n', 'i', 'n', 'g']),
                ScanStatus::Ready => assert(st.text() =~= seq!['R', 'e', 'a', 'd', 'y']),
                ScanStatus::Missing => assert(st.text() =~= seq!['M', 'i', 's', 's', 'i', 'n', 'g']),
                ScanStatus::Error => assert(st.text() =~= seq!['E', 'r', 'r', 'o', 'r']),
            }
        }
        None
    }
}

/// The status a course gets when reconciliation finds its files missing or
/// present: only Ready and Missing move between each other; a course being
/// imported or scanned, or in error, keeps its status.
pub open spec fn reconciled_spec(current: ScanStatus, missing: bool) -> ScanStatus {
    if missing {
        if current == ScanStatus::Ready || current == ScanStatus::Missing {
            ScanStatus::Missing
        } else {
            current
        }
    } else if current == ScanStatus::Missing {
        ScanStatus::Ready
    } else {
        current
    }
}

/// Toggle a course between Ready and Missing during reconciliation, without
/// disturbing Importing/Scanning/Error states.
pub fn reconciled_status(current: ScanStatus, missing: bool) -> (r: ScanStatus)
    ensures
        r == reconciled_spec(current, missing),
{
    if missing {
        match current {
            ScanStatus::Ready | ScanStatus::Missing => ScanStatus::Missing,
            _ => current,
        }
    } else {
        match current {
            ScanStatus::Missing => ScanStatus::Ready,
            _ => current,
        }
    }
}

/// Reconciliation is idempotent, leaves in-progress and failed courses
/// alone, and a course whose files come back is Ready again.
pub proof fn law_reconcile_status(current: ScanStatus, missing: bool)
    ensures
        reconciled_spec(reconciled_spec(current, missing), missing) == reconciled_spec(
            current,
            missing,
        ),
        (current == ScanStatus::Importing || current == ScanStatus::Scanning || current
            == ScanStatus::Error) ==> reconciled_spec(current, missing) == current,
        current == ScanStatus::Ready ==> reconciled_spec(reconciled_spec(current, true), false)
            == ScanStatus::Ready,
{
}

/// A non-media resource that shipped with a course (pdf, zip, code, …).
#[derive(Debug, Clone)]
pub struct Attachment {
    pub id: String,
    pub name: String,
    pub file_path: String,
    pub kind: Option<String>,
    pub section_id: Option<String>,
    pub lecture_id: Option<String>,
}

/// One full-text search result across courses/sections/lectures/attachments.
#[derive(Debug, Clone)]
pub struct SearchHit {
    pub kind: String,
    pub entity_id: String,
    pub course_id: String,
    pub course_title: String,
    pub title: String,
}

/// A subtitle full-text match: a spoken snippet with the lecture + timestamp.
#[derive(Debug, Clone)]
pub struct SubtitleHit {
    pub lecture_id: String,
    pub course_id: String,
    pub course_title: String,
    pub lecture_title: String,
    pub start_ms: i64,
    pub snippet: String,
}

} // verus!
