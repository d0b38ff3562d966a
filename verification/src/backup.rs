//! Data export / import rules. A backup is a `.zip` of the database, the
//! config and the thumbnail cache, with a manifest. Import stages the archive
//! for the next startup; this module decides which archive entries may be
//! extracted (only the files a backup holds, never one that could escape the
//! staging folder) and which backups this build can take. Reading and
//! writing archives and files happens outside the library.

use vstd::prelude::*;
use crate::error::DeskemyError;
use crate::text::{contains_run, chars_of, string_of, append_chars, signed_decimal, signed_decimal_of};

verus! {

pub open spec fn manifest_name() -> Seq<char> {
    "deskemy-backup.json"@
}

pub open spec fn db_name() -> Seq<char> {
    "deskemy.db"@
}

pub open spec fn config_name() -> Seq<char> {
    "config.json"@
}

/// The folder prefix of thumbnail entries, `thumbnails/`.
pub open spec fn thumbs_prefix() -> Seq<char> {
    "thumbnails/"@
}

/// The backup's manifest.
#[derive(Debug, Clone)]
pub struct Manifest {
    pub app_version: String,
    /// SQLite `user_version` at export time.
    pub schema_version: i64,
    /// Unix epoch seconds.
    pub created_at: i64,
}

/// An entry a backup writes: the database, the config, or a file in the
/// thumbnail folder.
pub open spec fn is_ours(name: Seq<char>) -> bool {
    ||| name == db_name()
    ||| name == config_name()
    ||| (name.len() > thumbs_prefix().len() && name.take(thumbs_prefix().len() as int)
        == thumbs_prefix())
}

/// A directory entry of an archive: its name ends in a separator.
pub open spec fn is_dir_name(name: Seq<char>) -> bool {
    name.len() > 0 && (name.last() == '/' || name.last() == '\\')
}

/// Whether an archive entry is extracted on import: one of ours, with no
/// `..` and no leading separator, and not a directory.
pub open spec fn accept_spec(name: Seq<char>) -> bool {
    &&& name != manifest_name()
    &&& is_ours(name)
    &&& !contains_run(name, seq!['.', '.'])
    &&& !(name.len() > 0 && (name[0] == '/' || name[0] == '\\'))
    &&& !is_dir_name(name)
}

fn str_eq(a: &Vec<char>, b: &str) -> (r: bool)
    ensures
        r == (a@ == b@),
{
    crate::text::chars_eq(a, &chars_of(b))
}

fn has_dotdot(v: &Vec<char>) -> (r: bool)
    ensures
        r == contains_run(v@, seq!['.', '.']),
{
    let mut i: usize = 0;
    while i < v.len() && v.len() - i > 1
        invariant
            i <= v@.len(),
            v@.len() == v.len(),
            forall|k: int| 0 <= k < i && k + 2 <= v@.len() ==> #[trigger] v@.subrange(k, k + 2) != seq!['.', '.'],
        decreases v@.len() - i,
    {
        if v[i] == '.' && v[i + 1] == '.' {
            assert(v@.subrange(i as int, i + 2) =~= seq!['.', '.']);
            return true;
        }
        assert(v@.subrange(i as int, i + 2) != seq!['.', '.']) by {
            assert(v@.subrange(i as int, i + 2)[0] == v@[i as int]);
            assert(v@.subrange(i as int, i + 2)[1] == v@[i + 1]);
        }
        i += 1;
    }
    assert(!contains_run(v@, seq!['.', '.'])) by {
        if contains_run(v@, seq!['.', '.']) {
            let k = choose|k: int|
                0 <= k && k + 2 <= v@.len() && #[trigger] v@.subrange(k, k + 2) == seq!['.', '.'];
            assert(k < i);
        }
    }
    false
}

/// Whether an archive entry named `name` is extracted when a backup is
/// imported.
pub fn accept_entry(name: &str) -> (r: bool)
    ensures
        r == accept_spec(name@),
{
    let v = chars_of(name);
    if str_eq(&v, "deskemy-backup.json") {
        return false;
    }
    let prefix = chars_of("thumbnails/");
    let mut thumb = v.len() > prefix.len();
    if thumb {
        let head = crate::text::slice_chars(&v, 0, prefix.len());
        thumb = crate::text::chars_eq(&head, &prefix);
    }
    let ours = str_eq(&v, "deskemy.db") || str_eq(&v, "config.json") || thumb;
    if !ours || has_dotdot(&v) {
        return false;
    }
    if v.len() > 0 && (v[0] == '/' || v[0] == '\\') {
        return false;
    }
    !(v.len() > 0 && (v[v.len() - 1] == '/' || v[v.len() - 1] == '\\'))
}

/// An extracted entry stays inside the staging folder and is one of the
/// files a backup holds.
pub proof fn law_accepted_entries_stay_inside(name: Seq<char>)
    requires
        accept_spec(name),
    ensures
        !contains_run(name, seq!['.', '.']),
        name.len() > 0,
        name[0] != '/' && name[0] != '\\',
        name == db_name() || name == config_name() || name.take(thumbs_prefix().len() as int)
            == thumbs_prefix(),
{
    reveal_strlit("deskemy.db");
    reveal_strlit("config.json");
    reveal_strlit("thumbnails/");
}

/// The message for a backup newer than this build.
pub open spec fn newer_backup_message(found: int, supported: int) -> Seq<char> {
    "this backup is from a newer version of Deskemy (data format v"@ + signed_decimal(found)
        + ", this build supports v"@ + signed_decimal(supported)
        + "). Update Deskemy and try again."@
}

/// A backup can be imported when its schema is not newer than this build's.
pub fn check_schema(manifest: &Manifest, current_schema: i64) -> (r: Result<(), DeskemyError>)
    ensures
        match r {
            Ok(()) => manifest.schema_version <= current_schema,
            Err(e) => manifest.schema_version > current_schema && (e matches DeskemyError::Other(
                m,
            ) && m@ == newer_backup_message(
                manifest.schema_version as int,
                current_schema as int,
            )),
        },
{
    if manifest.schema_version > current_schema {
        let mut m = chars_of("this backup is from a newer version of Deskemy (data format v");
        append_chars(&mut m, &signed_decimal_of(manifest.schema_version));
        append_chars(&mut m, &chars_of(", this build supports v"));
        append_chars(&mut m, &signed_decimal_of(current_schema));
        append_chars(&mut m, &chars_of("). Update Deskemy and try again."));
        return Err(DeskemyError::Other(string_of(&m)));
    }
    Ok(())
}

/// The outcome of staging once extraction is done: an error when the
/// archive held no database.
pub fn staged_outcome(database_extracted: bool) -> (r: Result<(), DeskemyError>)
    ensures
        match r {
            Ok(()) => database_extracted,
            Err(e) => !database_extracted && (e matches DeskemyError::Other(m) && m@
                == "backup archive is missing its database"@),
        },
{
    if database_extracted {
        Ok(())
    } else {
        Err(DeskemyError::Other("backup archive is missing its database".to_owned()))
    }
}

/// The error for an archive without a manifest.
pub fn not_a_backup() -> (e: DeskemyError)
    ensures
        e matches DeskemyError::Other(m) && m@ == "not a Deskemy backup (no manifest)"@,
{
    DeskemyError::Other("not a Deskemy backup (no manifest)".to_owned())
}

} // verus!
