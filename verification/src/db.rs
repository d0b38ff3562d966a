//! Schema versioning and the clock the persistence layer stamps rows with.
//! Running SQL happens outside the library; this module decides which
//! migration steps a database at a given version needs.

use vstd::prelude::*;
use std::time::{Duration, SystemTime, SystemTimeError, UNIX_EPOCH};

verus! {

/// Current schema version. Each version above zero has one migration step.
pub const SCHEMA_VERSION: i64 = 6;

/// The migration steps a database at `version` needs, in order: every step
/// `k` with `version < k <= SCHEMA_VERSION`.
pub open spec fn steps_after(version: int) -> Seq<i64>
    decreases SCHEMA_VERSION - version,
{
    if version >= SCHEMA_VERSION {
        Seq::empty()
    } else if version < 0 {
        steps_after(0)
    } else {
        seq![(version + 1) as i64] + steps_after(version + 1)
    }
}

/// Which migration steps to run on a database whose `user_version` is
/// `version`; empty when it is already current.
pub fn migration_steps(version: i64) -> (r: Vec<i64>)
    ensures
        r@ == steps_after(version as int),
{
    let mut out: Vec<i64> = Vec::new();
    let mut k: i64 = SCHEMA_VERSION;
    while k >= 1 && k > version
        invariant
            0 <= k <= SCHEMA_VERSION,
            k >= version || k == SCHEMA_VERSION,
            out@ == steps_after(k as int),
        decreases k,
    {
        assert(steps_after(k - 1) == seq![k] + steps_after(k as int));
        out.insert(0, k);
        assert(out@ =~= seq![k] + steps_after(k as int));
        k -= 1;
    }
    out
}

/// Migrating is idempotent and complete: the steps a database needs are
/// exactly those above its version, each once and in increasing order, and a
/// database brought to the current version needs none.
pub proof fn law_migration_steps(version: int)
    ensures
        steps_after(SCHEMA_VERSION as int).len() == 0,
        forall|i: int, j: int|
            0 <= i < j < steps_after(version).len() ==> steps_after(version)[i] < steps_after(
                version,
            )[j],
        forall|k: i64|
            version < k <= SCHEMA_VERSION && 1 <= k ==> steps_after(version).contains(k),
        forall|i: int|
            0 <= i < steps_after(version).len() ==> version < #[trigger] steps_after(version)[i]
                <= SCHEMA_VERSION && 1 <= steps_after(version)[i],
    decreases SCHEMA_VERSION - version,
{
    if version >= SCHEMA_VERSION {
    } else if version < 0 {
        law_migration_steps(0);
        assert(steps_after(version) == steps_after(0));
    } else {
        law_migration_steps(version + 1);
        let s = steps_after(version);
        let t = steps_after(version + 1);
        assert(s == seq![(version + 1) as i64] + t);
        assert forall|i: int| 0 <= i < t.len() implies #[trigger] s[i + 1] == t[i] by {}
        assert forall|i: int, j: int| 0 <= i < j < s.len() implies s[i] < s[j] by {
            if i > 0 {
                assert(s[i] == t[i - 1] && s[j] == t[j - 1]);
            } else {
                assert(s[j] == t[j - 1]);
            }
        }
        assert forall|k: i64| version < k <= SCHEMA_VERSION && 1 <= k implies s.contains(k) by {
            if k == version + 1 {
                assert(s[0] == k);
            } else {
                assert(t.contains(k));
                let w = choose|w: int| 0 <= w < t.len() && t[w] == k;
                assert(s[w + 1] == k);
            }
        }
    }
}

#[verifier::external_type_specification]
#[verifier::external_body]
pub struct ExSystemTime(SystemTime);

#[verifier::external_type_specification]
#[verifier::external_body]
pub struct ExSystemTimeError(SystemTimeError);

/// Calls `SystemTime::now`. Nothing is claimed of the result: it is the
/// machine's clock.
#[verifier::external_body]
fn system_now() -> (t: SystemTime) {
    SystemTime::now()
}

/// Calls `SystemTime::duration_since` with `UNIX_EPOCH`. Nothing is claimed
/// of the result: it depends on the clock reading it is given.
#[verifier::external_body]
fn since_unix_epoch(t: &SystemTime) -> (r: Result<Duration, SystemTimeError>) {
    t.duration_since(UNIX_EPOCH)
}

/// Calls `Duration::as_secs`. Nothing is claimed of the result beyond its
/// type: the duration is opaque here.
#[verifier::external_body]
fn whole_seconds(d: &Duration) -> (s: u64) {
    d.as_secs()
}

/// `secs as i64`: the two's-complement reinterpretation of a second count.
pub open spec fn secs_as_i64(secs: u64) -> int {
    if secs <= i64::MAX {
        secs as int
    } else {
        secs - 0x1_0000_0000_0000_0000
    }
}

/// The timestamp recorded for a clock reading: its whole seconds since the
/// Unix epoch as `i64`, or 0 when the clock reads before the epoch.
pub fn unix_seconds(elapsed: Option<u64>) -> (r: i64)
    ensures
        r == match elapsed {
            Some(s) => secs_as_i64(s),
            None => 0,
        },
{
    match elapsed {
        Some(s) => {
            let r = s as i64;
            assert(r == secs_as_i64(s)) by (bit_vector)
                requires
                    r == s as i64,
            ;
            r
        },
        None => 0,
    }
}

/// Unix seconds now. The clock is read outside the library; whatever it
/// reads, the result is `unix_seconds` of it.
pub fn now() -> (r: i64) {
    let t = system_now();
    let elapsed = match since_unix_epoch(&t) {
        Ok(d) => Some(whole_seconds(&d)),
        Err(_) => None,
    };
    unix_seconds(elapsed)
}

} // verus!
