//! Connection history upkeep and session restore: which history entries are
//! kept (those within the retention period, the most recent first when there
//! are too many) and which saved sessions are offered for restoring.

use vstd::prelude::*;
use crate::state::now_millis;

verus! {

// ---------------------------------------------------------------------------
// History trimming
// ---------------------------------------------------------------------------

/// The entries started after `cutoff`, in order. Each entry is its start
/// time (milliseconds since the epoch) and the rest of it.
pub open spec fn recent_only<T>(entries: Seq<(i64, T)>, cutoff: i64) -> Seq<(i64, T)>
    decreases entries.len(),
{
    if entries.len() == 0 {
        Seq::empty()
    } else {
        let before = recent_only(entries.drop_last(), cutoff);
        if entries.last().0 > cutoff {
            before.push(entries.last())
        } else {
            before
        }
    }
}

/// Where an entry started at `key` goes in a newest-first list: before the
/// first entry that started earlier (after all that started at the same
/// time or later).
pub open spec fn insertion_point<T>(sorted: Seq<(i64, T)>, key: i64) -> int
    decreases sorted.len(),
{
    if sorted.len() == 0 {
        0
    } else if sorted[0].0 < key {
        0
    } else {
        1 + insertion_point(sorted.drop_first(), key)
    }
}

/// A newest-first list with one more entry put in its place.
pub open spec fn insert_newest_first<T>(sorted: Seq<(i64, T)>, e: (i64, T)) -> Seq<(i64, T)> {
    sorted.insert(insertion_point(sorted, e.0), e)
}

/// The entries ordered newest first; entries that started at the same time
/// keep their order (a stable sort).
pub open spec fn newest_first<T>(entries: Seq<(i64, T)>) -> Seq<(i64, T)>
    decreases entries.len(),
{
    if entries.len() == 0 {
        Seq::empty()
    } else {
        insert_newest_first(newest_first(entries.drop_last()), entries.last())
    }
}

/// The history after trimming: the entries started after `cutoff`; when
/// more than `max_entries` remain, the `max_entries` most recent, newest
/// first.
pub open spec fn trimmed_history<T>(entries: Seq<(i64, T)>, cutoff: i64, max_entries: nat) -> Seq<
    (i64, T),
> {
    let kept = recent_only(entries, cutoff);
    if kept.len() > max_entries {
        newest_first(kept).take(max_entries as int)
    } else {
        kept
    }
}

proof fn lemma_insertion_point_generic<T>(sorted: Seq<(i64, T)>, key: i64, j: int)
    requires
        0 <= j <= sorted.len(),
        forall|k: int| 0 <= k < j ==> (#[trigger] sorted[k]).0 >= key,
        j == sorted.len() || sorted[j].0 < key,
    ensures
        insertion_point(sorted, key) == j,
    decreases j,
{
    if j > 0 {
        let d = sorted.drop_first();
        assert forall|k: int| 0 <= k < j - 1 implies (#[trigger] d[k]).0 >= key by {
            assert(d[k] == sorted[k + 1]);
        }
        if j < sorted.len() {
            assert(d[j - 1] == sorted[j]);
        }
        lemma_insertion_point_generic(d, key, j - 1);
    }
}

/// Trims the history: drops the entries that started before the retention
/// cutoff and, when more than `max_entries` remain, keeps the most recent
/// ones, newest first (see `trimmed_history`).
pub fn trim_history<T>(entries: Vec<(i64, T)>, cutoff: i64, max_entries: usize) -> (r: Vec<(i64, T)>)
    ensures
        r@ == trimmed_history(entries@, cutoff, max_entries as nat),
{
    let ghost all = entries@;
    let total = entries.len();
    assert(all.len() == total);
    let mut rest = entries;
    let mut kept: Vec<(i64, T)> = Vec::new();
    let mut i: usize = 0;
    while rest.len() > 0
        invariant
            i <= all.len(),
            all.len() <= usize::MAX,
            rest@ == all.skip(i as int),
            kept@ == recent_only(all.take(i as int), cutoff),
        decreases rest@.len(),
    {
        let e = rest.remove(0);
        proof {
            assert(e == all[i as int]);
            assert(all.take(i + 1).drop_last() =~= all.take(i as int));
            assert(all.take(i + 1).last() == all[i as int]);
            assert(rest@ =~= all.skip(i + 1));
        }
        if e.0 > cutoff {
            kept.push(e);
        }
        i += 1;
    }
    proof {
        assert(all.skip(i as int).len() == 0);
        assert(all.take(i as int) =~= all);
    }
    if kept.len() <= max_entries {
        return kept;
    }
    let ghost recent = kept@;
    let count = kept.len();
    assert(recent.len() == count);
    let mut sorted: Vec<(i64, T)> = Vec::new();
    let mut n: usize = 0;
    while kept.len() > 0
        invariant
            n <= recent.len(),
            recent.len() <= usize::MAX,
            kept@ == recent.skip(n as int),
            sorted@ == newest_first(recent.take(n as int)),
        decreases kept@.len(),
    {
        let e = kept.remove(0);
        let key = e.0;
        let mut j: usize = 0;
        while j < sorted.len()
            invariant
                j <= sorted@.len(),
                forall|k: int| 0 <= k < j ==> (#[trigger] sorted@[k]).0 >= key,
            ensures
                j <= sorted@.len(),
                forall|k: int| 0 <= k < j ==> (#[trigger] sorted@[k]).0 >= key,
                j == sorted@.len() || sorted@[j as int].0 < key,
            decreases sorted@.len() - j,
        {
            if sorted[j].0 < key {
                break;
            }
            j += 1;
        }
        proof {
            lemma_insertion_point_generic(sorted@, key, j as int);
            assert(e == recent[n as int]);
            assert(recent.take(n + 1).drop_last() =~= recent.take(n as int));
            assert(recent.take(n + 1).last() == recent[n as int]);
            assert(kept@ =~= recent.skip(n + 1));
        }
        sorted.insert(j, e);
        n += 1;
    }
    proof {
        assert(recent.skip(n as int).len() == 0);
        assert(recent.take(n as int) =~= recent);
        lemma_newest_first_len(recent);
    }
    sorted.truncate(max_entries);
    sorted
}

proof fn lemma_insertion_point_in_range<T>(s: Seq<(i64, T)>, key: i64)
    ensures
        0 <= insertion_point(s, key) <= s.len(),
    decreases s.len(),
{
    if s.len() > 0 {
        lemma_insertion_point_in_range(s.drop_first(), key);
    }
}

proof fn lemma_newest_first_len<T>(entries: Seq<(i64, T)>)
    ensures
        newest_first(entries).len() == entries.len(),
    decreases entries.len(),
{
    if entries.len() > 0 {
        lemma_newest_first_len(entries.drop_last());
        lemma_insertion_point_in_range(newest_first(entries.drop_last()), entries.last().0);
    }
}

proof fn lemma_newest_first_shape<T>(entries: Seq<(i64, T)>, cutoff: i64)
    requires
        forall|i: int| 0 <= i < entries.len() ==> (#[trigger] entries[i]).0 > cutoff,
    ensures
        newest_first(entries).len() == entries.len(),
        forall|i: int| 0 <= i < newest_first(entries).len() ==> (#[trigger] newest_first(
            entries,
        )[i]).0 > cutoff,
        forall|i: int, j: int|
            0 <= i < j < newest_first(entries).len() ==> (#[trigger] newest_first(entries)[i]).0
                >= (#[trigger] newest_first(entries)[j]).0,
    decreases entries.len(),
{
    if entries.len() > 0 {
        let d = entries.drop_last();
        assert forall|i: int| 0 <= i < d.len() implies (#[trigger] d[i]).0 > cutoff by {
            assert(d[i] == entries[i]);
        }
        lemma_newest_first_shape(d, cutoff);
        let s = newest_first(d);
        let e = entries.last();
        assert(e == entries[entries.len() - 1]);
        let p = insertion_point(s, e.0);
        lemma_insertion_point_bounds(s, e.0);
        let r = s.insert(p, e);
        assert forall|i: int, j: int| 0 <= i < j < r.len() implies (#[trigger] r[i]).0 >= (
        #[trigger] r[j]).0 by {
            if i < p && j < p {
                assert(r[i] == s[i] && r[j] == s[j]);
            } else if i < p && j == p {
                assert(r[i] == s[i]);
            } else if i < p {
                assert(r[i] == s[i] && r[j] == s[j - 1]);
            } else if i == p {
                assert(r[j] == s[j - 1]);
            } else {
                assert(r[i] == s[i - 1] && r[j] == s[j - 1]);
            }
        }
    }
}

proof fn lemma_insertion_point_bounds<T>(s: Seq<(i64, T)>, key: i64)
    requires
        forall|i: int, j: int| 0 <= i < j < s.len() ==> (#[trigger] s[i]).0 >= (#[trigger] s[j]).0,
    ensures
        0 <= insertion_point(s, key) <= s.len(),
        forall|k: int| 0 <= k < insertion_point(s, key) ==> (#[trigger] s[k]).0 >= key,
        forall|k: int| insertion_point(s, key) <= k < s.len() ==> (#[trigger] s[k]).0 < key,
    decreases s.len(),
{
    if s.len() > 0 {
        let d = s.drop_first();
        assert forall|i: int, j: int| 0 <= i < j < d.len() implies (#[trigger] d[i]).0 >= (
        #[trigger] d[j]).0 by {
            assert(d[i] == s[i + 1] && d[j] == s[j + 1]);
        }
        lemma_insertion_point_bounds(d, key);
        if s[0].0 < key {
            assert forall|k: int| 0 <= k < s.len() implies (#[trigger] s[k]).0 < key by {
                if k > 0 {
                    assert(s[0].0 >= s[k].0);
                }
            }
        } else {
            assert forall|k: int| 0 <= k < insertion_point(s, key) implies (#[trigger] s[k]).0
                >= key by {
                if k > 0 {
                    assert(s[k] == d[k - 1]);
                }
            }
            assert forall|k: int| insertion_point(s, key) <= k < s.len() implies (
            #[trigger] s[k]).0 < key by {
                assert(s[k] == d[k - 1]);
            }
        }
    }
}

proof fn lemma_recent_only_shape<T>(entries: Seq<(i64, T)>, cutoff: i64)
    ensures
        recent_only(entries, cutoff).len() <= entries.len(),
        forall|i: int|
            0 <= i < recent_only(entries, cutoff).len() ==> (#[trigger] recent_only(
                entries,
                cutoff,
            )[i]).0 > cutoff,
    decreases entries.len(),
{
    if entries.len() > 0 {
        lemma_recent_only_shape(entries.drop_last(), cutoff);
    }
}

/// After trimming, the history holds at most `max_entries` entries, all
/// started after the cutoff; when it had to be cut, it lists them newest
/// first.
pub proof fn trimmed_history_laws<T>(entries: Seq<(i64, T)>, cutoff: i64, max_entries: nat)
    ensures
        trimmed_history(entries, cutoff, max_entries).len() <= max_entries || trimmed_history(
            entries,
            cutoff,
            max_entries,
        ) == recent_only(entries, cutoff) && recent_only(entries, cutoff).len() <= max_entries,
        forall|i: int|
            0 <= i < trimmed_history(entries, cutoff, max_entries).len() ==> (
            #[trigger] trimmed_history(entries, cutoff, max_entries)[i]).0 > cutoff,
        recent_only(entries, cutoff).len() > max_entries ==> forall|i: int, j: int|
            0 <= i < j < trimmed_history(entries, cutoff, max_entries).len() ==> (
            #[trigger] trimmed_history(entries, cutoff, max_entries)[i]).0 >= (
            #[trigger] trimmed_history(entries, cutoff, max_entries)[j]).0,
{
    lemma_recent_only_shape(entries, cutoff);
    let kept = recent_only(entries, cutoff);
    if kept.len() > max_entries {
        lemma_newest_first_shape(kept, cutoff);
        let r = trimmed_history(entries, cutoff, max_entries);
        assert forall|i: int| 0 <= i < r.len() implies (#[trigger] r[i]).0 > cutoff by {
            assert(r[i] == newest_first(kept)[i]);
        }
        assert forall|i: int, j: int| 0 <= i < j < r.len() implies (#[trigger] r[i]).0 >= (
        #[trigger] r[j]).0 by {
            assert(r[i] == newest_first(kept)[i] && r[j] == newest_first(kept)[j]);
        }
    }
}

// ---------------------------------------------------------------------------
// Session restore
// ---------------------------------------------------------------------------

/// A session saved at shutdown for restoring at the next start.
pub struct SavedSession {
    /// The connection it was opened for
    pub connection_id: u128,
    /// The connection's name then
    pub connection_name: String,
    /// Its protocol
    pub protocol: String,
    /// Its host
    pub host: String,
    /// Its port
    pub port: u16,
    /// When it was saved (milliseconds since the epoch)
    pub saved_at: i64,
}

impl SavedSession {
    /// A copy of the saved session.
    pub fn duplicate(&self) -> (s: SavedSession)
        ensures
            s == *self,
    {
        SavedSession {
            connection_id: self.connection_id,
            connection_name: self.connection_name.clone(),
            protocol: self.protocol.clone(),
            host: self.host.clone(),
            port: self.port,
            saved_at: self.saved_at,
        }
    }
}

/// Whether a saved session is too old: with a limit set (not 0), it was
/// saved more than `max_age_hours` whole hours before `now`.
pub open spec fn too_old(saved_at: i64, now: i64, max_age_hours: u32) -> bool {
    max_age_hours > 0 && now - saved_at >= 0 && (now - saved_at) / 3_600_000 > max_age_hours
}

/// The saved sessions offered for restoring: none when restoring is off;
/// otherwise those whose connection still exists and that are not too old,
/// in order.
pub open spec fn sessions_to_restore(
    saved: Seq<SavedSession>,
    existing: Seq<u128>,
    enabled: bool,
    max_age_hours: u32,
    now: i64,
) -> Seq<SavedSession>
    decreases saved.len(),
{
    if !enabled || saved.len() == 0 {
        Seq::empty()
    } else {
        let before = sessions_to_restore(saved.drop_last(), existing, enabled, max_age_hours, now);
        let s = saved.last();
        if existing.contains(s.connection_id) && !too_old(s.saved_at, now, max_age_hours) {
            before.push(s)
        } else {
            before
        }
    }
}

/// Which saved sessions are restored: none when restoring is off; otherwise
/// exactly those whose connection still exists and, when an age limit is set
/// (not 0), whose age in whole hours does not exceed it, in their order. A
/// session older than the limit is never restored, whatever the limit.
pub proof fn restore_selection_law(
    saved: Seq<SavedSession>,
    existing: Seq<u128>,
    enabled: bool,
    max_age_hours: u32,
    now: i64,
)
    ensures
        ({
            let r = sessions_to_restore(saved, existing, enabled, max_age_hours, now);
            &&& !enabled ==> r.len() == 0
            &&& r.len() <= saved.len()
            &&& forall|k: int|
                0 <= k < r.len() ==> {
                    &&& saved.contains(#[trigger] r[k])
                    &&& existing.contains(r[k].connection_id)
                    &&& max_age_hours > 0 && now - r[k].saved_at >= 0 ==> (now - r[k].saved_at)
                        / 3_600_000 <= max_age_hours
                }
            &&& forall|i: int|
                0 <= i < saved.len() && enabled && existing.contains(#[trigger] saved[i].connection_id)
                    && (max_age_hours == 0 || now - saved[i].saved_at < 0 || (now - saved[i].saved_at)
                    / 3_600_000 <= max_age_hours) ==> r.contains(saved[i])
        }),
    decreases saved.len(),
{
    if enabled && saved.len() > 0 {
        let rest = saved.drop_last();
        restore_selection_law(rest, existing, enabled, max_age_hours, now);
        let before = sessions_to_restore(rest, existing, enabled, max_age_hours, now);
        let r = sessions_to_restore(saved, existing, enabled, max_age_hours, now);
        assert forall|k: int| 0 <= k < r.len() implies {
            &&& saved.contains(#[trigger] r[k])
            &&& existing.contains(r[k].connection_id)
            &&& max_age_hours > 0 && now - r[k].saved_at >= 0 ==> (now - r[k].saved_at) / 3_600_000
                <= max_age_hours
        } by {
            if k < before.len() {
                assert(r[k] == before[k]);
                let j = choose|j: int| 0 <= j < rest.len() && rest[j] == before[k];
                assert(saved[j] == rest[j]);
            } else {
                assert(r[k] == saved.last());
                assert(saved[saved.len() - 1] == saved.last());
            }
        }
        assert forall|i: int|
            0 <= i < saved.len() && enabled && existing.contains(#[trigger] saved[i].connection_id)
                && (max_age_hours == 0 || now - saved[i].saved_at < 0 || (now - saved[i].saved_at)
                / 3_600_000 <= max_age_hours) implies r.contains(saved[i]) by {
            if i < saved.len() - 1 {
                assert(rest[i] == saved[i]);
                assert(before.contains(saved[i]));
                let k = choose|k: int| 0 <= k < before.len() && before[k] == saved[i];
                if r.len() > before.len() {
                    assert(r[k] == before[k]);
                }
            } else {
                assert(r.last() == saved[i]);
            }
        }
    }
}

fn contains_id(ids: &Vec<u128>, id: u128) -> (b: bool)
    ensures
        b == ids@.contains(id),
{
    let mut i: usize = 0;
    while i < ids.len()
        invariant
            i <= ids@.len(),
            forall|k: int| 0 <= k < i ==> ids@[k] != id,
        decreases ids@.len() - i,
    {
        if ids[i] == id {
            return true;
        }
        i += 1;
    }
    false
}

fn is_too_old(saved_at: i64, now: i64, max_age_hours: u32) -> (b: bool)
    ensures
        b == too_old(saved_at, now, max_age_hours),
{
    if max_age_hours == 0 {
        return false;
    }
    let age: i128 = (now as i128) - (saved_at as i128);
    let limit: i128 = 3_600_000i128 * ((max_age_hours as i128) + 1);
    proof {
        let d = now - saved_at;
        if d >= 0 {
            assert(d / 3_600_000 > max_age_hours <==> d >= 3_600_000 * (max_age_hours + 1))
                by (nonlinear_arith)
                requires
                    d >= 0,
            ;
        }
    }
    age >= 0 && age >= limit
}

/// The saved sessions to restore now: `get_sessions_to_restore` at the
/// current time, read from the clock. Which time was read is not known, so
/// the result is the one for some time; with restoring off it is empty.
pub fn sessions_to_restore_now(
    saved: &Vec<SavedSession>,
    existing_connections: &Vec<u128>,
    enabled: bool,
    max_age_hours: u32,
) -> (r: Vec<SavedSession>)
    ensures
        exists|now: i64|
            r@ == #[trigger] sessions_to_restore(
                saved@,
                existing_connections@,
                enabled,
                max_age_hours,
                now,
            ),
        !enabled ==> r@.len() == 0,
{
    let now = now_millis();
    let r = get_sessions_to_restore(saved, existing_connections, enabled, max_age_hours, now);
    assert(r@ == sessions_to_restore(saved@, existing_connections@, enabled, max_age_hours, now));
    r
}

/// Gets the saved sessions to restore (see `sessions_to_restore`), given
/// the identifiers of the connections that exist and the current time.
pub fn get_sessions_to_restore(
    saved: &Vec<SavedSession>,
    existing_connections: &Vec<u128>,
    enabled: bool,
    max_age_hours: u32,
    now: i64,
) -> (r: Vec<SavedSession>)
    ensures
        r@ == sessions_to_restore(saved@, existing_connections@, enabled, max_age_hours, now),
{
    let mut r: Vec<SavedSession> = Vec::new();
    if !enabled {
        return r;
    }
    let mut i: usize = 0;
    while i < saved.len()
        invariant
            enabled,
            i <= saved@.len(),
            r@ == sessions_to_restore(
                saved@.take(i as int),
                existing_connections@,
                enabled,
                max_age_hours,
                now,
            ),
        decreases saved@.len() - i,
    {
        proof {
            assert(saved@.take(i + 1).drop_last() =~= saved@.take(i as int));
            assert(saved@.take(i + 1).last() == saved@[i as int]);
        }
        let s = &saved[i];
        if contains_id(existing_connections, s.connection_id) && !is_too_old(
            s.saved_at,
            now,
            max_age_hours,
        ) {
            r.push(s.duplicate());
        }
        i += 1;
    }
    proof {
        assert(saved@.take(saved@.len() as int) =~= saved@);
    }
    r
}

} // verus!
