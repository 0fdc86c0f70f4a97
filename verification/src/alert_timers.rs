//! Client-authored countdown bars started by alerts.
//!
//! A timer is an active effect with a label, a full bar, its at-arrival
//! duration as HH:MM:SS and an absolute deadline. Server-fed effects are
//! removed by the server; nothing removes a client timer but this module,
//! so expired timers are reaped here. Every change bumps the store's
//! generation so renderers know to rebuild.

use vstd::prelude::*;
use crate::named::{dup_opt, Duplicate};
use crate::text::{chars_of, decimal2, decimal2_exec, eq_ignore_ascii_case, eq_ignore_ascii_case_exec,
    owned, str_eq, string_from_chars};

verus! {

/// Category key for client timers, and the `category` of a window showing them.
pub const TIMERS_CATEGORY: &'static str = "Timers";

/// One effect bar.
#[derive(Debug, Clone, PartialEq)]
pub struct ActiveEffect {
    pub id: String,
    pub text: String,
    /// Bar fill, 0 to 100.
    pub value: u32,
    /// The at-arrival duration as HH:MM:SS.
    pub time: String,
    /// Absolute deadline in server seconds, when known.
    pub expires_at: Option<i64>,
    pub bar_color: Option<String>,
    pub text_color: Option<String>,
}

impl Duplicate for ActiveEffect {
    fn duplicate(&self) -> (r: Self) {
        ActiveEffect {
            id: self.id.clone(),
            text: self.text.clone(),
            value: self.value,
            time: self.time.clone(),
            expires_at: self.expires_at,
            bar_color: dup_opt(&self.bar_color),
            text_color: dup_opt(&self.text_color),
        }
    }
}

/// The effects shown under one category.
#[derive(Debug, Clone, PartialEq)]
pub struct ActiveEffectsContent {
    pub category: String,
    pub effects: Vec<ActiveEffect>,
    /// Bumped on every change.
    pub generation: u64,
}

/// The view of an optional string.
pub open spec fn opt_str(o: Option<String>) -> Option<Seq<char>> {
    match o {
        Some(s) => Some(s@),
        None => None,
    }
}

/// `format!("{:02}:{:02}:{:02}", d / 3600, (d % 3600) / 60, d % 60)`.
pub open spec fn hms(d: nat) -> Seq<char> {
    decimal2(d / 3600) + seq![':'] + decimal2((d % 3600) / 60) + seq![':'] + decimal2(d % 60)
}

/// A negative duration counts as zero.
pub open spec fn clamp_duration(d: int) -> int {
    if d < 0 {
        0
    } else {
        d
    }
}

/// Index of the first effect whose id is exactly `id`.
pub open spec fn first_with_id(s: Seq<ActiveEffect>, id: Seq<char>) -> Option<int>
    decreases s.len(),
{
    if s.len() == 0 {
        None
    } else {
        match first_with_id(s.drop_last(), id) {
            Some(i) => Some(i),
            None => if s.last().id@ == id {
                Some(s.len() - 1)
            } else {
                None
            },
        }
    }
}

/// `e` is the timer `start` writes: its fields other than `id` and
/// `text_color` are fully determined by the call.
pub open spec fn is_started_timer(
    e: ActiveEffect,
    label: Seq<char>,
    duration: int,
    color: Option<Seq<char>>,
    now: int,
) -> bool {
    &&& e.text@ == label
    &&& e.value == 100
    &&& e.time@ == hms(clamp_duration(duration) as nat)
    &&& e.expires_at == Some((now + clamp_duration(duration)) as i64)
    &&& opt_str(e.bar_color) == color
}

/// What `start` leaves in the store's effects: the first effect with the
/// id is restarted in place (keeping its id and text colour), or a new one
/// is appended.
pub open spec fn started(
    old: Seq<ActiveEffect>,
    new: Seq<ActiveEffect>,
    id: Seq<char>,
    label: Seq<char>,
    duration: int,
    color: Option<Seq<char>>,
    now: int,
) -> bool {
    match first_with_id(old, id) {
        Some(i) => {
            &&& new.len() == old.len()
            &&& forall|j: int| 0 <= j < old.len() && j != i ==> #[trigger] new[j] == old[j]
            &&& new[i].id == old[i].id
            &&& new[i].text_color == old[i].text_color
            &&& is_started_timer(new[i], label, duration, color, now)
        },
        None => {
            &&& new.len() == old.len() + 1
            &&& forall|j: int| 0 <= j < old.len() ==> #[trigger] new[j] == old[j]
            &&& new[old.len() as int].id@ == id
            &&& new[old.len() as int].text_color is None
            &&& is_started_timer(new[old.len() as int], label, duration, color, now)
        },
    }
}

/// Some id in `ids` names `e`, ignoring ASCII case.
pub open spec fn named_by(ids: Seq<String>, e: ActiveEffect) -> bool {
    exists|k: int| 0 <= k < ids.len() && eq_ignore_ascii_case((#[trigger] ids[k])@, e.id@)
}

/// The effects `cancel` keeps.
pub open spec fn cancel_spec(s: Seq<ActiveEffect>, ids: Seq<String>) -> Seq<ActiveEffect> {
    s.filter(|e: ActiveEffect| !named_by(ids, e))
}

/// The deadline of `e` is known and still ahead of `now`.
pub open spec fn still_running(e: ActiveEffect, now: i64) -> bool {
    match e.expires_at {
        Some(at) => at > now,
        None => false,
    }
}

/// The effects `reap` keeps.
pub open spec fn reap_spec(s: Seq<ActiveEffect>, now: i64) -> Seq<ActiveEffect> {
    s.filter(|e: ActiveEffect| still_running(e, now))
}

proof fn lemma_first_with_id(s: Seq<ActiveEffect>, id: Seq<char>)
    ensures
        match first_with_id(s, id) {
            Some(i) => 0 <= i < s.len() && s[i].id@ == id,
            None => forall|j: int| 0 <= j < s.len() ==> (#[trigger] s[j]).id@ != id,
        },
    decreases s.len(),
{
    if s.len() > 0 {
        lemma_first_with_id(s.drop_last(), id);
        assert forall|j: int| 0 <= j < s.len() - 1 implies #[trigger] s[j] == s.drop_last()[j] by {}
    }
}

proof fn lemma_first_with_id_prefix(s: Seq<ActiveEffect>, id: Seq<char>, k: int)
    requires
        0 <= k <= s.len(),
        first_with_id(s.take(k), id) is Some,
    ensures
        first_with_id(s, id) == first_with_id(s.take(k), id),
    decreases s.len() - k,
{
    if k == s.len() {
        assert(s.take(k) =~= s);
    } else {
        assert(s.drop_last().take(k) =~= s.take(k));
        lemma_first_with_id_prefix(s.drop_last(), id, k);
    }
}

fn find_timer(effects: &Vec<ActiveEffect>, id: &str) -> (r: Option<usize>)
    ensures
        match r {
            Some(i) => first_with_id(effects@, id@) == Some(i as int),
            None => first_with_id(effects@, id@) is None,
        },
{
    let mut i: usize = 0;
    while i < effects.len()
        invariant
            i <= effects@.len(),
            first_with_id(effects@.take(i as int), id@) is None,
        decreases effects@.len() - i,
    {
        proof {
            assert(effects@.take(i as int + 1).drop_last() =~= effects@.take(i as int));
            assert(effects@.take(i as int + 1).last() == effects@[i as int]);
        }
        if str_eq(effects[i].id.as_str(), id) {
            proof {
                lemma_first_with_id_prefix(effects@, id@, i as int + 1);
            }
            return Some(i);
        }
        i = i + 1;
    }
    proof {
        assert(effects@.take(i as int) =~= effects@);
    }
    None
}

fn opt_owned(o: Option<&str>) -> (r: Option<String>)
    ensures
        opt_str(r) == match o {
            Some(s) => Some(s@),
            None => None::<Seq<char>>,
        },
{
    match o {
        Some(s) => Some(owned(s)),
        None => None,
    }
}

fn hms_exec(d: u64) -> (r: String)
    ensures
        r@ == hms(d as nat),
{
    let mut v = decimal2_exec(d / 3600);
    v.push(':');
    let m = decimal2_exec((d % 3600) / 60);
    let mut i: usize = 0;
    let ghost v0 = v@;
    while i < m.len()
        invariant
            i <= m@.len(),
            v@ == v0 + m@.take(i as int),
        decreases m@.len() - i,
    {
        v.push(m[i]);
        i = i + 1;
        proof {
            assert(v0 + m@.take(i as int) =~= (v0 + m@.take(i as int - 1)).push(m@[i as int - 1]));
        }
    }
    v.push(':');
    let s = decimal2_exec(d % 60);
    let ghost v1 = v@;
    let mut j: usize = 0;
    while j < s.len()
        invariant
            j <= s@.len(),
            v@ == v1 + s@.take(j as int),
        decreases s@.len() - j,
    {
        v.push(s[j]);
        j = j + 1;
        proof {
            assert(v1 + s@.take(j as int) =~= (v1 + s@.take(j as int - 1)).push(s@[j as int - 1]));
        }
    }
    proof {
        assert(m@.take(m@.len() as int) =~= m@);
        assert(s@.take(s@.len() as int) =~= s@);
        assert(v@ =~= hms(d as nat));
    }
    string_from_chars(v.as_slice())
}

/// `start`, when the timer's generation counter has room for one more and
/// its deadline fits in an `i64`; otherwise nothing changes and `false`
/// is returned.
pub fn try_start(
    store: &mut ActiveEffectsContent,
    id: &str,
    label: &str,
    duration_secs: i64,
    color: Option<&str>,
    now_server: i64,
) -> (ok: bool)
    ensures
        ok == (old(store).generation < u64::MAX && now_server + clamp_duration(duration_secs as int)
            <= i64::MAX),
        ok ==> started(
            old(store).effects@,
            final(store).effects@,
            id@,
            label@,
            duration_secs as int,
            match color {
                Some(c) => Some(c@),
                None => None,
            },
            now_server as int,
        ) && final(store).category == old(store).category && final(store).generation == old(
            store,
        ).generation + 1,
        !ok ==> *final(store) == *old(store),
{
    let duration: i64 = if duration_secs < 0 {
        0
    } else {
        duration_secs
    };
    if store.generation == u64::MAX || now_server > i64::MAX - duration {
        return false;
    }
    start(store, id, label, duration_secs, color, now_server);
    true
}

/// Start (or restart) a timer. Restarting an existing id resets it rather
/// than stacking a second bar. `duration_secs` is in whole seconds; a
/// negative duration counts as zero.
pub fn start(
    store: &mut ActiveEffectsContent,
    id: &str,
    label: &str,
    duration_secs: i64,
    color: Option<&str>,
    now_server: i64,
)
    requires
        old(store).generation < u64::MAX,
        now_server + clamp_duration(duration_secs as int) <= i64::MAX,
    ensures
        started(
            old(store).effects@,
            final(store).effects@,
            id@,
            label@,
            duration_secs as int,
            match color {
                Some(c) => Some(c@),
                None => None,
            },
            now_server as int,
        ),
        final(store).category == old(store).category,
        final(store).generation == old(store).generation + 1,
{
    let duration: i64 = if duration_secs < 0 {
        0
    } else {
        duration_secs
    };
    let expires_at: i64 = now_server + duration;
    let time = hms_exec(duration as u64);
    let ghost c = match color {
        Some(c) => Some(c@),
        None => None::<Seq<char>>,
    };
    proof {
        lemma_first_with_id(store.effects@, id@);
    }
    match find_timer(&store.effects, id) {
        Some(i) => {
            let existing = &store.effects[i];
            let restarted = ActiveEffect {
                id: existing.id.clone(),
                text: owned(label),
                value: 100,
                time,
                expires_at: Some(expires_at),
                bar_color: opt_owned(color),
                text_color: dup_opt(&existing.text_color),
            };
            store.effects.set(i, restarted);
        },
        None => {
            store.effects.push(
                ActiveEffect {
                    id: owned(id),
                    text: owned(label),
                    value: 100,
                    time,
                    expires_at: Some(expires_at),
                    bar_color: opt_owned(color),
                    text_color: None,
                },
            );
        },
    }
    store.generation = store.generation + 1;
}

fn named_by_exec(ids: &[String], e: &ActiveEffect) -> (r: bool)
    ensures
        r == named_by(ids@, *e),
{
    let eid = chars_of(e.id.as_str());
    let mut k: usize = 0;
    while k < ids.len()
        invariant
            k <= ids@.len(),
            eid@ == e.id@,
            forall|j: int| 0 <= j < k ==> !eq_ignore_ascii_case((#[trigger] ids@[j])@, e.id@),
        decreases ids@.len() - k,
    {
        if eq_ignore_ascii_case_exec(&chars_of(ids[k].as_str()), &eid) {
            return true;
        }
        k = k + 1;
    }
    false
}

/// Cancel timers by id, ignoring ASCII case. Returns whether anything was
/// removed, so the caller can skip a needless window sync.
pub fn cancel(store: &mut ActiveEffectsContent, ids: &[String]) -> (removed: bool)
    requires
        old(store).generation < u64::MAX,
    ensures
        final(store).effects@ == cancel_spec(old(store).effects@, ids@),
        removed == (final(store).effects@.len() != old(store).effects@.len()),
        final(store).generation == if removed {
            old(store).generation + 1
        } else {
            old(store).generation as int
        },
        final(store).category == old(store).category,
{
    if ids.len() == 0 {
        proof {
            assert(cancel_spec(old(store).effects@, ids@) =~= old(store).effects@) by {
                lemma_filter_all(old(store).effects@, |e: ActiveEffect| !named_by(ids@, e));
            }
        }
        return false;
    }
    let mut kept: Vec<ActiveEffect> = Vec::new();
    let mut old_effects: Vec<ActiveEffect> = Vec::new();
    std::mem::swap(&mut old_effects, &mut store.effects);
    let ghost pred = |e: ActiveEffect| !named_by(ids@, e);
    let mut i: usize = 0;
    while i < old_effects.len()
        invariant
            i <= old_effects@.len(),
            old_effects@ == old(store).effects@,
            kept@ == old_effects@.take(i as int).filter(pred),
            pred == (|e: ActiveEffect| !named_by(ids@, e)),
        decreases old_effects@.len() - i,
    {
        let keep = !named_by_exec(ids, &old_effects[i]);
        if keep {
            kept.push(old_effects[i].duplicate());
        }
        proof {
            reveal(Seq::filter);
            assert(old_effects@.take(i as int + 1).drop_last() =~= old_effects@.take(i as int));
            assert(old_effects@.take(i as int + 1).last() == old_effects@[i as int]);
        }
        i = i + 1;
    }
    proof {
        assert(old_effects@.take(i as int) =~= old_effects@);
    }
    let removed = kept.len() != old_effects.len();
    store.effects = kept;
    if removed {
        store.generation = store.generation + 1;
    }
    removed
}

/// Drop timers whose deadline has passed (or is unknown). Returns whether
/// anything expired.
pub fn reap(store: &mut ActiveEffectsContent, now_server: i64) -> (expired: bool)
    requires
        old(store).generation < u64::MAX,
    ensures
        final(store).effects@ == reap_spec(old(store).effects@, now_server),
        expired == (final(store).effects@.len() != old(store).effects@.len()),
        final(store).generation == if expired {
            old(store).generation + 1
        } else {
            old(store).generation as int
        },
        final(store).category == old(store).category,
{
    let mut kept: Vec<ActiveEffect> = Vec::new();
    let mut old_effects: Vec<ActiveEffect> = Vec::new();
    std::mem::swap(&mut old_effects, &mut store.effects);
    let ghost pred = |e: ActiveEffect| still_running(e, now_server);
    let mut i: usize = 0;
    while i < old_effects.len()
        invariant
            i <= old_effects@.len(),
            old_effects@ == old(store).effects@,
            kept@ == old_effects@.take(i as int).filter(pred),
            pred == (|e: ActiveEffect| still_running(e, now_server)),
        decreases old_effects@.len() - i,
    {
        let running = match old_effects[i].expires_at {
            Some(at) => at > now_server,
            None => false,
        };
        if running {
            kept.push(old_effects[i].duplicate());
        }
        proof {
            reveal(Seq::filter);
            assert(old_effects@.take(i as int + 1).drop_last() =~= old_effects@.take(i as int));
            assert(old_effects@.take(i as int + 1).last() == old_effects@[i as int]);
        }
        i = i + 1;
    }
    proof {
        assert(old_effects@.take(i as int) =~= old_effects@);
    }
    let expired = kept.len() != old_effects.len();
    store.effects = kept;
    if expired {
        store.generation = store.generation + 1;
    }
    expired
}

proof fn lemma_filter_all(s: Seq<ActiveEffect>, p: spec_fn(ActiveEffect) -> bool)
    requires
        forall|j: int| 0 <= j < s.len() ==> p(#[trigger] s[j]),
    ensures
        s.filter(p) == s,
    decreases s.len(),
{
    reveal(Seq::filter);
    if s.len() > 0 {
        lemma_filter_all(s.drop_last(), p);
        assert(s.drop_last().push(s.last()) =~= s);
    }
}

/// No two effects share an id.
pub open spec fn ids_unique(s: Seq<ActiveEffect>) -> bool {
    forall|i: int, j: int|
        0 <= i < s.len() && 0 <= j < s.len() && i != j ==> (#[trigger] s[i]).id@ != (
        #[trigger] s[j]).id@
}

/// Restarting an id resets its bar instead of stacking a duplicate: a
/// store without repeated ids keeps none, and holds the started id.
pub proof fn restarting_never_stacks(
    old: Seq<ActiveEffect>,
    new: Seq<ActiveEffect>,
    id: Seq<char>,
    label: Seq<char>,
    duration: int,
    color: Option<Seq<char>>,
    now: int,
)
    requires
        started(old, new, id, label, duration, color, now),
        ids_unique(old),
    ensures
        ids_unique(new),
        exists|i: int| 0 <= i < new.len() && (#[trigger] new[i]).id@ == id,
{
    lemma_first_with_id(old, id);
    match first_with_id(old, id) {
        Some(i) => {
            assert(new[i].id@ == id);
            assert forall|a: int, b: int|
                0 <= a < new.len() && 0 <= b < new.len() && a != b implies (#[trigger] new[a]).id@
                != (#[trigger] new[b]).id@ by {
                assert(new[a].id@ == old[a].id@);
                assert(new[b].id@ == old[b].id@);
            }
        },
        None => {
            let n = old.len() as int;
            assert(new[n].id@ == id);
            assert forall|a: int, b: int|
                0 <= a < new.len() && 0 <= b < new.len() && a != b implies (#[trigger] new[a]).id@
                != (#[trigger] new[b]).id@ by {
                if a < n && b < n {
                    assert(new[a] == old[a] && new[b] == old[b]);
                } else if a < n {
                    assert(new[a] == old[a]);
                } else {
                    assert(new[b] == old[b]);
                }
            }
        },
    }
}

/// After a reap only running timers remain, so reaping again at the same
/// moment changes nothing.
pub proof fn reaping_leaves_only_running_timers(s: Seq<ActiveEffect>, now: i64)
    ensures
        forall|k: int|
            0 <= k < reap_spec(s, now).len() ==> still_running(#[trigger] reap_spec(s, now)[k], now),
        reap_spec(reap_spec(s, now), now) == reap_spec(s, now),
{
    broadcast use vstd::seq_lib::group_filter_ensures;
    let r = reap_spec(s, now);
    assert forall|k: int| 0 <= k < r.len() implies still_running(#[trigger] r[k], now) by {
        s.lemma_filter_pred(|e: ActiveEffect| still_running(e, now), k);
    }
    lemma_filter_all(r, |e: ActiveEffect| still_running(e, now));
}

/// Cancelling removes exactly the timers named (ignoring ASCII case): no
/// named timer is left, and every unnamed one is kept.
pub proof fn cancel_removes_exactly_the_named(s: Seq<ActiveEffect>, ids: Seq<String>)
    ensures
        forall|k: int|
            0 <= k < cancel_spec(s, ids).len() ==> !named_by(ids, #[trigger] cancel_spec(s, ids)[k]),
        forall|j: int|
            0 <= j < s.len() && !named_by(ids, s[j]) ==> #[trigger] cancel_spec(s, ids).contains(
                s[j],
            ),
{
    broadcast use vstd::seq_lib::group_filter_ensures;
    let p = |e: ActiveEffect| !named_by(ids, e);
    let r = cancel_spec(s, ids);
    assert forall|k: int| 0 <= k < r.len() implies !named_by(ids, #[trigger] r[k]) by {
        s.lemma_filter_pred(p, k);
    }
    assert forall|j: int| 0 <= j < s.len() && !named_by(ids, s[j]) implies #[trigger] r.contains(
        s[j],
    ) by {
        s.lemma_filter_contains(p, j);
    }
}

/// A started timer is gone after a reap at or past its deadline, so a
/// zero-length timer never sticks.
pub proof fn a_timer_is_reaped_at_its_deadline(
    old: Seq<ActiveEffect>,
    new: Seq<ActiveEffect>,
    id: Seq<char>,
    label: Seq<char>,
    duration: int,
    color: Option<Seq<char>>,
    now: int,
    at: i64,
)
    requires
        started(old, new, id, label, duration, color, now),
        ids_unique(old),
        i64::MIN <= now,
        now + clamp_duration(duration) <= i64::MAX,
        at >= now + clamp_duration(duration),
    ensures
        forall|k: int| 0 <= k < reap_spec(new, at).len() ==> (#[trigger] reap_spec(new, at)[k]).id@
            != id,
{
    broadcast use vstd::seq_lib::group_filter_ensures;
    restarting_never_stacks(old, new, id, label, duration, color, now);
    lemma_first_with_id(old, id);
    let started_at: int = match first_with_id(old, id) {
        Some(i) => i,
        None => old.len() as int,
    };
    assert(new[started_at].id@ == id);
    assert(!still_running(new[started_at], at));
    let p = |e: ActiveEffect| still_running(e, at);
    let r = reap_spec(new, at);
    assert forall|k: int| 0 <= k < r.len() implies (#[trigger] r[k]).id@ != id by {
        new.lemma_filter_pred(p, k);
        assert(r.contains(r[k]));
        new.lemma_filter_contains_rev(p, r[k]);
        let m = choose|m: int| 0 <= m < new.len() && new[m] == r[k];
        if r[k].id@ == id {
            assert(m == started_at);
        }
    }
}

} // verus!
