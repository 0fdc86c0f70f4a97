//! The live set of on-screen alerts and the discipline that keeps them from
//! becoming noise: a master switch, per-rule cooldowns, and a hard cap on
//! how many alerts show at once (the oldest gives way to the newest).
//!
//! Times are milliseconds on a monotonic clock that the caller reads; a
//! time before a recorded one counts as no time elapsed.

use vstd::prelude::*;
use crate::config::colors::opt_view;
use crate::config::highlights::AlertSpec;
use crate::named::{dup_opt, has_key, NamedMap};
use crate::seqs::lemma_filter_step;

verus! {

/// Most alerts on screen at once.
pub const MAX_CONCURRENT: usize = 5;

/// Cooldown of a rule that names none, in milliseconds.
pub const DEFAULT_COOLDOWN_MS: u64 = 3000;

/// Time on screen of an alert that names none, in milliseconds.
pub const DEFAULT_DURATION_MS: u64 = 4000;

/// Shortest time on screen, in milliseconds.
pub const MIN_DURATION_MS: u64 = 100;

/// Past this many cooldown records, old ones are dropped.
pub const COOLDOWN_RECORDS_KEPT: usize = 64;

/// Age past which a cooldown record is dropped, in milliseconds.
pub const COOLDOWN_RECORD_MAX_AGE_MS: u64 = 300000;

/// A rule's request to raise an alert.
pub struct AlertTrigger {
    /// Cooldown identity of the rule.
    pub key: String,
    /// Banner text with the match's captures filled in.
    pub banner: Option<String>,
    pub spec: AlertSpec,
}

/// One alert on screen.
#[derive(Debug)]
pub struct ActiveAlert {
    /// Cooldown identity of the rule that raised it.
    pub key: String,
    pub banner: Option<String>,
    pub banner_fg: Option<String>,
    pub banner_bg: Option<String>,
    /// Image played once.
    pub art: Option<String>,
    /// Tint of the viewport edge.
    pub flash: Option<String>,
    /// When it appeared.
    pub spawned_ms: u64,
    /// Time on screen before it is dismissed.
    pub duration_ms: u64,
    pub priority: i32,
}

/// An alert with its strings taken by their views.
pub struct AlertView {
    pub key: Seq<char>,
    pub banner: Option<Seq<char>>,
    pub banner_fg: Option<Seq<char>>,
    pub banner_bg: Option<Seq<char>>,
    pub art: Option<Seq<char>>,
    pub flash: Option<Seq<char>>,
    pub spawned_ms: u64,
    pub duration_ms: u64,
    pub priority: i32,
}

impl View for ActiveAlert {
    type V = AlertView;

    open spec fn view(&self) -> AlertView {
        AlertView {
            key: self.key@,
            banner: opt_view(self.banner),
            banner_fg: opt_view(self.banner_fg),
            banner_bg: opt_view(self.banner_bg),
            art: opt_view(self.art),
            flash: opt_view(self.flash),
            spawned_ms: self.spawned_ms,
            duration_ms: self.duration_ms,
            priority: self.priority,
        }
    }
}

impl ActiveAlert {
    /// A copy with the same view.
    pub fn duplicate(&self) -> (r: ActiveAlert)
        ensures
            r@ == self@,
    {
        ActiveAlert {
            key: self.key.clone(),
            banner: dup_opt(&self.banner),
            banner_fg: dup_opt(&self.banner_fg),
            banner_bg: dup_opt(&self.banner_bg),
            art: dup_opt(&self.art),
            flash: dup_opt(&self.flash),
            spawned_ms: self.spawned_ms,
            duration_ms: self.duration_ms,
            priority: self.priority,
        }
    }
}

/// The alerts on screen, the cooldown records and the master switch.
pub struct AlertState {
    /// On screen, oldest first.
    active: Vec<ActiveAlert>,
    /// Last time each rule fired.
    last_fired: NamedMap<u64>,
    enabled: bool,
}

/// An alert state with its alerts taken by their views.
pub struct AlertStateView {
    pub active: Seq<AlertView>,
    pub last_fired: Map<Seq<char>, u64>,
    pub enabled: bool,
}

impl View for AlertState {
    type V = AlertStateView;

    closed spec fn view(&self) -> AlertStateView {
        AlertStateView {
            active: self.active@.map_values(|a: ActiveAlert| a@),
            last_fired: self.last_fired@,
            enabled: self.enabled,
        }
    }
}

/// Time from `since` to `now`; none when `now` is earlier.
pub open spec fn elapsed(now: u64, since: u64) -> u64 {
    if now >= since {
        (now - since) as u64
    } else {
        0
    }
}

/// An alert shows something: a banner, art or a flash.
pub open spec fn shows_something(s: AlertSpec) -> bool {
    s.banner is Some || s.art is Some || s.flash is Some
}

pub open spec fn cooldown_of(s: AlertSpec) -> u64 {
    match s.cooldown_ms {
        Some(c) => c,
        None => DEFAULT_COOLDOWN_MS,
    }
}

pub open spec fn duration_of(s: AlertSpec) -> u64 {
    let d = match s.duration_ms {
        Some(d) => d,
        None => DEFAULT_DURATION_MS,
    };
    if d < MIN_DURATION_MS {
        MIN_DURATION_MS
    } else {
        d
    }
}

/// The rule `key` fired less than `cooldown` ago.
pub open spec fn cooling_down(last: Map<Seq<char>, u64>, key: Seq<char>, now: u64, cooldown: u64) -> bool {
    last.dom().contains(key) && elapsed(now, last[key]) < cooldown
}

/// Whether a trigger is raised: alerts are on, it shows something, and its
/// rule is not cooling down.
pub open spec fn admits(s: AlertStateView, key: Seq<char>, spec: AlertSpec, now: u64) -> bool {
    s.enabled && shows_something(spec) && !cooling_down(s.last_fired, key, now, cooldown_of(spec))
}

/// The newest `MAX_CONCURRENT` alerts.
pub open spec fn capped(a: Seq<AlertView>) -> Seq<AlertView> {
    if a.len() > MAX_CONCURRENT {
        a.skip(a.len() - MAX_CONCURRENT)
    } else {
        a
    }
}

/// The alert a raised trigger puts on screen.
pub open spec fn raised(key: Seq<char>, banner: Option<Seq<char>>, spec: AlertSpec, now: u64) -> AlertView {
    AlertView {
        key,
        banner,
        banner_fg: opt_view(spec.banner_fg),
        banner_bg: opt_view(spec.banner_bg),
        art: opt_view(spec.art),
        flash: opt_view(spec.flash),
        spawned_ms: now,
        duration_ms: duration_of(spec),
        priority: match spec.priority {
            Some(p) => p,
            None => 0,
        },
    }
}

/// The state after a trigger is raised.
pub open spec fn after_raise(s: AlertStateView, key: Seq<char>, banner: Option<Seq<char>>, spec: AlertSpec, now: u64) -> AlertStateView {
    AlertStateView {
        active: capped(s.active.push(raised(key, banner, spec, now))),
        last_fired: s.last_fired.insert(key, now),
        enabled: s.enabled,
    }
}

/// Still on screen at `now`.
pub open spec fn still_shown(now: u64) -> spec_fn(AlertView) -> bool {
    |a: AlertView| elapsed(now, a.spawned_ms) < a.duration_ms
}

/// The cooldown records a tick keeps: all of them while there are few,
/// else those younger than the maximum age.
pub open spec fn kept_records(last: Map<Seq<char>, u64>, now: u64) -> Map<Seq<char>, u64> {
    if last.dom().len() > COOLDOWN_RECORDS_KEPT {
        Map::new(
            |k: Seq<char>| last.dom().contains(k) && elapsed(now, last[k]) < COOLDOWN_RECORD_MAX_AGE_MS,
            |k: Seq<char>| last[k],
        )
    } else {
        last
    }
}

fn elapsed_exec(now: u64, since: u64) -> (r: u64)
    ensures
        r == elapsed(now, since),
{
    if now >= since {
        now - since
    } else {
        0
    }
}

impl AlertState {
    #[verifier::type_invariant]
    closed spec fn at_most_cap(self) -> bool {
        self.active@.len() <= MAX_CONCURRENT
    }

    /// No alerts, no cooldown records, alerts on.
    pub fn new() -> (r: Self)
        ensures
            r@.active.len() == 0,
            r@.last_fired == Map::<Seq<char>, u64>::empty(),
            r@.enabled,
    {
        let r = AlertState { active: Vec::new(), last_fired: NamedMap::new(), enabled: true };
        assert(r@.active =~= Seq::<AlertView>::empty());
        r
    }

    /// Turns alerts on or off; turning them off clears the screen.
    pub fn set_enabled(&mut self, enabled: bool)
        ensures
            final(self)@.enabled == enabled,
            final(self)@.last_fired == old(self)@.last_fired,
            final(self)@.active == (if enabled {
                old(self)@.active
            } else {
                Seq::<AlertView>::empty()
            }),
    {
        proof {
            use_type_invariant(&*self);
        }
        self.enabled = enabled;
        if !enabled {
            self.active = Vec::new();
            assert(self@.active =~= Seq::<AlertView>::empty());
        }
    }

    pub fn is_enabled(&self) -> (r: bool)
        ensures
            r == self@.enabled,
    {
        self.enabled
    }

    /// The alerts on screen, oldest first; never more than the cap.
    pub fn active(&self) -> (r: &[ActiveAlert])
        ensures
            r@.map_values(|a: ActiveAlert| a@) == self@.active,
            r@.len() <= MAX_CONCURRENT,
    {
        proof {
            use_type_invariant(self);
        }
        self.active.as_slice()
    }

    pub fn is_empty(&self) -> (r: bool)
        ensures
            r == (self@.active.len() == 0),
    {
        self.active.len() == 0
    }

    /// Raises a trigger when alerts are on, it shows something, and its
    /// rule is not cooling down; the rule's cooldown then starts over, and
    /// over the cap the oldest alert gives way. Returns whether it was
    /// raised.
    pub fn fire(&mut self, trigger: AlertTrigger, now_ms: u64) -> (r: bool)
        ensures
            r == admits(old(self)@, trigger.key@, trigger.spec, now_ms),
            r ==> final(self)@ == after_raise(
                old(self)@,
                trigger.key@,
                opt_view(trigger.banner),
                trigger.spec,
                now_ms,
            ),
            !r ==> final(self)@ == old(self)@,
    {
        proof {
            use_type_invariant(&*self);
        }
        if !self.enabled {
            return false;
        }
        let spec = &trigger.spec;
        if spec.banner.is_none() && spec.art.is_none() && spec.flash.is_none() {
            return false;
        }
        let cooldown = match spec.cooldown_ms {
            Some(c) => c,
            None => DEFAULT_COOLDOWN_MS,
        };
        match self.last_fired.get(trigger.key.as_str()) {
            Some(last) => {
                if elapsed_exec(now_ms, *last) < cooldown {
                    return false;
                }
            },
            None => {},
        }
        let ghost before = self@;
        let mut records: NamedMap<u64> = NamedMap::new();
        std::mem::swap(&mut records, &mut self.last_fired);
        records.insert(trigger.key.clone(), now_ms);
        self.last_fired = records;
        let d = match spec.duration_ms {
            Some(d) => d,
            None => DEFAULT_DURATION_MS,
        };
        let duration = if d < MIN_DURATION_MS {
            MIN_DURATION_MS
        } else {
            d
        };
        let alert = ActiveAlert {
            key: trigger.key,
            banner: trigger.banner,
            banner_fg: dup_opt(&trigger.spec.banner_fg),
            banner_bg: dup_opt(&trigger.spec.banner_bg),
            art: dup_opt(&trigger.spec.art),
            flash: dup_opt(&trigger.spec.flash),
            spawned_ms: now_ms,
            duration_ms: duration,
            priority: match trigger.spec.priority {
                Some(p) => p,
                None => 0,
            },
        };
        let ghost new_view = alert@;
        let mut active: Vec<ActiveAlert> = Vec::new();
        std::mem::swap(&mut active, &mut self.active);
        let ghost pushed = active@.map_values(|a: ActiveAlert| a@).push(new_view);
        active.push(alert);
        assert(active@.map_values(|a: ActiveAlert| a@) =~= pushed);
        if active.len() > MAX_CONCURRENT {
            active.remove(0);
            assert(active@.map_values(|a: ActiveAlert| a@) =~= pushed.skip(1));
        }
        self.active = active;
        proof {
            assert(self@.active =~= capped(before.active.push(new_view)));
        }
        true
    }

    /// Dismisses the alerts whose time on screen is over, and, past
    /// `COOLDOWN_RECORDS_KEPT` records, drops the cooldown records older
    /// than `COOLDOWN_RECORD_MAX_AGE_MS`.
    pub fn tick(&mut self, now_ms: u64)
        ensures
            final(self)@.active == old(self)@.active.filter(still_shown(now_ms)),
            final(self)@.last_fired == kept_records(old(self)@.last_fired, now_ms),
            final(self)@.enabled == old(self)@.enabled,
    {
        proof {
            use_type_invariant(&*self);
        }
        let ghost old_active = self@.active;
        let ghost p = still_shown(now_ms);
        let mut kept: Vec<ActiveAlert> = Vec::new();
        let mut i: usize = 0;
        while i < self.active.len()
            invariant
                i <= self.active@.len(),
                self.active@.len() <= MAX_CONCURRENT,
                old_active == self.active@.map_values(|a: ActiveAlert| a@),
                p == still_shown(now_ms),
                kept@.map_values(|a: ActiveAlert| a@) == old_active.take(i as int).filter(p),
                kept@.len() <= i,
            decreases self.active@.len() - i,
        {
            proof {
                lemma_filter_step(old_active, p, i as int);
            }
            let a = &self.active[i];
            if elapsed_exec(now_ms, a.spawned_ms) < a.duration_ms {
                let c = a.duplicate();
                let ghost before = kept@.map_values(|x: ActiveAlert| x@);
                kept.push(c);
                assert(kept@.map_values(|x: ActiveAlert| x@) =~= before.push(old_active[i as int]));
            }
            i = i + 1;
        }
        proof {
            assert(old_active.take(i as int) =~= old_active);
        }
        self.active = kept;
        if self.last_fired.len() > COOLDOWN_RECORDS_KEPT {
            let young = young_records(&self.last_fired, now_ms);
            self.last_fired = young;
        }
    }

    /// Clears the screen; cooldowns are kept.
    pub fn clear(&mut self)
        ensures
            final(self)@.active.len() == 0,
            final(self)@.last_fired == old(self)@.last_fired,
            final(self)@.enabled == old(self)@.enabled,
    {
        self.active = Vec::new();
    }
}

/// The records younger than the maximum age.
fn young_records(last: &NamedMap<u64>, now_ms: u64) -> (r: NamedMap<u64>)
    ensures
        r@ == Map::new(
            |k: Seq<char>| last@.dom().contains(k) && elapsed(now_ms, last@[k]) < COOLDOWN_RECORD_MAX_AGE_MS,
            |k: Seq<char>| last@[k],
        ),
{
    let entries = last.entries();
    let mut out: NamedMap<u64> = NamedMap::new();
    let mut i: usize = 0;
    while i < entries.len()
        invariant
            i <= entries@.len(),
            forall|j: int|
                0 <= j < entries@.len() ==> last@.dom().contains((#[trigger] entries@[j]).0@)
                    && last@[entries@[j].0@] == entries@[j].1,
            forall|k: Seq<char>| last@.dom().contains(k) ==> has_key(entries@, k),
            forall|k: Seq<char>|
                #![trigger out@.dom().contains(k)]
                out@.dom().contains(k) <==> (exists|j: int|
                    0 <= j < i && (#[trigger] entries@[j]).0@ == k && elapsed(now_ms, entries@[j].1)
                        < COOLDOWN_RECORD_MAX_AGE_MS),
            forall|k: Seq<char>| out@.dom().contains(k) ==> out@[k] == last@[k],
        decreases entries@.len() - i,
    {
        let (k, v) = (&entries[i].0, entries[i].1);
        if elapsed_exec(now_ms, v) < COOLDOWN_RECORD_MAX_AGE_MS {
            out.insert(k.clone(), v);
        }
        proof {
            assert forall|key: Seq<char>|
                #![trigger out@.dom().contains(key)]
                out@.dom().contains(key) <==> (exists|j: int|
                    0 <= j < i + 1 && (#[trigger] entries@[j]).0@ == key && elapsed(now_ms, entries@[j].1)
                        < COOLDOWN_RECORD_MAX_AGE_MS) by {
                if out@.dom().contains(key) && key != entries@[i as int].0@ {
                    let j = choose|j: int|
                        0 <= j < i && (#[trigger] entries@[j]).0@ == key && elapsed(now_ms, entries@[j].1)
                            < COOLDOWN_RECORD_MAX_AGE_MS;
                    assert(0 <= j < i + 1);
                }
            }
        }
        i = i + 1;
    }
    let ghost target = Map::new(
        |k: Seq<char>| last@.dom().contains(k) && elapsed(now_ms, last@[k]) < COOLDOWN_RECORD_MAX_AGE_MS,
        |k: Seq<char>| last@[k],
    );
    proof {
        assert forall|k: Seq<char>| #[trigger] out@.dom().contains(k) <==> target.dom().contains(k) by {
            if target.dom().contains(k) {
                assert(has_key(entries@, k));
                let j = choose|j: int| 0 <= j < entries@.len() && (#[trigger] entries@[j]).0@ == k;
                assert(entries@[j].1 == last@[k]);
            }
        }
        assert(out@ =~= target);
    }
    out
}

/// A rule that fired does not fire again within its cooldown.
pub proof fn a_rule_does_not_refire_within_its_cooldown(
    s: AlertStateView,
    key: Seq<char>,
    banner: Option<Seq<char>>,
    first: AlertSpec,
    second: AlertSpec,
    t1: u64,
    t2: u64,
)
    requires
        admits(s, key, first, t1),
        elapsed(t2, t1) < cooldown_of(second),
    ensures
        !admits(after_raise(s, key, banner, first, t1), key, second, t2),
{
}

/// Distinct rules do not share a cooldown: raising one leaves whether
/// another is cooling down as it was.
pub proof fn rules_cool_down_separately(
    s: AlertStateView,
    key: Seq<char>,
    other: Seq<char>,
    banner: Option<Seq<char>>,
    spec: AlertSpec,
    t1: u64,
    t2: u64,
    cooldown: u64,
)
    requires
        key != other,
    ensures
        cooling_down(after_raise(s, key, banner, spec, t1).last_fired, other, t2, cooldown)
            == cooling_down(s.last_fired, other, t2, cooldown),
{
}

/// Never more than `MAX_CONCURRENT` alerts show, and a raised alert is
/// always among them: the newest one.
pub proof fn the_newest_alert_survives_the_cap(
    s: AlertStateView,
    key: Seq<char>,
    banner: Option<Seq<char>>,
    spec: AlertSpec,
    now: u64,
)
    requires
        s.active.len() <= MAX_CONCURRENT,
    ensures
        after_raise(s, key, banner, spec, now).active.len() <= MAX_CONCURRENT,
        after_raise(s, key, banner, spec, now).active.last() == raised(key, banner, spec, now),
{
}

/// With alerts off nothing is raised.
pub proof fn nothing_is_raised_while_alerts_are_off(s: AlertStateView, key: Seq<char>, spec: AlertSpec, now: u64)
    requires
        !s.enabled,
    ensures
        !admits(s, key, spec, now),
{
}

} // verus!
