//! Custom statuses raised by highlight rules: a matched rule sets or clears
//! a status, optionally for a limited time, and statuses whose time ran out
//! are cleared on the next tick.
//!
//! Statuses are told apart ignoring ASCII case; deadlines are kept under
//! the upper-case id. Turning the indicators on screen on and off is the
//! caller's: each step here returns the changes to make, in order.
//! Times are milliseconds on a monotonic clock that the caller reads.

use vstd::prelude::*;
use crate::named::{has_key, keys_unique, NamedMap};
use crate::text::{ascii_upper_str, to_ascii_uppercase};

verus! {

/// A status change queued by a matched rule.
pub struct StatusAction {
    /// Turn a status on, for a time in milliseconds when one is given and
    /// not zero (else until cleared).
    pub set: Option<(String, Option<u64>)>,
    /// Turn a status off.
    pub clear: Option<String>,
}

/// A status action with its strings taken by their views.
pub struct ActionView {
    pub set: Option<(Seq<char>, Option<u64>)>,
    pub clear: Option<Seq<char>>,
}

impl View for StatusAction {
    type V = ActionView;

    open spec fn view(&self) -> ActionView {
        ActionView {
            set: match self.set {
                Some((id, d)) => Some((id@, d)),
                None => None,
            },
            clear: match self.clear {
                Some(id) => Some(id@),
                None => None,
            },
        }
    }
}

/// The deadlines of the statuses that clear themselves.
pub struct CustomStatusTimers {
    expiries: NamedMap<u64>,
}

impl View for CustomStatusTimers {
    type V = Map<Seq<char>, u64>;

    closed spec fn view(&self) -> Map<Seq<char>, u64> {
        self.expiries@
    }
}

/// The deadlines after one action.
pub open spec fn after_action(m: Map<Seq<char>, u64>, a: ActionView, now: u64) -> Map<Seq<char>, u64> {
    let m1 = match a.set {
        Some((id, Some(d))) => if d > 0 {
            m.insert(ascii_upper_str(id), (now + d) as u64)
        } else {
            m.remove(ascii_upper_str(id))
        },
        Some((id, None)) => m.remove(ascii_upper_str(id)),
        None => m,
    };
    match a.clear {
        Some(id) => m1.remove(ascii_upper_str(id)),
        None => m1,
    }
}

/// The status changes one action makes: the set first, then the clear.
pub open spec fn flips_of(a: ActionView) -> Seq<(Seq<char>, bool)> {
    (match a.set {
        Some((id, _)) => seq![(id, true)],
        None => Seq::empty(),
    }) + (match a.clear {
        Some(id) => seq![(id, false)],
        None => Seq::empty(),
    })
}

pub open spec fn after_actions(m: Map<Seq<char>, u64>, s: Seq<ActionView>, now: u64) -> Map<Seq<char>, u64>
    decreases s.len(),
{
    if s.len() == 0 {
        m
    } else {
        after_action(after_actions(m, s.drop_last(), now), s.last(), now)
    }
}

pub open spec fn flips_of_all(s: Seq<ActionView>) -> Seq<(Seq<char>, bool)>
    decreases s.len(),
{
    if s.len() == 0 {
        Seq::empty()
    } else {
        flips_of_all(s.drop_last()) + flips_of(s.last())
    }
}

/// The deadline of an action's timed set does not overflow the clock.
pub open spec fn deadline_fits(a: ActionView, now: u64) -> bool {
    match a.set {
        Some((_, Some(d))) => now + d <= u64::MAX,
        _ => true,
    }
}

/// Deadlines reached at `now` are gone.
pub open spec fn unexpired(m: Map<Seq<char>, u64>, now: u64) -> Map<Seq<char>, u64> {
    Map::new(|k: Seq<char>| m.dom().contains(k) && m[k] > now, |k: Seq<char>| m[k])
}

pub open spec fn views_of(v: Seq<(String, bool)>) -> Seq<(Seq<char>, bool)> {
    v.map_values(|f: (String, bool)| (f.0@, f.1))
}

impl CustomStatusTimers {
    pub fn new() -> (r: Self)
        ensures
            r@ == Map::<Seq<char>, u64>::empty(),
    {
        CustomStatusTimers { expiries: NamedMap::new() }
    }

    fn apply_one(&mut self, action: &StatusAction, now_ms: u64, flips: &mut Vec<(String, bool)>)
        requires
            deadline_fits(action@, now_ms),
        ensures
            final(self)@ == after_action(old(self)@, action@, now_ms),
            views_of(final(flips)@) == views_of(old(flips)@) + flips_of(action@),
    {
        let ghost f0 = views_of(flips@);
        match &action.set {
            Some((id, duration)) => {
                flips.push((id.clone(), true));
                let key = to_ascii_uppercase(id.as_str());
                match duration {
                    Some(d) if *d > 0 => {
                        self.expiries.insert(key, now_ms + *d);
                    },
                    _ => {
                        self.expiries.remove(key.as_str());
                    },
                }
            },
            None => {},
        }
        let ghost f1 = views_of(flips@);
        match &action.clear {
            Some(id) => {
                flips.push((id.clone(), false));
                let key = to_ascii_uppercase(id.as_str());
                self.expiries.remove(key.as_str());
            },
            None => {},
        }
        proof {
            assert(views_of(flips@) =~= f0 + flips_of(action@));
        }
    }

    /// Applies queued status actions in order; returns the status changes
    /// to make on screen, in order.
    pub fn apply_pending_status_actions(&mut self, actions: &Vec<StatusAction>, now_ms: u64) -> (r: Vec<
        (String, bool),
    >)
        requires
            forall|i: int| 0 <= i < actions@.len() ==> deadline_fits(#[trigger] actions@[i]@, now_ms),
        ensures
            final(self)@ == after_actions(old(self)@, actions@.map_values(|a: StatusAction| a@), now_ms),
            views_of(r@) == flips_of_all(actions@.map_values(|a: StatusAction| a@)),
    {
        let ghost av = actions@.map_values(|a: StatusAction| a@);
        let ghost m0 = self@;
        let mut flips: Vec<(String, bool)> = Vec::new();
        let mut i: usize = 0;
        proof {
            assert(av.take(0) =~= Seq::<ActionView>::empty());
            assert(views_of(flips@) =~= Seq::<(Seq<char>, bool)>::empty());
        }
        while i < actions.len()
            invariant
                i <= actions@.len(),
                av == actions@.map_values(|a: StatusAction| a@),
                forall|j: int| 0 <= j < actions@.len() ==> deadline_fits(#[trigger] actions@[j]@, now_ms),
                self@ == after_actions(m0, av.take(i as int), now_ms),
                views_of(flips@) == flips_of_all(av.take(i as int)),
            decreases actions@.len() - i,
        {
            proof {
                assert(av.take(i + 1).drop_last() =~= av.take(i as int));
                assert(av.take(i + 1).last() == actions@[i as int]@);
            }
            self.apply_one(&actions[i], now_ms, &mut flips);
            i = i + 1;
        }
        proof {
            assert(av.take(i as int) =~= av);
        }
        flips
    }

    /// Removes the deadlines reached at `now_ms` and returns their
    /// (upper-case) ids, each once: the statuses to turn off.
    pub fn tick_custom_statuses(&mut self, now_ms: u64) -> (r: Vec<String>)
        ensures
            final(self)@ == unexpired(old(self)@, now_ms),
            forall|i: int, j: int| 0 <= i < j < r@.len() ==> r@[i]@ != r@[j]@,
            forall|k: Seq<char>|
                #[trigger] listed_in(r@, k) <==> (old(self)@.dom().contains(k) && old(self)@[k] <= now_ms),
    {
        let ghost m0 = self@;
        let mut expired: Vec<String> = Vec::new();
        {
            let entries = self.expiries.entries();
            let mut i: usize = 0;
            while i < entries.len()
                invariant
                    i <= entries@.len(),
                    keys_unique(entries@),
                    forall|j: int|
                        0 <= j < entries@.len() ==> m0.dom().contains((#[trigger] entries@[j]).0@) && m0[entries@[j].0@]
                            == entries@[j].1,
                    forall|k: Seq<char>| m0.dom().contains(k) ==> has_key(entries@, k),
                    forall|a: int, b: int| 0 <= a < b < expired@.len() ==> expired@[a]@ != expired@[b]@,
                    forall|k: Seq<char>|
                        #[trigger] listed_in(expired@, k) <==> expired_among(entries@, i as int, k, now_ms),
                decreases entries@.len() - i,
            {
                let ghost before = expired@;
                if entries[i].1 <= now_ms {
                    expired.push(entries[i].0.clone());
                    proof {
                        assert forall|a: int, b: int| 0 <= a < b < expired@.len() implies expired@[a]@ != expired@[b]@ by {
                            if b == expired@.len() - 1 {
                                let k = expired@[a]@;
                                assert(before[a] == expired@[a]);
                                assert(listed_in(before, k));
                                let j = choose|j: int|
                                    0 <= j < i && (#[trigger] entries@[j]).0@ == k && entries@[j].1 <= now_ms;
                                assert(j != i);
                            }
                        }
                    }
                }
                proof {
                    assert forall|k: Seq<char>|
                        #[trigger] listed_in(expired@, k) <==> expired_among(entries@, i + 1, k, now_ms) by {
                        if listed_in(expired@, k) {
                            let x = choose|x: int| 0 <= x < expired@.len() && (#[trigger] expired@[x])@ == k;
                            if x < before.len() {
                                assert(before[x] == expired@[x]);
                                assert(listed_in(before, k));
                                let j = choose|j: int|
                                    0 <= j < i && (#[trigger] entries@[j]).0@ == k && entries@[j].1 <= now_ms;
                                assert(0 <= j < i + 1);
                            } else {
                                assert(entries@[i as int].0@ == k);
                            }
                        }
                        if expired_among(entries@, i + 1, k, now_ms) {
                            let j = choose|j: int|
                                0 <= j < i + 1 && (#[trigger] entries@[j]).0@ == k && entries@[j].1 <= now_ms;
                            if j < i {
                                assert(expired_among(entries@, i as int, k, now_ms));
                                assert(listed_in(before, k));
                                let x = choose|x: int| 0 <= x < before.len() && (#[trigger] before[x])@ == k;
                                assert(expired@[x] == before[x]);
                            } else {
                                assert(expired@[expired@.len() - 1]@ == k);
                            }
                        }
                    }
                }
                i = i + 1;
            }
            proof {
                assert forall|k: Seq<char>|
                    #[trigger] listed_in(expired@, k) <==> (m0.dom().contains(k) && m0[k] <= now_ms) by {
                    if m0.dom().contains(k) && m0[k] <= now_ms {
                        assert(has_key(entries@, k));
                        let j = choose|j: int| 0 <= j < entries@.len() && (#[trigger] entries@[j]).0@ == k;
                        assert(entries@[j].1 == m0[k]);
                    }
                }
            }
        }
        let mut x: usize = 0;
        while x < expired.len()
            invariant
                x <= expired@.len(),
                self@ == Map::new(
                    |k: Seq<char>| m0.dom().contains(k) && !listed_in(expired@.take(x as int), k),
                    |k: Seq<char>| m0[k],
                ),
                forall|k: Seq<char>|
                    #[trigger] listed_in(expired@, k) <==> (m0.dom().contains(k) && m0[k] <= now_ms),
            decreases expired@.len() - x,
        {
            self.expiries.remove(expired[x].as_str());
            proof {
                let t0 = expired@.take(x as int);
                let t1 = expired@.take(x + 1);
                let target = Map::new(
                    |k: Seq<char>| m0.dom().contains(k) && !listed_in(t1, k),
                    |k: Seq<char>| m0[k],
                );
                assert forall|k: Seq<char>| #[trigger] self@.dom().contains(k) <==> target.dom().contains(k) by {
                    if listed_in(t1, k) && k != expired@[x as int]@ {
                        let y = choose|y: int| 0 <= y < t1.len() && (#[trigger] t1[y])@ == k;
                        assert(t0[y] == t1[y]);
                        assert(listed_in(t0, k));
                    }
                    if listed_in(t0, k) {
                        let y = choose|y: int| 0 <= y < t0.len() && (#[trigger] t0[y])@ == k;
                        assert(t1[y] == t0[y]);
                        assert(listed_in(t1, k));
                    }
                    if k == expired@[x as int]@ {
                        assert(t1[x as int] == expired@[x as int]);
                        assert(listed_in(t1, k));
                    }
                }
                assert(self@ =~= target);
            }
            x = x + 1;
        }
        proof {
            assert(expired@.take(x as int) =~= expired@);
            assert(self@ =~= unexpired(m0, now_ms));
        }
        expired
    }
}

/// `k` is one of the strings of `v`.
pub open spec fn listed_in(v: Seq<String>, k: Seq<char>) -> bool {
    exists|x: int| 0 <= x < v.len() && (#[trigger] v[x])@ == k
}

/// Among the first `n` entries, one under `k` has a deadline reached at
/// `now`.
pub open spec fn expired_among(e: Seq<(String, u64)>, n: int, k: Seq<char>, now: u64) -> bool {
    exists|j: int| 0 <= j < n && (#[trigger] e[j]).0@ == k && e[j].1 <= now
}

/// A timed status is turned off by the first tick at or after its
/// deadline, and not by an earlier one.
pub proof fn a_timed_status_clears_at_its_deadline(m: Map<Seq<char>, u64>, id: Seq<char>, d: u64, now: u64, t: u64)
    requires
        d > 0,
        now + d <= u64::MAX,
    ensures
        after_action(m, ActionView { set: Some((id, Some(d))), clear: None }, now)[ascii_upper_str(id)] == now + d,
        (t >= now + d) == !unexpired(
            after_action(m, ActionView { set: Some((id, Some(d))), clear: None }, now),
            t,
        ).dom().contains(ascii_upper_str(id)),
{
}

/// Clearing a status, or setting it without a time, leaves it no deadline.
pub proof fn an_untimed_or_cleared_status_has_no_deadline(m: Map<Seq<char>, u64>, id: Seq<char>, now: u64)
    ensures
        !after_action(m, ActionView { set: None, clear: Some(id) }, now).dom().contains(ascii_upper_str(id)),
        !after_action(m, ActionView { set: Some((id, None)), clear: None }, now).dom().contains(
            ascii_upper_str(id),
        ),
{
}

} // verus!
