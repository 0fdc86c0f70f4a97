//! Discovery memory: every game binding (stream or dialog) a character has
//! seen, with the last title the game declared for it.
//!
//! Identity is the pair (kind, id). Recording a binding that is already
//! known only refreshes its title; the first-run seed adds the well-known
//! feeds without ever touching a title the game has declared since.

use vstd::prelude::*;
use crate::text::{owned, str_eq};

verus! {

/// One remembered binding.
#[derive(Debug, Clone, PartialEq)]
pub struct RegistryBinding {
    /// "stream" or "dialog"; kept as text so kinds added later round-trip.
    pub kind: String,
    /// The game's id for the stream or dialog: the identity key.
    pub id: String,
    /// The last title the game declared (display only).
    pub title: String,
}

/// (kind, id, title) as character sequences.
pub type BindingView = (Seq<char>, Seq<char>, Seq<char>);

impl View for RegistryBinding {
    type V = BindingView;

    open spec fn view(&self) -> BindingView {
        (self.kind@, self.id@, self.title@)
    }
}

/// Every binding this character has seen, in the order first seen.
#[derive(Debug, Clone, PartialEq)]
pub struct WindowRegistry {
    pub bindings: Vec<RegistryBinding>,
}

impl View for WindowRegistry {
    type V = Seq<BindingView>;

    open spec fn view(&self) -> Seq<BindingView> {
        self.bindings@.map_values(|b: RegistryBinding| b@)
    }
}

impl Default for WindowRegistry {
    fn default() -> (r: Self)
        ensures
            r@ == Seq::<BindingView>::empty(),
    {
        let r = WindowRegistry { bindings: Vec::new() };
        assert(r@ =~= Seq::<BindingView>::empty());
        r
    }
}

/// Index of the first binding with this (kind, id), if any.
pub open spec fn first_binding(s: Seq<BindingView>, kind: Seq<char>, id: Seq<char>) -> Option<int>
    decreases s.len(),
{
    if s.len() == 0 {
        None
    } else {
        match first_binding(s.drop_last(), kind, id) {
            Some(i) => Some(i),
            None => if s.last().0 == kind && s.last().1 == id {
                Some(s.len() - 1)
            } else {
                None
            },
        }
    }
}

/// Some binding has this (kind, id).
pub open spec fn has_binding(s: Seq<BindingView>, kind: Seq<char>, id: Seq<char>) -> bool {
    exists|i: int| 0 <= i < s.len() && (#[trigger] s[i]).0 == kind && s[i].1 == id
}

/// No two bindings share a (kind, id).
pub open spec fn identities_unique(s: Seq<BindingView>) -> bool {
    forall|i: int, j: int|
        0 <= i < s.len() && 0 <= j < s.len() && i != j ==> !((#[trigger] s[i]).0 == (
        #[trigger] s[j]).0 && s[i].1 == s[j].1)
}

/// The registry after recording a sighting, and whether it changed.
pub open spec fn record_spec(
    s: Seq<BindingView>,
    kind: Seq<char>,
    id: Seq<char>,
    title: Seq<char>,
) -> (Seq<BindingView>, bool) {
    if id.len() == 0 {
        (s, false)
    } else {
        match first_binding(s, kind, id) {
            Some(i) => if title.len() > 0 && s[i].2 != title {
                (s.update(i, (s[i].0, s[i].1, title)), true)
            } else {
                (s, false)
            },
            None => (s.push((kind, id, title)), true),
        }
    }
}

proof fn lemma_first_binding(s: Seq<BindingView>, kind: Seq<char>, id: Seq<char>)
    ensures
        match first_binding(s, kind, id) {
            Some(i) => 0 <= i < s.len() && s[i].0 == kind && s[i].1 == id && forall|j: int|
                0 <= j < i ==> !((#[trigger] s[j]).0 == kind && s[j].1 == id),
            None => !has_binding(s, kind, id),
        },
    decreases s.len(),
{
    if s.len() > 0 {
        lemma_first_binding(s.drop_last(), kind, id);
        match first_binding(s.drop_last(), kind, id) {
            Some(i) => {
                assert forall|j: int| 0 <= j < i implies !((#[trigger] s[j]).0 == kind && s[j].1
                    == id) by {
                    assert(s[j] == s.drop_last()[j]);
                }
            },
            None => {
                if !(s.last().0 == kind && s.last().1 == id) {
                    assert forall|j: int| 0 <= j < s.len() implies !((#[trigger] s[j]).0 == kind
                        && s[j].1 == id) by {
                        if j < s.len() - 1 {
                            assert(s[j] == s.drop_last()[j]);
                        }
                    }
                } else {
                    assert forall|j: int| 0 <= j < s.len() - 1 implies !((#[trigger] s[j]).0
                        == kind && s[j].1 == id) by {
                        assert(s[j] == s.drop_last()[j]);
                    }
                }
            },
        }
    }
}

proof fn lemma_first_binding_prefix(s: Seq<BindingView>, kind: Seq<char>, id: Seq<char>, k: int)
    requires
        0 <= k <= s.len(),
        first_binding(s.take(k), kind, id) is Some,
    ensures
        first_binding(s, kind, id) == first_binding(s.take(k), kind, id),
    decreases s.len() - k,
{
    if k == s.len() {
        assert(s.take(k) =~= s);
    } else {
        assert(s.drop_last().take(k) =~= s.take(k));
        lemma_first_binding_prefix(s.drop_last(), kind, id, k);
    }
}

/// The well-known feeds every character can add before the game first
/// speaks, as (kind, id, title); entries past the end are empty.
pub open spec fn well_known_at(k: int) -> BindingView {
    if k == 0 {
        ("stream"@, "thoughts"@, "Thoughts"@)
    } else if k == 1 {
        ("stream"@, "speech"@, "Speech"@)
    } else if k == 2 {
        ("stream"@, "familiar"@, "Familiar"@)
    } else if k == 3 {
        ("stream"@, "logons"@, "Logons"@)
    } else if k == 4 {
        ("stream"@, "death"@, "Deaths"@)
    } else if k == 5 {
        ("stream"@, "loot"@, "Loot"@)
    } else if k == 6 {
        ("stream"@, "bounty"@, "Bounty"@)
    } else if k == 7 {
        ("stream"@, "society"@, "Society"@)
    } else if k == 8 {
        ("stream"@, "ambients"@, "Ambients"@)
    } else if k == 9 {
        ("stream"@, "announcements"@, "Announcements"@)
    } else if k == 10 {
        ("stream"@, "voln"@, "Voln"@)
    } else if k == 11 {
        ("stream"@, "inv"@, "Inventory"@)
    } else if k == 12 {
        ("stream"@, "reserve"@, "Reserve"@)
    } else if k == 13 {
        ("stream"@, "room"@, "Room"@)
    } else if k == 14 {
        ("stream"@, "Spells"@, "Spells"@)
    } else if k == 15 {
        ("dialog"@, "minivitals"@, "Vitals"@)
    } else if k == 16 {
        ("dialog"@, "IconBAR"@, "Status"@)
    } else if k == 17 {
        ("dialog"@, "expr"@, "Experience"@)
    } else if k == 18 {
        ("dialog"@, "encum"@, "Encumbrance"@)
    } else if k == 19 {
        ("dialog"@, "stance"@, "Stance"@)
    } else if k == 20 {
        ("dialog"@, "injuries"@, "Injuries"@)
    } else if k == 21 {
        ("dialog"@, "Buffs"@, "Buffs"@)
    } else if k == 22 {
        ("dialog"@, "Debuffs"@, "Debuffs"@)
    } else if k == 23 {
        ("dialog"@, "Cooldowns"@, "Cooldowns"@)
    } else if k == 24 {
        ("dialog"@, "Active Spells"@, "Active Spells"@)
    } else if k == 25 {
        ("dialog"@, "combat"@, "Combat"@)
    } else if k == 26 {
        ("dialog"@, "bank"@, "Bank"@)
    } else if k == 27 {
        ("dialog"@, "befriend"@, "Befriend"@)
    } else {
        (Seq::empty(), Seq::empty(), Seq::empty())
    }
}

/// How many well-known feeds the seed adds.
pub const WELL_KNOWN_COUNT: usize = 28;

fn well_known_entry(k: usize) -> (r: (&'static str, &'static str, &'static str))
    requires
        k < WELL_KNOWN_COUNT,
    ensures
        (r.0@, r.1@, r.2@) == well_known_at(k as int),
{
    if k == 0 {
        ("stream", "thoughts", "Thoughts")
    } else if k == 1 {
        ("stream", "speech", "Speech")
    } else if k == 2 {
        ("stream", "familiar", "Familiar")
    } else if k == 3 {
        ("stream", "logons", "Logons")
    } else if k == 4 {
        ("stream", "death", "Deaths")
    } else if k == 5 {
        ("stream", "loot", "Loot")
    } else if k == 6 {
        ("stream", "bounty", "Bounty")
    } else if k == 7 {
        ("stream", "society", "Society")
    } else if k == 8 {
        ("stream", "ambients", "Ambients")
    } else if k == 9 {
        ("stream", "announcements", "Announcements")
    } else if k == 10 {
        ("stream", "voln", "Voln")
    } else if k == 11 {
        ("stream", "inv", "Inventory")
    } else if k == 12 {
        ("stream", "reserve", "Reserve")
    } else if k == 13 {
        ("stream", "room", "Room")
    } else if k == 14 {
        ("stream", "Spells", "Spells")
    } else if k == 15 {
        ("dialog", "minivitals", "Vitals")
    } else if k == 16 {
        ("dialog", "IconBAR", "Status")
    } else if k == 17 {
        ("dialog", "expr", "Experience")
    } else if k == 18 {
        ("dialog", "encum", "Encumbrance")
    } else if k == 19 {
        ("dialog", "stance", "Stance")
    } else if k == 20 {
        ("dialog", "injuries", "Injuries")
    } else if k == 21 {
        ("dialog", "Buffs", "Buffs")
    } else if k == 22 {
        ("dialog", "Debuffs", "Debuffs")
    } else if k == 23 {
        ("dialog", "Cooldowns", "Cooldowns")
    } else if k == 24 {
        ("dialog", "Active Spells", "Active Spells")
    } else if k == 25 {
        ("dialog", "combat", "Combat")
    } else if k == 26 {
        ("dialog", "bank", "Bank")
    } else {
        ("dialog", "befriend", "Befriend")
    }
}

/// The registry after seeding the first `k` well-known feeds: each one not
/// already present (by kind and id) is appended.
pub open spec fn seed_spec(s: Seq<BindingView>, k: nat) -> Seq<BindingView>
    decreases k,
{
    if k == 0 {
        s
    } else {
        let prev = seed_spec(s, (k - 1) as nat);
        let w = well_known_at(k - 1);
        if has_binding(prev, w.0, w.1) {
            prev
        } else {
            prev.push(w)
        }
    }
}

proof fn lemma_seed_extends(s: Seq<BindingView>, k: nat)
    ensures
        seed_spec(s, k).len() >= s.len(),
        forall|i: int| 0 <= i < s.len() ==> #[trigger] seed_spec(s, k)[i] == s[i],
    decreases k,
{
    if k > 0 {
        lemma_seed_extends(s, (k - 1) as nat);
    }
}

proof fn lemma_seed_covers(s: Seq<BindingView>, k: nat)
    ensures
        forall|j: int|
            0 <= j < k ==> has_binding(
                seed_spec(s, k),
                #[trigger] well_known_at(j).0,
                well_known_at(j).1,
            ),
    decreases k,
{
    if k > 0 {
        let prev = seed_spec(s, (k - 1) as nat);
        let w = well_known_at(k - 1);
        lemma_seed_covers(s, (k - 1) as nat);
        if !has_binding(prev, w.0, w.1) {
            let t = prev.push(w);
            assert forall|j: int| 0 <= j < k implies has_binding(
                t,
                #[trigger] well_known_at(j).0,
                well_known_at(j).1,
            ) by {
                if j < k - 1 {
                    let wj = well_known_at(j);
                    let i = choose|i: int| 0 <= i < prev.len() && (#[trigger] prev[i]).0 == wj.0
                        && prev[i].1 == wj.1;
                    assert(t[i] == prev[i]);
                } else {
                    assert(t[prev.len() as int] == w);
                }
            }
        }
    }
}

proof fn lemma_seed_noop(s: Seq<BindingView>, k: nat)
    requires
        forall|j: int|
            0 <= j < k ==> has_binding(s, #[trigger] well_known_at(j).0, well_known_at(j).1),
    ensures
        seed_spec(s, k) == s,
    decreases k,
{
    if k > 0 {
        lemma_seed_noop(s, (k - 1) as nat);
        assert(has_binding(s, well_known_at(k - 1).0, well_known_at(k - 1).1));
    }
}

impl WindowRegistry {
    /// Index of the first binding with this (kind, id).
    fn position(&self, kind: &str, id: &str) -> (r: Option<usize>)
        ensures
            match r {
                Some(i) => first_binding(self@, kind@, id@) == Some(i as int),
                None => first_binding(self@, kind@, id@) is None,
            },
    {
        let mut i: usize = 0;
        while i < self.bindings.len()
            invariant
                i <= self.bindings@.len(),
                first_binding(self@.take(i as int), kind@, id@) is None,
            decreases self.bindings@.len() - i,
        {
            let b = &self.bindings[i];
            proof {
                assert(self@.take(i as int + 1).drop_last() =~= self@.take(i as int));
                assert(self@.take(i as int + 1).last() == b@);
            }
            if str_eq(b.kind.as_str(), kind) && str_eq(b.id.as_str(), id) {
                proof {
                    lemma_first_binding_prefix(self@, kind@, id@, i as int + 1);
                }
                return Some(i);
            }
            i = i + 1;
        }
        proof {
            assert(self@.take(i as int) =~= self@);
        }
        None
    }

    /// Record a seen binding. Identity is (kind, id); a fresh sighting of a
    /// known binding only refreshes its title. Returns whether anything
    /// changed (the caller persists on true).
    pub fn record(&mut self, kind: &str, id: &str, title: &str) -> (changed: bool)
        ensures
            (final(self)@, changed) == record_spec(old(self)@, kind@, id@, title@),
    {
        if id.is_empty() {
            return false;
        }
        let found = self.position(kind, id);
        proof {
            lemma_first_binding(self@, kind@, id@);
        }
        match found {
            Some(i) => {
                let b = &self.bindings[i];
                if !title.is_empty() && !str_eq(b.title.as_str(), title) {
                    let refreshed = RegistryBinding {
                        kind: b.kind.clone(),
                        id: b.id.clone(),
                        title: owned(title),
                    };
                    self.bindings.set(i, refreshed);
                    proof {
                        assert(final(self)@ =~= old(self)@.update(
                            i as int,
                            (old(self)@[i as int].0, old(self)@[i as int].1, title@),
                        ));
                    }
                    true
                } else {
                    false
                }
            },
            None => {
                self.bindings.push(
                    RegistryBinding { kind: owned(kind), id: owned(id), title: owned(title) },
                );
                proof {
                    assert(final(self)@ =~= old(self)@.push((kind@, id@, title@)));
                }
                true
            },
        }
    }

    /// First-run seed: add every well-known feed not already present.
    /// Returns whether anything was added.
    pub fn seed_well_known(&mut self) -> (changed: bool)
        ensures
            final(self)@ == seed_spec(old(self)@, WELL_KNOWN_COUNT as nat),
            changed == (final(self)@ != old(self)@),
    {
        let mut changed = false;
        let mut k: usize = 0;
        while k < WELL_KNOWN_COUNT
            invariant
                k <= WELL_KNOWN_COUNT,
                self@ == seed_spec(old(self)@, k as nat),
                changed == (self@.len() != old(self)@.len()),
                self@.len() >= old(self)@.len(),
            decreases WELL_KNOWN_COUNT - k,
        {
            let (kind, id, title) = well_known_entry(k);
            let found = self.position(kind, id);
            proof {
                lemma_first_binding(self@, kind@, id@);
                if found is Some {
                    let i = found->0 as int;
                    assert(self@[i].0 == kind@ && self@[i].1 == id@);
                }
            }
            if found.is_none() {
                let ghost before = self@;
                self.bindings.push(
                    RegistryBinding { kind: owned(kind), id: owned(id), title: owned(title) },
                );
                proof {
                    assert(self@ =~= before.push((kind@, id@, title@)));
                }
                changed = true;
            }
            k = k + 1;
        }
        proof {
            lemma_seed_extends(old(self)@, WELL_KNOWN_COUNT as nat);
            if self@.len() == old(self)@.len() {
                assert(self@ =~= old(self)@);
            }
        }
        changed
    }
}


/// Seeding twice is the same as seeding once.
pub proof fn seed_is_idempotent(s: Seq<BindingView>)
    ensures
        seed_spec(seed_spec(s, WELL_KNOWN_COUNT as nat), WELL_KNOWN_COUNT as nat) == seed_spec(
            s,
            WELL_KNOWN_COUNT as nat,
        ),
{
    let t = seed_spec(s, WELL_KNOWN_COUNT as nat);
    lemma_seed_covers(s, WELL_KNOWN_COUNT as nat);
    lemma_seed_noop(t, WELL_KNOWN_COUNT as nat);
}

/// Seeding only appends: every binding already present, title included,
/// stays where it was; and afterwards every well-known feed is present.
pub proof fn seed_never_overwrites(s: Seq<BindingView>)
    ensures
        seed_spec(s, WELL_KNOWN_COUNT as nat).len() >= s.len(),
        forall|i: int| 0 <= i < s.len() ==> #[trigger] seed_spec(s, WELL_KNOWN_COUNT as nat)[i] == s[i],
        forall|j: int|
            0 <= j < WELL_KNOWN_COUNT ==> has_binding(
                seed_spec(s, WELL_KNOWN_COUNT as nat),
                #[trigger] well_known_at(j).0,
                well_known_at(j).1,
            ),
{
    lemma_seed_extends(s, WELL_KNOWN_COUNT as nat);
    lemma_seed_covers(s, WELL_KNOWN_COUNT as nat);
}

/// Recording keeps (kind, id) a key: a registry with no repeated identity
/// still has none afterwards, and a sighting with a non-empty id is then
/// present.
pub proof fn record_keeps_identities_unique(
    s: Seq<BindingView>,
    kind: Seq<char>,
    id: Seq<char>,
    title: Seq<char>,
)
    requires
        identities_unique(s),
    ensures
        identities_unique(record_spec(s, kind, id, title).0),
        id.len() > 0 ==> has_binding(record_spec(s, kind, id, title).0, kind, id),
{
    lemma_first_binding(s, kind, id);
    let t = record_spec(s, kind, id, title).0;
    if id.len() > 0 {
        match first_binding(s, kind, id) {
            Some(i) => {
                assert(t[i].0 == kind && t[i].1 == id);
                assert forall|a: int, b: int|
                    0 <= a < t.len() && 0 <= b < t.len() && a != b implies !((#[trigger] t[a]).0
                    == (#[trigger] t[b]).0 && t[a].1 == t[b].1) by {
                    assert(s[a].0 == t[a].0 && s[a].1 == t[a].1);
                    assert(s[b].0 == t[b].0 && s[b].1 == t[b].1);
                }
            },
            None => {
                assert(t[s.len() as int] == (kind, id, title));
                assert forall|a: int, b: int|
                    0 <= a < t.len() && 0 <= b < t.len() && a != b implies !((#[trigger] t[a]).0
                    == (#[trigger] t[b]).0 && t[a].1 == t[b].1) by {
                    if a < s.len() && b < s.len() {
                        assert(t[a] == s[a] && t[b] == s[b]);
                    } else if a < s.len() {
                        assert(t[a] == s[a]);
                    } else {
                        assert(t[b] == s[b]);
                    }
                }
            },
        }
    }
}

/// A sighting with an empty title of a binding already known changes
/// nothing: it never clobbers the title the game declared.
pub proof fn record_never_clears_a_title(
    s: Seq<BindingView>,
    kind: Seq<char>,
    id: Seq<char>,
)
    requires
        has_binding(s, kind, id),
    ensures
        record_spec(s, kind, id, Seq::empty()) == (s, false),
{
    lemma_first_binding(s, kind, id);
}

} // verus!
