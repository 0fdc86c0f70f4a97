//! Alert packs: shareable rule files with a content-hash trust gate.
//!
//! A pack is a self-contained rule file using the same schema as the
//! user's own highlights. Pack rules inherit powers that can misrepresent
//! what the game said: `replace` rewrites text in place and `redirect`
//! reroutes whole streams. Those powers are withheld until the user
//! approves the pack's exact contents, identified by hash:
//!
//! - alert, sound and color rules load immediately;
//! - `replace` / `redirect` stay inert until approved;
//! - approval records one content hash, so any edit requires approval again;
//! - the user's own highlights are never gated.
//!
//! Packs may also be scoped to areas, zones, room tags or rooms; a pack
//! whose scope does not admit the current room contributes nothing.

use vstd::prelude::*;
use crate::config::highlights::{HighlightPattern, RuleMap};
use crate::config::Config;
use crate::config::paths::{saved_name, saved_name_of};
use crate::named::{Duplicate, NamedMap, NamedSet};
use crate::named::{has_key, keys_unique};
use crate::config::sparse::{
    entries_view, lemma_entries_push, lemma_entries_view, lookup, opt_value_view, SettingValue, ValueView,
};
use crate::seqs::lemma_filter_step;
use crate::text::{
    cat3, chars_of, chars_eq, eq_ignore_ascii_case, eq_ignore_ascii_case_exec, lemma_lex_asymmetric,
    lemma_lex_irreflexive, lemma_lex_total, lemma_lex_transitive, lex_lt, lex_lt_exec, starts_with,
    str_eq,
};

verus! {

/// Where a pack's rules apply. The four selectors combine as OR; a scope
/// with none set means "everywhere".
#[derive(Debug, Clone, PartialEq)]
pub struct AlertPackScope {
    /// Map `location` strings, e.g. "the Settlement of Reim".
    pub area: Vec<String>,
    /// Game-sent realm codes.
    pub zone: Vec<u32>,
    /// Curated room tags ("bank", "furrier", ...).
    pub tags: Vec<String>,
    /// Explicit room uids.
    pub rooms: Vec<i64>,
}

impl Default for AlertPackScope {
    fn default() -> (r: Self)
        ensures
            r.area@.len() == 0 && r.zone@.len() == 0 && r.tags@.len() == 0 && r.rooms@.len() == 0,
    {
        AlertPackScope { area: Vec::new(), zone: Vec::new(), tags: Vec::new(), rooms: Vec::new() }
    }
}

/// The scope states no restriction.
pub open spec fn unscoped(s: AlertPackScope) -> bool {
    s.area@.len() == 0 && s.zone@.len() == 0 && s.tags@.len() == 0 && s.rooms@.len() == 0
}

/// Some entry of `list` equals `x` ignoring ASCII case.
pub open spec fn any_eq_ignore_case(list: Seq<String>, x: Seq<char>) -> bool {
    exists|i: int| 0 <= i < list.len() && eq_ignore_ascii_case((#[trigger] list[i])@, x)
}

/// Does the scope admit a room described by these (possibly missing)
/// facts? Selectors whose data is missing do not match.
pub open spec fn admits_spec(
    s: AlertPackScope,
    location: Option<Seq<char>>,
    realm: Option<u32>,
    tags: Seq<String>,
    uid: Option<i64>,
) -> bool {
    ||| unscoped(s)
    ||| (location matches Some(l) && any_eq_ignore_case(s.area@, l))
    ||| (realm matches Some(r) && s.zone@.contains(r))
    ||| (s.tags@.len() > 0 && exists|i: int|
        0 <= i < tags.len() && any_eq_ignore_case(s.tags@, (#[trigger] tags[i])@))
    ||| (uid matches Some(u) && s.rooms@.contains(u))
}

fn any_eq_ignore_case_exec(list: &Vec<String>, x: &str) -> (b: bool)
    ensures
        b == any_eq_ignore_case(list@, x@),
{
    let xc = chars_of(x);
    let mut i: usize = 0;
    while i < list.len()
        invariant
            i <= list@.len(),
            xc@ == x@,
            forall|j: int| 0 <= j < i ==> !eq_ignore_ascii_case((#[trigger] list@[j])@, x@),
        decreases list.len() - i,
    {
        if eq_ignore_ascii_case_exec(&chars_of(list[i].as_str()), &xc) {
            return true;
        }
        i = i + 1;
    }
    false
}

fn contains_u32(v: &Vec<u32>, x: u32) -> (b: bool)
    ensures
        b == v@.contains(x),
{
    let mut i: usize = 0;
    while i < v.len()
        invariant
            i <= v@.len(),
            forall|j: int| 0 <= j < i ==> v@[j] != x,
        decreases v.len() - i,
    {
        if v[i] == x {
            return true;
        }
        i = i + 1;
    }
    false
}

fn contains_i64(v: &Vec<i64>, x: i64) -> (b: bool)
    ensures
        b == v@.contains(x),
{
    let mut i: usize = 0;
    while i < v.len()
        invariant
            i <= v@.len(),
            forall|j: int| 0 <= j < i ==> v@[j] != x,
        decreases v.len() - i,
    {
        if v[i] == x {
            return true;
        }
        i = i + 1;
    }
    false
}

pub open spec fn opt_str_view(o: Option<&str>) -> Option<Seq<char>> {
    match o {
        Some(s) => Some(s@),
        None => None,
    }
}

impl AlertPackScope {
    /// A scope with no selectors states no restriction.
    pub fn is_unscoped(&self) -> (b: bool)
        ensures
            b == unscoped(*self),
    {
        self.area.len() == 0 && self.zone.len() == 0 && self.tags.len() == 0 && self.rooms.len()
            == 0
    }

    /// Does this scope admit the described room?
    pub fn admits(&self, location: Option<&str>, realm: Option<u32>, tags: &[String], uid: Option<
        i64,
    >) -> (b: bool)
        ensures
            b == admits_spec(*self, opt_str_view(location), realm, tags@, uid),
    {
        if self.is_unscoped() {
            return true;
        }
        if let Some(location) = location {
            if any_eq_ignore_case_exec(&self.area, location) {
                return true;
            }
        }
        if let Some(realm) = realm {
            if contains_u32(&self.zone, realm) {
                return true;
            }
        }
        if self.tags.len() > 0 {
            let mut i: usize = 0;
            while i < tags.len()
                invariant
                    i <= tags@.len(),
                    forall|j: int| 0 <= j < i ==> !any_eq_ignore_case(self.tags@, (#[trigger] tags@[j])@),
                decreases tags.len() - i,
            {
                if any_eq_ignore_case_exec(&self.tags, tags[i].as_str()) {
                    return true;
                }
                i = i + 1;
            }
        }
        if let Some(uid) = uid {
            if contains_i64(&self.rooms, uid) {
                return true;
            }
        }
        false
    }
}

/// Where the player currently is, as far as pack scoping is concerned.
#[derive(Debug, Clone, PartialEq)]
pub struct RoomScope {
    pub location: Option<String>,
    pub realm: Option<u32>,
    pub tags: Vec<String>,
    pub uid: Option<i64>,
}

impl Default for RoomScope {
    fn default() -> (r: Self)
        ensures
            r.location is None && r.realm is None && r.tags@.len() == 0 && r.uid is None,
    {
        RoomScope { location: None, realm: None, tags: Vec::new(), uid: None }
    }
}

/// The reserved rule name a pack uses to declare its scope.
pub const SCOPE_KEY: &'static str = "__scope__";

/// Which packs are enabled, and which exact contents the user approved.
pub struct AlertPackApprovals {
    /// Pack names the user turned on; absent means off.
    pub enabled: NamedSet,
    /// Approved content hash per pack name.
    pub approved_hashes: NamedMap<String>,
}

/// The approved hashes as character sequences.
pub open spec fn hashes_view(m: Map<Seq<char>, String>) -> Map<Seq<char>, Seq<char>> {
    m.map_values(|h: String| h@)
}

/// `hash` is the approved hash of pack `name`.
pub open spec fn approved_in(hashes: Map<Seq<char>, Seq<char>>, name: Seq<char>, hash: Seq<char>) -> bool {
    hashes.dom().contains(name) && hashes[name] == hash
}

impl Default for AlertPackApprovals {
    fn default() -> (r: Self)
        ensures
            r.enabled@ == Set::<Seq<char>>::empty(),
            hashes_view(r.approved_hashes@) == Map::<Seq<char>, Seq<char>>::empty(),
    {
        let r = AlertPackApprovals { enabled: NamedSet::new(), approved_hashes: NamedMap::new() };
        assert(hashes_view(r.approved_hashes@) =~= Map::<Seq<char>, Seq<char>>::empty());
        r
    }
}

impl AlertPackApprovals {
    pub fn is_enabled(&self, name: &str) -> (b: bool)
        ensures
            b == self.enabled@.contains(name@),
    {
        self.enabled.contains(name)
    }

    /// Has the user approved this pack's current contents? Compares the
    /// hash, so an edited pack reports false until re-approved.
    pub fn is_approved(&self, name: &str, hash: &str) -> (b: bool)
        ensures
            b == approved_in(hashes_view(self.approved_hashes@), name@, hash@),
    {
        match self.approved_hashes.get(name) {
            Some(h) => str_eq(h.as_str(), hash),
            None => false,
        }
    }

    /// Record approval of one exact content hash.
    pub fn approve(&mut self, name: &str, hash: &str)
        ensures
            hashes_view(final(self).approved_hashes@) == hashes_view(old(self).approved_hashes@).insert(
                name@,
                hash@,
            ),
            final(self).enabled@ == old(self).enabled@,
    {
        let ghost before = self.approved_hashes@;
        self.approved_hashes.insert(name.to_owned(), hash.to_owned());
        assert(hashes_view(self.approved_hashes@) =~= hashes_view(before).insert(name@, hash@));
    }

    /// Withdraw approval, so the pack needs approval again.
    pub fn revoke(&mut self, name: &str)
        ensures
            hashes_view(final(self).approved_hashes@) == hashes_view(old(self).approved_hashes@).remove(
                name@,
            ),
            final(self).enabled@ == old(self).enabled@,
    {
        let ghost before = self.approved_hashes@;
        let _ = self.approved_hashes.remove(name);
        assert(hashes_view(self.approved_hashes@) =~= hashes_view(before).remove(name@));
    }

    pub fn set_enabled(&mut self, name: &str, on: bool)
        ensures
            final(self).enabled@ == (if on {
                old(self).enabled@.insert(name@)
            } else {
                old(self).enabled@.remove(name@)
            }),
            hashes_view(final(self).approved_hashes@) == hashes_view(old(self).approved_hashes@),
    {
        if on {
            self.enabled.insert(name.to_owned());
        } else {
            let _ = self.enabled.remove(name);
        }
    }
}

/// Approval binds one exact hash: after approving `hash` for a pack, the
/// pack counts as approved for a hash exactly when it is that hash.
pub proof fn approval_is_bound_to_one_exact_hash(
    hashes: Map<Seq<char>, Seq<char>>,
    name: Seq<char>,
    hash: Seq<char>,
    other: Seq<char>,
)
    ensures
        approved_in(hashes.insert(name, hash), name, other) <==> other == hash,
{
}

/// Revoking withdraws approval: after revoking a pack, no hash of it counts as
/// approved.
pub proof fn revoking_re_arms_the_gate(hashes: Map<Seq<char>, Seq<char>>, name: Seq<char>, hash: Seq<char>)
    ensures
        !approved_in(hashes.remove(name), name, hash),
{
}

/// Approving or revoking one pack leaves every other pack's approval as it
/// was.
pub proof fn approvals_of_other_packs_are_untouched(
    hashes: Map<Seq<char>, Seq<char>>,
    name: Seq<char>,
    hash: Seq<char>,
    other_name: Seq<char>,
    other_hash: Seq<char>,
)
    requires
        other_name != name,
    ensures
        approved_in(hashes.insert(name, hash), other_name, other_hash) == approved_in(hashes, other_name, other_hash),
        approved_in(hashes.remove(name), other_name, other_hash) == approved_in(hashes, other_name, other_hash),
{
}

// ---------------------------------------------------------------------------
// Packs
// ---------------------------------------------------------------------------

/// A name for what `format!("{:?}", s)` yields for a string: the quoted,
/// escaped Debug rendering, a function of the string alone.
pub uninterp spec fn debug_str(s: Seq<char>) -> Seq<char>;

/// Renders a string with std's `Debug` formatting (quoted and escaped).
#[verifier::external_body]
fn debug_quoted(s: &str) -> (r: String)
    ensures
        r@ == debug_str(s@),
{
    format!("{:?}", s)
}

/// A name for the lowercase hexadecimal SHA-1 digest of some bytes, as
/// `format!("{:x}", Sha1::digest(bytes))` renders it.
pub uninterp spec fn sha1_hex(bytes: Seq<u8>) -> Seq<char>;

/// SHA-1 of a pack file's raw bytes, in lowercase hex (computed by the
/// `sha1` crate). The digest is 20 bytes, so its rendering is 40
/// characters; nothing else about it is stated.
#[verifier::external_body]
pub fn pack_hash(bytes: &[u8]) -> (r: String)
    ensures
        r@ == sha1_hex(bytes@),
        r@.len() == 40,
{
    let mut hasher = <sha1::Sha1 as sha1::Digest>::new();
    sha1::Digest::update(&mut hasher, bytes);
    format!("{:x}", sha1::Digest::finalize(hasher))
}

/// One installed pack: its rules plus the identity used to gate them.
pub struct AlertPack {
    /// File stem, e.g. `reim-encounters`.
    pub name: String,
    /// SHA-1 of the file's bytes.
    pub hash: String,
    /// Every rule in the pack, keyed by rule name.
    pub rules: RuleMap,
    /// Where these rules apply.
    pub scope: AlertPackScope,
}

/// The digest line for a rule that rewrites text.
pub open spec fn rewrite_desc(rule: HighlightPattern) -> Seq<char> {
    "rewrites matching text as "@ + debug_str(rule.replace->0@) + " (pattern: "@ + debug_str(
        rule.pattern@,
    ) + ")"@
}

/// The digest line for a rule that reroutes lines.
pub open spec fn reroute_desc(rule: HighlightPattern) -> Seq<char> {
    "reroutes matching lines to the "@ + debug_str(rule.redirect_to->0@) + " window (pattern: "@
        + debug_str(rule.pattern@) + ")"@
}

/// `p` is one line of the approval digest of `rules`.
pub open spec fn sensitive_entry(rules: Map<Seq<char>, HighlightPattern>, p: (Seq<char>, Seq<char>)) -> bool {
    rules.dom().contains(p.0) && ((rules[p.0].replace is Some && p.1 == rewrite_desc(rules[p.0]))
        || (rules[p.0].redirect_to is Some && p.1 == reroute_desc(rules[p.0])))
}

/// Some rule of `rules` rewrites or reroutes.
pub open spec fn has_sensitive(rules: Map<Seq<char>, HighlightPattern>) -> bool {
    exists|k: Seq<char>|
        rules.dom().contains(k) && ((#[trigger] rules[k]).replace is Some || rules[k].redirect_to is Some)
}

/// Order on digest lines: by rule name, then by description.
pub open spec fn pair_lt(p: (Seq<char>, Seq<char>), q: (Seq<char>, Seq<char>)) -> bool {
    lex_lt(p.0, q.0) || (p.0 == q.0 && lex_lt(p.1, q.1))
}

pub open spec fn pairs_view(v: Seq<(String, String)>) -> Seq<(Seq<char>, Seq<char>)> {
    v.map_values(|p: (String, String)| (p.0@, p.1@))
}

pub open spec fn strictly_sorted(v: Seq<(Seq<char>, Seq<char>)>) -> bool {
    forall|i: int, j: int| 0 <= i < j < v.len() ==> pair_lt(#[trigger] v[i], #[trigger] v[j])
}

/// A rule with its text-rewriting and line-rerouting powers withheld.
pub open spec fn stripped(r: HighlightPattern) -> HighlightPattern {
    HighlightPattern { replace: None, redirect_to: None, ..r }
}

proof fn lemma_pair_lt_facts(p: (Seq<char>, Seq<char>), q: (Seq<char>, Seq<char>), r: (Seq<char>, Seq<char>))
    ensures
        !pair_lt(p, p),
        pair_lt(p, q) ==> !pair_lt(q, p),
        pair_lt(p, q) && pair_lt(q, r) ==> pair_lt(p, r),
        p != q ==> pair_lt(p, q) || pair_lt(q, p),
{
    lemma_lex_irreflexive(p.0);
    lemma_lex_irreflexive(p.1);
    lemma_lex_asymmetric(p.0, q.0);
    lemma_lex_asymmetric(p.1, q.1);
    lemma_lex_total(p.0, q.0);
    lemma_lex_total(p.1, q.1);
    if pair_lt(p, q) && pair_lt(q, r) {
        if lex_lt(p.0, q.0) && lex_lt(q.0, r.0) {
            lemma_lex_transitive(p.0, q.0, r.0);
        }
        if p.0 == q.0 && q.0 == r.0 && lex_lt(p.1, q.1) && lex_lt(q.1, r.1) {
            lemma_lex_transitive(p.1, q.1, r.1);
        }
    }
}

fn pair_lt_exec(p: &(String, String), q: &(String, String)) -> (b: bool)
    ensures
        b == pair_lt((p.0@, p.1@), (q.0@, q.1@)),
{
    let p0 = chars_of(p.0.as_str());
    let q0 = chars_of(q.0.as_str());
    if lex_lt_exec(&p0, &q0) {
        return true;
    }
    if !chars_eq(&p0, &q0) {
        return false;
    }
    lex_lt_exec(&chars_of(p.1.as_str()), &chars_of(q.1.as_str()))
}

fn pair_eq_exec(p: &(String, String), q: &(String, String)) -> (b: bool)
    ensures
        b == ((p.0@, p.1@) == (q.0@, q.1@)),
{
    str_eq(p.0.as_str(), q.0.as_str()) && str_eq(p.1.as_str(), q.1.as_str())
}

/// Inserts `p` into a strictly sorted list, keeping it strictly sorted and
/// without repeating an element.
fn insert_sorted(out: &mut Vec<(String, String)>, p: (String, String))
    requires
        strictly_sorted(pairs_view(old(out)@)),
    ensures
        strictly_sorted(pairs_view(final(out)@)),
        forall|x: (Seq<char>, Seq<char>)|
            pairs_view(final(out)@).contains(x) <==> (pairs_view(old(out)@).contains(x) || x == (
            p.0@,
            p.1@,
        )),
{
    let ghost v0 = pairs_view(out@);
    let ghost pv = (p.0@, p.1@);
    let mut pos: usize = 0;
    while pos < out.len() && pair_lt_exec(&out[pos], &p)
        invariant
            pos <= out@.len(),
            v0 == pairs_view(out@),
            pv == (p.0@, p.1@),
            forall|j: int| 0 <= j < pos ==> pair_lt(#[trigger] v0[j], pv),
        decreases out.len() - pos,
    {
        pos = pos + 1;
    }
    if pos < out.len() && pair_eq_exec(&out[pos], &p) {
        assert(v0[pos as int] == pv);
        return;
    }
    proof {
        if pos < v0.len() {
            lemma_pair_lt_facts(v0[pos as int], pv, pv);
            assert(pair_lt(pv, v0[pos as int]));
        }
    }
    out.insert(pos, p);
    let ghost v1 = pairs_view(out@);
    assert(v1 =~= v0.insert(pos as int, pv));
    proof {
        assert forall|i: int, j: int| 0 <= i < j < v1.len() implies pair_lt(#[trigger] v1[i], #[trigger] v1[j]) by {
            if j < pos {
                assert(v1[i] == v0[i] && v1[j] == v0[j]);
            } else if j == pos {
                assert(v1[i] == v0[i]);
            } else if i == pos {
                assert(v1[j] == v0[j - 1]);
                if j - 1 > pos {
                    assert(pair_lt(v0[pos as int], v0[j - 1]));
                    lemma_pair_lt_facts(pv, v0[pos as int], v0[j - 1]);
                }
            } else if i < pos {
                assert(v1[i] == v0[i] && v1[j] == v0[j - 1]);
                assert(pair_lt(v0[i], pv));
                assert(pair_lt(pv, v0[pos as int]));
                lemma_pair_lt_facts(v0[i], pv, v0[pos as int]);
                if j - 1 > pos {
                    lemma_pair_lt_facts(v0[i], v0[pos as int], v0[j - 1]);
                }
            } else {
                assert(v1[i] == v0[i - 1] && v1[j] == v0[j - 1]);
            }
        }
        assert forall|x: (Seq<char>, Seq<char>)| v1.contains(x) <==> (v0.contains(x) || x == pv) by {
            if v0.contains(x) {
                let k = choose|k: int| 0 <= k < v0.len() && v0[k] == x;
                if k < pos {
                    assert(v1[k] == x);
                } else {
                    assert(v1[k + 1] == x);
                }
            }
            if x == pv {
                assert(v1[pos as int] == x);
            }
            if v1.contains(x) {
                let k = choose|k: int| 0 <= k < v1.len() && v1[k] == x;
                if k < pos {
                    assert(v0[k] == x);
                } else if k > pos {
                    assert(v0[k - 1] == x);
                }
            }
        }
    }
}

impl AlertPack {
    /// Rules that can misrepresent game output, as `(rule name, what it
    /// does)` pairs for the approval digest, sorted so the digest is
    /// stable.
    pub fn sensitive_rules(&self) -> (r: Vec<(String, String)>)
        ensures
            strictly_sorted(pairs_view(r@)),
            forall|p: (Seq<char>, Seq<char>)|
                pairs_view(r@).contains(p) <==> sensitive_entry(self.rules@, p),
    {
        let entries = self.rules.entries();
        let mut out: Vec<(String, String)> = Vec::new();
        let mut i: usize = 0;
        while i < entries.len()
            invariant
                i <= entries@.len(),
                strictly_sorted(pairs_view(out@)),
                forall|j: int|
                    0 <= j < entries@.len() ==> self.rules@.dom().contains((#[trigger] entries@[j]).0@)
                        && self.rules@[entries@[j].0@] == entries@[j].1,
                forall|x: (Seq<char>, Seq<char>)|
                    pairs_view(out@).contains(x) <==> exists|j: int|
                        0 <= j < i && (#[trigger] entries@[j]).0@ == x.0 && sensitive_entry(
                            self.rules@,
                            x,
                        ),
            decreases entries.len() - i,
        {
            let name = &entries[i].0;
            let rule = &entries[i].1;
            let ghost before = pairs_view(out@);
            if let Some(replacement) = &rule.replace {
                let desc = cat3(
                    "rewrites matching text as ",
                    debug_quoted(replacement.as_str()).as_str(),
                    cat3(" (pattern: ", debug_quoted(rule.pattern.as_str()).as_str(), ")").as_str(),
                );
                assert(desc@ == rewrite_desc(*rule));
                insert_sorted(&mut out, (name.clone(), desc));
            }
            let ghost mid = pairs_view(out@);
            if let Some(target) = &rule.redirect_to {
                let desc = cat3(
                    "reroutes matching lines to the ",
                    debug_quoted(target.as_str()).as_str(),
                    cat3(" window (pattern: ", debug_quoted(rule.pattern.as_str()).as_str(), ")").as_str(),
                );
                assert(desc@ == reroute_desc(*rule));
                insert_sorted(&mut out, (name.clone(), desc));
            }
            proof {
                let e = entries@[i as int];
                assert forall|x: (Seq<char>, Seq<char>)|
                    pairs_view(out@).contains(x) <==> exists|j: int|
                        0 <= j < i + 1 && (#[trigger] entries@[j]).0@ == x.0 && sensitive_entry(
                            self.rules@,
                            x,
                        ) by {
                    if exists|j: int|
                        0 <= j < i + 1 && (#[trigger] entries@[j]).0@ == x.0 && sensitive_entry(
                            self.rules@,
                            x,
                        ) {
                        let j = choose|j: int|
                            0 <= j < i + 1 && (#[trigger] entries@[j]).0@ == x.0 && sensitive_entry(
                                self.rules@,
                                x,
                            );
                        if j == i {
                            assert(self.rules@[x.0] == e.1);
                        }
                    }
                }
            }
            i = i + 1;
        }
        proof {
            assert forall|p: (Seq<char>, Seq<char>)|
                pairs_view(out@).contains(p) <==> sensitive_entry(self.rules@, p) by {
                if sensitive_entry(self.rules@, p) {
                    assert(has_key(entries@, p.0));
                    let j = choose|j: int| 0 <= j < entries@.len() && (#[trigger] entries@[j]).0@ == p.0;
                    assert(entries@[j].0@ == p.0);
                }
            }
        }
        out
    }

    /// Does this pack contain anything requiring approval?
    pub fn needs_approval(&self) -> (b: bool)
        ensures
            b == has_sensitive(self.rules@),
    {
        let digest = self.sensitive_rules();
        proof {
            if has_sensitive(self.rules@) {
                let k = choose|k: Seq<char>|
                    self.rules@.dom().contains(k) && ((#[trigger] self.rules@[k]).replace is Some
                        || self.rules@[k].redirect_to is Some);
                let rule = self.rules@[k];
                if rule.replace is Some {
                    assert(sensitive_entry(self.rules@, (k, rewrite_desc(rule))));
                    assert(pairs_view(digest@).contains((k, rewrite_desc(rule))));
                } else {
                    assert(sensitive_entry(self.rules@, (k, reroute_desc(rule))));
                    assert(pairs_view(digest@).contains((k, reroute_desc(rule))));
                }
            }
            if digest@.len() > 0 {
                assert(pairs_view(digest@).contains(pairs_view(digest@)[0]));
            }
        }
        digest.len() > 0
    }

    /// The pack's rules as they should actually run: all of them when the
    /// user approved this exact content, otherwise each rule with its
    /// rewriting and rerouting withheld (the rule itself is kept).
    pub fn effective_rules(&self, approved: bool) -> (r: RuleMap)
        ensures
            approved ==> r@ == self.rules@,
            !approved ==> r@ == self.rules@.map_values(|x: HighlightPattern| stripped(x)),
    {
        if approved {
            return self.rules.duplicate_map();
        }
        let entries = self.rules.entries();
        let mut out: RuleMap = NamedMap::new();
        let mut i: usize = 0;
        while i < entries.len()
            invariant
                i <= entries@.len(),
                forall|j: int|
                    0 <= j < entries@.len() ==> self.rules@.dom().contains((#[trigger] entries@[j]).0@)
                        && self.rules@[entries@[j].0@] == entries@[j].1,
                forall|k: Seq<char>|
                    out@.dom().contains(k) <==> exists|j: int| 0 <= j < i && (#[trigger] entries@[j]).0@ == k,
                forall|k: Seq<char>|
                    out@.dom().contains(k) ==> out@[k] == stripped(self.rules@[k]),
            decreases entries.len() - i,
        {
            let mut rule = entries[i].1.duplicate();
            rule.replace = None;
            rule.redirect_to = None;
            out.insert(entries[i].0.clone(), rule);
            proof {
                assert forall|k: Seq<char>|
                    out@.dom().contains(k) <==> exists|j: int| 0 <= j < i + 1 && (#[trigger] entries@[j]).0@ == k by {
                    if k == entries@[i as int].0@ {
                        assert(entries@[i as int].0@ == k);
                    }
                }
            }
            i = i + 1;
        }
        proof {
            assert forall|k: Seq<char>| out@.dom().contains(k) <==> self.rules@.dom().contains(k) by {
                if self.rules@.dom().contains(k) {
                    assert(has_key(entries@, k));
                    let j = choose|j: int| 0 <= j < entries@.len() && (#[trigger] entries@[j]).0@ == k;
                    assert(entries@[j].0@ == k);
                }
            }
            assert(out@ =~= self.rules@.map_values(|x: HighlightPattern| stripped(x)));
        }
        out
    }
}

// ---------------------------------------------------------------------------
// Merging packs into the rule set
// ---------------------------------------------------------------------------

/// The key prefix of a pack's rules: `pack:<pack>/`.
pub open spec fn pack_prefix(pack: Seq<char>) -> Seq<char> {
    "pack:"@ + pack + "/"@
}

/// Namespaced rule name: `pack:<pack>/<rule>`.
pub open spec fn pack_key(pack: Seq<char>, rule: Seq<char>) -> Seq<char> {
    pack_prefix(pack) + rule
}

pub open spec fn opt_string_view(o: Option<String>) -> Option<Seq<char>> {
    match o {
        Some(s) => Some(s@),
        None => None,
    }
}

/// The pack is enabled and its scope admits the room.
pub open spec fn pack_armed(pack: AlertPack, enabled: Set<Seq<char>>, room: RoomScope) -> bool {
    enabled.contains(pack.name@) && admits_spec(
        pack.scope,
        opt_string_view(room.location),
        room.realm,
        room.tags@,
        room.uid,
    )
}

/// The rules a pack runs with, given the approved hashes.
pub open spec fn effective_spec(pack: AlertPack, hashes: Map<Seq<char>, Seq<char>>) -> Map<
    Seq<char>,
    HighlightPattern,
> {
    if approved_in(hashes, pack.name@, pack.hash@) {
        pack.rules@
    } else {
        pack.rules@.map_values(|x: HighlightPattern| stripped(x))
    }
}

/// `k` is the namespaced key of one of `rules` of pack `pack`.
pub open spec fn is_pack_key(pack: Seq<char>, rules: Map<Seq<char>, HighlightPattern>, k: Seq<char>) -> bool {
    starts_with(k, pack_prefix(pack)) && rules.dom().contains(k.skip(pack_prefix(pack).len() as int))
}

/// `h` with every rule of one pack added under its namespaced key (when the
/// pack is armed).
pub open spec fn merge_one(
    h: Map<Seq<char>, HighlightPattern>,
    pack: AlertPack,
    enabled: Set<Seq<char>>,
    hashes: Map<Seq<char>, Seq<char>>,
    room: RoomScope,
) -> Map<Seq<char>, HighlightPattern> {
    if !pack_armed(pack, enabled, room) {
        h
    } else {
        let eff = effective_spec(pack, hashes);
        Map::new(
            |k: Seq<char>| h.dom().contains(k) || is_pack_key(pack.name@, eff, k),
            |k: Seq<char>|
                if is_pack_key(pack.name@, eff, k) {
                    eff[k.skip(pack_prefix(pack.name@).len() as int)]
                } else {
                    h[k]
                },
        )
    }
}

/// `h` with the packs merged in order (a later pack wins a shared key).
pub open spec fn merge_all(
    h: Map<Seq<char>, HighlightPattern>,
    packs: Seq<AlertPack>,
    enabled: Set<Seq<char>>,
    hashes: Map<Seq<char>, Seq<char>>,
    room: RoomScope,
) -> Map<Seq<char>, HighlightPattern>
    decreases packs.len(),
{
    if packs.len() == 0 {
        h
    } else {
        merge_one(merge_all(h, packs.drop_last(), enabled, hashes, room), packs.last(), enabled, hashes, room)
    }
}

proof fn lemma_pack_key_parts(pack: Seq<char>, rule: Seq<char>)
    ensures
        starts_with(pack_key(pack, rule), pack_prefix(pack)),
        pack_key(pack, rule).skip(pack_prefix(pack).len() as int) == rule,
{
    let k = pack_key(pack, rule);
    assert(k.subrange(0, pack_prefix(pack).len() as int) =~= pack_prefix(pack));
    assert(k.skip(pack_prefix(pack).len() as int) =~= rule);
}

/// Adds one pack's effective rules to `highlights` under namespaced keys.
fn merge_one_exec(
    highlights: &mut RuleMap,
    pack: &AlertPack,
    approvals: &AlertPackApprovals,
    room: &RoomScope,
)
    ensures
        final(highlights)@ == merge_one(
            old(highlights)@,
            *pack,
            approvals.enabled@,
            hashes_view(approvals.approved_hashes@),
            *room,
        ),
{
    let location: Option<&str> = match &room.location {
        Some(l) => Some(l.as_str()),
        None => None,
    };
    if !approvals.is_enabled(pack.name.as_str()) {
        return;
    }
    if !pack.scope.admits(location, room.realm, room.tags.as_slice(), room.uid) {
        return;
    }
    let ghost h0 = highlights@;
    let approved = approvals.is_approved(pack.name.as_str(), pack.hash.as_str());
    let eff = pack.effective_rules(approved);
    let ghost effv = effective_spec(*pack, hashes_view(approvals.approved_hashes@));
    assert(eff@ == effv);
    let entries = eff.entries();
    let ghost prefix = pack_prefix(pack.name@);
    let ghost n = pack.name@;
    let mut i: usize = 0;
    while i < entries.len()
        invariant
            i <= entries@.len(),
            keys_unique(entries@),
            forall|j: int|
                0 <= j < entries@.len() ==> effv.dom().contains((#[trigger] entries@[j]).0@)
                    && effv[entries@[j].0@] == entries@[j].1,
            forall|k: Seq<char>| effv.dom().contains(k) ==> has_key(entries@, k),
            prefix == pack_prefix(n),
            n == pack.name@,
            forall|k: Seq<char>|
                highlights@.dom().contains(k) <==> (h0.dom().contains(k) || exists|j: int|
                    0 <= j < i && k == pack_key(n, (#[trigger] entries@[j]).0@)),
            forall|k: Seq<char>|
                #![trigger highlights@[k]]
                highlights@.dom().contains(k) ==> highlights@[k] == (if exists|j: int|
                    0 <= j < i && k == pack_key(n, (#[trigger] entries@[j]).0@) {
                    effv[k.skip(prefix.len() as int)]
                } else {
                    h0[k]
                }),
        decreases entries.len() - i,
    {
        let key = cat3("pack:", pack.name.as_str(), "/");
        let full = crate::text::cat2(key.as_str(), entries[i].0.as_str());
        assert(full@ == pack_key(n, entries@[i as int].0@));
        let rule = entries[i].1.duplicate();
        let ghost hb = highlights@;
        let ghost fk = full@;
        assert(forall|k: Seq<char>|
                hb.dom().contains(k) <==> (h0.dom().contains(k) || exists|j: int|
                    0 <= j < i && k == pack_key(n, (#[trigger] entries@[j]).0@)));
        highlights.insert(full, rule);
        assert(highlights@ == hb.insert(fk, rule));
        proof {
            lemma_pack_key_parts(n, entries@[i as int].0@);
            assert forall|k: Seq<char>|
                highlights@.dom().contains(k) <==> (h0.dom().contains(k) || exists|j: int|
                    0 <= j < i + 1 && k == pack_key(n, (#[trigger] entries@[j]).0@)) by {
                if k == pack_key(n, entries@[i as int].0@) {
                    assert(0 <= i < i + 1 && k == pack_key(n, entries@[i as int].0@));
                }
                if exists|j: int| 0 <= j < i + 1 && k == pack_key(n, (#[trigger] entries@[j]).0@) {
                    let j = choose|j: int| 0 <= j < i + 1 && k == pack_key(n, (#[trigger] entries@[j]).0@);
                    if j < i {
                        assert(0 <= j < i && k == pack_key(n, entries@[j].0@));
                    }
                }
                if exists|j: int| 0 <= j < i && k == pack_key(n, (#[trigger] entries@[j]).0@) {
                    let j = choose|j: int| 0 <= j < i && k == pack_key(n, (#[trigger] entries@[j]).0@);
                    assert(0 <= j < i + 1 && k == pack_key(n, entries@[j].0@));
                }
            }
            assert forall|k: Seq<char>|
                #![trigger highlights@[k]]
                highlights@.dom().contains(k) implies highlights@[k] == (if exists|j: int|
                    0 <= j < i + 1 && k == pack_key(n, (#[trigger] entries@[j]).0@) {
                    effv[k.skip(prefix.len() as int)]
                } else {
                    h0[k]
                }) by {
                if exists|j: int| 0 <= j < i + 1 && k == pack_key(n, (#[trigger] entries@[j]).0@) {
                    let j = choose|j: int| 0 <= j < i + 1 && k == pack_key(n, (#[trigger] entries@[j]).0@);
                    lemma_pack_key_parts(n, entries@[j].0@);
                    if j < i {
                        assert(0 <= j < i && k == pack_key(n, entries@[j].0@));
                    }
                } else {
                    assert(!(exists|j: int| 0 <= j < i && k == pack_key(n, (#[trigger] entries@[j]).0@)));
                }
            }
        }
        i = i + 1;
    }
    proof {
        let target = merge_one(h0, *pack, approvals.enabled@, hashes_view(approvals.approved_hashes@), *room);
        assert forall|k: Seq<char>|
            (exists|j: int| 0 <= j < entries@.len() && k == pack_key(n, (#[trigger] entries@[j]).0@))
                <==> is_pack_key(n, effv, k) by {
            if exists|j: int| 0 <= j < entries@.len() && k == pack_key(n, (#[trigger] entries@[j]).0@) {
                let j = choose|j: int| 0 <= j < entries@.len() && k == pack_key(n, (#[trigger] entries@[j]).0@);
                lemma_pack_key_parts(n, entries@[j].0@);
            }
            if is_pack_key(n, effv, k) {
                let r = k.skip(prefix.len() as int);
                assert(has_key(entries@, r));
                let j = choose|j: int| 0 <= j < entries@.len() && (#[trigger] entries@[j]).0@ == r;
                assert(k =~= pack_key(n, entries@[j].0@));
            }
        }
        assert(highlights@ =~= target);
    }
}

impl Config {
    /// Merge enabled packs into an existing rule set.
    ///
    /// Rule names are namespaced as `pack:<pack>/<rule>`, so the user's own
    /// rules are never overwritten by a pack. Disabled packs and packs whose
    /// scope does not admit the room contribute nothing; unapproved packs
    /// contribute their rules with rewriting and rerouting withheld.
    pub fn merge_alert_packs(
        highlights: &mut RuleMap,
        packs: &[AlertPack],
        approvals: &AlertPackApprovals,
        room: &RoomScope,
    )
        ensures
            final(highlights)@ == merge_all(
                old(highlights)@,
                packs@,
                approvals.enabled@,
                hashes_view(approvals.approved_hashes@),
                *room,
            ),
    {
        let ghost h0 = highlights@;
        let mut i: usize = 0;
        while i < packs.len()
            invariant
                i <= packs@.len(),
                highlights@ == merge_all(
                    h0,
                    packs@.take(i as int),
                    approvals.enabled@,
                    hashes_view(approvals.approved_hashes@),
                    *room,
                ),
            decreases packs.len() - i,
        {
            merge_one_exec(highlights, &packs[i], approvals, room);
            assert(packs@.take(i + 1).drop_last() =~= packs@.take(i as int));
            i = i + 1;
        }
        assert(packs@.take(packs@.len() as int) =~= packs@);
    }
}

/// A pack never overwrites or removes one of the user's own rules: every
/// key outside the `pack:` namespace keeps its presence and its rule.
pub proof fn packs_never_clobber_personal_rules(
    h: Map<Seq<char>, HighlightPattern>,
    packs: Seq<AlertPack>,
    enabled: Set<Seq<char>>,
    hashes: Map<Seq<char>, Seq<char>>,
    room: RoomScope,
    k: Seq<char>,
)
    requires
        !starts_with(k, "pack:"@),
    ensures
        merge_all(h, packs, enabled, hashes, room).dom().contains(k) == h.dom().contains(k),
        h.dom().contains(k) ==> merge_all(h, packs, enabled, hashes, room)[k] == h[k],
    decreases packs.len(),
{
    if packs.len() > 0 {
        packs_never_clobber_personal_rules(h, packs.drop_last(), enabled, hashes, room, k);
        let name = packs.last().name@;
        if starts_with(k, pack_prefix(name)) {
            assert(k.subrange(0, "pack:"@.len() as int) =~= pack_prefix(name).subrange(0, "pack:"@.len() as int));
            assert(pack_prefix(name).subrange(0, "pack:"@.len() as int) =~= "pack:"@);
        }
    }
}

/// Installed is not enabled: when no pack is enabled, merging changes
/// nothing.
pub proof fn disabled_packs_contribute_nothing(
    h: Map<Seq<char>, HighlightPattern>,
    packs: Seq<AlertPack>,
    enabled: Set<Seq<char>>,
    hashes: Map<Seq<char>, Seq<char>>,
    room: RoomScope,
)
    requires
        forall|i: int| 0 <= i < packs.len() ==> !enabled.contains((#[trigger] packs[i]).name@),
    ensures
        merge_all(h, packs, enabled, hashes, room) == h,
    decreases packs.len(),
{
    if packs.len() > 0 {
        assert(forall|i: int| 0 <= i < packs.drop_last().len() ==> packs.drop_last()[i] == packs[i]);
        disabled_packs_contribute_nothing(h, packs.drop_last(), enabled, hashes, room);
        assert(!enabled.contains(packs[packs.len() - 1].name@));
    }
}

/// A pack whose scope does not admit the room contributes nothing, and an
/// unapproved pack's merged rules never rewrite or reroute.
pub proof fn unapproved_packs_merge_without_sensitive_powers(
    h: Map<Seq<char>, HighlightPattern>,
    pack: AlertPack,
    enabled: Set<Seq<char>>,
    hashes: Map<Seq<char>, Seq<char>>,
    room: RoomScope,
    k: Seq<char>,
)
    requires
        !approved_in(hashes, pack.name@, pack.hash@),
        is_pack_key(pack.name@, effective_spec(pack, hashes), k),
        pack_armed(pack, enabled, room),
    ensures
        merge_one(h, pack, enabled, hashes, room)[k].replace is None,
        merge_one(h, pack, enabled, hashes, room)[k].redirect_to is None,
{
}

/// Names of the rules that rewrite text.
pub open spec fn rewriting_names(rules: Map<Seq<char>, HighlightPattern>) -> Set<Seq<char>> {
    rules.dom().filter(|k: Seq<char>| rules[k].replace is Some)
}

/// Names of the rules that reroute lines.
pub open spec fn rerouting_names(rules: Map<Seq<char>, HighlightPattern>) -> Set<Seq<char>> {
    rules.dom().filter(|k: Seq<char>| rules[k].redirect_to is Some)
}

proof fn lemma_descs_differ(a: HighlightPattern, b: HighlightPattern)
    ensures
        rewrite_desc(a) != reroute_desc(b),
{
    reveal_strlit("rewrites matching text as ");
    reveal_strlit("reroutes matching lines to the ");
    let x = rewrite_desc(a);
    let y = reroute_desc(b);
    assert(x[2] == 'w');
    assert(y[2] == 'r');
}

proof fn lemma_strictly_sorted_no_duplicates(v: Seq<(Seq<char>, Seq<char>)>)
    requires
        strictly_sorted(v),
    ensures
        v.no_duplicates(),
{
    assert forall|i: int, j: int| 0 <= i < v.len() && 0 <= j < v.len() && i != j implies v[i] != v[j] by {
        lemma_pair_lt_facts(v[i], v[j], v[j]);
        lemma_pair_lt_facts(v[j], v[i], v[i]);
        if i < j {
            assert(pair_lt(v[i], v[j]));
        } else {
            assert(pair_lt(v[j], v[i]));
        }
    }
}

/// The approval digest lists each power of each rule once: its length is
/// the number of rewriting rules plus the number of rerouting rules, and
/// every line names a rule of the pack.
pub proof fn the_digest_lists_each_power_once(
    rules: Map<Seq<char>, HighlightPattern>,
    v: Seq<(Seq<char>, Seq<char>)>,
)
    requires
        rules.dom().finite(),
        strictly_sorted(v),
        forall|p: (Seq<char>, Seq<char>)| v.contains(p) <==> sensitive_entry(rules, p),
    ensures
        v.len() == rewriting_names(rules).len() + rerouting_names(rules).len(),
        forall|i: int| 0 <= i < v.len() ==> rules.dom().contains(#[trigger] v[i].0),
{
    broadcast use vstd::set::group_set_axioms, vstd::set_lib::group_set_lib_default;

    assert forall|i: int| 0 <= i < v.len() implies rules.dom().contains(#[trigger] v[i].0) by {
        assert(v.contains(v[i]));
    }
    lemma_strictly_sorted_no_duplicates(v);
    v.unique_seq_to_set();
    let fr = |k: Seq<char>| (k, rewrite_desc(rules[k]));
    let fd = |k: Seq<char>| (k, reroute_desc(rules[k]));
    let kr = rewriting_names(rules);
    let kd = rerouting_names(rules);
    let r = kr.map(fr);
    let d = kd.map(fd);
    rules.dom().lemma_len_filter(|k: Seq<char>| rules[k].replace is Some);
    rules.dom().lemma_len_filter(|k: Seq<char>| rules[k].redirect_to is Some);
    assert(vstd::relations::injective_on(fr, kr));
    assert(vstd::relations::injective_on(fd, kd));
    vstd::set_lib::lemma_map_size(kr, r, fr);
    vstd::set_lib::lemma_map_size(kd, d, fd);
    assert(r.disjoint(d)) by {
        assert forall|p: (Seq<char>, Seq<char>)| r.contains(p) implies !d.contains(p) by {
            if d.contains(p) {
                lemma_descs_differ(rules[p.0], rules[p.0]);
            }
        }
    }
    vstd::set_lib::lemma_set_disjoint_lens(r, d);
    assert forall|p: (Seq<char>, Seq<char>)| #[trigger] v.to_set().contains(p) <==> (r + d).contains(p) by {
        if sensitive_entry(rules, p) {
            if rules[p.0].replace is Some && p.1 == rewrite_desc(rules[p.0]) {
                assert(kr.contains(p.0));
                assert(fr(p.0) == p);
            } else {
                assert(kd.contains(p.0));
                assert(fd(p.0) == p);
            }
        }
        if r.contains(p) {
            let k = choose|k: Seq<char>| kr.contains(k) && fr(k) == p;
            assert(sensitive_entry(rules, p));
        }
        if d.contains(p) {
            let k = choose|k: Seq<char>| kd.contains(k) && fd(k) == p;
            assert(sensitive_entry(rules, p));
        }
    }
    assert(v.to_set() =~= r + d);
}

/// Two strictly sorted digests with the same lines are the same digest, so
/// every call lists the lines in the same order.
pub proof fn the_digest_order_is_fixed(a: Seq<(Seq<char>, Seq<char>)>, b: Seq<(Seq<char>, Seq<char>)>)
    requires
        strictly_sorted(a),
        strictly_sorted(b),
        forall|p: (Seq<char>, Seq<char>)| a.contains(p) <==> b.contains(p),
    ensures
        a == b,
    decreases a.len() + b.len(),
{
    if a.len() == 0 {
        if b.len() > 0 {
            assert(b.contains(b[0]));
        }
        assert(a =~= b);
    } else if b.len() == 0 {
        assert(a.contains(a[0]));
    } else {
        assert(a.contains(a[0]));
        assert(b.contains(b[0]));
        let i = choose|i: int| 0 <= i < a.len() && a[i] == b[0];
        let j = choose|j: int| 0 <= j < b.len() && b[j] == a[0];
        if i > 0 && j > 0 {
            assert(pair_lt(a[0], a[i]));
            assert(pair_lt(b[0], b[j]));
            lemma_pair_lt_facts(a[0], b[0], a[0]);
        }
        assert(a[0] == b[0]) by {
            if i > 0 {
                assert(pair_lt(a[0], a[i]));
                lemma_pair_lt_facts(a[0], a[0], a[0]);
                if j > 0 {
                    assert(pair_lt(b[0], b[j]));
                    lemma_pair_lt_facts(a[0], b[0], a[0]);
                }
            } else if j > 0 {
                assert(pair_lt(b[0], b[j]));
                lemma_pair_lt_facts(b[0], b[0], b[0]);
            }
        }
        let ar = a.subrange(1, a.len() as int);
        let br = b.subrange(1, b.len() as int);
        assert forall|x: int, y: int| 0 <= x < y < ar.len() implies pair_lt(#[trigger] ar[x], #[trigger] ar[y]) by {
            assert(ar[x] == a[x + 1] && ar[y] == a[y + 1]);
        }
        assert forall|x: int, y: int| 0 <= x < y < br.len() implies pair_lt(#[trigger] br[x], #[trigger] br[y]) by {
            assert(br[x] == b[x + 1] && br[y] == b[y + 1]);
        }
        assert forall|p: (Seq<char>, Seq<char>)| ar.contains(p) <==> br.contains(p) by {
            if ar.contains(p) {
                let x = choose|x: int| 0 <= x < ar.len() && ar[x] == p;
                assert(a[x + 1] == p);
                assert(pair_lt(a[0], a[x + 1]));
                lemma_pair_lt_facts(a[0], a[0], a[0]);
                assert(a.contains(p));
                let y = choose|y: int| 0 <= y < b.len() && b[y] == p;
                assert(y != 0);
                assert(br[y - 1] == p);
            }
            if br.contains(p) {
                let x = choose|x: int| 0 <= x < br.len() && br[x] == p;
                assert(b[x + 1] == p);
                assert(pair_lt(b[0], b[x + 1]));
                lemma_pair_lt_facts(b[0], b[0], b[0]);
                assert(b.contains(p));
                let y = choose|y: int| 0 <= y < a.len() && a[y] == p;
                assert(y != 0);
                assert(ar[y - 1] == p);
            }
        }
        the_digest_order_is_fixed(ar, br);
        assert(a =~= seq![a[0]] + ar);
        assert(b =~= seq![b[0]] + br);
    }
}

/// How a pack file's scope table read.
pub enum ScopeParse {
    /// The file has no scope table: the pack applies everywhere.
    Absent,
    Parsed(AlertPackScope),
    /// The scope table is there but malformed: the pack is skipped rather
    /// than taken to apply everywhere.
    Malformed,
}

/// The pack a file holds: named after the file (`NAME.toml` gives
/// `NAME`), identified by the SHA-1 of the file's raw bytes, with the rules
/// and scope read from it. `rules` is `None` when they did not read (the
/// file is not UTF-8 or not valid). No pack comes of a file that is not
/// `NAME.toml`, whose rules did not read, or whose scope is malformed.
pub fn pack_from_file(file_name: &str, bytes: &[u8], rules: Option<RuleMap>, scope: ScopeParse) -> (r:
    Option<AlertPack>)
    ensures
        r is None <==> (saved_name(file_name@) is None || rules is None || scope is Malformed),
        r matches Some(p) ==> {
            &&& p.name@ == saved_name(file_name@)->0
            &&& p.hash@ == sha1_hex(bytes@)
            &&& p.rules@ == rules->0@
            &&& (scope matches ScopeParse::Parsed(s) ==> p.scope == s)
            &&& (scope is Absent ==> unscoped(p.scope))
        },
{
    let name = match saved_name_of(file_name) {
        Some(n) => n,
        None => return None,
    };
    let rules = match rules {
        Some(r) => r,
        None => return None,
    };
    let scope = match scope {
        ScopeParse::Absent => AlertPackScope::default(),
        ScopeParse::Parsed(s) => s,
        ScopeParse::Malformed => return None,
    };
    Some(AlertPack { name, hash: pack_hash(bytes), rules, scope })
}

/// Packs in ascending order of name: no pack is listed before one whose
/// name comes earlier.
pub open spec fn packs_by_name(s: Seq<AlertPack>) -> bool {
    forall|i: int, j: int| 0 <= i < j < s.len() ==> !lex_lt(#[trigger] s[j].name@, #[trigger] s[i].name@)
}

proof fn lemma_name_not_before_transitive(a: Seq<char>, b: Seq<char>, c: Seq<char>)
    requires
        !lex_lt(b, a),
        !lex_lt(c, b),
    ensures
        !lex_lt(c, a),
{
    lemma_lex_total(a, b);
    if lex_lt(c, a) && lex_lt(a, b) {
        lemma_lex_transitive(c, a, b);
    }
}

/// Inserts `p` after every pack whose name does not come after its name.
fn insert_pack(out: &mut Vec<AlertPack>, p: AlertPack)
    requires
        packs_by_name(old(out)@),
    ensures
        packs_by_name(final(out)@),
        final(out)@.to_multiset() == old(out)@.to_multiset().insert(p),
{
    let ghost v0 = out@;
    let ghost x = p;
    let nc = chars_of(p.name.as_str());
    let mut pos: usize = 0;
    while pos < out.len() && !lex_lt_exec(&nc, &chars_of(out[pos].name.as_str()))
        invariant
            pos <= out@.len(),
            v0 == out@,
            nc@ == x.name@,
            forall|j: int| 0 <= j < pos ==> !lex_lt(x.name@, #[trigger] v0[j].name@),
        decreases out.len() - pos,
    {
        pos = pos + 1;
    }
    out.insert(pos, p);
    proof {
        let v1 = out@;
        assert(v1 =~= v0.insert(pos as int, x));
        vstd::seq_lib::to_multiset_insert(v0, pos as int, x);
        assert forall|i: int, j: int| 0 <= i < j < v1.len() implies !lex_lt(#[trigger] v1[j].name@, #[trigger] v1[i].name@) by {
            if j < pos {
                assert(v1[i] == v0[i] && v1[j] == v0[j]);
            } else if j == pos {
                assert(v1[i] == v0[i]);
            } else if i == pos {
                assert(v1[j] == v0[j - 1]);
                lemma_lex_asymmetric(x.name@, v0[pos as int].name@);
                if j - 1 > pos {
                    lemma_name_not_before_transitive(x.name@, v0[pos as int].name@, v0[j - 1].name@);
                }
            } else if i < pos {
                assert(v1[i] == v0[i] && v1[j] == v0[j - 1]);
                lemma_lex_asymmetric(x.name@, v0[pos as int].name@);
                lemma_name_not_before_transitive(v0[i].name@, x.name@, v0[pos as int].name@);
                if j - 1 > pos {
                    lemma_name_not_before_transitive(v0[i].name@, v0[pos as int].name@, v0[j - 1].name@);
                }
            } else {
                assert(v1[i] == v0[i - 1] && v1[j] == v0[j - 1]);
            }
        }
    }
}

/// The packs in ascending order of name.
pub fn sort_packs(packs: Vec<AlertPack>) -> (r: Vec<AlertPack>)
    ensures
        packs_by_name(r@),
        r@.to_multiset() == packs@.to_multiset(),
{
    let ghost orig = packs@;
    let mut rest = packs;
    let mut out: Vec<AlertPack> = Vec::new();
    proof {
        assert(out@.to_multiset().add(rest@.to_multiset()) =~= orig.to_multiset()) by {
            broadcast use vstd::multiset::group_multiset_axioms;
            broadcast use vstd::seq_lib::group_to_multiset_ensures;
        }
    }
    while rest.len() > 0
        invariant
            packs_by_name(out@),
            out@.to_multiset().add(rest@.to_multiset()) == orig.to_multiset(),
        decreases rest@.len(),
    {
        let ghost r0 = rest@;
        let ghost o0 = out@;
        let p = rest.remove(0);
        proof {
            vstd::seq_lib::to_multiset_remove(r0, 0);
            assert(rest@ =~= r0.remove(0));
        }
        insert_pack(&mut out, p);
        proof {
            broadcast use vstd::multiset::group_multiset_axioms;
            broadcast use vstd::seq_lib::group_to_multiset_ensures;
            assert(r0.to_multiset().contains(p));
            assert(out@.to_multiset().add(rest@.to_multiset()) =~= orig.to_multiset());
        }
    }
    proof {
        broadcast use vstd::multiset::group_multiset_axioms;
        broadcast use vstd::seq_lib::group_to_multiset_ensures;
        assert(rest@.to_multiset() =~= vstd::multiset::Multiset::<AlertPack>::empty());
        assert(out@.to_multiset() =~= orig.to_multiset());
    }
    out
}


/// The entries of a pack file other than its scope table (its rules).
pub open spec fn not_scope(p: (Seq<char>, ValueView)) -> bool {
    p.0 != SCOPE_KEY@
}

/// A pack file's top-level entries parted into the scope table the file
/// states (its first `__scope__` entry, if any) and the rules, which are
/// all the other entries in order.
pub fn split_pack_entries(entries: &Vec<(String, SettingValue)>) -> (r: (
    Option<SettingValue>,
    Vec<(String, SettingValue)>,
))
    ensures
        opt_value_view(r.0) == lookup(entries_view(entries@), SCOPE_KEY@),
        entries_view(r.1@) == entries_view(entries@).filter(|p: (Seq<char>, ValueView)| not_scope(p)),
{
    let ghost ev = entries_view(entries@);
    let ghost k = SCOPE_KEY@;
    let ghost f = |p: (Seq<char>, ValueView)| not_scope(p);
    proof {
        lemma_entries_view(entries@);
        assert(ev.skip(0) =~= ev);
        assert(ev.take(0).filter(f) =~= Seq::<(Seq<char>, ValueView)>::empty()) by {
            reveal(Seq::filter);
        }
        assert(entries_view(Seq::<(String, SettingValue)>::empty()) =~= Seq::<(Seq<char>, ValueView)>::empty());
    }
    let mut scope: Option<SettingValue> = None;
    let mut rest: Vec<(String, SettingValue)> = Vec::new();
    let mut i: usize = 0;
    while i < entries.len()
        invariant
            ev == entries_view(entries@),
            ev.len() == entries@.len(),
            forall|x: int| 0 <= x < entries@.len() ==> #[trigger] ev[x] == (entries@[x].0@, entries@[x].1@),
            k == SCOPE_KEY@,
            f == (|p: (Seq<char>, ValueView)| not_scope(p)),
            i <= entries@.len(),
            entries_view(rest@) == ev.take(i as int).filter(f),
            scope is None ==> lookup(ev, k) == lookup(ev.skip(i as int), k),
            scope matches Some(v) ==> lookup(ev, k) == Some(v@),
        decreases entries@.len() - i,
    {
        let ghost sk = ev.skip(i as int);
        proof {
            lemma_filter_step(ev, f, i as int);
            assert(sk[0] == ev[i as int]);
            assert(sk.subrange(1, sk.len() as int) =~= ev.skip(i as int + 1));
        }
        let is_scope = str_eq(entries[i].0.as_str(), SCOPE_KEY);
        if is_scope {
            if scope.is_none() {
                scope = Some(entries[i].1.duplicate());
            }
        } else {
            let e = (entries[i].0.clone(), entries[i].1.duplicate());
            proof {
                lemma_entries_push(rest@, e);
            }
            rest.push(e);
        }
        i = i + 1;
    }
    proof {
        assert(ev.take(i as int) =~= ev);
        assert(ev.skip(i as int).len() == 0);
    }
    (scope, rest)
}

/// The area selector matches on any of its entries: a scope admits every
/// location equal (ignoring ASCII case) to one of its areas, whatever the
/// room's realm, tags and id.
pub proof fn every_listed_area_is_admitted(
    s: AlertPackScope,
    location: Seq<char>,
    realm: Option<u32>,
    tags: Seq<String>,
    uid: Option<i64>,
    i: int,
)
    requires
        0 <= i < s.area@.len(),
        eq_ignore_ascii_case(s.area@[i]@, location),
    ensures
        admits_spec(s, Some(location), realm, tags, uid),
{
    assert(any_eq_ignore_case(s.area@, location));
}

} // verus!
