//! Bounty text parser for compact display mode.
//!
//! Turns the verbose Adventurer's Guild task text into a compact display of
//! one to four lines. Each task kind is recognised by a regular expression;
//! the patterns are tried in a fixed order and the first that matches
//! decides the lines.

use vstd::prelude::*;
use vstd::string::StringSliceAdditionalSpecFns;
use vstd::utf8::{decode_utf8, encode_utf8, encode_utf8_decode_utf8, is_char_boundary};
use crate::regex_match::{captures, captures_view, group, opt_view, regex_captures, Captures};
use crate::text::{
    cat2, cat3, cat4, char_to_uppercase, chars_of, concat2, contains, contains_exec, last_word,
    last_word_exec, owned, replace_all, replace_all_exec, string_from_chars, trim, trim_chars,
    unicode_uppercase_char,
};

verus! {

/// Compact bounty representation: the non-empty display lines.
#[derive(Debug, Clone)]
pub struct CompactBounty {
    pub lines: Vec<String>,
}

/// The views of a list of strings.
pub open spec fn views(v: Seq<String>) -> Seq<Seq<char>> {
    v.map_values(|s: String| s@)
}

/// Keeps the non-empty lines, in order.
pub open spec fn non_empty(lines: Seq<Seq<char>>) -> Seq<Seq<char>> {
    lines.filter(|l: Seq<char>| l.len() > 0)
}

impl CompactBounty {
    pub open spec fn lines_view(&self) -> Seq<Seq<char>> {
        views(self.lines@)
    }

    /// Keeps the non-empty strings of `lines`.
    fn from_strings(lines: Vec<String>) -> (r: Self)
        ensures
            r.lines_view() == non_empty(views(lines@)),
    {
        let mut out: Vec<String> = Vec::new();
        let mut i: usize = 0;
        while i < lines.len()
            invariant
                i <= lines@.len(),
                views(out@) == non_empty(views(lines@).take(i as int)),
            decreases lines.len() - i,
        {
            proof {
                reveal_with_fuel(Seq::<_>::filter, 1);
                assert(views(lines@).take(i + 1).drop_last() =~= views(lines@).take(i as int));
                assert(views(lines@).take(i + 1).last() == lines@[i as int]@);
            }
            if !lines[i].as_str().is_empty() {
                let l = lines[i].clone();
                let ghost before = out@;
                out.push(l);
                assert(views(out@) =~= views(before).push(lines@[i as int]@));
            }
            i = i + 1;
        }
        assert(views(lines@).take(lines@.len() as int) =~= views(lines@));
        CompactBounty { lines: out }
    }

    /// Keeps the non-empty strings of `lines`.
    fn new(lines: Vec<&str>) -> (r: Self)
        ensures
            r.lines_view() == non_empty(lines@.map_values(|s: &str| s@)),
    {
        let mut owned_lines: Vec<String> = Vec::new();
        let mut i: usize = 0;
        while i < lines.len()
            invariant
                i <= lines@.len(),
                views(owned_lines@) == lines@.map_values(|s: &str| s@).take(i as int),
            decreases lines.len() - i,
        {
            let ghost before = owned_lines@;
            let o = owned(lines[i]);
            owned_lines.push(o);
            assert(views(owned_lines@) =~= views(before).push(lines@[i as int]@));
            assert(lines@.map_values(|s: &str| s@).take(i + 1) =~= lines@.map_values(|s: &str| s@).take(i as int).push(lines@[i as int]@));
            i = i + 1;
            assert(views(owned_lines@) =~= lines@.map_values(|s: &str| s@).take(i as int));
        }
        assert(lines@.map_values(|s: &str| s@).take(lines@.len() as int) =~= lines@.map_values(
            |s: &str| s@,
        ));
        Self::from_strings(owned_lines)
    }
}

// ---------------------------------------------------------------------------
// Creature name shortening
// ---------------------------------------------------------------------------

/// Long creature names and their display forms, tried in this order.
pub const LONG_NAMES: [(&'static str, &'static str); 23] = [
    ("athletic dark-eyed incubus", "dark-eyed incubus"),
    ("behemothic gorefrost golem", "gorefrost golem"),
    ("blackened decaying tumbleweed", "decaying tumbleweed"),
    ("brawny gigas shield-maiden", "gigas shield-maiden"),
    ("cinereous chthonian sybil", "chthonian sybil"),
    ("colossal boreal undansormr", "boreal undansormr"),
    ("darkly inked fetish master", "inked fetish master"),
    ("decaying Citadel guardsman", "Citadel guardsman"),
    ("ethereal triton psionicist", "triton psionicist"),
    ("heavily armored battle mastodon", "battle mastodon"),
    ("immense gold-bristled hinterboar", "immense hinterboar"),
    ("patchwork flesh monstrosity", "flesh monstrosity"),
    ("phantasmal bestial swordsman", "bestial swordsman"),
    ("roiling crimson angargeist", "crimson angargeist"),
    ("rotting Citadel arbalester", "Citadel arbalester"),
    ("savage fork-tongued wendigo", "savage wendigo"),
    ("seething pestilent vision", "pestilent vision"),
    ("spectral triton protector", "triton protector"),
    ("squamous reptilian mutant", "reptilian mutant"),
    ("stunted halfling bloodspeaker", "stunted bloodspeaker"),
    ("withered shadow-cloaked draugr", "withered draugr"),
    ("writhing frost-glazed vine", "frost-glazed vine"),
    ("frost-glazed vine", "frost-glazed vine"),
];

/// The long-name table as text.
pub open spec fn longnames() -> Seq<(Seq<char>, Seq<char>)> {
    LONG_NAMES@.map_values(|p: (&'static str, &'static str)| (p.0@, p.1@))
}

/// The first table entry (from index `k` on) whose long name occurs in
/// `name` rewrites every occurrence of it; with none, `name` is unchanged.
pub open spec fn shorten_from(name: Seq<char>, table: Seq<(Seq<char>, Seq<char>)>, k: int) -> Seq<
    char,
>
    decreases table.len() - k,
{
    if k < 0 || k >= table.len() {
        name
    } else if contains(name, table[k].0) {
        replace_all(name, table[k].0, table[k].1)
    } else {
        shorten_from(name, table, k + 1)
    }
}

/// Shortened display form of a creature name.
pub open spec fn shorten(name: Seq<char>) -> Seq<char> {
    shorten_from(name, longnames(), 0)
}

/// Shorten long creature names for compact display.
fn shorten_creature_name(name: &str) -> (r: String)
    ensures
        r@ == shorten(name@),
{
    let n = chars_of(name);
    let mut k: usize = 0;
    while k < 23
        invariant
            n@ == name@,
            k <= 23,
            LONG_NAMES@.len() == 23,
            shorten_from(name@, longnames(), k as int) == shorten(name@),
        decreases 23 - k,
    {
        let (long, short) = LONG_NAMES[k];
        let long_chars = chars_of(long);
        if contains_exec(&n, &long_chars) {
            if long_chars.len() == 0 {
                return owned(name);
            }
            let r = replace_all_exec(&n, &long_chars, &chars_of(short));
            return string_from_chars(r.as_slice());
        }
        k = k + 1;
    }
    owned(name)
}

// ---------------------------------------------------------------------------
// Patterns, in the order they are tried
// ---------------------------------------------------------------------------

pub const RE_RESCUE_CHILD: &'static str = r"A local divinist has had visions of the child fleeing from (?:a|an) (?P<target>.*?) (?:in|on|near|between|under) (?:the )?(?P<area>.*?)(?:\s(?:near|between|under)|\.)";
pub const RE_SKINNING: &'static str = r"You have been tasked to retrieve (?P<count>\d+) (?P<skin>.*?) of at least (?P<quality>.*?) quality for .*?\.\s+You can SKIN them off the corpse of (?:a|an) (?P<target>.*?) or";
pub const RE_GEM: &'static str = r"received orders from multiple customers requesting (?:a|an|some) (?P<gem>.*?)\..*?You have been tasked to retrieve (?P<count>\d+) (?:more )?of them\..*?You can SELL";
pub const RE_FORAGING: &'static str = r"concoction that requires (?:a |an )?(?P<herb>.*?) found (?:in|on|near) (?:the )?(?P<area>.*?)(?:\s?(?:near|between|under).*\.|\.).*These samples must be in pristine condition\.\s+You have been tasked to retrieve (?P<count>\d+) (?:more )?samples?\.";
pub const RE_BANDIT: &'static str = r"You have been tasked to (?:help )?(?P<name>[a-zA-Z]+)? ?suppress bandit activity (?:in|on|near) (?:the )?(?P<area>.*?)(?:\s?(?:near|between|under)|\.).*You need to kill (?P<count>\d+) (?:more )?of them to complete your task\.";
pub const RE_CULLING: &'static str = r"You have been tasked to.*?(?: help (?P<name>[a-zA-Z]+))?.*?suppress(?:ing)? (?P<target>.+?) activity (?:in|on|near) (?:the )?(?P<area>.*?)(?:\s?(?:near|between|under).*\.|\.).*You need to kill (?P<count>\d+) (?:more )?of them to complete your task\.";
pub const RE_DANGEROUS_PROVOKED: &'static str = r"You have been tasked to hunt down and kill a particularly dangerous (?P<target>.*?) that has established a territory (?:in|on|near) (?:the )?(?P<area>.*?)(?:\s(?:in|on|near|between|under).*\.|\.)\s+ You have provoked";
pub const RE_DANGEROUS: &'static str = r"You have been tasked to hunt down and kill a particularly dangerous (?P<target>.*?) that has established a territory (?:in|on|near) (?:the )?(?P<area>.*?)(?:\s(?:in|on|near|between|under).*\.|\.).*You can";
pub const RE_HEIRLOOM_SEARCH: &'static str = r"You have been tasked to recover (?P<heirloom>.*?) that an unfortunate citizen lost after being attacked by (?:a|an) (?P<target>.*?) (?:in|on|near) (?:the )?(?P<area>.*?)(?:\s(?:in|on|near|between|under)|\.).*The heirloom can be identified by the initials (?P<initials>.*?) engraved upon it\..*?SEARCH the area until you find it\.";
pub const RE_HEIRLOOM_LOOT: &'static str = r"You have been tasked to recover (?P<heirloom>.*?) that an unfortunate citizen lost after being attacked by (?:a|an) (?P<target>.*?) (?:in|on|near) (?:the )?(?P<area>.*?)(?:\s(?:in|on|near|between|under).*\.|\.).*?The heirloom can be identified by the initials (?P<initials>.*?) engraved upon it\..*?Hunt down the creature and LOOT the item from its corpse\.";
pub const RE_ESCORT: &'static str = r"A certain client has hired us to provide a protective escort on .* upcoming journey\..*?Go to the .* and WAIT for .* to meet you there\..*?You must guarantee .* safety to (?P<place>.*?) as soon as you can";
pub const RE_NO_TASK: &'static str = r"You are not currently assigned a task\.";
pub const RE_TURN_IN: &'static str = r"You have succeeded in your task and can return to the Adventurer's Guild to receive your reward\.";
pub const RE_FAILED: &'static str = r"The child you were tasked to rescue is gone and your task is failed\.|You have failed in your task\.  Return to the Adventurer's Guild for further instructions\.";
pub const RE_RETURN_CHILD: &'static str = r"You have made contact with the child";
pub const RE_VISIT_GUARD_HELP_BANDIT: &'static str = r"in order to help (?P<person>.+?) take care of a bandit";
pub const RE_VISIT_GUARD_BANDIT: &'static str = r"It appears they have a bandit problem they'd like you to solve";
pub const RE_VISIT_GUARD_CREATURE: &'static str = r"It appears they have a creature problem they'd like you to solve";
pub const RE_VISIT_GUARD_RESCUE: &'static str = r"urgently needs our help in some matter";
pub const RE_VISIT_GUARD_HEIRLOOM: &'static str = r"It appears they need your help in tracking down some kind of lost heirloom";
pub const RE_VISIT_FURRIER: &'static str = r"The local furrier .* has an order to fill and wants our help\..*?Head over there and see what you can do\.";
pub const RE_VISIT_FORAGER: &'static str = r"The local (?:halfling )?(?P<person>healer|herbalist|alchemist)(?:.s ass.*?)?, .*?, has asked for our aid\..*?Head over there and see what you can do\.";
pub const RE_VISIT_GEMSHOP: &'static str = r"The local gem dealer, .*, has an order to fill and wants our help\..*?Head over there and see what you can do\.";
pub const RE_REPORT_SUCCESS: &'static str = r"You succeeded in your task and should report back to";
pub const RE_RETURN_HEIRLOOM: &'static str = r"You have located (?:a|an|the|some)? .* and should bring it back to";

/// How many patterns are tried.
pub const PATTERN_COUNT: usize = 25;

/// The pattern tried at step `k`.
pub open spec fn pattern_at(k: int) -> Seq<char> {
    if k == 0 { RE_RESCUE_CHILD@ }
    else if k == 1 { RE_SKINNING@ }
    else if k == 2 { RE_GEM@ }
    else if k == 3 { RE_FORAGING@ }
    else if k == 4 { RE_BANDIT@ }
    else if k == 5 { RE_CULLING@ }
    else if k == 6 { RE_DANGEROUS_PROVOKED@ }
    else if k == 7 { RE_DANGEROUS@ }
    else if k == 8 { RE_HEIRLOOM_SEARCH@ }
    else if k == 9 { RE_HEIRLOOM_LOOT@ }
    else if k == 10 { RE_ESCORT@ }
    else if k == 11 { RE_NO_TASK@ }
    else if k == 12 { RE_TURN_IN@ }
    else if k == 13 { RE_FAILED@ }
    else if k == 14 { RE_RETURN_CHILD@ }
    else if k == 15 { RE_VISIT_GUARD_HELP_BANDIT@ }
    else if k == 16 { RE_VISIT_GUARD_BANDIT@ }
    else if k == 17 { RE_VISIT_GUARD_CREATURE@ }
    else if k == 18 { RE_VISIT_GUARD_RESCUE@ }
    else if k == 19 { RE_VISIT_GUARD_HEIRLOOM@ }
    else if k == 20 { RE_VISIT_FURRIER@ }
    else if k == 21 { RE_VISIT_FORAGER@ }
    else if k == 22 { RE_VISIT_GEMSHOP@ }
    else if k == 23 { RE_REPORT_SUCCESS@ }
    else { RE_RETURN_HEIRLOOM@ }
}

fn pattern_str(k: usize) -> (p: &'static str)
    requires
        k < PATTERN_COUNT,
    ensures
        p@ == pattern_at(k as int),
{
    if k == 0 { RE_RESCUE_CHILD }
    else if k == 1 { RE_SKINNING }
    else if k == 2 { RE_GEM }
    else if k == 3 { RE_FORAGING }
    else if k == 4 { RE_BANDIT }
    else if k == 5 { RE_CULLING }
    else if k == 6 { RE_DANGEROUS_PROVOKED }
    else if k == 7 { RE_DANGEROUS }
    else if k == 8 { RE_HEIRLOOM_SEARCH }
    else if k == 9 { RE_HEIRLOOM_LOOT }
    else if k == 10 { RE_ESCORT }
    else if k == 11 { RE_NO_TASK }
    else if k == 12 { RE_TURN_IN }
    else if k == 13 { RE_FAILED }
    else if k == 14 { RE_RETURN_CHILD }
    else if k == 15 { RE_VISIT_GUARD_HELP_BANDIT }
    else if k == 16 { RE_VISIT_GUARD_BANDIT }
    else if k == 17 { RE_VISIT_GUARD_CREATURE }
    else if k == 18 { RE_VISIT_GUARD_RESCUE }
    else if k == 19 { RE_VISIT_GUARD_HEIRLOOM }
    else if k == 20 { RE_VISIT_FURRIER }
    else if k == 21 { RE_VISIT_FORAGER }
    else if k == 22 { RE_VISIT_GEMSHOP }
    else if k == 23 { RE_REPORT_SUCCESS }
    else { RE_RETURN_HEIRLOOM }
}

// ---------------------------------------------------------------------------
// From matches to lines
// ---------------------------------------------------------------------------

/// The named groups of one match, as the specification sees them.
pub type CapView = Seq<(Seq<char>, Option<Seq<char>>)>;

/// Text of a group that is known to have taken part.
pub open spec fn gv(c: CapView, name: Seq<char>) -> Seq<char> {
    match group(c, name) {
        Some(t) => t,
        None => Seq::empty(),
    }
}

/// The first four UTF-8 bytes of the quality word when it is longer than
/// that (byte slicing, as `&quality[..4]` does), else the whole word.
pub open spec fn quality_short(q: Seq<char>) -> Seq<char> {
    if encode_utf8(q).len() > 4 {
        decode_utf8(encode_utf8(q).subrange(0, 4))
    } else {
        q
    }
}

/// `&quality[..4]` needs byte 4 to start a character when it is taken.
pub open spec fn quality_sliceable(q: Seq<char>) -> bool {
    encode_utf8(q).len() > 4 ==> is_char_boundary(encode_utf8(q), 4)
}

/// `"Help <name>"` when a name was captured, else the task title.
pub open spec fn help_title(name: Option<Seq<char>>, title: Seq<char>) -> Seq<char> {
    match name {
        Some(n) => "Help "@ + n,
        None => title,
    }
}

/// The last word of the heirloom description, or `"item"`.
pub open spec fn heirloom_word(h: Seq<char>) -> Seq<char> {
    match last_word(h) {
        Some(w) => w,
        None => "item"@,
    }
}

/// First character upper-cased (full Unicode mapping), the rest unchanged.
pub open spec fn capitalize(s: Seq<char>) -> Seq<char> {
    if s.len() == 0 {
        s
    } else {
        unicode_uppercase_char(s[0]) + s.skip(1)
    }
}

/// Groups each step reads; a match lacking one of them is malformed.
pub open spec fn required_groups(k: int) -> Seq<Seq<char>> {
    if k == 0 { seq!["target"@, "area"@] }
    else if k == 1 { seq!["count"@, "skin"@, "quality"@, "target"@] }
    else if k == 2 { seq!["count"@, "gem"@] }
    else if k == 3 { seq!["herb"@, "count"@, "area"@] }
    else if k == 4 { seq!["count"@, "area"@] }
    else if k == 5 { seq!["target"@, "count"@, "area"@] }
    else if k == 6 || k == 7 { seq!["target"@, "area"@] }
    else if k == 8 || k == 9 { seq!["target"@, "heirloom"@, "initials"@, "area"@] }
    else if k == 10 { seq!["place"@] }
    else if k == 15 || k == 21 { seq!["person"@] }
    else { Seq::empty() }
}

/// The display lines (before empty ones are dropped) for a match of the
/// pattern tried at step `k`.
pub open spec fn lines_for(k: int, c: CapView) -> Seq<Seq<char>> {
    if k == 0 {
        seq!["Rescue Child Task"@, shorten(gv(c, "target"@)), gv(c, "area"@)]
    } else if k == 1 {
        seq![
            "Skinning Task"@,
            gv(c, "count"@) + " "@ + gv(c, "skin"@) + " ("@ + quality_short(gv(c, "quality"@))
                + ")"@,
            shorten(gv(c, "target"@)),
        ]
    } else if k == 2 {
        seq!["Gem Task"@, gv(c, "count"@) + " "@ + gv(c, "gem"@)]
    } else if k == 3 {
        seq!["Foraging Task"@, gv(c, "herb"@) + " ("@ + gv(c, "count"@) + ")"@, gv(c, "area"@)]
    } else if k == 4 {
        seq![
            help_title(group(c, "name"@), "Bandit Task"@),
            gv(c, "count"@) + " Bandits"@,
            gv(c, "area"@),
        ]
    } else if k == 5 {
        seq![
            help_title(group(c, "name"@), "Culling Task"@),
            gv(c, "count"@) + " "@ + shorten(gv(c, "target"@)),
            gv(c, "area"@),
        ]
    } else if k == 6 {
        seq!["Found Dangerous"@, shorten(gv(c, "target"@)), gv(c, "area"@)]
    } else if k == 7 {
        seq!["Dangerous Creature Task"@, shorten(gv(c, "target"@)), gv(c, "area"@)]
    } else if k == 8 || k == 9 {
        seq![
            if k == 8 { "SEARCH Heirloom"@ } else { "LOOT Heirloom"@ },
            shorten(gv(c, "target"@)),
            heirloom_word(gv(c, "heirloom"@)) + " ("@ + gv(c, "initials"@) + ")"@,
            gv(c, "area"@),
        ]
    } else if k == 10 {
        seq!["Escort Task"@, "Escort to "@ + gv(c, "place"@)]
    } else if k == 11 {
        seq!["No task currently"@]
    } else if k == 12 {
        seq!["Turn in task at AG"@]
    } else if k == 13 {
        seq!["FAILED BOUNTY!!"@]
    } else if k == 14 {
        seq!["Return Child to Guard"@]
    } else if k == 15 {
        seq!["Visit Guard"@, "Help "@ + gv(c, "person"@), "Bandits"@]
    } else if k == 16 {
        seq!["Visit Guard"@, "Bandits"@]
    } else if k == 17 {
        seq!["Visit Guard"@, "Creatures"@]
    } else if k == 18 {
        seq!["Visit Guard"@, "Rescue Kid"@]
    } else if k == 19 {
        seq!["Visit Guard"@, "Heirloom Task"@]
    } else if k == 20 {
        seq!["Visit Furrier"@, "Skinning Bounty"@]
    } else if k == 21 {
        seq!["Visit "@ + capitalize(gv(c, "person"@)), "Foraging Bounty"@]
    } else if k == 22 {
        seq!["Visit Gemshop"@, "Gem Bounty"@]
    } else if k == 23 {
        seq!["Visit Guard"@, "Report Success"@]
    } else {
        seq!["Visit Guard"@, "Return Heirloom"@]
    }
}

/// The match of step `k` has what its lines need.
pub open spec fn branch_ok(k: int, c: CapView) -> bool {
    &&& forall|j: int| 0 <= j < required_groups(k).len() ==> (#[trigger] group(
        c,
        required_groups(k)[j],
    )) is Some
    &&& k == 1 ==> quality_sliceable(gv(c, "quality"@))
}

/// Index of the first step (from `from` on) whose pattern matched.
pub open spec fn first_match(m: Seq<Option<CapView>>, from: int) -> int
    decreases m.len() - from,
{
    if from < 0 || from >= m.len() {
        m.len() as int
    } else if m[from] is Some {
        from
    } else {
        first_match(m, from + 1)
    }
}

/// What the compact display is for the outcomes `m` of the patterns.
pub open spec fn compact_spec(m: Seq<Option<CapView>>) -> Option<Seq<Seq<char>>> {
    let k = first_match(m, 0);
    if k >= m.len() {
        None
    } else {
        Some(non_empty(lines_for(k, m[k]->0)))
    }
}

/// The outcomes have the arity of the pattern list, and the first match
/// has the groups its lines read.
pub open spec fn matches_well_formed(m: Seq<Option<CapView>>) -> bool {
    &&& m.len() == PATTERN_COUNT
    &&& first_match(m, 0) < m.len() ==> branch_ok(first_match(m, 0), m[first_match(m, 0)]->0)
}

/// The outcome of every pattern on one normalised text, in trial order.
pub struct BountyMatches {
    pub found: Vec<Option<Captures>>,
}

impl View for BountyMatches {
    type V = Seq<Option<CapView>>;

    open spec fn view(&self) -> Seq<Option<CapView>> {
        self.found@.map_values(|c: Option<Captures>| captures_view(c))
    }
}

fn vec1(a: String) -> (r: Vec<String>)
    ensures
        views(r@) == seq![a@],
{
    let mut v: Vec<String> = Vec::new();
    v.push(a);
    assert(views(v@) =~= seq![a@]);
    v
}

fn vec2(a: String, b: String) -> (r: Vec<String>)
    ensures
        views(r@) == seq![a@, b@],
{
    let mut v: Vec<String> = Vec::new();
    v.push(a);
    v.push(b);
    assert(views(v@) =~= seq![a@, b@]);
    v
}

fn vec3(a: String, b: String, c: String) -> (r: Vec<String>)
    ensures
        views(r@) == seq![a@, b@, c@],
{
    let mut v: Vec<String> = Vec::new();
    v.push(a);
    v.push(b);
    v.push(c);
    assert(views(v@) =~= seq![a@, b@, c@]);
    v
}

fn vec4(a: String, b: String, c: String, d: String) -> (r: Vec<String>)
    ensures
        views(r@) == seq![a@, b@, c@, d@],
{
    let mut v: Vec<String> = Vec::new();
    v.push(a);
    v.push(b);
    v.push(c);
    v.push(d);
    assert(views(v@) =~= seq![a@, b@, c@, d@]);
    v
}

/// Group text of a match known to hold the group.
fn req(c: &Captures, name: &str) -> (r: String)
    requires
        group(c@, name@) is Some,
    ensures
        r@ == gv(c@, name@),
{
    c.get(name).unwrap()
}

/// `&quality[..4]` when longer than four bytes, else the whole word.
fn quality_short_exec(q: &String) -> (r: String)
    requires
        quality_sliceable(q@),
    ensures
        r@ == quality_short(q@),
{
    let s: &str = q.as_str();
    if s.as_bytes().len() > 4 {
        assert(s.spec_bytes() == encode_utf8(q@));
        let (head, _tail) = s.split_at(4);
        proof {
            encode_utf8_decode_utf8(head@);
            assert(head.spec_bytes() == encode_utf8(head@));
            assert(encode_utf8(head@) =~= encode_utf8(q@).subrange(0, 4));
        }
        owned(head)
    } else {
        assert(s.spec_bytes() == encode_utf8(q@));
        q.clone()
    }
}

/// Last word of the heirloom description, or `"item"`.
fn heirloom_word_exec(h: &String) -> (r: String)
    ensures
        r@ == heirloom_word(h@),
{
    match last_word_exec(&chars_of(h.as_str())) {
        Some(w) => string_from_chars(w.as_slice()),
        None => owned("item"),
    }
}

/// Capitalize the first character of a string.
fn capitalize_first(s: &str) -> (r: String)
    ensures
        r@ == capitalize(s@),
{
    let cs = chars_of(s);
    if cs.len() == 0 {
        return String::new();
    }
    let head = char_to_uppercase(cs[0]);
    let mut rest: Vec<char> = Vec::new();
    let mut i: usize = 1;
    while i < cs.len()
        invariant
            1 <= i <= cs@.len(),
            rest@ == cs@.subrange(1, i as int),
        decreases cs.len() - i,
    {
        rest.push(cs[i]);
        i = i + 1;
    }
    assert(rest@ =~= s@.skip(1));
    string_from_chars(concat2(&head, &rest).as_slice())
}

/// `"Help <name>"` when the optional name group took part, else `title`.
fn help_title_exec(c: &Captures, title: &str) -> (r: String)
    ensures
        r@ == help_title(group(c@, "name"@), title@),
{
    match c.get("name") {
        Some(n) => cat2("Help ", n.as_str()),
        None => owned(title),
    }
}

/// Lines for a match of step `k`.
#[verifier::rlimit(50)]
fn lines_for_exec(k: usize, c: &Captures) -> (r: Vec<String>)
    requires
        k < PATTERN_COUNT,
        branch_ok(k as int, c@),
    ensures
        views(r@) == lines_for(k as int, c@),
{
    let ghost req_names = required_groups(k as int);
    assert(forall|j: int| 0 <= j < req_names.len() ==> (#[trigger] group(c@, req_names[j]))
        is Some);
    if k == 0 {
        assert(group(c@, req_names[0]) is Some && group(c@, req_names[1]) is Some);
        let target = req(c, "target");
        vec3(owned("Rescue Child Task"), shorten_creature_name(target.as_str()), req(c, "area"))
    } else if k == 1 {
        assert(group(c@, req_names[0]) is Some && group(c@, req_names[1]) is Some);
        assert(group(c@, req_names[2]) is Some && group(c@, req_names[3]) is Some);
        let count = req(c, "count");
        let skin = req(c, "skin");
        let quality = req(c, "quality");
        let q = quality_short_exec(&quality);
        let left = cat3(count.as_str(), " ", skin.as_str());
        let line = cat4(left.as_str(), " (", q.as_str(), ")");
        let target = req(c, "target");
        vec3(owned("Skinning Task"), line, shorten_creature_name(target.as_str()))
    } else if k == 2 {
        assert(group(c@, req_names[0]) is Some && group(c@, req_names[1]) is Some);
        let count = req(c, "count");
        let gem = req(c, "gem");
        vec2(owned("Gem Task"), cat3(count.as_str(), " ", gem.as_str()))
    } else if k == 3 {
        assert(group(c@, req_names[0]) is Some && group(c@, req_names[1]) is Some);
        assert(group(c@, req_names[2]) is Some);
        let herb = req(c, "herb");
        let count = req(c, "count");
        vec3(
            owned("Foraging Task"),
            cat4(herb.as_str(), " (", count.as_str(), ")"),
            req(c, "area"),
        )
    } else if k == 4 {
        assert(group(c@, req_names[0]) is Some && group(c@, req_names[1]) is Some);
        let count = req(c, "count");
        vec3(
            help_title_exec(c, "Bandit Task"),
            cat2(count.as_str(), " Bandits"),
            req(c, "area"),
        )
    } else if k == 5 {
        assert(group(c@, req_names[0]) is Some && group(c@, req_names[1]) is Some);
        assert(group(c@, req_names[2]) is Some);
        let target = req(c, "target");
        let count = req(c, "count");
        let short = shorten_creature_name(target.as_str());
        vec3(
            help_title_exec(c, "Culling Task"),
            cat3(count.as_str(), " ", short.as_str()),
            req(c, "area"),
        )
    } else if k == 6 || k == 7 {
        assert(group(c@, req_names[0]) is Some && group(c@, req_names[1]) is Some);
        let title = if k == 6 {
            owned("Found Dangerous")
        } else {
            owned("Dangerous Creature Task")
        };
        let target = req(c, "target");
        vec3(title, shorten_creature_name(target.as_str()), req(c, "area"))
    } else if k == 8 || k == 9 {
        assert(group(c@, req_names[0]) is Some && group(c@, req_names[1]) is Some);
        assert(group(c@, req_names[2]) is Some && group(c@, req_names[3]) is Some);
        let title = if k == 8 {
            owned("SEARCH Heirloom")
        } else {
            owned("LOOT Heirloom")
        };
        let target = req(c, "target");
        let heirloom = req(c, "heirloom");
        let initials = req(c, "initials");
        let word = heirloom_word_exec(&heirloom);
        vec4(
            title,
            shorten_creature_name(target.as_str()),
            cat4(word.as_str(), " (", initials.as_str(), ")"),
            req(c, "area"),
        )
    } else if k == 10 {
        assert(group(c@, req_names[0]) is Some);
        let place = req(c, "place");
        vec2(owned("Escort Task"), cat2("Escort to ", place.as_str()))
    } else if k == 11 {
        vec1(owned("No task currently"))
    } else if k == 12 {
        vec1(owned("Turn in task at AG"))
    } else if k == 13 {
        vec1(owned("FAILED BOUNTY!!"))
    } else if k == 14 {
        vec1(owned("Return Child to Guard"))
    } else if k == 15 {
        assert(group(c@, req_names[0]) is Some);
        let person = req(c, "person");
        vec3(owned("Visit Guard"), cat2("Help ", person.as_str()), owned("Bandits"))
    } else if k == 16 {
        vec2(owned("Visit Guard"), owned("Bandits"))
    } else if k == 17 {
        vec2(owned("Visit Guard"), owned("Creatures"))
    } else if k == 18 {
        vec2(owned("Visit Guard"), owned("Rescue Kid"))
    } else if k == 19 {
        vec2(owned("Visit Guard"), owned("Heirloom Task"))
    } else if k == 20 {
        vec2(owned("Visit Furrier"), owned("Skinning Bounty"))
    } else if k == 21 {
        assert(group(c@, req_names[0]) is Some);
        let person = req(c, "person");
        let cap = capitalize_first(person.as_str());
        vec2(cat2("Visit ", cap.as_str()), owned("Foraging Bounty"))
    } else if k == 22 {
        vec2(owned("Visit Gemshop"), owned("Gem Bounty"))
    } else if k == 23 {
        vec2(owned("Visit Guard"), owned("Report Success"))
    } else {
        vec2(owned("Visit Guard"), owned("Return Heirloom"))
    }
}

fn required_names(k: usize) -> (v: Vec<&'static str>)
    ensures
        v@.map_values(|s: &str| s@) == required_groups(k as int),
{
    let v: Vec<&'static str> = if k == 0 {
        vec!["target", "area"]
    } else if k == 1 {
        vec!["count", "skin", "quality", "target"]
    } else if k == 2 {
        vec!["count", "gem"]
    } else if k == 3 {
        vec!["herb", "count", "area"]
    } else if k == 4 {
        vec!["count", "area"]
    } else if k == 5 {
        vec!["target", "count", "area"]
    } else if k == 6 || k == 7 {
        vec!["target", "area"]
    } else if k == 8 || k == 9 {
        vec!["target", "heirloom", "initials", "area"]
    } else if k == 10 {
        vec!["place"]
    } else if k == 15 || k == 21 {
        vec!["person"]
    } else {
        Vec::new()
    };
    assert(v@.map_values(|s: &str| s@) =~= required_groups(k as int));
    v
}

/// Does the match of step `k` have what its lines need?
fn branch_ok_exec(k: usize, c: &Captures) -> (b: bool)
    ensures
        b == branch_ok(k as int, c@),
{
    let names = required_names(k);
    let ghost needed = required_groups(k as int);
    let mut j: usize = 0;
    while j < names.len()
        invariant
            j <= names@.len(),
            names@.map_values(|s: &str| s@) == needed,
            needed == required_groups(k as int),
            forall|i: int| 0 <= i < j ==> (#[trigger] group(c@, needed[i])) is Some,
        decreases names.len() - j,
    {
        assert(names@.map_values(|s: &str| s@)[j as int] == names@[j as int]@);
        if c.get(names[j]).is_none() {
            return false;
        }
        j = j + 1;
    }
    assert(names@.len() == needed.len());
    if k == 1 {
        assert(needed[2] == "quality"@);
        assert(group(c@, needed[2]) is Some);
        let quality = req(c, "quality");
        let s: &str = quality.as_str();
        assert(s.spec_bytes() == encode_utf8(quality@));
        return s.as_bytes().len() <= 4 || s.is_char_boundary(4);
    }
    true
}

proof fn lemma_first_match_props(m: Seq<Option<CapView>>, from: int)
    requires
        0 <= from,
    ensures
        first_match(m, from) == m.len() || (from <= first_match(m, from) < m.len() && m[first_match(m, from)] is Some),
    decreases m.len() - from,
{
    if from < m.len() && m[from] is None {
        lemma_first_match_props(m, from + 1);
    }
}

proof fn lemma_first_match_skip(m: Seq<Option<CapView>>, k: int)
    requires
        0 <= k <= m.len(),
        forall|j: int| 0 <= j < k ==> m[j] is None,
    ensures
        first_match(m, k) == first_match(m, 0),
    decreases k,
{
    if k > 0 {
        lemma_first_match_skip(m, k - 1);
    }
}

impl BountyMatches {
    /// One outcome per pattern, and the first match holds the groups its
    /// lines read.
    pub fn is_well_formed(&self) -> (b: bool)
        ensures
            b == matches_well_formed(self@),
    {
        if self.found.len() != PATTERN_COUNT {
            return false;
        }
        let k = self.first_match();
        if k < PATTERN_COUNT {
            assert(self@[k as int] == captures_view(self.found@[k as int]));
            match &self.found[k] {
                Some(c) => {
                    assert(self@[k as int] == Some(c@));
                    assert(self@[k as int]->0 == c@);
                    branch_ok_exec(k, c)
                },
                None => false,
            }
        } else {
            true
        }
    }

    /// Index of the first pattern that matched, or the number of patterns.
    pub fn first_match(&self) -> (k: usize)
        ensures
            k as int == first_match(self@, 0),
            k <= self@.len(),
            k < self@.len() ==> self@[k as int] is Some,
    {
        let mut k: usize = 0;
        while k < self.found.len() && self.found[k].is_none()
            invariant
                k <= self@.len(),
                self@.len() == self.found@.len(),
                forall|j: int| 0 <= j < k ==> self@[j] is None,
            decreases self.found.len() - k,
        {
            k = k + 1;
        }
        proof {
            lemma_first_match_skip(self@, k as int);
            lemma_first_match_props(self@, 0);
        }
        k
    }
}

pub open spec fn bounty_view(r: Option<CompactBounty>) -> Option<Seq<Seq<char>>> {
    match r {
        Some(b) => Some(b.lines_view()),
        None => None,
    }
}

/// The compact display decided by the pattern outcomes: the lines of the
/// first pattern that matched, empty lines dropped; `None` when none did.
pub fn compact_from_matches(m: &BountyMatches) -> (r: Option<CompactBounty>)
    requires
        matches_well_formed(m@),
    ensures
        bounty_view(r) == compact_spec(m@),
{
    let k = m.first_match();
    if k >= m.found.len() {
        return None;
    }
    assert(m@[k as int] == captures_view(m.found@[k as int]));
    match &m.found[k] {
        Some(c) => {
            assert(m@[k as int] == Some(c@));
            assert(m@[k as int]->0 == c@);
            let lines = lines_for_exec(k, c);
            let r = CompactBounty::from_strings(lines);
            assert(compact_spec(m@) == Some(non_empty(lines_for(k as int, c@))));
            Some(r)
        },
        None => None,
    }
}

/// How the text is normalised before matching: newlines become spaces,
/// double spaces become single ones (one left-to-right pass), and the
/// result is trimmed.
pub open spec fn normalize(text: Seq<char>) -> Seq<char> {
    trim(replace_all(replace_all(text, seq!['\n'], seq![' ']), seq![' ', ' '], seq![' ']))
}

/// The outcome of every pattern on the normalised text.
pub open spec fn outcomes(t: Seq<char>) -> Seq<Option<CapView>> {
    Seq::new(PATTERN_COUNT as nat, |k: int| regex_captures(pattern_at(k), t))
}

/// Parse bounty text and return its compact representation if it matches
/// a known pattern; `None` when it matches none.
///
/// When a match lacks a group its lines read, or the skinning quality
/// cannot be cut at its fourth byte (cases in which an unchecked lookup or
/// slice would panic), the result is `None` as well.
pub fn parse_bounty(text: &str) -> (r: Option<CompactBounty>)
    ensures
        matches_well_formed(outcomes(normalize(text@))) ==> bounty_view(r) == compact_spec(
            outcomes(normalize(text@)),
        ),
        !matches_well_formed(outcomes(normalize(text@))) ==> r is None,
        r matches Some(b) ==> 1 <= b.lines@.len() <= 4 && forall|i: int|
            0 <= i < b.lines@.len() ==> (#[trigger] b.lines@[i])@.len() > 0,
{
    proof {
        compact_bounties_have_one_to_four_lines(outcomes(normalize(text@)));
    }
    let chars = chars_of(text);
    let newline = vec!['\n'];
    let space = vec![' '];
    let double = vec![' ', ' '];
    assert(newline@ =~= seq!['\n'] && space@ =~= seq![' '] && double@ =~= seq![' ', ' ']);
    let spaced = replace_all_exec(&chars, &newline, &space);
    let single = replace_all_exec(&spaced, &double, &space);
    let t = trim_chars(&single);
    let normalized = string_from_chars(t.as_slice());
    let ghost o = outcomes(normalize(text@));
    let mut found: Vec<Option<Captures>> = Vec::new();
    let mut k: usize = 0;
    while k < PATTERN_COUNT
        invariant
            k <= PATTERN_COUNT,
            normalized@ == normalize(text@),
            o == outcomes(normalize(text@)),
            found@.len() == k,
            forall|j: int| 0 <= j < k ==> captures_view(#[trigger] found@[j]) == o[j],
        decreases PATTERN_COUNT - k,
    {
        found.push(captures(pattern_str(k), normalized.as_str()));
        k = k + 1;
    }
    let m = BountyMatches { found };
    assert(m@ =~= o);
    if !m.is_well_formed() {
        return None;
    }
    let r = compact_from_matches(&m);
    proof {
        if r is Some {
            let b = r->0;
            let ls = views(b.lines@);
            assert(ls.len() == b.lines@.len());
            assert forall|i: int| 0 <= i < b.lines@.len() implies (#[trigger] b.lines@[i])@.len() > 0 by {
                assert(ls[i] == b.lines@[i]@);
            }
        }
    }
    r
}

proof fn lemma_lines_for_shape(k: int, c: CapView)
    ensures
        1 <= lines_for(k, c).len() <= 4,
        lines_for(k, c)[0].len() > 0,
{
    reveal_strlit("Rescue Child Task");
    reveal_strlit("Skinning Task");
    reveal_strlit("Gem Task");
    reveal_strlit("Foraging Task");
    reveal_strlit("Bandit Task");
    reveal_strlit("Culling Task");
    reveal_strlit("Help ");
    reveal_strlit("Found Dangerous");
    reveal_strlit("Dangerous Creature Task");
    reveal_strlit("SEARCH Heirloom");
    reveal_strlit("LOOT Heirloom");
    reveal_strlit("Escort Task");
    reveal_strlit("No task currently");
    reveal_strlit("Turn in task at AG");
    reveal_strlit("FAILED BOUNTY!!");
    reveal_strlit("Return Child to Guard");
    reveal_strlit("Visit Guard");
    reveal_strlit("Visit Furrier");
    reveal_strlit("Visit ");
    reveal_strlit("Visit Gemshop");
}

/// A compact bounty has one to four lines, none of them empty.
pub proof fn compact_bounties_have_one_to_four_lines(m: Seq<Option<CapView>>)
    ensures
        compact_spec(m) matches Some(ls) ==> 1 <= ls.len() <= 4 && forall|i: int|
            0 <= i < ls.len() ==> (#[trigger] ls[i]).len() > 0,
{
    let k = first_match(m, 0);
    if k < m.len() {
        let c = m[k]->0;
        lemma_lines_for_shape(k, c);
        let ls = lines_for(k, c);
        let p = |l: Seq<char>| l.len() > 0;
        ls.filter_lemma(p);
        ls.lemma_filter_len(p);
        assert(ls.filter(p).contains(ls[0]));
        assert(non_empty(ls) == ls.filter(p));
    }
}

proof fn lemma_first_line_kept(ls: Seq<Seq<char>>)
    requires
        ls.len() > 0,
        ls[0].len() > 0,
    ensures
        non_empty(ls).len() > 0,
        non_empty(ls)[0] == ls[0],
{
    let p = |l: Seq<char>| l.len() > 0;
    let head = ls.take(1);
    let tail = ls.skip(1);
    assert(ls =~= head + tail);
    Seq::filter_distributes_over_add(head, tail, p);
    assert(head.filter(p) == seq![ls[0]]) by {
        reveal(Seq::filter);
        assert(head.drop_last() =~= Seq::<Seq<char>>::empty());
        assert(head.last() == ls[0]);
        assert(Seq::<Seq<char>>::empty().filter(p) =~= Seq::<Seq<char>>::empty());
    }
    assert(non_empty(ls) == seq![ls[0]] + tail.filter(p));
}

/// An heirloom bounty is titled by how the heirloom is to be got back:
/// when the first pattern that matches the text is the one for an
/// heirloom to SEARCH the area for, the compact display opens with
/// "SEARCH Heirloom"; when it is the one for an heirloom to LOOT from the
/// creature, it opens with "LOOT Heirloom".
pub proof fn heirloom_bounties_are_titled_by_how_to_recover_them(t: Seq<char>)
    ensures
        pattern_at(8) == RE_HEIRLOOM_SEARCH@,
        pattern_at(9) == RE_HEIRLOOM_LOOT@,
        first_match(outcomes(t), 0) == 8 ==> (compact_spec(outcomes(t)) matches Some(ls) && ls.len() > 0
            && ls[0] == "SEARCH Heirloom"@),
        first_match(outcomes(t), 0) == 9 ==> (compact_spec(outcomes(t)) matches Some(ls) && ls.len() > 0
            && ls[0] == "LOOT Heirloom"@),
{
    let m = outcomes(t);
    let k = first_match(m, 0);
    if k == 8 || k == 9 {
        let c = m[k]->0;
        lemma_lines_for_shape(k, c);
        lemma_first_line_kept(lines_for(k, c));
    }
}

} // verus!
