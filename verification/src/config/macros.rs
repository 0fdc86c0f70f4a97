//! Macro buttons for the web frontend.
//!
//! Buttons live in switchable groups (a rail) or float over the text.
//! A button either sends its `command` on tap or opens a menu of options.
//! Clients only ever name buttons by id, an index path into the current
//! configuration: `g:<group>:b:<button>` or `f:<index>`, each optionally
//! followed by `:o:<option>`. Where a floating button sits on screen is
//! the frontend's business and is not part of this model.

use vstd::prelude::*;
use crate::config::colors::opt_view;
use crate::text::{
    all_digits, chars_of, decimal, is_digit, lemma_decimal_reads_back, lemma_split_on_two, parse_usize,
    parse_usize_spec, split_chars, split_on,
};

verus! {

/// One choice inside a menu button's picker.
#[derive(Debug, Clone, PartialEq)]
pub struct MacroOption {
    pub label: String,
    /// The command sent when chosen.
    pub command: String,
    /// Ask before sending.
    pub confirm: bool,
}

impl Default for MacroOption {
    fn default() -> (r: Self)
        ensures
            r.label@ == Seq::<char>::empty(),
            r.command@ == Seq::<char>::empty(),
            !r.confirm,
    {
        MacroOption { label: String::new(), command: String::new(), confirm: false }
    }
}

/// A macro button: an immediate command, or a menu of options (the
/// options win when both are present).
#[derive(Debug, Clone, PartialEq)]
pub struct MacroButton {
    pub label: String,
    pub command: Option<String>,
    /// Hex color of the button face.
    pub color: Option<String>,
    pub confirm: bool,
    pub options: Vec<MacroOption>,
}

/// A named, switchable set of rail buttons.
#[derive(Debug, Clone, PartialEq)]
pub struct MacroGroup {
    pub name: String,
    pub buttons: Vec<MacroButton>,
}

/// All macro buttons.
#[derive(Debug, Clone, PartialEq)]
pub struct MacrosConfig {
    pub groups: Vec<MacroGroup>,
    pub floating: Vec<MacroButton>,
}

impl Default for MacrosConfig {
    fn default() -> (r: Self)
        ensures
            r.groups@.len() == 0,
            r.floating@.len() == 0,
    {
        MacrosConfig { groups: Vec::new(), floating: Vec::new() }
    }
}

/// The button an id names, with the number of id pieces it used.
pub open spec fn button_named(m: MacrosConfig, parts: Seq<Seq<char>>) -> Option<(MacroButton, int)> {
    if parts.len() >= 4 && parts[0] == "g"@ && parts[2] == "b"@ {
        match (parse_usize_spec(parts[1]), parse_usize_spec(parts[3])) {
            (Some(g), Some(b)) => if g < m.groups@.len() && b < m.groups@[g as int].buttons@.len() {
                Some((m.groups@[g as int].buttons@[b as int], 4))
            } else {
                None
            },
            _ => None,
        }
    } else if parts.len() >= 2 && parts[0] == "f"@ {
        match parse_usize_spec(parts[1]) {
            Some(i) => if i < m.floating@.len() {
                Some((m.floating@[i as int], 2))
            } else {
                None
            },
            None => None,
        }
    } else {
        None
    }
}

/// The command an id resolves to: the button's own command when the id
/// ends at the button, the chosen option's when it goes on with `o:<n>`;
/// nothing for stale or malformed ids.
pub open spec fn resolve_spec(m: MacrosConfig, id: Seq<char>) -> Option<Seq<char>> {
    let parts = split_on(id, ':');
    match button_named(m, parts) {
        None => None,
        Some((button, used)) => {
            let rest = parts.skip(used);
            if rest.len() == 0 {
                opt_view(button.command)
            } else if rest.len() == 2 && rest[0] == "o"@ {
                match parse_usize_spec(rest[1]) {
                    Some(o) => if o < button.options@.len() {
                        Some(button.options@[o as int].command@)
                    } else {
                        None
                    },
                    None => None,
                }
            } else {
                None
            }
        },
    }
}

fn is_word(piece: &Vec<char>, c: char) -> (r: bool)
    ensures
        r == (piece@ == seq![c]),
{
    let r = piece.len() == 1 && piece[0] == c;
    proof {
        if piece@.len() == 1 && piece@[0] == c {
            assert(piece@ =~= seq![c]);
        }
    }
    r
}

impl MacrosConfig {
    /// The command behind a macro id (see `resolve_spec`).
    pub fn resolve(&self, id: &str) -> (r: Option<&str>)
        ensures
            match r {
                Some(c) => resolve_spec(*self, id@) == Some(c@),
                None => resolve_spec(*self, id@) is None,
            },
    {
        let parts = split_chars(&chars_of(id), ':');
        let ghost pv = parts@.map_values(|p: Vec<char>| p@);
        assert(pv == split_on(id@, ':'));
        proof {
            reveal_strlit("g");
            reveal_strlit("b");
            reveal_strlit("f");
            reveal_strlit("o");
            assert("g"@ =~= seq!['g']);
            assert("b"@ =~= seq!['b']);
            assert("f"@ =~= seq!['f']);
            assert("o"@ =~= seq!['o']);
        }
        let n = parts.len();
        let found: Option<(&MacroButton, usize)> = if n >= 4 && is_word(&parts[0], 'g') && is_word(
            &parts[2],
            'b',
        ) {
            match (parse_usize(&parts[1]), parse_usize(&parts[3])) {
                (Some(g), Some(b)) => if g < self.groups.len() && b < self.groups[g].buttons.len() {
                    Some((&self.groups[g].buttons[b], 4))
                } else {
                    None
                },
                _ => None,
            }
        } else if n >= 2 && is_word(&parts[0], 'f') {
            match parse_usize(&parts[1]) {
                Some(i) => if i < self.floating.len() {
                    Some((&self.floating[i], 2))
                } else {
                    None
                },
                None => None,
            }
        } else {
            None
        };
        match found {
            None => None,
            Some((button, used)) => {
                assert(button_named(*self, pv) == Some((*button, used as int)));
                let rest = n - used;
                if rest == 0 {
                    match &button.command {
                        Some(c) => Some(c.as_str()),
                        None => None,
                    }
                } else if rest == 2 && is_word(&parts[used], 'o') {
                    assert(pv.skip(used as int)[0] == pv[used as int]);
                    assert(pv.skip(used as int)[1] == pv[used as int + 1]);
                    match parse_usize(&parts[used + 1]) {
                        Some(o) => if o < button.options.len() {
                            Some(button.options[o].command.as_str())
                        } else {
                            None
                        },
                        None => None,
                    }
                } else {
                    None
                }
            },
        }
    }
}

impl MacrosConfig {
    /// The macros in effect: the character's file when it has one,
    /// otherwise the global file, otherwise none (no merging: a character
    /// that wants tweaks copies the whole file). The caller reads the
    /// files.
    pub fn load(profile: Option<MacrosConfig>, global: Option<MacrosConfig>) -> (r: MacrosConfig)
        ensures
            profile matches Some(p) ==> r == p,
            profile is None ==> (global matches Some(g) ==> r == g),
            profile is None && global is None ==> r.groups@.len() == 0 && r.floating@.len() == 0,
    {
        match profile {
            Some(p) => p,
            None => match global {
                Some(g) => g,
                None => MacrosConfig::default(),
            },
        }
    }
}

/// The id `f:<i>` names the floating button at position `i` (counted from
/// the first): it resolves to that button's command.
pub proof fn a_floating_id_names_the_button_at_its_index(m: MacrosConfig, i: nat)
    requires
        i < m.floating@.len(),
    ensures
        resolve_spec(m, "f:"@ + decimal(i)) == opt_view(m.floating@[i as int].command),
{
    reveal_strlit("f:");
    reveal_strlit("f");
    lemma_decimal_reads_back(i);
    let d = decimal(i);
    assert("f:"@ + d =~= seq!['f'] + seq![':'] + d);
    assert forall|j: int| 0 <= j < d.len() implies d[j] != ':' by {
        assert(is_digit(d[j]));
    }
    lemma_split_on_two(seq!['f'], d, ':');
    let parts = split_on("f:"@ + d, ':');
    assert(parts == seq![seq!['f'], d]);
    assert(parts[0] =~= "f"@);
    assert(d[0] != '+') by {
        assert(is_digit(d[0]));
    }
    assert(m.floating.len() == m.floating@.len());
    assert(i <= usize::MAX);
    assert(parse_usize_spec(d) == Some(i as usize));
    assert(parts.skip(2) =~= Seq::<Seq<char>>::empty());
}

} // verus!
