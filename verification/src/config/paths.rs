//! Where the client keeps its files.
//!
//! Everything lives under one configuration root: a directory the user
//! names explicitly, or `.vellum-fe` in the home directory. Per-character
//! files sit in `profiles/{character}` (`profiles/default` without a
//! character); shared resources sit in `global`, saved layouts in
//! `layouts`. A location is the root plus the path components under it;
//! turning it into an OS path is left to the caller.

use vstd::prelude::*;
use crate::config::Config;
use crate::text::{cat2, chars_of, ends_with, ends_with_exec, lemma_lex_asymmetric,
    lemma_lex_total, lemma_lex_transitive, lex_lt, lex_lt_exec, owned, string_from_chars};

verus! {

/// A file or directory under the configuration root.
#[derive(Debug, Clone, PartialEq)]
pub struct ConfigLocation {
    /// The directory the components are relative to.
    pub root: String,
    /// Path components under `root`, outermost first.
    pub parts: Vec<String>,
}

impl View for ConfigLocation {
    type V = (Seq<char>, Seq<Seq<char>>);

    open spec fn view(&self) -> (Seq<char>, Seq<Seq<char>>) {
        (self.root@, self.parts@.map_values(|p: String| p@))
    }
}

/// Why the configuration root could not be found.
#[derive(Debug, Clone, Copy, PartialEq, Eq)]
pub enum PathError {
    /// No custom directory was given and the home directory is unknown.
    NoHomeDirectory,
}

/// `loc` with `extra` appended to its components.
pub open spec fn under(loc: (Seq<char>, Seq<Seq<char>>), extra: Seq<Seq<char>>) -> (
    Seq<char>,
    Seq<Seq<char>>,
) {
    (loc.0, loc.1 + extra)
}

/// The profile directory name for an optional character.
pub open spec fn profile_name(character: Option<Seq<char>>) -> Seq<char> {
    match character {
        Some(c) => c,
        None => "default"@,
    }
}

/// The view of an optional string slice.
pub open spec fn opt_view(o: Option<&str>) -> Option<Seq<char>> {
    match o {
        Some(s) => Some(s@),
        None => None,
    }
}

impl ConfigLocation {
    /// This location with one more component.
    pub fn join(&self, part: &str) -> (r: ConfigLocation)
        ensures
            r@ == under(self@, seq![part@]),
    {
        let mut parts: Vec<String> = Vec::new();
        let mut i: usize = 0;
        while i < self.parts.len()
            invariant
                i <= self.parts@.len(),
                parts@.len() == i,
                forall|j: int| 0 <= j < i ==> (#[trigger] parts@[j])@ == self.parts@[j]@,
            decreases self.parts@.len() - i,
        {
            parts.push(self.parts[i].clone());
            i = i + 1;
        }
        parts.push(owned(part));
        let r = ConfigLocation { root: self.root.clone(), parts };
        assert(r@.1 =~= self@.1 + seq![part@]);
        r
    }
}

/// The name saved in a file called `file_name`: `NAME` for `NAME.toml`
/// (a name of at least one character), nothing for any other file.
pub open spec fn saved_name(file_name: Seq<char>) -> Option<Seq<char>> {
    if file_name.len() > 5 && ends_with(file_name, ".toml"@) {
        Some(file_name.subrange(0, file_name.len() - 5))
    } else {
        None
    }
}

/// The names saved in a directory holding `file_names`, in listing order.
pub open spec fn saved_names_in(file_names: Seq<Seq<char>>) -> Seq<Seq<char>>
    decreases file_names.len(),
{
    if file_names.len() == 0 {
        Seq::empty()
    } else {
        let rest = saved_names_in(file_names.drop_last());
        match saved_name(file_names.last()) {
            Some(n) => rest.push(n),
            None => rest,
        }
    }
}

/// No name comes before one listed earlier.
pub open spec fn ascending_names(s: Seq<Seq<char>>) -> bool {
    forall|i: int, j: int| 0 <= i < j < s.len() ==> !lex_lt(#[trigger] s[j], #[trigger] s[i])
}

pub open spec fn strings_view(v: Seq<String>) -> Seq<Seq<char>> {
    v.map_values(|s: String| s@)
}

proof fn lemma_name_le_transitive(a: Seq<char>, b: Seq<char>, c: Seq<char>)
    requires
        !lex_lt(b, a),
        !lex_lt(c, b),
    ensures
        !lex_lt(c, a),
{
    lemma_lex_total(a, b);
    if lex_lt(c, a) && lex_lt(a, b) {
        lemma_lex_transitive(c, a, b);
    }
}

pub(crate) fn saved_name_of(file_name: &str) -> (r: Option<String>)
    ensures
        match r {
            Some(n) => saved_name(file_name@) == Some(n@),
            None => saved_name(file_name@) is None,
        },
{
    let chars = chars_of(file_name);
    if chars.len() > 5 && ends_with_exec(&chars, &chars_of(".toml")) {
        let stem = string_from_chars(&chars.as_slice()[0..chars.len() - 5]);
        Some(stem)
    } else {
        None
    }
}

/// Inserts `name` after every name that does not come after it.
fn insert_name(out: &mut Vec<String>, name: String)
    requires
        ascending_names(strings_view(old(out)@)),
    ensures
        ascending_names(strings_view(final(out)@)),
        strings_view(final(out)@).to_multiset() == strings_view(old(out)@).to_multiset().insert(name@),
{
    let ghost v0 = strings_view(out@);
    let nc = chars_of(name.as_str());
    let mut pos: usize = 0;
    while pos < out.len() && !lex_lt_exec(&nc, &chars_of(out[pos].as_str()))
        invariant
            pos <= out@.len(),
            v0 == strings_view(out@),
            nc@ == name@,
            forall|j: int| 0 <= j < pos ==> !lex_lt(name@, #[trigger] v0[j]),
        decreases out.len() - pos,
    {
        pos = pos + 1;
    }
    let ghost x = name@;
    out.insert(pos, name);
    let ghost v1 = strings_view(out@);
    proof {
        assert(v1 =~= v0.insert(pos as int, x));
        vstd::seq_lib::to_multiset_insert(v0, pos as int, x);
        assert forall|i: int, j: int| 0 <= i < j < v1.len() implies !lex_lt(#[trigger] v1[j], #[trigger] v1[i]) by {
            if j < pos {
                assert(v1[i] == v0[i] && v1[j] == v0[j]);
            } else if j == pos {
                assert(v1[i] == v0[i]);
            } else if i == pos {
                assert(v1[j] == v0[j - 1]);
                assert(lex_lt(x, v0[pos as int]));
                lemma_lex_asymmetric(x, v0[pos as int]);
                if j - 1 > pos {
                    lemma_name_le_transitive(x, v0[pos as int], v0[j - 1]);
                }
            } else if i < pos {
                assert(v1[i] == v0[i] && v1[j] == v0[j - 1]);
                lemma_lex_asymmetric(x, v0[pos as int]);
                lemma_name_le_transitive(v0[i], x, v0[pos as int]);
                if j - 1 > pos {
                    lemma_name_le_transitive(v0[i], v0[pos as int], v0[j - 1]);
                }
            } else {
                assert(v1[i] == v0[i - 1] && v1[j] == v0[j - 1]);
            }
        }
    }
}

/// The names saved in a directory holding `file_names` (each `NAME.toml`
/// gives `NAME`), in ascending order.
pub fn saved_names(file_names: &Vec<String>) -> (r: Vec<String>)
    ensures
        ascending_names(strings_view(r@)),
        strings_view(r@).to_multiset() == saved_names_in(strings_view(file_names@)).to_multiset(),
{
    let ghost fv = strings_view(file_names@);
    let mut out: Vec<String> = Vec::new();
    let mut k: usize = 0;
    proof {
        assert(strings_view(out@) =~= Seq::<Seq<char>>::empty());
        assert(fv.subrange(0, 0) =~= Seq::<Seq<char>>::empty());
    }
    while k < file_names.len()
        invariant
            k <= file_names@.len(),
            fv == strings_view(file_names@),
            ascending_names(strings_view(out@)),
            strings_view(out@).to_multiset() == saved_names_in(fv.subrange(0, k as int)).to_multiset(),
        decreases file_names@.len() - k,
    {
        proof {
            assert(fv.subrange(0, k + 1).drop_last() =~= fv.subrange(0, k as int));
            assert(fv.subrange(0, k + 1).last() == fv[k as int]);
        }
        match saved_name_of(file_names[k].as_str()) {
            Some(n) => {
                proof {
                    vstd::seq_lib::to_multiset_build(saved_names_in(fv.subrange(0, k as int)), n@);
                }
                insert_name(&mut out, n);
            },
            None => {},
        }
        k = k + 1;
    }
    proof {
        assert(fv.subrange(0, k as int) =~= fv);
    }
    out
}

impl Config {
    /// The configuration root: `custom_dir` when the user set one,
    /// otherwise `.vellum-fe` under the home directory.
    pub fn base_dir(custom_dir: Option<&str>, home: Option<&str>) -> (r: Result<
        ConfigLocation,
        PathError,
    >)
        ensures
            match custom_dir {
                Some(d) => r matches Ok(loc) && loc@ == (d@, Seq::<Seq<char>>::empty()),
                None => match home {
                    Some(h) => r matches Ok(loc) && loc@ == (h@, seq![".vellum-fe"@]),
                    None => r == Err::<ConfigLocation, PathError>(PathError::NoHomeDirectory),
                },
            },
    {
        match custom_dir {
            Some(d) => {
                let loc = ConfigLocation { root: owned(d), parts: Vec::new() };
                assert(loc@.1 =~= Seq::<Seq<char>>::empty());
                Ok(loc)
            },
            None => match home {
                Some(h) => {
                    let root = ConfigLocation { root: owned(h), parts: Vec::new() };
                    assert(root@.1 =~= Seq::<Seq<char>>::empty());
                    let loc = root.join(".vellum-fe");
                    assert(loc@.1 =~= seq![".vellum-fe"@]);
                    Ok(loc)
                },
                None => Err(PathError::NoHomeDirectory),
            },
        }
    }

    /// `profiles/{character}`, or `profiles/default` without a character.
    pub fn profile_dir(base: &ConfigLocation, character: Option<&str>) -> (r: ConfigLocation)
        ensures
            r@ == under(base@, seq!["profiles"@, profile_name(opt_view(character))]),
    {
        let name = match character {
            Some(c) => c,
            None => "default",
        };
        let r = base.join("profiles").join(name);
        assert(r@.1 =~= base@.1 + seq!["profiles"@, profile_name(opt_view(character))]);
        r
    }

    fn profile_file(base: &ConfigLocation, character: Option<&str>, file: &str) -> (r:
        ConfigLocation)
        ensures
            r@ == under(base@, seq!["profiles"@, profile_name(opt_view(character)), file@]),
    {
        let r = Self::profile_dir(base, character).join(file);
        assert(r@.1 =~= base@.1 + seq!["profiles"@, profile_name(opt_view(character)), file@]);
        r
    }

    fn global_file(base: &ConfigLocation, file: &str) -> (r: ConfigLocation)
        ensures
            r@ == under(base@, seq!["global"@, file@]),
    {
        let r = base.join("global").join(file);
        assert(r@.1 =~= base@.1 + seq!["global"@, file@]);
        r
    }

    /// `profiles/{character}/config.toml`
    pub fn config_path(base: &ConfigLocation, character: Option<&str>) -> (r: ConfigLocation)
        ensures
            r@ == under(base@, seq!["profiles"@, profile_name(opt_view(character)), "config.toml"@]),
    {
        Self::profile_file(base, character, "config.toml")
    }

    /// `profiles/{character}/colors.toml`
    pub fn colors_path(base: &ConfigLocation, character: Option<&str>) -> (r: ConfigLocation)
        ensures
            r@ == under(base@, seq!["profiles"@, profile_name(opt_view(character)), "colors.toml"@]),
    {
        Self::profile_file(base, character, "colors.toml")
    }

    /// `layouts`, where layouts are saved by name.
    pub fn layouts_dir(base: &ConfigLocation) -> (r: ConfigLocation)
        ensures
            r@ == under(base@, seq!["layouts"@]),
    {
        let r = base.join("layouts");
        assert(r@.1 =~= base@.1 + seq!["layouts"@]);
        r
    }

    /// `highlights`, where highlight sets are saved by name.
    pub fn highlights_dir(base: &ConfigLocation) -> (r: ConfigLocation)
        ensures
            r@ == under(base@, seq!["highlights"@]),
    {
        let r = base.join("highlights");
        assert(r@.1 =~= base@.1 + seq!["highlights"@]);
        r
    }

    /// `keybinds`, where keybind sets are saved by name.
    pub fn keybinds_dir(base: &ConfigLocation) -> (r: ConfigLocation)
        ensures
            r@ == under(base@, seq!["keybinds"@]),
    {
        let r = base.join("keybinds");
        assert(r@.1 =~= base@.1 + seq!["keybinds"@]);
        r
    }

    /// `global`, the resources shared by all characters.
    pub fn global_dir(base: &ConfigLocation) -> (r: ConfigLocation)
        ensures
            r@ == under(base@, seq!["global"@]),
    {
        let r = base.join("global");
        assert(r@.1 =~= base@.1 + seq!["global"@]);
        r
    }

    /// The layouts saved in the layouts directory, given its file names.
    pub fn list_layouts(file_names: &Vec<String>) -> (r: Vec<String>)
        ensures
            ascending_names(strings_view(r@)),
            strings_view(r@).to_multiset() == saved_names_in(strings_view(file_names@)).to_multiset(),
    {
        saved_names(file_names)
    }

    /// The keybind sets saved in the keybinds directory, given its file
    /// names.
    pub fn list_saved_keybinds(file_names: &Vec<String>) -> (r: Vec<String>)
        ensures
            ascending_names(strings_view(r@)),
            strings_view(r@).to_multiset() == saved_names_in(strings_view(file_names@)).to_multiset(),
    {
        saved_names(file_names)
    }

    /// `global/sounds`
    pub fn sounds_dir(base: &ConfigLocation) -> (r: ConfigLocation)
        ensures
            r@ == under(base@, seq!["global"@, "sounds"@]),
    {
        Self::global_file(base, "sounds")
    }

    /// `global/highlights.toml`
    pub fn common_highlights_path(base: &ConfigLocation) -> (r: ConfigLocation)
        ensures
            r@ == under(base@, seq!["global"@, "highlights.toml"@]),
    {
        Self::global_file(base, "highlights.toml")
    }

    /// `global/keybinds.toml`
    pub fn common_keybinds_path(base: &ConfigLocation) -> (r: ConfigLocation)
        ensures
            r@ == under(base@, seq!["global"@, "keybinds.toml"@]),
    {
        Self::global_file(base, "keybinds.toml")
    }

    /// `global/colors.toml`
    pub fn common_colors_path(base: &ConfigLocation) -> (r: ConfigLocation)
        ensures
            r@ == under(base@, seq!["global"@, "colors.toml"@]),
    {
        Self::global_file(base, "colors.toml")
    }

    /// `global/config.toml`
    pub fn common_config_path(base: &ConfigLocation) -> (r: ConfigLocation)
        ensures
            r@ == under(base@, seq!["global"@, "config.toml"@]),
    {
        Self::global_file(base, "config.toml")
    }

    /// `profiles/{character}/debug.log`
    pub fn get_log_path(base: &ConfigLocation, character: Option<&str>) -> (r: ConfigLocation)
        ensures
            r@ == under(base@, seq!["profiles"@, profile_name(opt_view(character)), "debug.log"@]),
    {
        Self::profile_file(base, character, "debug.log")
    }

    /// `profiles/{character}/history.txt`
    pub fn history_path(base: &ConfigLocation, character: Option<&str>) -> (r: ConfigLocation)
        ensures
            r@ == under(base@, seq!["profiles"@, profile_name(opt_view(character)), "history.txt"@]),
    {
        Self::profile_file(base, character, "history.txt")
    }

    /// `profiles/{character}/widget_state.toml`
    pub fn widget_state_path(base: &ConfigLocation, character: Option<&str>) -> (r:
        ConfigLocation)
        ensures
            r@ == under(
                base@,
                seq!["profiles"@, profile_name(opt_view(character)), "widget_state.toml"@],
            ),
    {
        Self::profile_file(base, character, "widget_state.toml")
    }

    /// `global/cmdlist1.xml`
    pub fn cmdlist_path(base: &ConfigLocation) -> (r: ConfigLocation)
        ensures
            r@ == under(base@, seq!["global"@, "cmdlist1.xml"@]),
    {
        Self::global_file(base, "cmdlist1.xml")
    }

    /// `global/spell_abbrev.toml`
    pub fn spell_abbrev_path(base: &ConfigLocation) -> (r: ConfigLocation)
        ensures
            r@ == under(base@, seq!["global"@, "spell_abbrev.toml"@]),
    {
        Self::global_file(base, "spell_abbrev.toml")
    }

    /// `profiles/{character}/highlights.toml`
    pub fn highlights_path(base: &ConfigLocation, character: Option<&str>) -> (r:
        ConfigLocation)
        ensures
            r@ == under(
                base@,
                seq!["profiles"@, profile_name(opt_view(character)), "highlights.toml"@],
            ),
    {
        Self::profile_file(base, character, "highlights.toml")
    }

    /// `profiles/{character}/keybinds.toml`
    pub fn keybinds_path(base: &ConfigLocation, character: Option<&str>) -> (r: ConfigLocation)
        ensures
            r@ == under(
                base@,
                seq!["profiles"@, profile_name(opt_view(character)), "keybinds.toml"@],
            ),
    {
        Self::profile_file(base, character, "keybinds.toml")
    }

    /// `profiles/{character}/layout.toml`, the layout saved on exit.
    pub fn auto_layout_path(base: &ConfigLocation, character: Option<&str>) -> (r:
        ConfigLocation)
        ensures
            r@ == under(base@, seq!["profiles"@, profile_name(opt_view(character)), "layout.toml"@]),
    {
        Self::profile_file(base, character, "layout.toml")
    }

    /// `layouts/{name}.toml`, a layout saved by name.
    pub fn layout_path(base: &ConfigLocation, name: &str) -> (r: ConfigLocation)
        ensures
            r@ == under(base@, seq!["layouts"@, name@ + ".toml"@]),
    {
        let file = cat2(name, ".toml");
        let r = base.join("layouts").join(file.as_str());
        assert(r@.1 =~= base@.1 + seq!["layouts"@, name@ + ".toml"@]);
        r
    }

    /// `profiles/{character}/window_registry.toml`
    pub fn window_registry_path(base: &ConfigLocation, character: Option<&str>) -> (r:
        ConfigLocation)
        ensures
            r@ == under(
                base@,
                seq!["profiles"@, profile_name(opt_view(character)), "window_registry.toml"@],
            ),
    {
        Self::profile_file(base, character, "window_registry.toml")
    }
}

/// Without a character, every per-character file is the `default`
/// profile's.
pub proof fn no_character_is_the_default_profile(base: (Seq<char>, Seq<Seq<char>>))
    ensures
        profile_name(opt_view(None)) == "default"@,
        under(base, seq!["profiles"@, profile_name(opt_view(None))]) == under(
            base,
            seq!["profiles"@, profile_name(opt_view(Some("default")))],
        ),
{
}

} // verus!
