//! Layered settings and sparse saves, on settings trees.
//!
//! Loading layers per leaf: the built-in defaults, then the global file,
//! then the character's file; a file overrides only the keys it states.
//! Saving is the inverse: a file states only the keys where its settings
//! differ from the layer below. A setting that the layer below states and
//! this one clears is written as the empty string (the format has no null),
//! and loading turns that mark back into "not set" for the settings that
//! are optional text.
//!
//! Tables keep their keys in ascending order, so two trees are equal exactly
//! when they hold the same settings.

use vstd::prelude::*;
use crate::text::{chars_of, lemma_lex_asymmetric, lemma_lex_irreflexive, lemma_lex_total,
    lemma_lex_transitive, lex_lt, lex_lt_exec, str_eq, cat3};

verus! {

/// A settings value as a settings file holds it.
#[derive(Debug, PartialEq)]
pub enum SettingValue {
    Text(String),
    Integer(i64),
    Boolean(bool),
    /// A floating-point value, by its TOML representation (as in `0.25`,
    /// `1.0` or `inf`).
    Float(String),
    /// A date or time, as written.
    Datetime(String),
    Array(Vec<SettingValue>),
    /// Keys with their values, keys ascending and each once.
    Table(Vec<(String, SettingValue)>),
}

/// A settings value with its strings taken by their views.
pub enum ValueView {
    Text(Seq<char>),
    Integer(i64),
    Boolean(bool),
    Float(Seq<char>),
    Datetime(Seq<char>),
    Array(Seq<ValueView>),
    Table(Seq<(Seq<char>, ValueView)>),
}

pub open spec fn value_view(v: SettingValue) -> ValueView
    decreases v,
{
    match v {
        SettingValue::Text(s) => ValueView::Text(s@),
        SettingValue::Integer(i) => ValueView::Integer(i),
        SettingValue::Boolean(b) => ValueView::Boolean(b),
        SettingValue::Float(f) => ValueView::Float(f@),
        SettingValue::Datetime(s) => ValueView::Datetime(s@),
        SettingValue::Array(items) => ValueView::Array(items_view(items@)),
        SettingValue::Table(entries) => ValueView::Table(entries_view(entries@)),
    }
}

pub open spec fn items_view(s: Seq<SettingValue>) -> Seq<ValueView>
    decreases s,
{
    if s.len() == 0 {
        Seq::empty()
    } else {
        items_view(s.subrange(0, s.len() - 1)).push(value_view(s[s.len() - 1]))
    }
}

pub open spec fn entries_view(s: Seq<(String, SettingValue)>) -> Seq<(Seq<char>, ValueView)>
    decreases s,
{
    if s.len() == 0 {
        Seq::empty()
    } else {
        entries_view(s.subrange(0, s.len() - 1)).push(
            (s[s.len() - 1].0@, value_view(s[s.len() - 1].1)),
        )
    }
}

impl View for SettingValue {
    type V = ValueView;

    open spec fn view(&self) -> ValueView {
        value_view(*self)
    }
}

pub(crate) proof fn lemma_items_view(s: Seq<SettingValue>)
    ensures
        items_view(s).len() == s.len(),
        forall|i: int| 0 <= i < s.len() ==> #[trigger] items_view(s)[i] == value_view(s[i]),
    decreases s.len(),
{
    if s.len() > 0 {
        lemma_items_view(s.subrange(0, s.len() - 1));
    }
}

pub(crate) proof fn lemma_entries_view(s: Seq<(String, SettingValue)>)
    ensures
        entries_view(s).len() == s.len(),
        forall|i: int|
            0 <= i < s.len() ==> #[trigger] entries_view(s)[i] == (s[i].0@, value_view(s[i].1)),
    decreases s.len(),
{
    if s.len() > 0 {
        lemma_entries_view(s.subrange(0, s.len() - 1));
    }
}

/// Keys strictly ascending.
pub open spec fn keys_ascending(s: Seq<(Seq<char>, ValueView)>) -> bool {
    forall|i: int, j: int| 0 <= i < j < s.len() ==> lex_lt(#[trigger] s[i].0, #[trigger] s[j].0)
}

/// Every table of the tree, nested ones included, has its keys ascending.
pub open spec fn well_formed(v: ValueView) -> bool
    decreases v,
{
    match v {
        ValueView::Table(t) => keys_ascending(t) && entries_well_formed(t),
        _ => true,
    }
}

pub open spec fn entries_well_formed(s: Seq<(Seq<char>, ValueView)>) -> bool
    decreases s,
{
    if s.len() == 0 {
        true
    } else {
        well_formed(s[0].1) && entries_well_formed(s.subrange(1, s.len() as int))
    }
}

/// The dotted name of `key` inside the table at `path`.
pub open spec fn dotted(path: Seq<char>, key: Seq<char>) -> Seq<char> {
    if path.len() == 0 {
        key
    } else {
        path + "."@ + key
    }
}

/// `overlay` layered over `base`: tables merge key by key, anything else
/// the overlay states replaces the base's value whole.
pub open spec fn merge_values(b: ValueView, o: ValueView) -> ValueView
    decreases b, o,
{
    match (b, o) {
        (ValueView::Table(bt), ValueView::Table(ot)) => ValueView::Table(merge_entries(bt, ot)),
        _ => o,
    }
}

/// Two ascending tables merged: keys of either, a key of both merged.
pub open spec fn merge_entries(bs: Seq<(Seq<char>, ValueView)>, os: Seq<(Seq<char>, ValueView)>) -> Seq<
    (Seq<char>, ValueView),
>
    decreases bs, os,
{
    if bs.len() == 0 {
        os
    } else if os.len() == 0 {
        bs
    } else if bs[0].0 == os[0].0 {
        seq![(bs[0].0, merge_values(bs[0].1, os[0].1))] + merge_entries(
            bs.subrange(1, bs.len() as int),
            os.subrange(1, os.len() as int),
        )
    } else if lex_lt(bs[0].0, os[0].0) {
        seq![bs[0]] + merge_entries(bs.subrange(1, bs.len() as int), os)
    } else {
        seq![os[0]] + merge_entries(bs, os.subrange(1, os.len() as int))
    }
}

/// What `config` states differently from `base`, or `None` when nothing
/// differs. A registered key that the base states and `config` omits is
/// written as the empty text.
pub open spec fn diff_values(c: ValueView, b: ValueView, path: Seq<char>, registered: Seq<Seq<char>>) -> Option<
    ValueView,
>
    decreases c, b,
{
    match (c, b) {
        (ValueView::Table(ct), ValueView::Table(bt)) => {
            let out = diff_entries(ct, bt, path, registered);
            if out.len() == 0 {
                None
            } else {
                Some(ValueView::Table(out))
            }
        },
        _ => if c == b {
            None
        } else {
            Some(c)
        },
    }
}

/// The empty text: how a cleared setting is written.
pub open spec fn cleared_mark() -> ValueView {
    ValueView::Text(Seq::empty())
}

pub open spec fn diff_entries(
    cs: Seq<(Seq<char>, ValueView)>,
    bs: Seq<(Seq<char>, ValueView)>,
    path: Seq<char>,
    registered: Seq<Seq<char>>,
) -> Seq<(Seq<char>, ValueView)>
    decreases cs, bs,
{
    if cs.len() == 0 && bs.len() == 0 {
        Seq::empty()
    } else if bs.len() == 0 || (cs.len() > 0 && lex_lt(cs[0].0, bs[0].0)) {
        seq![cs[0]] + diff_entries(cs.subrange(1, cs.len() as int), bs, path, registered)
    } else if cs.len() == 0 || lex_lt(bs[0].0, cs[0].0) {
        (if registered.contains(dotted(path, bs[0].0)) {
            seq![(bs[0].0, cleared_mark())]
        } else {
            Seq::empty()
        }) + diff_entries(cs, bs.subrange(1, bs.len() as int), path, registered)
    } else {
        (match diff_values(cs[0].1, bs[0].1, dotted(path, cs[0].0), registered) {
            Some(d) => seq![(cs[0].0, d)],
            None => Seq::empty(),
        }) + diff_entries(
            cs.subrange(1, cs.len() as int),
            bs.subrange(1, bs.len() as int),
            path,
            registered,
        )
    }
}

/// The tree without the cleared marks of optional text settings.
pub open spec fn scrub_value(v: ValueView, path: Seq<char>, optional: Seq<Seq<char>>) -> ValueView
    decreases v,
{
    match v {
        ValueView::Table(t) => ValueView::Table(scrub_entries(t, path, optional)),
        _ => v,
    }
}

pub open spec fn scrub_entries(
    s: Seq<(Seq<char>, ValueView)>,
    path: Seq<char>,
    optional: Seq<Seq<char>>,
) -> Seq<(Seq<char>, ValueView)>
    decreases s,
{
    if s.len() == 0 {
        Seq::empty()
    } else {
        (if s[0].1 == cleared_mark() && optional.contains(dotted(path, s[0].0)) {
            Seq::empty()
        } else {
            seq![(s[0].0, scrub_value(s[0].1, dotted(path, s[0].0), optional))]
        }) + scrub_entries(s.subrange(1, s.len() as int), path, optional)
    }
}

/// No optional text setting of the tree holds the cleared mark.
pub open spec fn no_cleared_marks(v: ValueView, path: Seq<char>, optional: Seq<Seq<char>>) -> bool
    decreases v,
{
    match v {
        ValueView::Table(t) => entries_no_cleared_marks(t, path, optional),
        _ => true,
    }
}

pub open spec fn entries_no_cleared_marks(
    s: Seq<(Seq<char>, ValueView)>,
    path: Seq<char>,
    optional: Seq<Seq<char>>,
) -> bool
    decreases s,
{
    if s.len() == 0 {
        true
    } else {
        &&& !(s[0].1 == cleared_mark() && optional.contains(dotted(path, s[0].0)))
        &&& no_cleared_marks(s[0].1, dotted(path, s[0].0), optional)
        &&& entries_no_cleared_marks(s.subrange(1, s.len() as int), path, optional)
    }
}

/// Every setting that `base` states and `config` omits (at any depth where
/// both hold a table) is registered and optional text.
pub open spec fn omissions_are_cleared_options(
    c: ValueView,
    b: ValueView,
    path: Seq<char>,
    registered: Seq<Seq<char>>,
    optional: Seq<Seq<char>>,
) -> bool
    decreases c, b,
{
    match (c, b) {
        (ValueView::Table(ct), ValueView::Table(bt)) => entries_omissions_are_cleared_options(
            ct,
            bt,
            path,
            registered,
            optional,
        ),
        _ => true,
    }
}

pub open spec fn entries_omissions_are_cleared_options(
    cs: Seq<(Seq<char>, ValueView)>,
    bs: Seq<(Seq<char>, ValueView)>,
    path: Seq<char>,
    registered: Seq<Seq<char>>,
    optional: Seq<Seq<char>>,
) -> bool
    decreases cs, bs,
{
    if cs.len() == 0 && bs.len() == 0 {
        true
    } else if bs.len() == 0 || (cs.len() > 0 && lex_lt(cs[0].0, bs[0].0)) {
        entries_omissions_are_cleared_options(
            cs.subrange(1, cs.len() as int),
            bs,
            path,
            registered,
            optional,
        )
    } else if cs.len() == 0 || lex_lt(bs[0].0, cs[0].0) {
        &&& registered.contains(dotted(path, bs[0].0))
        &&& optional.contains(dotted(path, bs[0].0))
        &&& entries_omissions_are_cleared_options(
            cs,
            bs.subrange(1, bs.len() as int),
            path,
            registered,
            optional,
        )
    } else {
        &&& omissions_are_cleared_options(cs[0].1, bs[0].1, dotted(path, cs[0].0), registered, optional)
        &&& entries_omissions_are_cleared_options(
            cs.subrange(1, cs.len() as int),
            bs.subrange(1, bs.len() as int),
            path,
            registered,
            optional,
        )
    }
}

/// The base with a saved difference layered over it.
pub open spec fn layered(b: ValueView, d: Option<ValueView>) -> ValueView {
    match d {
        Some(x) => merge_values(b, x),
        None => b,
    }
}

pub open spec fn all_keys_after(s: Seq<(Seq<char>, ValueView)>, k: Seq<char>) -> bool {
    forall|i: int| 0 <= i < s.len() ==> lex_lt(k, #[trigger] s[i].0)
}

proof fn lemma_scrub_identity(v: ValueView, path: Seq<char>, optional: Seq<Seq<char>>)
    requires
        no_cleared_marks(v, path, optional),
    ensures
        scrub_value(v, path, optional) == v,
    decreases v, 0int,
{
    if let ValueView::Table(t) = v {
        lemma_scrub_entries_identity(t, path, optional);
    }
}

proof fn lemma_scrub_entries_identity(
    s: Seq<(Seq<char>, ValueView)>,
    path: Seq<char>,
    optional: Seq<Seq<char>>,
)
    requires
        entries_no_cleared_marks(s, path, optional),
    ensures
        scrub_entries(s, path, optional) == s,
    decreases s, 0int,
{
    if s.len() > 0 {
        let rest = s.subrange(1, s.len() as int);
        lemma_scrub_identity(s[0].1, dotted(path, s[0].0), optional);
        lemma_scrub_entries_identity(rest, path, optional);
        assert(scrub_entries(s, path, optional) =~= s);
    }
}

proof fn lemma_lex_distinct(a: Seq<char>, b: Seq<char>)
    requires
        lex_lt(a, b),
    ensures
        a != b,
        !lex_lt(b, a),
{
    lemma_lex_irreflexive(a);
    lemma_lex_asymmetric(a, b);
}

proof fn lemma_ascending_tail(s: Seq<(Seq<char>, ValueView)>)
    requires
        s.len() > 0,
        keys_ascending(s),
    ensures
        keys_ascending(s.subrange(1, s.len() as int)),
        all_keys_after(s.subrange(1, s.len() as int), s[0].0),
{
    let rest = s.subrange(1, s.len() as int);
    assert forall|i: int, j: int| 0 <= i < j < rest.len() implies lex_lt(
        #[trigger] rest[i].0,
        #[trigger] rest[j].0,
    ) by {
        assert(rest[i] == s[i + 1] && rest[j] == s[j + 1]);
    }
    assert forall|i: int| 0 <= i < rest.len() implies lex_lt(s[0].0, #[trigger] rest[i].0) by {
        assert(rest[i] == s[i + 1]);
    }
}

proof fn lemma_diff_entries_after(
    cs: Seq<(Seq<char>, ValueView)>,
    bs: Seq<(Seq<char>, ValueView)>,
    path: Seq<char>,
    registered: Seq<Seq<char>>,
    k: Seq<char>,
)
    requires
        all_keys_after(cs, k),
        all_keys_after(bs, k),
    ensures
        all_keys_after(diff_entries(cs, bs, path, registered), k),
    decreases cs, bs,
{
    let out = diff_entries(cs, bs, path, registered);
    if cs.len() == 0 && bs.len() == 0 {
    } else if bs.len() == 0 || (cs.len() > 0 && lex_lt(cs[0].0, bs[0].0)) {
        let cr = cs.subrange(1, cs.len() as int);
        assert forall|i: int| 0 <= i < cr.len() implies lex_lt(k, #[trigger] cr[i].0) by {
            assert(cr[i] == cs[i + 1]);
        }
        lemma_diff_entries_after(cr, bs, path, registered, k);
        let rest = diff_entries(cr, bs, path, registered);
        assert forall|i: int| 0 <= i < out.len() implies lex_lt(k, #[trigger] out[i].0) by {
            if i > 0 {
                assert(out[i] == rest[i - 1]);
            }
        }
    } else if cs.len() == 0 || lex_lt(bs[0].0, cs[0].0) {
        let br = bs.subrange(1, bs.len() as int);
        assert forall|i: int| 0 <= i < br.len() implies lex_lt(k, #[trigger] br[i].0) by {
            assert(br[i] == bs[i + 1]);
        }
        lemma_diff_entries_after(cs, br, path, registered, k);
        let rest = diff_entries(cs, br, path, registered);
        let head: Seq<(Seq<char>, ValueView)> = if registered.contains(dotted(path, bs[0].0)) {
            seq![(bs[0].0, cleared_mark())]
        } else {
            Seq::empty()
        };
        assert(out == head + rest);
        assert forall|i: int| 0 <= i < out.len() implies lex_lt(k, #[trigger] out[i].0) by {
            if i >= head.len() {
                assert(out[i] == rest[i - head.len()]);
            }
        }
    } else {
        let cr = cs.subrange(1, cs.len() as int);
        let br = bs.subrange(1, bs.len() as int);
        assert forall|i: int| 0 <= i < cr.len() implies lex_lt(k, #[trigger] cr[i].0) by {
            assert(cr[i] == cs[i + 1]);
        }
        assert forall|i: int| 0 <= i < br.len() implies lex_lt(k, #[trigger] br[i].0) by {
            assert(br[i] == bs[i + 1]);
        }
        lemma_diff_entries_after(cr, br, path, registered, k);
        let rest = diff_entries(cr, br, path, registered);
        let head: Seq<(Seq<char>, ValueView)> = match diff_values(
            cs[0].1,
            bs[0].1,
            dotted(path, cs[0].0),
            registered,
        ) {
            Some(d) => seq![(cs[0].0, d)],
            None => Seq::empty(),
        };
        assert(out == head + rest);
        assert forall|i: int| 0 <= i < out.len() implies lex_lt(k, #[trigger] out[i].0) by {
            if i >= head.len() {
                assert(out[i] == rest[i - head.len()]);
            }
        }
    }
}

proof fn lemma_no_diff_means_equal(
    c: ValueView,
    b: ValueView,
    path: Seq<char>,
    registered: Seq<Seq<char>>,
    optional: Seq<Seq<char>>,
)
    requires
        omissions_are_cleared_options(c, b, path, registered, optional),
        diff_values(c, b, path, registered) is None,
    ensures
        c == b,
    decreases c, b,
{
    if let (ValueView::Table(ct), ValueView::Table(bt)) = (c, b) {
        lemma_no_entry_diff_means_equal(ct, bt, path, registered, optional);
    }
}

proof fn lemma_no_entry_diff_means_equal(
    cs: Seq<(Seq<char>, ValueView)>,
    bs: Seq<(Seq<char>, ValueView)>,
    path: Seq<char>,
    registered: Seq<Seq<char>>,
    optional: Seq<Seq<char>>,
)
    requires
        entries_omissions_are_cleared_options(cs, bs, path, registered, optional),
        diff_entries(cs, bs, path, registered).len() == 0,
    ensures
        cs == bs,
    decreases cs, bs,
{
    if cs.len() == 0 && bs.len() == 0 {
    } else if bs.len() == 0 || (cs.len() > 0 && lex_lt(cs[0].0, bs[0].0)) {
        assert(diff_entries(cs, bs, path, registered).len() > 0);
    } else if cs.len() == 0 || lex_lt(bs[0].0, cs[0].0) {
        assert(diff_entries(cs, bs, path, registered).len() > 0);
    } else {
        let cr = cs.subrange(1, cs.len() as int);
        let br = bs.subrange(1, bs.len() as int);
        lemma_lex_total(cs[0].0, bs[0].0);
        let d = diff_values(cs[0].1, bs[0].1, dotted(path, cs[0].0), registered);
        assert(d is None);
        lemma_no_diff_means_equal(cs[0].1, bs[0].1, dotted(path, cs[0].0), registered, optional);
        lemma_no_entry_diff_means_equal(cr, br, path, registered, optional);
        assert(cs =~= seq![cs[0]] + cr);
        assert(bs =~= seq![bs[0]] + br);
    }
}

proof fn lemma_round_trip(
    c: ValueView,
    b: ValueView,
    path: Seq<char>,
    registered: Seq<Seq<char>>,
    optional: Seq<Seq<char>>,
)
    requires
        well_formed(c),
        well_formed(b),
        no_cleared_marks(c, path, optional),
        omissions_are_cleared_options(c, b, path, registered, optional),
    ensures
        scrub_value(layered(b, diff_values(c, b, path, registered)), path, optional) == c,
    decreases c, b, 1int,
{
    match (c, b) {
        (ValueView::Table(ct), ValueView::Table(bt)) => {
            let out = diff_entries(ct, bt, path, registered);
            if out.len() == 0 {
                lemma_no_diff_means_equal(c, b, path, registered, optional);
                lemma_scrub_identity(c, path, optional);
            } else {
                lemma_round_trip_entries(ct, bt, path, registered, optional);
            }
        },
        _ => {
            lemma_scrub_identity(c, path, optional);
        },
    }
}

proof fn lemma_round_trip_entries(
    cs: Seq<(Seq<char>, ValueView)>,
    bs: Seq<(Seq<char>, ValueView)>,
    path: Seq<char>,
    registered: Seq<Seq<char>>,
    optional: Seq<Seq<char>>,
)
    requires
        keys_ascending(cs),
        keys_ascending(bs),
        entries_well_formed(cs),
        entries_well_formed(bs),
        entries_no_cleared_marks(cs, path, optional),
        entries_omissions_are_cleared_options(cs, bs, path, registered, optional),
    ensures
        scrub_entries(merge_entries(bs, diff_entries(cs, bs, path, registered)), path, optional)
            == cs,
    decreases cs, bs, 0int,
{
    let d = diff_entries(cs, bs, path, registered);
    let m = merge_entries(bs, d);
    if cs.len() == 0 && bs.len() == 0 {
    } else if bs.len() == 0 || (cs.len() > 0 && lex_lt(cs[0].0, bs[0].0)) {
        let cr = cs.subrange(1, cs.len() as int);
        lemma_ascending_tail(cs);
        lemma_round_trip_entries(cr, bs, path, registered, optional);
        let rest = diff_entries(cr, bs, path, registered);
        assert(d == seq![cs[0]] + rest);
        assert(d[0] == cs[0]);
        assert(d.subrange(1, d.len() as int) =~= rest);
        if bs.len() > 0 {
            lemma_lex_distinct(cs[0].0, bs[0].0);
        }
        assert(m =~= seq![cs[0]] + merge_entries(bs, rest));
        lemma_scrub_identity(cs[0].1, dotted(path, cs[0].0), optional);
        assert(m[0] == cs[0]);
        assert(m.subrange(1, m.len() as int) =~= merge_entries(bs, rest));
        assert(cs =~= seq![cs[0]] + cr);
        assert(scrub_entries(m, path, optional) =~= seq![cs[0]] + scrub_entries(
            merge_entries(bs, rest),
            path,
            optional,
        ));
    } else if cs.len() == 0 || lex_lt(bs[0].0, cs[0].0) {
        let br = bs.subrange(1, bs.len() as int);
        lemma_ascending_tail(bs);
        lemma_round_trip_entries(cs, br, path, registered, optional);
        let rest = diff_entries(cs, br, path, registered);
        let k = bs[0].0;
        assert(d == seq![(k, cleared_mark())] + rest);
        assert(d[0] == (k, cleared_mark()));
        assert(d.subrange(1, d.len() as int) =~= rest);
        assert(m =~= seq![(k, merge_values(bs[0].1, cleared_mark()))] + merge_entries(br, rest));
        assert(merge_values(bs[0].1, cleared_mark()) == cleared_mark());
        assert(m.subrange(1, m.len() as int) =~= merge_entries(br, rest));
        assert(scrub_entries(m, path, optional) =~= scrub_entries(merge_entries(br, rest), path, optional));
    } else {
        lemma_lex_total(cs[0].0, bs[0].0);
        let k = cs[0].0;
        let dk = dotted(path, k);
        let cr = cs.subrange(1, cs.len() as int);
        let br = bs.subrange(1, bs.len() as int);
        lemma_ascending_tail(cs);
        lemma_ascending_tail(bs);
        lemma_round_trip_entries(cr, br, path, registered, optional);
        let rest = diff_entries(cr, br, path, registered);
        assert(cs =~= seq![cs[0]] + cr);
        match diff_values(cs[0].1, bs[0].1, dk, registered) {
            Some(x) => {
                assert(d == seq![(k, x)] + rest);
                assert(d[0] == (k, x));
                assert(d.subrange(1, d.len() as int) =~= rest);
                assert(m =~= seq![(k, merge_values(bs[0].1, x))] + merge_entries(br, rest));
                lemma_round_trip(cs[0].1, bs[0].1, dk, registered, optional);
                assert(m.subrange(1, m.len() as int) =~= merge_entries(br, rest));
                assert(scrub_entries(m, path, optional) =~= seq![cs[0]] + scrub_entries(
                    merge_entries(br, rest),
                    path,
                    optional,
                ));
            },
            None => {
                lemma_no_diff_means_equal(cs[0].1, bs[0].1, dk, registered, optional);
                assert(d == rest);
                lemma_diff_entries_after(cr, br, path, registered, k);
                if rest.len() > 0 {
                    lemma_lex_distinct(k, rest[0].0);
                }
                assert(m =~= seq![bs[0]] + merge_entries(br, rest));
                lemma_scrub_identity(cs[0].1, dk, optional);
                assert(m[0] == cs[0]);
                assert(m.subrange(1, m.len() as int) =~= merge_entries(br, rest));
                assert(scrub_entries(m, path, optional) =~= seq![cs[0]] + scrub_entries(
                    merge_entries(br, rest),
                    path,
                    optional,
                ));
            },
        }
    }
}

proof fn lemma_items_push(s: Seq<SettingValue>, v: SettingValue)
    ensures
        items_view(s.push(v)) == items_view(s).push(value_view(v)),
{
    assert(s.push(v).subrange(0, s.len() as int) =~= s);
}

pub(crate) proof fn lemma_entries_push(s: Seq<(String, SettingValue)>, e: (String, SettingValue))
    ensures
        entries_view(s.push(e)) == entries_view(s).push((e.0@, value_view(e.1))),
{
    assert(s.push(e).subrange(0, s.len() as int) =~= s);
}

impl SettingValue {
    /// A copy with the same view.
    pub fn duplicate(&self) -> (r: SettingValue)
        ensures
            r@ == self@,
        decreases self,
    {
        match self {
            SettingValue::Text(s) => SettingValue::Text(s.clone()),
            SettingValue::Integer(i) => SettingValue::Integer(*i),
            SettingValue::Boolean(b) => SettingValue::Boolean(*b),
            SettingValue::Float(f) => SettingValue::Float(f.clone()),
            SettingValue::Datetime(s) => SettingValue::Datetime(s.clone()),
            SettingValue::Array(items) => {
                let mut out: Vec<SettingValue> = Vec::new();
                let mut k: usize = 0;
                while k < items.len()
                    invariant
                        k <= items@.len(),
                        *self == SettingValue::Array(*items),
                        items_view(out@) == items_view(items@.subrange(0, k as int)),
                    decreases items@.len() - k,
                {
                    proof {
                        assert(decreases_to!(*self => (*self)->Array_0));
                        assert(decreases_to!(*items => items[k as int]));
                    }
                    let v = items[k].duplicate();
                    proof {
                        lemma_items_push(out@, v);
                        lemma_items_push(items@.subrange(0, k as int), items@[k as int]);
                        assert(items@.subrange(0, k as int).push(items@[k as int]) =~= items@.subrange(
                            0,
                            k + 1,
                        ));
                    }
                    out.push(v);
                    k = k + 1;
                }
                proof {
                    assert(items@.subrange(0, k as int) =~= items@);
                }
                SettingValue::Array(out)
            },
            SettingValue::Table(entries) => {
                let mut out: Vec<(String, SettingValue)> = Vec::new();
                let mut k: usize = 0;
                while k < entries.len()
                    invariant
                        k <= entries@.len(),
                        *self == SettingValue::Table(*entries),
                        entries_view(out@) == entries_view(entries@.subrange(0, k as int)),
                    decreases entries@.len() - k,
                {
                    proof {
                        assert(decreases_to!(*self => (*self)->Table_0));
                        assert(decreases_to!(*entries => entries[k as int]));
                        assert(decreases_to!(entries[k as int] => entries[k as int].1));
                    }
                    let e = (entries[k].0.clone(), entries[k].1.duplicate());
                    proof {
                        lemma_entries_push(out@, e);
                        lemma_entries_push(entries@.subrange(0, k as int), entries@[k as int]);
                        assert(entries@.subrange(0, k as int).push(entries@[k as int])
                            =~= entries@.subrange(0, k + 1));
                    }
                    out.push(e);
                    k = k + 1;
                }
                proof {
                    assert(entries@.subrange(0, k as int) =~= entries@);
                }
                SettingValue::Table(out)
            },
        }
    }
}

/// The names in a list of names, by their views.
pub open spec fn names_view(v: Seq<String>) -> Seq<Seq<char>> {
    v.map_values(|s: String| s@)
}

/// Whether `name` is in `names`.
pub(crate) fn listed(names: &Vec<String>, name: &str) -> (r: bool)
    ensures
        r == names_view(names@).contains(name@),
{
    let ghost nv = names_view(names@);
    let mut k: usize = 0;
    while k < names.len()
        invariant
            k <= names@.len(),
            nv == names_view(names@),
            forall|x: int| 0 <= x < k ==> nv[x] != name@,
        decreases names@.len() - k,
    {
        if str_eq(names[k].as_str(), name) {
            proof {
                assert(nv[k as int] == name@);
            }
            return true;
        }
        k = k + 1;
    }
    proof {
        if nv.contains(name@) {
            let x = choose|x: int| 0 <= x < nv.len() && nv[x] == name@;
            assert(nv[x] != name@);
        }
    }
    false
}

/// The dotted name of `key` inside the table at `path`.
pub(crate) fn dotted_name(path: &str, key: &str) -> (r: String)
    ensures
        r@ == dotted(path@, key@),
{
    if path.is_empty() {
        key.to_string()
    } else {
        cat3(path, ".", key)
    }
}

fn key_less(a: &String, b: &String) -> (r: bool)
    ensures
        r == lex_lt(a@, b@),
{
    lex_lt_exec(&chars_of(a.as_str()), &chars_of(b.as_str()))
}

fn is_cleared_mark(v: &SettingValue) -> (r: bool)
    ensures
        r == (v@ == cleared_mark()),
{
    match v {
        SettingValue::Text(s) => {
            let r = s.as_str().is_empty();
            proof {
                if r {
                    assert(s@ =~= Seq::<char>::empty());
                }
            }
            r
        },
        _ => false,
    }
}

/// Whether two values hold the same settings.
pub fn values_equal(a: &SettingValue, b: &SettingValue) -> (r: bool)
    ensures
        r == (a@ == b@),
    decreases a,
{
    match (a, b) {
        (SettingValue::Text(x), SettingValue::Text(y)) => str_eq(x.as_str(), y.as_str()),
        (SettingValue::Integer(x), SettingValue::Integer(y)) => *x == *y,
        (SettingValue::Boolean(x), SettingValue::Boolean(y)) => *x == *y,
        (SettingValue::Float(x), SettingValue::Float(y)) => str_eq(x.as_str(), y.as_str()),
        (SettingValue::Datetime(x), SettingValue::Datetime(y)) => str_eq(x.as_str(), y.as_str()),
        (SettingValue::Array(xs), SettingValue::Array(ys)) => {
            proof {
                lemma_items_view(xs@);
                lemma_items_view(ys@);
            }
            if xs.len() != ys.len() {
                return false;
            }
            let mut k: usize = 0;
            while k < xs.len()
                invariant
                    *a == SettingValue::Array(*xs),
                    *b == SettingValue::Array(*ys),
                    xs@.len() == ys@.len(),
                    k <= xs@.len(),
                    items_view(xs@).len() == xs@.len(),
                    items_view(ys@).len() == ys@.len(),
                    forall|i: int| 0 <= i < xs@.len() ==> #[trigger] items_view(xs@)[i] == value_view(xs@[i]),
                    forall|i: int| 0 <= i < ys@.len() ==> #[trigger] items_view(ys@)[i] == value_view(ys@[i]),
                    forall|i: int| 0 <= i < k ==> value_view(xs@[i]) == value_view(ys@[i]),
                decreases xs@.len() - k,
            {
                proof {
                    assert(decreases_to!(*a => (*a)->Array_0));
                    assert(decreases_to!(*xs => xs[k as int]));
                }
                if !values_equal(&xs[k], &ys[k]) {
                    proof {
                        assert(items_view(xs@)[k as int] != items_view(ys@)[k as int]);
                    }
                    return false;
                }
                k = k + 1;
            }
            proof {
                assert(items_view(xs@) =~= items_view(ys@));
            }
            true
        },
        (SettingValue::Table(xs), SettingValue::Table(ys)) => {
            proof {
                lemma_entries_view(xs@);
                lemma_entries_view(ys@);
            }
            if xs.len() != ys.len() {
                return false;
            }
            let mut k: usize = 0;
            while k < xs.len()
                invariant
                    *a == SettingValue::Table(*xs),
                    *b == SettingValue::Table(*ys),
                    xs@.len() == ys@.len(),
                    k <= xs@.len(),
                    entries_view(xs@).len() == xs@.len(),
                    entries_view(ys@).len() == ys@.len(),
                    forall|i: int|
                        0 <= i < xs@.len() ==> #[trigger] entries_view(xs@)[i] == (
                            xs@[i].0@,
                            value_view(xs@[i].1),
                        ),
                    forall|i: int|
                        0 <= i < ys@.len() ==> #[trigger] entries_view(ys@)[i] == (
                            ys@[i].0@,
                            value_view(ys@[i].1),
                        ),
                    forall|i: int| 0 <= i < k ==> entries_view(xs@)[i] == entries_view(ys@)[i],
                decreases xs@.len() - k,
            {
                proof {
                    assert(decreases_to!(*a => (*a)->Table_0));
                    assert(decreases_to!(*xs => xs[k as int]));
                    assert(decreases_to!(xs[k as int] => xs[k as int].1));
                }
                if !str_eq(xs[k].0.as_str(), ys[k].0.as_str()) || !values_equal(&xs[k].1, &ys[k].1) {
                    proof {
                        assert(entries_view(xs@)[k as int] != entries_view(ys@)[k as int]);
                    }
                    return false;
                }
                k = k + 1;
            }
            proof {
                assert(entries_view(xs@) =~= entries_view(ys@));
            }
            true
        },
        _ => false,
    }
}

proof fn lemma_step(
    out: Seq<(Seq<char>, ValueView)>,
    e: (Seq<char>, ValueView),
    rest: Seq<(Seq<char>, ValueView)>,
    whole: Seq<(Seq<char>, ValueView)>,
    now: Seq<(Seq<char>, ValueView)>,
)
    requires
        out + now == whole,
        now == seq![e] + rest,
    ensures
        out.push(e) + rest == whole,
{
    assert(out.push(e) + rest =~= out + (seq![e] + rest));
}

/// `overlay` layered over `base`: tables merge key by key, anything else
/// the overlay states replaces the base's value whole.
pub fn merged(base: &SettingValue, overlay: &SettingValue) -> (r: SettingValue)
    ensures
        r@ == merge_values(base@, overlay@),
    decreases base,
{
    match (base, overlay) {
        (SettingValue::Table(bt), SettingValue::Table(ot)) => {
            let ghost bv = entries_view(bt@);
            let ghost ov = entries_view(ot@);
            proof {
                lemma_entries_view(bt@);
                lemma_entries_view(ot@);
            }
            let mut out: Vec<(String, SettingValue)> = Vec::new();
            let mut i: usize = 0;
            let mut j: usize = 0;
            proof {
                assert(bv.subrange(0, bv.len() as int) =~= bv);
                assert(ov.subrange(0, ov.len() as int) =~= ov);
                assert(entries_view(out@) + merge_entries(bv, ov) =~= merge_entries(bv, ov));
            }
            while i < bt.len() || j < ot.len()
                invariant
                    *base == SettingValue::Table(*bt),
                    bv == entries_view(bt@),
                    ov == entries_view(ot@),
                    bv.len() == bt@.len(),
                    ov.len() == ot@.len(),
                    forall|x: int| 0 <= x < bt@.len() ==> #[trigger] bv[x] == (bt@[x].0@, value_view(bt@[x].1)),
                    forall|x: int| 0 <= x < ot@.len() ==> #[trigger] ov[x] == (ot@[x].0@, value_view(ot@[x].1)),
                    i <= bt@.len(),
                    j <= ot@.len(),
                    entries_view(out@) + merge_entries(
                        bv.subrange(i as int, bv.len() as int),
                        ov.subrange(j as int, ov.len() as int),
                    ) == merge_entries(bv, ov),
                decreases bt@.len() - i + ot@.len() - j,
            {
                let ghost bs = bv.subrange(i as int, bv.len() as int);
                let ghost os = ov.subrange(j as int, ov.len() as int);
                if i == bt.len() {
                    let e = (ot[j].0.clone(), ot[j].1.duplicate());
                    proof {
                        lemma_entries_push(out@, e);
                        assert(os =~= seq![ov[j as int]] + ov.subrange(j + 1, ov.len() as int));
                        assert(bs.len() == 0);
                        assert(merge_entries(bs, ov.subrange(j + 1, ov.len() as int)) == ov.subrange(
                            j + 1,
                            ov.len() as int,
                        ));
                        lemma_step(
                            entries_view(out@),
                            ov[j as int],
                            ov.subrange(j + 1, ov.len() as int),
                            merge_entries(bv, ov),
                            merge_entries(bs, os),
                        );
                    }
                    out.push(e);
                    j = j + 1;
                } else if j == ot.len() {
                    let e = (bt[i].0.clone(), bt[i].1.duplicate());
                    proof {
                        lemma_entries_push(out@, e);
                        assert(bs =~= seq![bv[i as int]] + bv.subrange(i + 1, bv.len() as int));
                        assert(os.len() == 0);
                        let br = bv.subrange(i + 1, bv.len() as int);
                        assert(merge_entries(br, os) == br);
                        lemma_step(entries_view(out@), bv[i as int], br, merge_entries(bv, ov), merge_entries(bs, os));
                    }
                    out.push(e);
                    i = i + 1;
                } else if str_eq(bt[i].0.as_str(), ot[j].0.as_str()) {
                    proof {
                        assert(decreases_to!(*base => (*base)->Table_0));
                        assert(decreases_to!(*bt => bt[i as int]));
                        assert(decreases_to!(bt[i as int] => bt[i as int].1));
                    }
                    let e = (bt[i].0.clone(), merged(&bt[i].1, &ot[j].1));
                    proof {
                        lemma_entries_push(out@, e);
                        assert(bs[0] == bv[i as int]);
                        assert(os[0] == ov[j as int]);
                        assert(bs.subrange(1, bs.len() as int) =~= bv.subrange(i + 1, bv.len() as int));
                        assert(os.subrange(1, os.len() as int) =~= ov.subrange(j + 1, ov.len() as int));
                        lemma_step(
                            entries_view(out@),
                            (e.0@, value_view(e.1)),
                            merge_entries(bv.subrange(i + 1, bv.len() as int), ov.subrange(j + 1, ov.len() as int)),
                            merge_entries(bv, ov),
                            merge_entries(bs, os),
                        );
                    }
                    out.push(e);
                    i = i + 1;
                    j = j + 1;
                } else if key_less(&bt[i].0, &ot[j].0) {
                    let e = (bt[i].0.clone(), bt[i].1.duplicate());
                    proof {
                        lemma_entries_push(out@, e);
                        assert(bs[0] == bv[i as int]);
                        assert(os[0] == ov[j as int]);
                        assert(bs.subrange(1, bs.len() as int) =~= bv.subrange(i + 1, bv.len() as int));
                        lemma_step(
                            entries_view(out@),
                            bv[i as int],
                            merge_entries(bv.subrange(i + 1, bv.len() as int), os),
                            merge_entries(bv, ov),
                            merge_entries(bs, os),
                        );
                    }
                    out.push(e);
                    i = i + 1;
                } else {
                    let e = (ot[j].0.clone(), ot[j].1.duplicate());
                    proof {
                        lemma_entries_push(out@, e);
                        assert(bs[0] == bv[i as int]);
                        assert(os[0] == ov[j as int]);
                        assert(os.subrange(1, os.len() as int) =~= ov.subrange(j + 1, ov.len() as int));
                        lemma_step(
                            entries_view(out@),
                            ov[j as int],
                            merge_entries(bs, ov.subrange(j + 1, ov.len() as int)),
                            merge_entries(bv, ov),
                            merge_entries(bs, os),
                        );
                    }
                    out.push(e);
                    j = j + 1;
                }
            }
            proof {
                assert(bv.subrange(i as int, bv.len() as int).len() == 0);
                assert(ov.subrange(j as int, ov.len() as int).len() == 0);
                assert(entries_view(out@) =~= merge_entries(bv, ov));
            }
            SettingValue::Table(out)
        },
        _ => overlay.duplicate(),
    }
}

/// Layers `overlay` over `base` in place: tables merge key by key, anything
/// else the overlay states replaces the base's value whole.
pub fn deep_merge(base: &mut SettingValue, overlay: &SettingValue)
    ensures
        final(base)@ == merge_values(old(base)@, overlay@),
{
    let r = merged(base, overlay);
    *base = r;
}

pub open spec fn opt_value_view(o: Option<SettingValue>) -> Option<ValueView> {
    match o {
        Some(v) => Some(value_view(v)),
        None => None,
    }
}

/// What `config` states differently from `base`, or `None` when nothing
/// differs: identical subtrees vanish, keys only `config` has are kept
/// whole, and a key that only `base` states is written as the empty text
/// when its dotted name is in `registered` (a cleared setting).
pub fn diff_value(config: &SettingValue, base: &SettingValue, path: &str, registered: &Vec<String>) -> (r:
    Option<SettingValue>)
    ensures
        opt_value_view(r) == diff_values(config@, base@, path@, names_view(registered@)),
    decreases config,
{
    let ghost reg = names_view(registered@);
    match (config, base) {
        (SettingValue::Table(ct), SettingValue::Table(bt)) => {
            let ghost cv = entries_view(ct@);
            let ghost bv = entries_view(bt@);
            proof {
                lemma_entries_view(ct@);
                lemma_entries_view(bt@);
            }
            let mut out: Vec<(String, SettingValue)> = Vec::new();
            let mut i: usize = 0;
            let mut j: usize = 0;
            proof {
                assert(cv.subrange(0, cv.len() as int) =~= cv);
                assert(bv.subrange(0, bv.len() as int) =~= bv);
                assert(entries_view(out@) + diff_entries(cv, bv, path@, reg) =~= diff_entries(
                    cv,
                    bv,
                    path@,
                    reg,
                ));
            }
            while i < ct.len() || j < bt.len()
                invariant
                    *config == SettingValue::Table(*ct),
                    reg == names_view(registered@),
                    cv == entries_view(ct@),
                    bv == entries_view(bt@),
                    cv.len() == ct@.len(),
                    bv.len() == bt@.len(),
                    forall|x: int| 0 <= x < ct@.len() ==> #[trigger] cv[x] == (ct@[x].0@, value_view(ct@[x].1)),
                    forall|x: int| 0 <= x < bt@.len() ==> #[trigger] bv[x] == (bt@[x].0@, value_view(bt@[x].1)),
                    i <= ct@.len(),
                    j <= bt@.len(),
                    entries_view(out@) + diff_entries(
                        cv.subrange(i as int, cv.len() as int),
                        bv.subrange(j as int, bv.len() as int),
                        path@,
                        reg,
                    ) == diff_entries(cv, bv, path@, reg),
                decreases ct@.len() - i + bt@.len() - j,
            {
                let ghost cs = cv.subrange(i as int, cv.len() as int);
                let ghost bs = bv.subrange(j as int, bv.len() as int);
                let ghost whole = diff_entries(cv, bv, path@, reg);
                let cfg_first = if j == bt.len() {
                    true
                } else if i == ct.len() {
                    false
                } else {
                    key_less(&ct[i].0, &bt[j].0)
                };
                if cfg_first {
                    let e = (ct[i].0.clone(), ct[i].1.duplicate());
                    proof {
                        lemma_entries_push(out@, e);
                        assert(cs[0] == cv[i as int]);
                        assert(cs.subrange(1, cs.len() as int) =~= cv.subrange(i + 1, cv.len() as int));
                        lemma_step(
                            entries_view(out@),
                            cv[i as int],
                            diff_entries(cv.subrange(i + 1, cv.len() as int), bs, path@, reg),
                            whole,
                            diff_entries(cs, bs, path@, reg),
                        );
                    }
                    out.push(e);
                    i = i + 1;
                } else {
                    let base_first = if i == ct.len() {
                        true
                    } else {
                        key_less(&bt[j].0, &ct[i].0)
                    };
                    if base_first {
                        let name = dotted_name(path, bt[j].0.as_str());
                        let ghost rest = diff_entries(cs, bv.subrange(j + 1, bv.len() as int), path@, reg);
                        proof {
                            assert(bs[0] == bv[j as int]);
                            assert(bs.subrange(1, bs.len() as int) =~= bv.subrange(j + 1, bv.len() as int));
                        }
                        if listed(registered, name.as_str()) {
                            let e = (bt[j].0.clone(), SettingValue::Text(String::new()));
                            proof {
                                lemma_entries_push(out@, e);
                                assert(value_view(e.1) == cleared_mark());
                                lemma_step(entries_view(out@), (e.0@, cleared_mark()), rest, whole, diff_entries(cs, bs, path@, reg));
                            }
                            out.push(e);
                        } else {
                            proof {
                                assert(diff_entries(cs, bs, path@, reg) =~= rest);
                            }
                        }
                        j = j + 1;
                    } else {
                        proof {
                            lemma_lex_total(ct@[i as int].0@, bt@[j as int].0@);
                            assert(decreases_to!(*config => (*config)->Table_0));
                            assert(decreases_to!(*ct => ct[i as int]));
                            assert(decreases_to!(ct[i as int] => ct[i as int].1));
                            assert(cs[0] == cv[i as int]);
                            assert(bs[0] == bv[j as int]);
                            assert(cs.subrange(1, cs.len() as int) =~= cv.subrange(i + 1, cv.len() as int));
                            assert(bs.subrange(1, bs.len() as int) =~= bv.subrange(j + 1, bv.len() as int));
                        }
                        let name = dotted_name(path, ct[i].0.as_str());
                        let d = diff_value(&ct[i].1, &bt[j].1, name.as_str(), registered);
                        let ghost rest = diff_entries(
                            cv.subrange(i + 1, cv.len() as int),
                            bv.subrange(j + 1, bv.len() as int),
                            path@,
                            reg,
                        );
                        match d {
                            Some(v) => {
                                let e = (ct[i].0.clone(), v);
                                proof {
                                    lemma_entries_push(out@, e);
                                    lemma_step(entries_view(out@), (e.0@, value_view(e.1)), rest, whole, diff_entries(cs, bs, path@, reg));
                                }
                                out.push(e);
                            },
                            None => {
                                proof {
                                    assert(diff_entries(cs, bs, path@, reg) =~= rest);
                                }
                            },
                        }
                        i = i + 1;
                        j = j + 1;
                    }
                }
            }
            proof {
                assert(cv.subrange(i as int, cv.len() as int).len() == 0);
                assert(bv.subrange(j as int, bv.len() as int).len() == 0);
                assert(entries_view(out@) =~= diff_entries(cv, bv, path@, reg));
                lemma_entries_view(out@);
            }
            if out.len() == 0 {
                None
            } else {
                Some(SettingValue::Table(out))
            }
        },
        _ => {
            if values_equal(config, base) {
                None
            } else {
                Some(config.duplicate())
            }
        },
    }
}

/// The tree without the cleared marks of optional text settings: an empty
/// text whose dotted name is in `optional` is dropped, so that loading
/// leaves that setting unset.
pub fn scrubbed(value: &SettingValue, path: &str, optional: &Vec<String>) -> (r: SettingValue)
    ensures
        r@ == scrub_value(value@, path@, names_view(optional@)),
    decreases value,
{
    let ghost opt = names_view(optional@);
    match value {
        SettingValue::Table(t) => {
            let ghost tv = entries_view(t@);
            proof {
                lemma_entries_view(t@);
            }
            let mut out: Vec<(String, SettingValue)> = Vec::new();
            let mut k: usize = 0;
            proof {
                assert(tv.subrange(0, tv.len() as int) =~= tv);
                assert(entries_view(out@) + scrub_entries(tv, path@, opt) =~= scrub_entries(tv, path@, opt));
            }
            while k < t.len()
                invariant
                    *value == SettingValue::Table(*t),
                    opt == names_view(optional@),
                    tv == entries_view(t@),
                    tv.len() == t@.len(),
                    forall|x: int| 0 <= x < t@.len() ==> #[trigger] tv[x] == (t@[x].0@, value_view(t@[x].1)),
                    k <= t@.len(),
                    entries_view(out@) + scrub_entries(tv.subrange(k as int, tv.len() as int), path@, opt)
                        == scrub_entries(tv, path@, opt),
                decreases t@.len() - k,
            {
                let ghost s = tv.subrange(k as int, tv.len() as int);
                let ghost rest = scrub_entries(tv.subrange(k + 1, tv.len() as int), path@, opt);
                proof {
                    assert(s[0] == tv[k as int]);
                    assert(s.subrange(1, s.len() as int) =~= tv.subrange(k + 1, tv.len() as int));
                }
                let name = dotted_name(path, t[k].0.as_str());
                if is_cleared_mark(&t[k].1) && listed(optional, name.as_str()) {
                    proof {
                        assert(scrub_entries(s, path@, opt) =~= rest);
                    }
                } else {
                    proof {
                        assert(decreases_to!(*value => (*value)->Table_0));
                        assert(decreases_to!(*t => t[k as int]));
                        assert(decreases_to!(t[k as int] => t[k as int].1));
                    }
                    let e = (t[k].0.clone(), scrubbed(&t[k].1, name.as_str(), optional));
                    proof {
                        lemma_entries_push(out@, e);
                        lemma_step(
                            entries_view(out@),
                            (e.0@, value_view(e.1)),
                            rest,
                            scrub_entries(tv, path@, opt),
                            scrub_entries(s, path@, opt),
                        );
                    }
                    out.push(e);
                }
                k = k + 1;
            }
            proof {
                assert(tv.subrange(k as int, tv.len() as int).len() == 0);
                assert(entries_view(out@) =~= scrub_entries(tv, path@, opt));
            }
            SettingValue::Table(out)
        },
        _ => value.duplicate(),
    }
}

/// Drops, in place, the cleared marks of optional text settings.
pub fn scrub_cleared_options(value: &mut SettingValue, path: &str, optional: &Vec<String>)
    ensures
        final(value)@ == scrub_value(old(value)@, path@, names_view(optional@)),
{
    let r = scrubbed(value, path, optional);
    *value = r;
}

pub open spec fn opt_ref_view(o: Option<&SettingValue>) -> Option<ValueView> {
    match o {
        Some(v) => Some(value_view(*v)),
        None => None,
    }
}

/// The settings layers stacked: the global layer over the defaults, then
/// the character's layer over both.
pub open spec fn stacked(defaults: ValueView, global: Option<ValueView>, profile: Option<ValueView>) -> ValueView {
    let with_global = match global {
        Some(g) => merge_values(defaults, g),
        None => defaults,
    };
    match profile {
        Some(p) => merge_values(with_global, p),
        None => with_global,
    }
}

/// The effective settings: `global` layered over `defaults`, `profile` over
/// both (each only where it states a key), then the cleared marks of
/// optional text settings dropped.
pub fn layer_settings(
    defaults: &SettingValue,
    global: Option<&SettingValue>,
    profile: Option<&SettingValue>,
    optional: &Vec<String>,
) -> (r: SettingValue)
    ensures
        r@ == scrub_value(
            stacked(defaults@, opt_ref_view(global), opt_ref_view(profile)),
            Seq::empty(),
            names_view(optional@),
        ),
{
    let mut value = defaults.duplicate();
    if let Some(g) = global {
        deep_merge(&mut value, g);
    }
    if let Some(p) = profile {
        deep_merge(&mut value, p);
    }
    proof {
        reveal_strlit("");
        assert(""@ =~= Seq::<char>::empty());
    }
    scrubbed(&value, "", optional)
}

/// The value a table states for `key`.
pub open spec fn lookup(s: Seq<(Seq<char>, ValueView)>, key: Seq<char>) -> Option<ValueView>
    decreases s.len(),
{
    if s.len() == 0 {
        None
    } else if s[0].0 == key {
        Some(s[0].1)
    } else {
        lookup(s.subrange(1, s.len() as int), key)
    }
}

proof fn lemma_lookup_after(s: Seq<(Seq<char>, ValueView)>, key: Seq<char>)
    requires
        all_keys_after(s, key),
    ensures
        lookup(s, key) is None,
    decreases s.len(),
{
    if s.len() > 0 {
        lemma_lex_distinct(key, s[0].0);
        let rest = s.subrange(1, s.len() as int);
        assert forall|i: int| 0 <= i < rest.len() implies lex_lt(key, #[trigger] rest[i].0) by {
            assert(rest[i] == s[i + 1]);
        }
        lemma_lookup_after(rest, key);
    }
}

proof fn lemma_lookup_cons(e: (Seq<char>, ValueView), rest: Seq<(Seq<char>, ValueView)>, key: Seq<char>)
    ensures
        lookup(seq![e] + rest, key) == if e.0 == key {
            Some(e.1)
        } else {
            lookup(rest, key)
        },
{
    assert((seq![e] + rest).subrange(1, (seq![e] + rest).len() as int) =~= rest);
}

/// Layering is per key: in `overlay` layered over `base`, a key that only
/// one of them states keeps that value, and a key both state holds the
/// overlay's value layered over the base's (a table merged again key by
/// key, anything else the overlay's value).
pub proof fn layering_is_per_key(bs: Seq<(Seq<char>, ValueView)>, os: Seq<(Seq<char>, ValueView)>, key: Seq<char>)
    requires
        keys_ascending(bs),
        keys_ascending(os),
    ensures
        lookup(merge_entries(bs, os), key) == match (lookup(bs, key), lookup(os, key)) {
            (Some(b), Some(o)) => Some(merge_values(b, o)),
            (None, Some(o)) => Some(o),
            (b, None) => b,
        },
    decreases bs.len() + os.len(),
{
    if bs.len() == 0 {
    } else if os.len() == 0 {
    } else {
        let br = bs.subrange(1, bs.len() as int);
        let or = os.subrange(1, os.len() as int);
        lemma_ascending_tail(bs);
        lemma_ascending_tail(os);
        assert(bs =~= seq![bs[0]] + br);
        assert(os =~= seq![os[0]] + or);
        lemma_lookup_cons(bs[0], br, key);
        lemma_lookup_cons(os[0], or, key);
        if bs[0].0 == os[0].0 {
            layering_is_per_key(br, or, key);
            lemma_lookup_cons((bs[0].0, merge_values(bs[0].1, os[0].1)), merge_entries(br, or), key);
        } else if lex_lt(bs[0].0, os[0].0) {
            layering_is_per_key(br, os, key);
            lemma_lookup_cons(bs[0], merge_entries(br, os), key);
            if bs[0].0 == key {
                assert forall|i: int| 0 <= i < os.len() implies lex_lt(key, #[trigger] os[i].0) by {
                    if i > 0 {
                        assert(os[i] == or[i - 1]);
                        lemma_lex_transitive(key, os[0].0, os[i].0);
                    }
                }
                lemma_lookup_after(os, key);
            }
        } else {
            lemma_lex_total(bs[0].0, os[0].0);
            layering_is_per_key(bs, or, key);
            lemma_lookup_cons(os[0], merge_entries(bs, or), key);
            if os[0].0 == key {
                assert forall|i: int| 0 <= i < bs.len() implies lex_lt(key, #[trigger] bs[i].0) by {
                    if i > 0 {
                        assert(bs[i] == br[i - 1]);
                        lemma_lex_transitive(key, bs[0].0, bs[i].0);
                    }
                }
                lemma_lookup_after(bs, key);
            }
        }
    }
}

/// Saving then loading gives the settings back: layering what `config`
/// states differently from `base` over `base`, and dropping the cleared
/// marks, yields `config` again, provided every setting that `base` states
/// and `config` omits is a registered optional text setting, and `config`
/// itself holds no cleared mark where one would be dropped.
pub proof fn saving_then_layering_restores_the_settings(
    config: ValueView,
    base: ValueView,
    registered: Seq<Seq<char>>,
    optional: Seq<Seq<char>>,
)
    requires
        well_formed(config),
        well_formed(base),
        no_cleared_marks(config, Seq::empty(), optional),
        omissions_are_cleared_options(config, base, Seq::empty(), registered, optional),
    ensures
        scrub_value(
            layered(base, diff_values(config, base, Seq::empty(), registered)),
            Seq::empty(),
            optional,
        ) == config,
{
    lemma_round_trip(config, base, Seq::empty(), registered, optional);
}

/// Settings that equal the layer below save as nothing at all.
pub proof fn unchanged_settings_save_nothing(v: ValueView, path: Seq<char>, registered: Seq<Seq<char>>)
    ensures
        diff_values(v, v, path, registered) is None,
    decreases v, 1int,
{
    if let ValueView::Table(t) = v {
        lemma_no_entries_differ(t, path, registered);
    }
}

proof fn lemma_no_entries_differ(s: Seq<(Seq<char>, ValueView)>, path: Seq<char>, registered: Seq<Seq<char>>)
    ensures
        diff_entries(s, s, path, registered).len() == 0,
    decreases s, 0int,
{
    if s.len() > 0 {
        lemma_lex_irreflexive(s[0].0);
        unchanged_settings_save_nothing(s[0].1, dotted(path, s[0].0), registered);
        lemma_no_entries_differ(s.subrange(1, s.len() as int), path, registered);
    }
}

/// The value a table states for `key`; nothing for a value that is not a
/// table.
pub open spec fn get_key(v: ValueView, key: Seq<char>) -> Option<ValueView> {
    match v {
        ValueView::Table(t) => lookup(t, key),
        _ => None,
    }
}

pub open spec fn empty_table() -> ValueView {
    ValueView::Table(Seq::empty())
}

/// An existing file's entries without the ones that merely restate the
/// layer below: a key whose value in `config` equals the one in `base`
/// goes, a registered key that `config` no longer has goes (a cleared
/// setting), a table is pruned in turn and goes when nothing is left, and
/// keys that `config` does not know are kept.
pub open spec fn prune_entries(
    doc: Seq<(Seq<char>, ValueView)>,
    config: ValueView,
    base: ValueView,
    path: Seq<char>,
    registered: Seq<Seq<char>>,
) -> Seq<(Seq<char>, ValueView)>
    decreases doc,
{
    if doc.len() == 0 {
        Seq::empty()
    } else {
        prune_head(doc[0], config, base, path, registered) + prune_entries(
            doc.subrange(1, doc.len() as int),
            config,
            base,
            path,
            registered,
        )
    }
}

/// What is left of one entry of an existing file: nothing, the entry, or
/// its table pruned in turn.
pub open spec fn prune_head(
    e: (Seq<char>, ValueView),
    config: ValueView,
    base: ValueView,
    path: Seq<char>,
    registered: Seq<Seq<char>>,
) -> Seq<(Seq<char>, ValueView)>
    decreases e,
{
    let k = e.0;
    let d = dotted(path, k);
    match get_key(config, k) {
        None => if registered.contains(d) {
            Seq::empty()
        } else {
            seq![e]
        },
        Some(c) => if get_key(base, k) == Some(c) {
            Seq::empty()
        } else {
            match (c, e.1) {
                (ValueView::Table(_), ValueView::Table(dt)) => {
                    let b = match get_key(base, k) {
                        Some(b) => b,
                        None => empty_table(),
                    };
                    let p = prune_entries(dt, c, b, d, registered);
                    if p.len() == 0 {
                        Seq::empty()
                    } else {
                        seq![(k, ValueView::Table(p))]
                    }
                },
                _ => seq![e],
            }
        },
    }
}

/// The new contents of a settings file that held `existing`: its entries
/// pruned of restatements, then what `config` states differently from
/// `base` written over them.
pub open spec fn sparse_save(
    existing: Seq<(Seq<char>, ValueView)>,
    config: ValueView,
    base: ValueView,
    registered: Seq<Seq<char>>,
) -> ValueView {
    let pruned = ValueView::Table(prune_entries(existing, config, base, Seq::empty(), registered));
    layered(pruned, diff_values(config, base, Seq::empty(), registered))
}

proof fn lemma_prune_step(
    doc: Seq<(Seq<char>, ValueView)>,
    config: ValueView,
    base: ValueView,
    path: Seq<char>,
    registered: Seq<Seq<char>>,
)
    requires
        doc.len() > 0,
    ensures
        prune_entries(doc, config, base, path, registered) == prune_head(doc[0], config, base, path, registered)
            + prune_entries(doc.subrange(1, doc.len() as int), config, base, path, registered),
{
}

proof fn lemma_prune_head_shape(
    e: (Seq<char>, ValueView),
    config: ValueView,
    base: ValueView,
    path: Seq<char>,
    registered: Seq<Seq<char>>,
)
    ensures
        prune_head(e, config, base, path, registered).len() <= 1,
        prune_head(e, config, base, path, registered).len() == 1 ==> prune_head(e, config, base, path, registered)[0].0 == e.0,
{
}

/// The value a table states for `key`, when `v` is a table.
pub fn table_get<'a>(v: &'a SettingValue, key: &str) -> (r: Option<&'a SettingValue>)
    ensures
        opt_ref_view(r) == get_key(v@, key@),
{
    match v {
        SettingValue::Table(t) => {
            let ghost tv = entries_view(t@);
            proof {
                lemma_entries_view(t@);
                assert(tv.subrange(0, tv.len() as int) =~= tv);
            }
            let mut k: usize = 0;
            while k < t.len()
                invariant
                    *v == SettingValue::Table(*t),
                    tv == entries_view(t@),
                    tv.len() == t@.len(),
                    forall|x: int| 0 <= x < t@.len() ==> #[trigger] tv[x] == (t@[x].0@, value_view(t@[x].1)),
                    k <= t@.len(),
                    lookup(tv.subrange(k as int, tv.len() as int), key@) == lookup(tv, key@),
                decreases t@.len() - k,
            {
                let ghost rest = tv.subrange(k as int, tv.len() as int);
                proof {
                    assert(rest[0] == tv[k as int]);
                    assert(rest.subrange(1, rest.len() as int) =~= tv.subrange(k + 1, tv.len() as int));
                }
                if str_eq(t[k].0.as_str(), key) {
                    return Some(&t[k].1);
                }
                k = k + 1;
            }
            None
        },
        _ => None,
    }
}

fn prune_table(
    doc: &Vec<(String, SettingValue)>,
    config: &SettingValue,
    base: &SettingValue,
    path: &str,
    registered: &Vec<String>,
) -> (r: Vec<(String, SettingValue)>)
    ensures
        entries_view(r@) == prune_entries(entries_view(doc@), config@, base@, path@, names_view(registered@)),
    decreases doc,
{
    let ghost reg = names_view(registered@);
    let ghost dv = entries_view(doc@);
    let ghost whole = prune_entries(dv, config@, base@, path@, reg);
    proof {
        lemma_entries_view(doc@);
        assert(dv.subrange(0, dv.len() as int) =~= dv);
    }
    let mut out: Vec<(String, SettingValue)> = Vec::new();
    let mut k: usize = 0;
    proof {
        assert(entries_view(out@) + whole =~= whole);
    }
    while k < doc.len()
        invariant
            reg == names_view(registered@),
            dv == entries_view(doc@),
            whole == prune_entries(dv, config@, base@, path@, reg),
            dv.len() == doc@.len(),
            forall|x: int| 0 <= x < doc@.len() ==> #[trigger] dv[x] == (doc@[x].0@, value_view(doc@[x].1)),
            k <= doc@.len(),
            entries_view(out@) + prune_entries(dv.subrange(k as int, dv.len() as int), config@, base@, path@, reg)
                == whole,
        decreases doc@.len() - k,
    {
        let ghost s = dv.subrange(k as int, dv.len() as int);
        let ghost rest = prune_entries(dv.subrange(k + 1, dv.len() as int), config@, base@, path@, reg);
        proof {
            assert(s[0] == dv[k as int]);
            assert(s.subrange(1, s.len() as int) =~= dv.subrange(k + 1, dv.len() as int));
            lemma_prune_step(s, config@, base@, path@, reg);
        }
        let key = &doc[k].0;
        let name = dotted_name(path, key.as_str());
        match table_get(config, key.as_str()) {
            None => {
                if !listed(registered, name.as_str()) {
                    let e = (key.clone(), doc[k].1.duplicate());
                    proof {
                        lemma_entries_push(out@, e);
                        lemma_step(entries_view(out@), dv[k as int], rest, whole, prune_entries(s, config@, base@, path@, reg));
                    }
                    out.push(e);
                } else {
                    proof {
                        assert(prune_entries(s, config@, base@, path@, reg) =~= rest);
                    }
                }
            },
            Some(c) => {
                let bchild = table_get(base, key.as_str());
                let same = match bchild {
                    Some(b) => values_equal(b, c),
                    None => false,
                };
                if same {
                    proof {
                        assert(prune_entries(s, config@, base@, path@, reg) =~= rest);
                    }
                } else {
                    match (c, &doc[k].1) {
                        (SettingValue::Table(_), SettingValue::Table(dt)) => {
                            let empty = SettingValue::Table(Vec::new());
                            proof {
                                assert(entries_view(Seq::<(String, SettingValue)>::empty()) =~= Seq::<(Seq<char>, ValueView)>::empty());
                            }
                            let b = match bchild {
                                Some(b) => b,
                                None => &empty,
                            };
                            proof {
                                assert(decreases_to!(*doc => doc[k as int]));
                                assert(decreases_to!(doc[k as int] => doc[k as int].1));
                                assert(decreases_to!(doc[k as int].1 => (doc[k as int].1)->Table_0));
                            }
                            let p = prune_table(dt, c, b, name.as_str(), registered);
                            if p.len() > 0 {
                                let e = (key.clone(), SettingValue::Table(p));
                                proof {
                                    lemma_entries_push(out@, e);
                                    lemma_entries_view(p@);
                                    lemma_step(entries_view(out@), (e.0@, value_view(e.1)), rest, whole, prune_entries(s, config@, base@, path@, reg));
                                }
                                out.push(e);
                            } else {
                                proof {
                                    lemma_entries_view(p@);
                                    assert(prune_entries(s, config@, base@, path@, reg) =~= rest);
                                }
                            }
                        },
                        _ => {
                            let e = (key.clone(), doc[k].1.duplicate());
                            proof {
                                lemma_entries_push(out@, e);
                                lemma_step(entries_view(out@), dv[k as int], rest, whole, prune_entries(s, config@, base@, path@, reg));
                            }
                            out.push(e);
                        },
                    }
                }
            },
        }
        k = k + 1;
    }
    proof {
        assert(dv.subrange(k as int, dv.len() as int).len() == 0);
        assert(entries_view(out@) =~= whole);
    }
    out
}

/// Removes, in place, the keys of an existing file's table that merely
/// restate the layer below (see [`prune_entries`]).
pub fn prune_inherited(
    doc: &mut Vec<(String, SettingValue)>,
    config: &SettingValue,
    base: &SettingValue,
    path: &str,
    registered: &Vec<String>,
)
    ensures
        entries_view(final(doc)@) == prune_entries(
            entries_view(old(doc)@),
            config@,
            base@,
            path@,
            names_view(registered@),
        ),
{
    let r = prune_table(doc, config, base, path, registered);
    *doc = r;
}

/// The new contents of a settings file that held `existing` (a table):
/// restatements of the layer below pruned, then what `config` states
/// differently from `base` written over what is left. Keys the settings do
/// not know survive.
pub fn sparse_config(
    existing: &Vec<(String, SettingValue)>,
    config: &SettingValue,
    base: &SettingValue,
    registered: &Vec<String>,
) -> (r: SettingValue)
    ensures
        r@ == sparse_save(entries_view(existing@), config@, base@, names_view(registered@)),
{
    let mut doc = prune_table(existing, config, base, "", registered);
    proof {
        reveal_strlit("");
        assert(""@ =~= Seq::<char>::empty());
    }
    match diff_value(config, base, "", registered) {
        Some(SettingValue::Table(d)) => {
            merge_items(&mut doc, &d);
            SettingValue::Table(doc)
        },
        Some(other) => other,
        None => SettingValue::Table(doc),
    }
}

/// A save into a new file reads back: layering what a save into an empty
/// file writes over `base`, and dropping the cleared marks, yields `config`
/// again, under the conditions of
/// [`saving_then_layering_restores_the_settings`].
pub proof fn a_fresh_save_reads_back(
    config: ValueView,
    base: ValueView,
    registered: Seq<Seq<char>>,
    optional: Seq<Seq<char>>,
)
    requires
        config is Table,
        base is Table,
        well_formed(config),
        well_formed(base),
        no_cleared_marks(config, Seq::empty(), optional),
        omissions_are_cleared_options(config, base, Seq::empty(), registered, optional),
    ensures
        scrub_value(
            merge_values(base, sparse_save(Seq::empty(), config, base, registered)),
            Seq::empty(),
            optional,
        ) == config,
{
    let d = diff_values(config, base, Seq::empty(), registered);
    assert(prune_entries(Seq::empty(), config, base, Seq::empty(), registered) =~= Seq::empty());
    match d {
        Some(x) => {
            assert(merge_values(empty_table(), x) == x);
        },
        None => {
            lemma_no_diff_means_equal(config, base, Seq::empty(), registered, optional);
            let bt = base->Table_0;
            assert(merge_entries(bt, Seq::empty()) =~= bt);
            assert(merge_values(base, empty_table()) == base);
        },
    }
    lemma_round_trip(config, base, Seq::empty(), registered, optional);
}

proof fn lemma_after_tail(s: Seq<(Seq<char>, ValueView)>, k: Seq<char>)
    requires
        s.len() > 0,
        all_keys_after(s, k),
    ensures
        all_keys_after(s.subrange(1, s.len() as int), k),
{
    let r = s.subrange(1, s.len() as int);
    assert forall|i: int| 0 <= i < r.len() implies lex_lt(k, #[trigger] r[i].0) by {
        assert(r[i] == s[i + 1]);
    }
}

proof fn lemma_after_cons(e: (Seq<char>, ValueView), rest: Seq<(Seq<char>, ValueView)>, k: Seq<char>)
    requires
        lex_lt(k, e.0),
        all_keys_after(rest, k),
    ensures
        all_keys_after(seq![e] + rest, k),
{
    let s = seq![e] + rest;
    assert forall|i: int| 0 <= i < s.len() implies lex_lt(k, #[trigger] s[i].0) by {
        if i > 0 {
            assert(s[i] == rest[i - 1]);
        }
    }
}

proof fn lemma_ascending_cons(e: (Seq<char>, ValueView), rest: Seq<(Seq<char>, ValueView)>)
    requires
        keys_ascending(rest),
        all_keys_after(rest, e.0),
    ensures
        keys_ascending(seq![e] + rest),
{
    let s = seq![e] + rest;
    assert forall|i: int, j: int| 0 <= i < j < s.len() implies lex_lt(#[trigger] s[i].0, #[trigger] s[j].0) by {
        assert(s[j] == rest[j - 1]);
        if i > 0 {
            assert(s[i] == rest[i - 1]);
        }
    }
}

/// Everything after the first key of an ascending table comes after any
/// key before it.
proof fn lemma_after_from_head(s: Seq<(Seq<char>, ValueView)>, k: Seq<char>)
    requires
        s.len() > 0,
        keys_ascending(s),
        lex_lt(k, s[0].0),
    ensures
        all_keys_after(s, k),
{
    assert forall|i: int| 0 <= i < s.len() implies lex_lt(k, #[trigger] s[i].0) by {
        if i > 0 {
            lemma_lex_transitive(k, s[0].0, s[i].0);
        }
    }
}

proof fn lemma_merge_after(a: Seq<(Seq<char>, ValueView)>, b: Seq<(Seq<char>, ValueView)>, k: Seq<char>)
    requires
        all_keys_after(a, k),
        all_keys_after(b, k),
    ensures
        all_keys_after(merge_entries(a, b), k),
    decreases a.len() + b.len(),
{
    if a.len() == 0 || b.len() == 0 {
    } else if a[0].0 == b[0].0 {
        lemma_after_tail(a, k);
        lemma_after_tail(b, k);
        lemma_merge_after(a.subrange(1, a.len() as int), b.subrange(1, b.len() as int), k);
        lemma_after_cons(
            (a[0].0, merge_values(a[0].1, b[0].1)),
            merge_entries(a.subrange(1, a.len() as int), b.subrange(1, b.len() as int)),
            k,
        );
    } else if lex_lt(a[0].0, b[0].0) {
        lemma_after_tail(a, k);
        lemma_merge_after(a.subrange(1, a.len() as int), b, k);
        lemma_after_cons(a[0], merge_entries(a.subrange(1, a.len() as int), b), k);
    } else {
        lemma_after_tail(b, k);
        lemma_merge_after(a, b.subrange(1, b.len() as int), k);
        lemma_after_cons(b[0], merge_entries(a, b.subrange(1, b.len() as int)), k);
    }
}

proof fn lemma_merge_ascending(a: Seq<(Seq<char>, ValueView)>, b: Seq<(Seq<char>, ValueView)>)
    requires
        keys_ascending(a),
        keys_ascending(b),
    ensures
        keys_ascending(merge_entries(a, b)),
    decreases a.len() + b.len(),
{
    if a.len() == 0 || b.len() == 0 {
    } else {
        let ar = a.subrange(1, a.len() as int);
        let br = b.subrange(1, b.len() as int);
        lemma_ascending_tail(a);
        lemma_ascending_tail(b);
        if a[0].0 == b[0].0 {
            lemma_merge_ascending(ar, br);
            lemma_merge_after(ar, br, a[0].0);
            lemma_ascending_cons((a[0].0, merge_values(a[0].1, b[0].1)), merge_entries(ar, br));
        } else if lex_lt(a[0].0, b[0].0) {
            lemma_merge_ascending(ar, b);
            lemma_after_from_head(b, a[0].0);
            lemma_merge_after(ar, b, a[0].0);
            lemma_ascending_cons(a[0], merge_entries(ar, b));
        } else {
            lemma_lex_total(a[0].0, b[0].0);
            lemma_merge_ascending(a, br);
            lemma_after_from_head(a, b[0].0);
            lemma_merge_after(a, br, b[0].0);
            lemma_ascending_cons(b[0], merge_entries(a, br));
        }
    }
}

proof fn lemma_diff_ascending(
    cs: Seq<(Seq<char>, ValueView)>,
    bs: Seq<(Seq<char>, ValueView)>,
    path: Seq<char>,
    registered: Seq<Seq<char>>,
)
    requires
        keys_ascending(cs),
        keys_ascending(bs),
    ensures
        keys_ascending(diff_entries(cs, bs, path, registered)),
    decreases cs, bs,
{
    let out = diff_entries(cs, bs, path, registered);
    if cs.len() == 0 && bs.len() == 0 {
    } else if bs.len() == 0 || (cs.len() > 0 && lex_lt(cs[0].0, bs[0].0)) {
        let cr = cs.subrange(1, cs.len() as int);
        lemma_ascending_tail(cs);
        lemma_diff_ascending(cr, bs, path, registered);
        if bs.len() > 0 {
            lemma_after_from_head(bs, cs[0].0);
        }
        lemma_diff_entries_after(cr, bs, path, registered, cs[0].0);
        lemma_ascending_cons(cs[0], diff_entries(cr, bs, path, registered));
    } else if cs.len() == 0 || lex_lt(bs[0].0, cs[0].0) {
        let br = bs.subrange(1, bs.len() as int);
        lemma_ascending_tail(bs);
        lemma_diff_ascending(cs, br, path, registered);
        let rest = diff_entries(cs, br, path, registered);
        if registered.contains(dotted(path, bs[0].0)) {
            if cs.len() > 0 {
                lemma_after_from_head(cs, bs[0].0);
            }
            lemma_diff_entries_after(cs, br, path, registered, bs[0].0);
            lemma_ascending_cons((bs[0].0, cleared_mark()), rest);
        } else {
            assert(out =~= rest);
        }
    } else {
        let cr = cs.subrange(1, cs.len() as int);
        let br = bs.subrange(1, bs.len() as int);
        lemma_ascending_tail(cs);
        lemma_ascending_tail(bs);
        lemma_diff_ascending(cr, br, path, registered);
        let rest = diff_entries(cr, br, path, registered);
        match diff_values(cs[0].1, bs[0].1, dotted(path, cs[0].0), registered) {
            Some(d) => {
                lemma_lex_total(cs[0].0, bs[0].0);
                lemma_diff_entries_after(cr, br, path, registered, cs[0].0);
                lemma_ascending_cons((cs[0].0, d), rest);
            },
            None => {
                assert(out =~= rest);
            },
        }
    }
}

proof fn lemma_prune_after(
    doc: Seq<(Seq<char>, ValueView)>,
    config: ValueView,
    base: ValueView,
    path: Seq<char>,
    registered: Seq<Seq<char>>,
    k: Seq<char>,
)
    requires
        all_keys_after(doc, k),
    ensures
        all_keys_after(prune_entries(doc, config, base, path, registered), k),
    decreases doc.len(),
{
    if doc.len() > 0 {
        let rest = doc.subrange(1, doc.len() as int);
        lemma_after_tail(doc, k);
        lemma_prune_after(rest, config, base, path, registered, k);
        let out = prune_entries(doc, config, base, path, registered);
        let pr = prune_entries(rest, config, base, path, registered);
        let head = prune_head(doc[0], config, base, path, registered);
        lemma_prune_step(doc, config, base, path, registered);
        lemma_prune_head_shape(doc[0], config, base, path, registered);
        assert(out == head + pr);
        assert forall|i: int| 0 <= i < out.len() implies lex_lt(k, #[trigger] out[i].0) by {
            if i < head.len() {
                assert(out[i] == head[i]);
            } else {
                assert(out[i] == pr[i - head.len()]);
            }
        }
    }
}

proof fn lemma_prune_ascending(
    doc: Seq<(Seq<char>, ValueView)>,
    config: ValueView,
    base: ValueView,
    path: Seq<char>,
    registered: Seq<Seq<char>>,
)
    requires
        keys_ascending(doc),
    ensures
        keys_ascending(prune_entries(doc, config, base, path, registered)),
    decreases doc.len(),
{
    if doc.len() > 0 {
        let rest = doc.subrange(1, doc.len() as int);
        lemma_ascending_tail(doc);
        lemma_prune_ascending(rest, config, base, path, registered);
        lemma_prune_after(rest, config, base, path, registered, doc[0].0);
        let out = prune_entries(doc, config, base, path, registered);
        let pr = prune_entries(rest, config, base, path, registered);
        let head = prune_head(doc[0], config, base, path, registered);
        lemma_prune_step(doc, config, base, path, registered);
        lemma_prune_head_shape(doc[0], config, base, path, registered);
        if head.len() == 1 {
            assert(head =~= seq![head[0]]);
            lemma_ascending_cons(head[0], pr);
        } else {
            assert(out =~= pr);
        }
    }
}

/// Two ascending tables that state the same value for every key are equal.
proof fn lemma_lookup_extensional(s1: Seq<(Seq<char>, ValueView)>, s2: Seq<(Seq<char>, ValueView)>)
    requires
        keys_ascending(s1),
        keys_ascending(s2),
        forall|k: Seq<char>| #[trigger] lookup(s1, k) == lookup(s2, k),
    ensures
        s1 == s2,
    decreases s1.len() + s2.len(),
{
    if s1.len() == 0 && s2.len() == 0 {
        assert(s1 =~= s2);
    } else if s1.len() == 0 {
        assert(lookup(s2, s2[0].0) is Some);
        assert(lookup(s1, s2[0].0) is None);
    } else if s2.len() == 0 {
        assert(lookup(s1, s1[0].0) is Some);
        assert(lookup(s2, s1[0].0) is None);
    } else {
        let r1 = s1.subrange(1, s1.len() as int);
        let r2 = s2.subrange(1, s2.len() as int);
        lemma_ascending_tail(s1);
        lemma_ascending_tail(s2);
        lemma_lex_total(s1[0].0, s2[0].0);
        if lex_lt(s1[0].0, s2[0].0) {
            lemma_after_from_head(s2, s1[0].0);
            lemma_lookup_after(s2, s1[0].0);
            assert(lookup(s1, s1[0].0) is Some);
            assert(false);
        } else if lex_lt(s2[0].0, s1[0].0) {
            lemma_after_from_head(s1, s2[0].0);
            lemma_lookup_after(s1, s2[0].0);
            assert(lookup(s2, s2[0].0) is Some);
            assert(false);
        }
        let k0 = s1[0].0;
        assert(lookup(s1, k0) == Some(s1[0].1));
        assert(lookup(s2, k0) == Some(s2[0].1));
        lemma_lookup_after(r1, k0);
        lemma_lookup_after(r2, k0);
        assert forall|k: Seq<char>| #[trigger] lookup(r1, k) == lookup(r2, k) by {
            assert(lookup(s1, k) == lookup(s2, k));
        }
        lemma_lookup_extensional(r1, r2);
        assert(s1 =~= seq![s1[0]] + r1);
        assert(s2 =~= seq![s2[0]] + r2);
    }
}

/// What a save states for one key, given what the settings and the layer
/// below state for it.
pub open spec fn diff_at(
    c: Option<ValueView>,
    b: Option<ValueView>,
    d: Seq<char>,
    registered: Seq<Seq<char>>,
) -> Option<ValueView> {
    match (c, b) {
        (Some(c), Some(b)) => diff_values(c, b, d, registered),
        (Some(c), None) => Some(c),
        (None, Some(_)) => if registered.contains(d) {
            Some(cleared_mark())
        } else {
            None
        },
        (None, None) => None,
    }
}

/// What is left of a file's entry for one key after pruning.
pub open spec fn prune_at(
    dk: Option<ValueView>,
    k: Seq<char>,
    config: ValueView,
    base: ValueView,
    path: Seq<char>,
    registered: Seq<Seq<char>>,
) -> Option<ValueView> {
    match dk {
        Some(v) => {
            let h = prune_head((k, v), config, base, path, registered);
            if h.len() == 0 {
                None
            } else {
                Some(h[0].1)
            }
        },
        None => None,
    }
}

proof fn lemma_lookup_prune(
    doc: Seq<(Seq<char>, ValueView)>,
    config: ValueView,
    base: ValueView,
    path: Seq<char>,
    registered: Seq<Seq<char>>,
    k: Seq<char>,
)
    requires
        keys_ascending(doc),
    ensures
        lookup(prune_entries(doc, config, base, path, registered), k) == prune_at(
            lookup(doc, k),
            k,
            config,
            base,
            path,
            registered,
        ),
    decreases doc.len(),
{
    if doc.len() > 0 {
        let rest = doc.subrange(1, doc.len() as int);
        let head = prune_head(doc[0], config, base, path, registered);
        let pr = prune_entries(rest, config, base, path, registered);
        lemma_prune_step(doc, config, base, path, registered);
        lemma_prune_head_shape(doc[0], config, base, path, registered);
        lemma_ascending_tail(doc);
        assert(doc =~= seq![doc[0]] + rest);
        lemma_lookup_cons(doc[0], rest, k);
        if head.len() == 1 {
            assert(head =~= seq![head[0]]);
            lemma_lookup_cons(head[0], pr, k);
        } else {
            assert(head + pr =~= pr);
        }
        if doc[0].0 == k {
            assert(doc[0] == (k, doc[0].1));
            lemma_prune_after(rest, config, base, path, registered, k);
            lemma_lookup_after(pr, k);
        } else {
            lemma_lookup_prune(rest, config, base, path, registered, k);
        }
    }
}

proof fn lemma_lookup_diff(
    cs: Seq<(Seq<char>, ValueView)>,
    bs: Seq<(Seq<char>, ValueView)>,
    path: Seq<char>,
    registered: Seq<Seq<char>>,
    k: Seq<char>,
)
    requires
        keys_ascending(cs),
        keys_ascending(bs),
    ensures
        lookup(diff_entries(cs, bs, path, registered), k) == diff_at(
            lookup(cs, k),
            lookup(bs, k),
            dotted(path, k),
            registered,
        ),
    decreases cs, bs,
{
    let out = diff_entries(cs, bs, path, registered);
    if cs.len() == 0 && bs.len() == 0 {
    } else if bs.len() == 0 || (cs.len() > 0 && lex_lt(cs[0].0, bs[0].0)) {
        let cr = cs.subrange(1, cs.len() as int);
        lemma_ascending_tail(cs);
        let rest = diff_entries(cr, bs, path, registered);
        assert(cs =~= seq![cs[0]] + cr);
        lemma_lookup_cons(cs[0], cr, k);
        lemma_lookup_cons(cs[0], rest, k);
        if cs[0].0 == k {
            if bs.len() > 0 {
                lemma_after_from_head(bs, k);
                lemma_lookup_after(bs, k);
            }
            lemma_diff_entries_after(cr, bs, path, registered, k);
            lemma_lookup_after(rest, k);
            lemma_lookup_after(cr, k);
        } else {
            lemma_lookup_diff(cr, bs, path, registered, k);
        }
    } else if cs.len() == 0 || lex_lt(bs[0].0, cs[0].0) {
        let br = bs.subrange(1, bs.len() as int);
        lemma_ascending_tail(bs);
        let rest = diff_entries(cs, br, path, registered);
        assert(bs =~= seq![bs[0]] + br);
        lemma_lookup_cons(bs[0], br, k);
        if registered.contains(dotted(path, bs[0].0)) {
            lemma_lookup_cons((bs[0].0, cleared_mark()), rest, k);
        } else {
            assert(out =~= rest);
        }
        if bs[0].0 == k {
            if cs.len() > 0 {
                lemma_after_from_head(cs, k);
                lemma_lookup_after(cs, k);
            }
            lemma_diff_entries_after(cs, br, path, registered, k);
            lemma_lookup_after(rest, k);
            lemma_lookup_after(br, k);
        } else {
            lemma_lookup_diff(cs, br, path, registered, k);
        }
    } else {
        lemma_lex_total(cs[0].0, bs[0].0);
        let cr = cs.subrange(1, cs.len() as int);
        let br = bs.subrange(1, bs.len() as int);
        lemma_ascending_tail(cs);
        lemma_ascending_tail(bs);
        let rest = diff_entries(cr, br, path, registered);
        assert(cs =~= seq![cs[0]] + cr);
        assert(bs =~= seq![bs[0]] + br);
        lemma_lookup_cons(cs[0], cr, k);
        lemma_lookup_cons(bs[0], br, k);
        match diff_values(cs[0].1, bs[0].1, dotted(path, cs[0].0), registered) {
            Some(d) => {
                lemma_lookup_cons((cs[0].0, d), rest, k);
            },
            None => {
                assert(out =~= rest);
            },
        }
        if cs[0].0 == k {
            lemma_diff_entries_after(cr, br, path, registered, k);
            lemma_lookup_after(rest, k);
            lemma_lookup_after(cr, k);
            lemma_lookup_after(br, k);
        } else {
            lemma_lookup_diff(cr, br, path, registered, k);
        }
    }
}

/// Every key of an existing file is one the settings state or a registered
/// one (at any depth where both hold a table): the file holds no key that
/// the settings do not know.
pub open spec fn known_keys(
    doc: Seq<(Seq<char>, ValueView)>,
    config: ValueView,
    path: Seq<char>,
    registered: Seq<Seq<char>>,
) -> bool
    decreases doc,
{
    if doc.len() == 0 {
        true
    } else {
        let k = doc[0].0;
        let d = dotted(path, k);
        &&& (get_key(config, k) is Some || registered.contains(d))
        &&& match (get_key(config, k), doc[0].1) {
            (Some(c), ValueView::Table(dt)) => c is Table ==> known_keys(dt, c, d, registered),
            _ => true,
        }
        &&& known_keys(doc.subrange(1, doc.len() as int), config, path, registered)
    }
}

proof fn lemma_lookup_index(s: Seq<(Seq<char>, ValueView)>, k: Seq<char>) -> (i: int)
    requires
        lookup(s, k) is Some,
    ensures
        0 <= i < s.len(),
        s[i].0 == k,
        s[i].1 == lookup(s, k)->0,
    decreases s.len(),
{
    if s[0].0 == k {
        0
    } else {
        let r = s.subrange(1, s.len() as int);
        let j = lemma_lookup_index(r, k);
        assert(r[j] == s[j + 1]);
        j + 1
    }
}

proof fn lemma_lookup_well_formed(s: Seq<(Seq<char>, ValueView)>, k: Seq<char>)
    requires
        entries_well_formed(s),
        lookup(s, k) is Some,
    ensures
        well_formed(lookup(s, k)->0),
    decreases s.len(),
{
    if s[0].0 != k {
        lemma_lookup_well_formed(s.subrange(1, s.len() as int), k);
    }
}

proof fn lemma_lookup_known(
    doc: Seq<(Seq<char>, ValueView)>,
    config: ValueView,
    path: Seq<char>,
    registered: Seq<Seq<char>>,
    k: Seq<char>,
)
    requires
        known_keys(doc, config, path, registered),
        lookup(doc, k) is Some,
    ensures
        get_key(config, k) is Some || registered.contains(dotted(path, k)),
        match (get_key(config, k), lookup(doc, k)->0) {
            (Some(c), ValueView::Table(dt)) => c is Table ==> known_keys(dt, c, dotted(path, k), registered),
            _ => true,
        },
    decreases doc.len(),
{
    if doc[0].0 != k {
        lemma_lookup_known(doc.subrange(1, doc.len() as int), config, path, registered, k);
    }
}

proof fn lemma_lookup_omissions(
    cs: Seq<(Seq<char>, ValueView)>,
    bs: Seq<(Seq<char>, ValueView)>,
    path: Seq<char>,
    registered: Seq<Seq<char>>,
    optional: Seq<Seq<char>>,
    k: Seq<char>,
)
    requires
        keys_ascending(cs),
        keys_ascending(bs),
        entries_omissions_are_cleared_options(cs, bs, path, registered, optional),
        lookup(cs, k) is Some,
        lookup(bs, k) is Some,
    ensures
        omissions_are_cleared_options(
            lookup(cs, k)->0,
            lookup(bs, k)->0,
            dotted(path, k),
            registered,
            optional,
        ),
    decreases cs, bs,
{
    if cs.len() == 0 && bs.len() == 0 {
    } else if bs.len() == 0 || (cs.len() > 0 && lex_lt(cs[0].0, bs[0].0)) {
        let cr = cs.subrange(1, cs.len() as int);
        lemma_ascending_tail(cs);
        if cs[0].0 == k {
            lemma_after_from_head(bs, k);
            lemma_lookup_after(bs, k);
        }
        lemma_lookup_omissions(cr, bs, path, registered, optional, k);
    } else if cs.len() == 0 || lex_lt(bs[0].0, cs[0].0) {
        let br = bs.subrange(1, bs.len() as int);
        lemma_ascending_tail(bs);
        if bs[0].0 == k {
            lemma_after_from_head(cs, k);
            lemma_lookup_after(cs, k);
        }
        lemma_lookup_omissions(cs, br, path, registered, optional, k);
    } else {
        lemma_lex_total(cs[0].0, bs[0].0);
        if cs[0].0 != k {
            lemma_ascending_tail(cs);
            lemma_ascending_tail(bs);
            lemma_lookup_omissions(
                cs.subrange(1, cs.len() as int),
                bs.subrange(1, bs.len() as int),
                path,
                registered,
                optional,
                k,
            );
        }
    }
}

/// A file pruned against a layer that states nothing, then overwritten
/// with the settings, is the settings.
proof fn lemma_prune_dominated(
    dt: Seq<(Seq<char>, ValueView)>,
    cs: Seq<(Seq<char>, ValueView)>,
    base: ValueView,
    path: Seq<char>,
    registered: Seq<Seq<char>>,
)
    requires
        keys_ascending(dt),
        entries_well_formed(dt),
        keys_ascending(cs),
        entries_well_formed(cs),
        known_keys(dt, ValueView::Table(cs), path, registered),
        forall|x: Seq<char>| #[trigger] get_key(base, x) is None,
    ensures
        merge_entries(prune_entries(dt, ValueView::Table(cs), base, path, registered), cs) == cs,
    decreases dt,
{
    let c = ValueView::Table(cs);
    let p = prune_entries(dt, c, base, path, registered);
    lemma_prune_ascending(dt, c, base, path, registered);
    lemma_merge_ascending(p, cs);
    assert forall|x: Seq<char>| #[trigger] lookup(merge_entries(p, cs), x) == lookup(cs, x) by {
        layering_is_per_key(p, cs, x);
        lemma_lookup_prune(dt, c, base, path, registered, x);
        assert(get_key(base, x) is None);
        if lookup(dt, x) is Some {
            let v = lookup(dt, x)->0;
            lemma_lookup_known(dt, c, path, registered, x);
            let i = lemma_lookup_index(dt, x);
            assert(dt[i] == (x, v));
            if lookup(cs, x) is Some {
                let cx = lookup(cs, x)->0;
                if let (ValueView::Table(ct2), ValueView::Table(dt2)) = (cx, v) {
                    lemma_lookup_well_formed(dt, x);
                    lemma_lookup_well_formed(cs, x);
                    assert(get_key(empty_table(), x) is None);
                    assert forall|y: Seq<char>| #[trigger] get_key(empty_table(), y) is None by {
                    }
                    assert(decreases_to!(dt => dt[i]));
                    assert(decreases_to!(dt[i] => dt[i].1));
                    assert(decreases_to!(dt[i].1 => (dt[i].1)->Table_0));
                    lemma_prune_dominated(dt2, ct2, empty_table(), dotted(path, x), registered);
                }
            }
        }
    }
    lemma_lookup_extensional(merge_entries(p, cs), cs);
}

proof fn lemma_save_entries(
    doc: Seq<(Seq<char>, ValueView)>,
    cs: Seq<(Seq<char>, ValueView)>,
    bs: Seq<(Seq<char>, ValueView)>,
    path: Seq<char>,
    registered: Seq<Seq<char>>,
    optional: Seq<Seq<char>>,
)
    requires
        keys_ascending(doc),
        entries_well_formed(doc),
        keys_ascending(cs),
        entries_well_formed(cs),
        keys_ascending(bs),
        entries_well_formed(bs),
        entries_omissions_are_cleared_options(cs, bs, path, registered, optional),
        known_keys(doc, ValueView::Table(cs), path, registered),
    ensures
        merge_entries(
            bs,
            merge_entries(
                prune_entries(doc, ValueView::Table(cs), ValueView::Table(bs), path, registered),
                diff_entries(cs, bs, path, registered),
            ),
        ) == merge_entries(bs, diff_entries(cs, bs, path, registered)),
    decreases doc,
{
    let c = ValueView::Table(cs);
    let b = ValueView::Table(bs);
    let p = prune_entries(doc, c, b, path, registered);
    let out = diff_entries(cs, bs, path, registered);
    lemma_prune_ascending(doc, c, b, path, registered);
    lemma_diff_ascending(cs, bs, path, registered);
    lemma_merge_ascending(p, out);
    lemma_merge_ascending(bs, merge_entries(p, out));
    lemma_merge_ascending(bs, out);
    assert forall|x: Seq<char>| #[trigger] lookup(merge_entries(bs, merge_entries(p, out)), x) == lookup(
        merge_entries(bs, out),
        x,
    ) by {
        layering_is_per_key(bs, merge_entries(p, out), x);
        layering_is_per_key(p, out, x);
        layering_is_per_key(bs, out, x);
        lemma_lookup_prune(doc, c, b, path, registered, x);
        lemma_lookup_diff(cs, bs, path, registered, x);
        let dx = dotted(path, x);
        if lookup(p, x) is Some {
            let v = lookup(doc, x)->0;
            lemma_lookup_known(doc, c, path, registered, x);
            let i = lemma_lookup_index(doc, x);
            assert(doc[i] == (x, v));
            let cx = lookup(cs, x)->0;
            if lookup(bs, x) is None {
                if let (ValueView::Table(ct2), ValueView::Table(dt2)) = (cx, v) {
                    lemma_lookup_well_formed(doc, x);
                    lemma_lookup_well_formed(cs, x);
                    assert forall|y: Seq<char>| #[trigger] get_key(empty_table(), y) is None by {
                    }
                    lemma_prune_dominated(dt2, ct2, empty_table(), dx, registered);
                }
            } else {
                let bx = lookup(bs, x)->0;
                assert(bx != cx);
                lemma_lookup_omissions(cs, bs, path, registered, optional, x);
                if diff_values(cx, bx, dx, registered) is None {
                    lemma_no_diff_means_equal(cx, bx, dx, registered, optional);
                }
                if let (ValueView::Table(ct2), ValueView::Table(dt2)) = (cx, v) {
                    lemma_lookup_well_formed(doc, x);
                    lemma_lookup_well_formed(cs, x);
                    lemma_lookup_well_formed(bs, x);
                    match bx {
                        ValueView::Table(bt2) => {
                            assert(decreases_to!(doc => doc[i]));
                            assert(decreases_to!(doc[i] => doc[i].1));
                            assert(decreases_to!(doc[i].1 => (doc[i].1)->Table_0));
                            lemma_save_entries(dt2, ct2, bt2, dx, registered, optional);
                        },
                        _ => {
                            assert forall|y: Seq<char>| #[trigger] get_key(bx, y) is None by {
                            }
                            lemma_prune_dominated(dt2, ct2, bx, dx, registered);
                        },
                    }
                }
            }
        }
    }
    lemma_lookup_extensional(merge_entries(bs, merge_entries(p, out)), merge_entries(bs, out));
}

/// Saving over an existing file then loading gives the settings back:
/// layering over `base` what a save over `existing` writes (restatements
/// pruned, the difference written over them), and dropping the cleared
/// marks, yields `config` again, provided the file holds no key the
/// settings do not know, and under the conditions of
/// [`saving_then_layering_restores_the_settings`].
pub proof fn saving_over_a_file_then_layering_restores_the_settings(
    existing: Seq<(Seq<char>, ValueView)>,
    config: ValueView,
    base: ValueView,
    registered: Seq<Seq<char>>,
    optional: Seq<Seq<char>>,
)
    requires
        config is Table,
        base is Table,
        well_formed(config),
        well_formed(base),
        well_formed(ValueView::Table(existing)),
        no_cleared_marks(config, Seq::empty(), optional),
        omissions_are_cleared_options(config, base, Seq::empty(), registered, optional),
        known_keys(existing, config, Seq::empty(), registered),
    ensures
        scrub_value(
            merge_values(base, sparse_save(existing, config, base, registered)),
            Seq::empty(),
            optional,
        ) == config,
{
    let cs = config->Table_0;
    let bs = base->Table_0;
    let path = Seq::<char>::empty();
    lemma_save_entries(existing, cs, bs, path, registered, optional);
    let p = prune_entries(existing, config, base, path, registered);
    let out = diff_entries(cs, bs, path, registered);
    if out.len() == 0 {
        lemma_no_diff_means_equal(config, base, path, registered, optional);
        assert(merge_entries(p, out) =~= p) by {
            if p.len() > 0 {
            }
        }
        assert(merge_entries(bs, out) =~= bs);
        lemma_scrub_identity(config, path, optional);
    } else {
        lemma_round_trip(config, base, path, registered, optional);
    }
}

/// A copy of a table's entries with the same view.
fn duplicate_entries(entries: &Vec<(String, SettingValue)>) -> (r: Vec<(String, SettingValue)>)
    ensures
        entries_view(r@) == entries_view(entries@),
{
    let mut out: Vec<(String, SettingValue)> = Vec::new();
    let mut k: usize = 0;
    while k < entries.len()
        invariant
            k <= entries@.len(),
            entries_view(out@) == entries_view(entries@.subrange(0, k as int)),
        decreases entries@.len() - k,
    {
        let e = (entries[k].0.clone(), entries[k].1.duplicate());
        proof {
            lemma_entries_push(out@, e);
            lemma_entries_push(entries@.subrange(0, k as int), entries@[k as int]);
            assert(entries@.subrange(0, k as int).push(entries@[k as int]) =~= entries@.subrange(0, k + 1));
        }
        out.push(e);
        k = k + 1;
    }
    proof {
        assert(entries@.subrange(0, k as int) =~= entries@);
    }
    out
}

/// Writes `src`'s entries over an existing file's table in place: a key
/// that is a table in both is merged again key by key, any other key of
/// `src` is inserted or replaces the file's value, and the file's other
/// keys stay.
pub fn merge_items(doc: &mut Vec<(String, SettingValue)>, src: &Vec<(String, SettingValue)>)
    ensures
        entries_view(final(doc)@) == merge_entries(entries_view(old(doc)@), entries_view(src@)),
{
    let mut d: Vec<(String, SettingValue)> = Vec::new();
    std::mem::swap(&mut d, doc);
    let base = SettingValue::Table(d);
    let over = SettingValue::Table(duplicate_entries(src));
    match merged(&base, &over) {
        SettingValue::Table(r) => {
            *doc = r;
        },
        _ => {},
    }
}

} // verus!
