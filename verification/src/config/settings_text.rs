//! Settings files as text: sparse saves that edit the existing document in
//! place, so that what the user wrote (comments and layout around the keys
//! that stay) survives a save.
//!
//! The document is read and written by the `toml_edit` crate. What a
//! document holds is modelled as entries in document order: each with its
//! key, the formatting written around the key (its comments and spacing,
//! empty for the default formatting) and its item, either a table with
//! its own header formatting and entries, or a value with what it holds
//! and the formatting written around it. The edits made here are stated
//! over that model.

use vstd::prelude::*;
use crate::config::sparse::{
    cleared_mark, diff_entries, lookup,
    diff_value, diff_values, dotted, dotted_name, empty_table, entries_view, listed, get_key, items_view, lemma_entries_view,
    lemma_entries_push, lemma_items_view, layer_settings, names_view, scrub_value, stacked, table_get,
    values_equal, SettingValue, ValueView,
};
use crate::text::lex_lt;

verus! {

#[verifier::external_type_specification]
#[verifier::external_body]
pub struct ExDocumentMut(toml_edit::DocumentMut);

#[verifier::external_type_specification]
#[verifier::external_body]
pub struct ExTable(toml_edit::Table);

#[verifier::external_type_specification]
#[verifier::external_body]
pub struct ExValue(toml_edit::Value);

#[verifier::external_type_specification]
#[verifier::external_body]
pub struct ExArray(toml_edit::Array);

#[verifier::external_type_specification]
#[verifier::external_body]
pub struct ExInlineTable(toml_edit::InlineTable);

/// An item of a settings document.
pub enum DocItem {
    /// A table with its own header (or dotted keys): the formatting written
    /// around its header, and its entries.
    Table(Seq<char>, Seq<(Seq<char>, Seq<char>, DocItem)>),
    /// A value (arrays and inline tables included): what it holds, and the
    /// formatting written around it.
    Value(ValueView, Seq<char>),
}

/// The entries of a document or table, in document order: the key, the
/// formatting written around the key, and the item.
pub type DocEntries = Seq<(Seq<char>, Seq<char>, DocItem)>;

/// A name for what `toml_edit` reads from `text` as a document: its
/// top-level entries, or `None` when the text is not TOML.
pub uninterp spec fn toml_document(text: Seq<char>) -> Option<DocEntries>;

/// A name for the top-level entries a document holds.
pub uninterp spec fn document_entries(d: toml_edit::DocumentMut) -> DocEntries;

/// A name for the text a document renders to.
pub uninterp spec fn document_text(d: toml_edit::DocumentMut) -> Seq<char>;

/// A name for the entries a table holds (items that are empty are not
/// listed).
pub uninterp spec fn table_entries(t: toml_edit::Table) -> DocEntries;

/// A name for whether no item of a table, nor of the tables within it, is
/// empty (`Item::None`); the parser makes none, and nothing here does.
pub uninterp spec fn no_empty_items(t: toml_edit::Table) -> bool;

/// A name for whether no item of an inline table is empty.
pub uninterp spec fn inline_no_empty_items(t: toml_edit::InlineTable) -> bool;

/// A name for whether no item of a document's tables is empty.
pub uninterp spec fn document_no_empty_items(d: toml_edit::DocumentMut) -> bool;

/// A name for the formatting written around a table's header.
pub uninterp spec fn table_format(t: toml_edit::Table) -> Seq<char>;

/// A name for what a value holds; floats and dates by the text `toml_edit`
/// writes for them.
pub uninterp spec fn value_content(v: toml_edit::Value) -> ValueView;

/// A name for the formatting written around a value.
pub uninterp spec fn value_format(v: toml_edit::Value) -> Seq<char>;

/// A name for the values an array holds.
pub uninterp spec fn array_items(a: toml_edit::Array) -> Seq<ValueView>;

/// A name for the keys and values an inline table holds.
pub uninterp spec fn inline_items(t: toml_edit::InlineTable) -> Seq<(Seq<char>, ValueView)>;

/// A name for whether `toml_edit` reads `repr` as a float.
pub uninterp spec fn float_accepted(repr: Seq<char>) -> bool;

/// A name for the text `toml_edit` writes for the float it reads from
/// `repr`.
pub uninterp spec fn float_text(repr: Seq<char>) -> Seq<char>;

/// A name for the text `toml_edit` writes for the date or time it reads
/// from `repr`.
pub uninterp spec fn datetime_text(repr: Seq<char>) -> Seq<char>;

/// A name for whether `toml_edit` reads `repr` as a date or time.
pub uninterp spec fn datetime_accepted(repr: Seq<char>) -> bool;

/// No key occurs twice.
pub open spec fn keys_distinct(es: DocEntries) -> bool {
    forall|i: int, j: int| 0 <= i < es.len() && 0 <= j < es.len() && i != j ==> es[i].0 != es[j].0
}

/// The position of the entry with key `k`, searched from `from` on.
pub open spec fn key_from(es: DocEntries, k: Seq<char>, from: int) -> Option<int>
    decreases es.len() - from,
{
    if from < 0 || from >= es.len() {
        None
    } else if es[from].0 == k {
        Some(from)
    } else {
        key_from(es, k, from + 1)
    }
}

/// The position of the entry with key `k`.
pub open spec fn key_at(es: DocEntries, k: Seq<char>) -> Option<int> {
    key_from(es, k, 0)
}

/// `es` without the entry with key `k`.
pub open spec fn without_key(es: DocEntries, k: Seq<char>) -> DocEntries {
    match key_at(es, k) {
        Some(i) => es.remove(i),
        None => es,
    }
}

/// `es` with `item` under `k`: in place of the entry with that key (whose
/// key formatting is reset), or appended.
pub open spec fn with_entry(es: DocEntries, k: Seq<char>, item: DocItem) -> DocEntries {
    match key_at(es, k) {
        Some(i) => es.update(i, (k, Seq::empty(), item)),
        None => es.push((k, Seq::empty(), item)),
    }
}

/// `ps` with `v` under `k`, in place or appended.
pub open spec fn with_pair(ps: Seq<(Seq<char>, ValueView)>, k: Seq<char>, v: ValueView) -> Seq<
    (Seq<char>, ValueView),
> {
    if exists|i: int| 0 <= i < ps.len() && ps[i].0 == k {
        let i = choose|i: int| 0 <= i < ps.len() && ps[i].0 == k && forall|j: int| 0 <= j < i ==> ps[j].0 != k;
        ps.update(i, (k, v))
    } else {
        ps.push((k, v))
    }
}

/// Reads a document (`text.parse::<toml_edit::DocumentMut>()`).
#[verifier::external_body]
fn parse_document(text: &str) -> (r: Option<toml_edit::DocumentMut>)
    ensures
        match r {
            Some(d) => toml_document(text@) == Some(document_entries(d)) && document_no_empty_items(d),
            None => toml_document(text@) is None,
        },
{
    text.parse::<toml_edit::DocumentMut>().ok()
}

/// The top-level table of a document (`DocumentMut::as_table_mut`); its
/// keys are distinct, as in every `toml_edit` table.
#[verifier::external_body]
fn root_table<'a>(d: &'a mut toml_edit::DocumentMut) -> (r: &'a mut toml_edit::Table)
    ensures
        table_entries(*r) == document_entries(*old(d)),
        keys_distinct(table_entries(*r)),
        document_no_empty_items(*old(d)) ==> no_empty_items(*r),
        document_entries(*final(d)) == table_entries(*final(r)),
{
    d.as_table_mut()
}

/// The text of a document (`DocumentMut::to_string`).
#[verifier::external_body]
fn render(d: &toml_edit::DocumentMut) -> (r: String)
    ensures
        r@ == document_text(*d),
{
    d.to_string()
}

/// The keys of a table in order (`Table::iter`).
#[verifier::external_body]
fn table_keys(t: &toml_edit::Table) -> (r: Vec<String>)
    ensures
        r@.len() == table_entries(*t).len(),
        forall|i: int| 0 <= i < r@.len() ==> (#[trigger] r@[i])@ == table_entries(*t)[i].0,
{
    let mut keys = Vec::new();
    for (k, _) in t.iter() {
        keys.push(k.to_string());
    }
    keys
}

/// Removes the entry with key `key` (`Table::remove`); the others keep
/// their order and formatting.
#[verifier::external_body]
fn table_remove(t: &mut toml_edit::Table, key: &str)
    ensures
        table_entries(*final(t)) == without_key(table_entries(*old(t)), key@),
        table_format(*final(t)) == table_format(*old(t)),
        no_empty_items(*old(t)) ==> no_empty_items(*final(t)),
{
    t.remove(key);
}

/// The table under `key`, when the item there is a table
/// (`Table::get_mut`); changes made to it are changes of that entry.
#[verifier::external_body]
fn child_table<'a>(t: &'a mut toml_edit::Table, key: &str) -> (r: Option<&'a mut toml_edit::Table>)
    ensures
        match key_at(table_entries(*old(t)), key@) {
            Some(i) => (table_entries(*old(t))[i].2 is Table) == (r is Some),
            None => r is None,
        },
        r matches Some(c) ==> {
            let es = table_entries(*old(t));
            let i = key_at(es, key@)->0;
            &&& es[i].2 == DocItem::Table(table_format(*c), table_entries(*c))
            &&& keys_distinct(table_entries(*c))
            &&& table_entries(*final(t)) == es.update(
                i,
                (es[i].0, es[i].1, DocItem::Table(table_format(*final(c)), table_entries(*final(c)))),
            )
            &&& table_format(*final(t)) == table_format(*old(t))
            &&& no_empty_items(*old(t)) ==> no_empty_items(*c)
            &&& (no_empty_items(*old(t)) && no_empty_items(*final(c))) ==> no_empty_items(*final(t))
        },
        r is None ==> *final(t) == *old(t),
{
    match t.get_mut(key) {
        Some(toml_edit::Item::Table(c)) => Some(c),
        _ => None,
    }
}

/// Whether a table holds no entries (`Table::is_empty`).
#[verifier::external_body]
fn table_is_empty(t: &toml_edit::Table) -> (r: bool)
    ensures
        r == (table_entries(*t).len() == 0),
{
    t.is_empty()
}

/// An empty table with default formatting (`Table::new`).
#[verifier::external_body]
fn new_table() -> (r: toml_edit::Table)
    ensures
        table_entries(r) == DocEntries::empty(),
        table_format(r) == Seq::<char>::empty(),
        no_empty_items(r),
{
    toml_edit::Table::new()
}

/// Puts a table under `key` (`Table::insert`): in place of the entry with
/// that key, whose key formatting is reset, or appended (for a table with
/// no empty item; an empty item under `key` would be replaced in place).
#[verifier::external_body]
fn put_table(t: &mut toml_edit::Table, key: &str, child: toml_edit::Table)
    ensures
        no_empty_items(*old(t)) ==> table_entries(*final(t)) == with_entry(
            table_entries(*old(t)),
            key@,
            DocItem::Table(table_format(child), table_entries(child)),
        ),
        table_format(*final(t)) == table_format(*old(t)),
        no_empty_items(*old(t)) && no_empty_items(child) ==> no_empty_items(*final(t)),
{
    t.insert(key, toml_edit::Item::Table(child));
}

/// Puts a value under `key` (`Table::insert`): in place of the entry with
/// that key, whose key formatting is reset, or appended (for a table with
/// no empty item; an empty item under `key` would be replaced in place).
#[verifier::external_body]
fn put_value(t: &mut toml_edit::Table, key: &str, v: toml_edit::Value)
    ensures
        no_empty_items(*old(t)) ==> table_entries(*final(t)) == with_entry(
            table_entries(*old(t)),
            key@,
            DocItem::Value(value_content(v), value_format(v)),
        ),
        table_format(*final(t)) == table_format(*old(t)),
        no_empty_items(*old(t)) ==> no_empty_items(*final(t)),
{
    t.insert(key, toml_edit::Item::Value(v));
}

/// A string value (`Value::from`).
#[verifier::external_body]
fn text_value(s: &str) -> (r: toml_edit::Value)
    ensures
        value_content(r) == ValueView::Text(s@),
        value_format(r) == Seq::<char>::empty(),
{
    toml_edit::Value::from(s)
}

/// An integer value (`Value::from`).
#[verifier::external_body]
fn integer_value(i: i64) -> (r: toml_edit::Value)
    ensures
        value_content(r) == ValueView::Integer(i),
        value_format(r) == Seq::<char>::empty(),
{
    toml_edit::Value::from(i)
}

/// A boolean value (`Value::from`).
#[verifier::external_body]
fn boolean_value(b: bool) -> (r: toml_edit::Value)
    ensures
        value_content(r) == ValueView::Boolean(b),
        value_format(r) == Seq::<char>::empty(),
{
    toml_edit::Value::from(b)
}

/// The float written `repr` (`Value::from_str`), when `toml_edit` reads it
/// as a float; no formatting is written around it.
#[verifier::external_body]
fn float_value(repr: &str) -> (r: Option<toml_edit::Value>)
    ensures
        r is Some <==> float_accepted(repr@),
        r matches Some(v) ==> value_content(v) == ValueView::Float(float_text(repr@)) && value_format(v)
            == Seq::<char>::empty(),
{
    match repr.parse::<toml_edit::Value>() {
        Ok(v @ toml_edit::Value::Float(_)) => Some(v),
        _ => None,
    }
}

/// The date or time written `repr` (`Value::from_str`), when `toml_edit`
/// reads it as one; no formatting is written around it.
#[verifier::external_body]
fn datetime_value(repr: &str) -> (r: Option<toml_edit::Value>)
    ensures
        r is Some <==> datetime_accepted(repr@),
        r matches Some(v) ==> value_content(v) == ValueView::Datetime(datetime_text(repr@)) && value_format(v)
            == Seq::<char>::empty(),
{
    match repr.parse::<toml_edit::Value>() {
        Ok(v @ toml_edit::Value::Datetime(_)) => Some(v),
        _ => None,
    }
}

/// An empty array (`Array::new`).
#[verifier::external_body]
fn new_array() -> (r: toml_edit::Array)
    ensures
        array_items(r) == Seq::<ValueView>::empty(),
{
    toml_edit::Array::new()
}

/// Appends a value to an array (`Array::push`).
#[verifier::external_body]
fn array_push(a: &mut toml_edit::Array, v: toml_edit::Value)
    ensures
        array_items(*final(a)) == array_items(*old(a)).push(value_content(v)),
{
    a.push(v);
}

/// An array as a value (`Value::from`).
#[verifier::external_body]
fn array_value(a: toml_edit::Array) -> (r: toml_edit::Value)
    ensures
        value_content(r) == ValueView::Array(array_items(a)),
        value_format(r) == Seq::<char>::empty(),
{
    toml_edit::Value::from(a)
}

/// An empty inline table (`InlineTable::new`).
#[verifier::external_body]
fn new_inline_table() -> (r: toml_edit::InlineTable)
    ensures
        inline_items(r) == Seq::<(Seq<char>, ValueView)>::empty(),
        inline_no_empty_items(r),
{
    toml_edit::InlineTable::new()
}

/// Puts a value under `key` in an inline table (`InlineTable::insert`): in
/// place of the value under that key, or appended (for an inline table
/// with no empty item).
#[verifier::external_body]
fn inline_put(t: &mut toml_edit::InlineTable, key: &str, v: toml_edit::Value)
    ensures
        inline_no_empty_items(*old(t)) ==> inline_items(*final(t)) == with_pair(
            inline_items(*old(t)),
            key@,
            value_content(v),
        ),
        inline_no_empty_items(*old(t)) ==> inline_no_empty_items(*final(t)),
{
    t.insert(key, v);
}

/// An inline table as a value (`Value::from`).
#[verifier::external_body]
fn inline_value(t: toml_edit::InlineTable) -> (r: toml_edit::Value)
    ensures
        value_content(r) == ValueView::Table(inline_items(t)),
        value_format(r) == Seq::<char>::empty(),
{
    toml_edit::Value::from(t)
}


/// Whether every float and date in `v` is written so that `toml_edit`
/// reads it back as one.
pub open spec fn writable(v: ValueView) -> bool
    decreases v,
{
    match v {
        ValueView::Float(r) => float_accepted(r),
        ValueView::Datetime(r) => datetime_accepted(r),
        ValueView::Array(items) => writable_values(items),
        ValueView::Table(ps) => writable_pairs(ps),
        _ => true,
    }
}

pub open spec fn writable_values(s: Seq<ValueView>) -> bool
    decreases s,
{
    if s.len() == 0 {
        true
    } else {
        writable_values(s.subrange(0, s.len() - 1)) && writable(s[s.len() - 1])
    }
}

pub open spec fn writable_pairs(ps: Seq<(Seq<char>, ValueView)>) -> bool
    decreases ps,
{
    if ps.len() == 0 {
        true
    } else {
        writable_pairs(ps.subrange(0, ps.len() - 1)) && writable(ps[ps.len() - 1].1)
    }
}

/// What a value written from `v` holds: floats and dates as `toml_edit`
/// writes them, arrays item by item, tables (as inline tables) key by key,
/// a later key taking the place of an earlier equal one.
pub open spec fn new_value(v: ValueView) -> ValueView
    decreases v,
{
    match v {
        ValueView::Float(r) => ValueView::Float(float_text(r)),
        ValueView::Datetime(r) => ValueView::Datetime(datetime_text(r)),
        ValueView::Array(items) => ValueView::Array(new_values(items)),
        ValueView::Table(ps) => ValueView::Table(new_pairs(ps)),
        _ => v,
    }
}

pub open spec fn new_values(s: Seq<ValueView>) -> Seq<ValueView>
    decreases s,
{
    if s.len() == 0 {
        Seq::empty()
    } else {
        new_values(s.subrange(0, s.len() - 1)).push(new_value(s[s.len() - 1]))
    }
}

pub open spec fn new_pairs(ps: Seq<(Seq<char>, ValueView)>) -> Seq<(Seq<char>, ValueView)>
    decreases ps,
{
    if ps.len() == 0 {
        Seq::empty()
    } else {
        with_pair(new_pairs(ps.subrange(0, ps.len() - 1)), ps[ps.len() - 1].0, new_value(ps[ps.len() - 1].1))
    }
}

/// The item written under a key for `v`: a table gets a header of its
/// own (nested tables too), anything else is written as a value.
pub open spec fn new_item(v: ValueView) -> DocItem
    decreases v,
{
    match v {
        ValueView::Table(ps) => DocItem::Table(Seq::empty(), new_entries(ps)),
        _ => DocItem::Value(new_value(v), Seq::empty()),
    }
}

/// The entries of a table written from `ps`, in order.
pub open spec fn new_entries(ps: Seq<(Seq<char>, ValueView)>) -> DocEntries
    decreases ps,
{
    if ps.len() == 0 {
        DocEntries::empty()
    } else {
        with_entry(new_entries(ps.subrange(0, ps.len() - 1)), ps[ps.len() - 1].0, new_item(ps[ps.len() - 1].1))
    }
}

proof fn lemma_items_step(s: Seq<SettingValue>, i: int)
    requires
        0 <= i < s.len(),
    ensures
        items_view(s).take(i + 1).subrange(0, i) == items_view(s).take(i),
        items_view(s).take(i + 1).len() == i + 1,
        items_view(s).take(i + 1)[i] == s[i]@,
{
    lemma_items_view(s);
    assert(items_view(s).take(i + 1).subrange(0, i) =~= items_view(s).take(i));
}

proof fn lemma_entries_step(s: Seq<(String, SettingValue)>, i: int)
    requires
        0 <= i < s.len(),
    ensures
        entries_view(s).take(i + 1).subrange(0, i) == entries_view(s).take(i),
        entries_view(s).take(i + 1).len() == i + 1,
        entries_view(s).take(i + 1)[i] == (s[i].0@, s[i].1@),
{
    lemma_entries_view(s);
    assert(entries_view(s).take(i + 1).subrange(0, i) =~= entries_view(s).take(i));
}

proof fn lemma_writable_values_all(s: Seq<ValueView>)
    ensures
        writable_values(s) <==> forall|j: int| 0 <= j < s.len() ==> writable(#[trigger] s[j]),
    decreases s.len(),
{
    if s.len() > 0 {
        let p = s.subrange(0, s.len() - 1);
        lemma_writable_values_all(p);
        assert forall|j: int| 0 <= j < p.len() implies p[j] == s[j] by {}
    }
}

proof fn lemma_writable_pairs_all(s: Seq<(Seq<char>, ValueView)>)
    ensures
        writable_pairs(s) <==> forall|j: int| 0 <= j < s.len() ==> writable(#[trigger] s[j].1),
    decreases s.len(),
{
    if s.len() > 0 {
        let p = s.subrange(0, s.len() - 1);
        lemma_writable_pairs_all(p);
        assert forall|j: int| 0 <= j < p.len() implies p[j] == s[j] by {}
    }
}

/// The value written for `v`, or `None` when a float or date in it is not
/// written so that `toml_edit` reads it as one.
fn build_value(v: &SettingValue) -> (r: Option<toml_edit::Value>)
    ensures
        r is Some <==> writable(v@),
        r matches Some(x) ==> value_content(x) == new_value(v@) && value_format(x) == Seq::<char>::empty(),
    decreases v,
{
    match v {
        SettingValue::Text(s) => Some(text_value(s.as_str())),
        SettingValue::Integer(i) => Some(integer_value(*i)),
        SettingValue::Boolean(b) => Some(boolean_value(*b)),
        SettingValue::Float(repr) => float_value(repr.as_str()),
        SettingValue::Datetime(repr) => datetime_value(repr.as_str()),
        SettingValue::Array(items) => {
            let ghost sv = items_view(items@);
            let mut a = new_array();
            let mut i: usize = 0;
            while i < items.len()
                invariant
                    *v == SettingValue::Array(*items),
                    sv == items_view(items@),
                    i <= items@.len(),
                    array_items(a) == new_values(sv.take(i as int)),
                    writable_values(sv.take(i as int)),
                decreases items@.len() - i,
            {
                proof {
                    lemma_items_step(items@, i as int);
                    assert(decreases_to!(*v => *items));
                    assert(decreases_to!(*items => items[i as int]));
                }
                match build_value(&items[i]) {
                    Some(x) => {
                        array_push(&mut a, x);
                    },
                    None => {
                        proof {
                            lemma_items_view(items@);
                            lemma_writable_values_all(sv);
                            assert(sv[i as int] == items@[i as int]@);
                        }
                        return None;
                    },
                }
                i = i + 1;
            }
            proof {
                lemma_items_view(items@);
                assert(sv.take(i as int) =~= sv);
            }
            Some(array_value(a))
        },
        SettingValue::Table(es) => {
            let ghost sv = entries_view(es@);
            let mut t = new_inline_table();
            let mut i: usize = 0;
            while i < es.len()
                invariant
                    *v == SettingValue::Table(*es),
                    sv == entries_view(es@),
                    i <= es@.len(),
                    inline_items(t) == new_pairs(sv.take(i as int)),
                    inline_no_empty_items(t),
                    writable_pairs(sv.take(i as int)),
                decreases es@.len() - i,
            {
                proof {
                    lemma_entries_step(es@, i as int);
                    assert(decreases_to!(*v => *es));
                    assert(decreases_to!(*es => es[i as int]));
                    assert(decreases_to!(es[i as int] => es[i as int].1));
                }
                match build_value(&es[i].1) {
                    Some(x) => {
                        inline_put(&mut t, es[i].0.as_str(), x);
                    },
                    None => {
                        proof {
                            lemma_entries_view(es@);
                            lemma_writable_pairs_all(sv);
                            assert(sv[i as int].1 == es@[i as int].1@);
                        }
                        return None;
                    },
                }
                i = i + 1;
            }
            proof {
                lemma_entries_view(es@);
                assert(sv.take(i as int) =~= sv);
            }
            Some(inline_value(t))
        },
    }
}

/// The table written for the entries `es`, each table among them with a
/// header of its own, or `None` when a float or date in them is not written
/// so that `toml_edit` reads it as one.
fn build_table(es: &Vec<(String, SettingValue)>) -> (r: Option<toml_edit::Table>)
    ensures
        r is Some <==> writable_pairs(entries_view(es@)),
        r matches Some(t) ==> table_entries(t) == new_entries(entries_view(es@)) && table_format(t)
            == Seq::<char>::empty() && no_empty_items(t),
    decreases es,
{
    let ghost sv = entries_view(es@);
    let mut t = new_table();
    let mut i: usize = 0;
    while i < es.len()
        invariant
            sv == entries_view(es@),
            i <= es@.len(),
            table_entries(t) == new_entries(sv.take(i as int)),
            table_format(t) == Seq::<char>::empty(),
            no_empty_items(t),
            writable_pairs(sv.take(i as int)),
        decreases es@.len() - i,
    {
        proof {
            lemma_entries_step(es@, i as int);
            assert(decreases_to!(*es => es[i as int]));
            assert(decreases_to!(es[i as int] => es[i as int].1));
        }
        match &es[i].1 {
            SettingValue::Table(sub) => {
                proof {
                    assert(decreases_to!(es[i as int].1 => (es[i as int].1)->Table_0));
                    assert(es@[i as int].1@ == ValueView::Table(entries_view(sub@)));
                    assert(new_item(es@[i as int].1@) == DocItem::Table(Seq::empty(), new_entries(entries_view(sub@))));
                    assert(writable(es@[i as int].1@) == writable_pairs(entries_view(sub@)));
                }
                match build_table(sub) {
                    Some(c) => {
                        put_table(&mut t, es[i].0.as_str(), c);
                    },
                    None => {
                        proof {
                            lemma_entries_view(es@);
                            lemma_writable_pairs_all(sv);
                            assert(sv[i as int].1 == es@[i as int].1@);
                        }
                        return None;
                    },
                }
            },
            _ => {
                proof {
                    assert(es@[i as int].1@ !is Table);
                    assert(new_item(es@[i as int].1@) == DocItem::Value(new_value(es@[i as int].1@), Seq::empty()));
                }
                match build_value(&es[i].1) {
                    Some(x) => {
                        put_value(&mut t, es[i].0.as_str(), x);
                    },
                    None => {
                        proof {
                            lemma_entries_view(es@);
                            lemma_writable_pairs_all(sv);
                            assert(sv[i as int].1 == es@[i as int].1@);
                        }
                        return None;
                    },
                }
            },
        }
        i = i + 1;
    }
    proof {
        lemma_entries_view(es@);
        assert(sv.take(i as int) =~= sv);
    }
    Some(t)
}


/// What is left of one entry of an existing file when a save prunes it: a
/// key whose value in `config` equals the one in `base` goes, a registered
/// key that `config` no longer has goes (a cleared setting), a table (with
/// a header of its own) that `config` holds as a table is pruned in turn
/// and goes when nothing is left, and any other entry stays as written.
pub open spec fn doc_prune_head(
    e: (Seq<char>, Seq<char>, DocItem),
    config: ValueView,
    base: ValueView,
    path: Seq<char>,
    registered: Seq<Seq<char>>,
) -> DocEntries
    decreases e,
{
    let k = e.0;
    let d = dotted(path, k);
    match get_key(config, k) {
        None => if registered.contains(d) {
            DocEntries::empty()
        } else {
            seq![e]
        },
        Some(c) => if get_key(base, k) == Some(c) {
            DocEntries::empty()
        } else {
            match (c, e.2) {
                (ValueView::Table(_), DocItem::Table(f, des)) => {
                    let b = match get_key(base, k) {
                        Some(b) => b,
                        None => empty_table(),
                    };
                    let p = doc_prune(des, c, b, d, registered);
                    if p.len() == 0 {
                        DocEntries::empty()
                    } else {
                        seq![(k, e.1, DocItem::Table(f, p))]
                    }
                },
                _ => seq![e],
            }
        },
    }
}

/// An existing file's entries pruned one by one (see `doc_prune_head`).
pub open spec fn doc_prune(
    es: DocEntries,
    config: ValueView,
    base: ValueView,
    path: Seq<char>,
    registered: Seq<Seq<char>>,
) -> DocEntries
    decreases es,
{
    if es.len() == 0 {
        DocEntries::empty()
    } else {
        doc_prune_head(es[0], config, base, path, registered) + doc_prune(
            es.subrange(1, es.len() as int),
            config,
            base,
            path,
            registered,
        )
    }
}

proof fn lemma_doc_prune_concat(
    a: DocEntries,
    b: DocEntries,
    config: ValueView,
    base: ValueView,
    path: Seq<char>,
    registered: Seq<Seq<char>>,
)
    ensures
        doc_prune(a + b, config, base, path, registered) == doc_prune(a, config, base, path, registered)
            + doc_prune(b, config, base, path, registered),
    decreases a.len(),
{
    if a.len() == 0 {
        assert(a + b =~= b);
    } else {
        let a1 = a.subrange(1, a.len() as int);
        assert((a + b).subrange(1, (a + b).len() as int) =~= a1 + b);
        assert((a + b)[0] == a[0]);
        lemma_doc_prune_concat(a1, b, config, base, path, registered);
    }
}

proof fn lemma_doc_prune_keys(
    es: DocEntries,
    config: ValueView,
    base: ValueView,
    path: Seq<char>,
    registered: Seq<Seq<char>>,
    k: Seq<char>,
)
    requires
        forall|i: int| 0 <= i < es.len() ==> es[i].0 != k,
    ensures
        forall|j: int| 0 <= j < doc_prune(es, config, base, path, registered).len() ==> (#[trigger] doc_prune(
            es,
            config,
            base,
            path,
            registered,
        )[j]).0 != k,
    decreases es.len(),
{
    if es.len() > 0 {
        let rest = es.subrange(1, es.len() as int);
        lemma_doc_prune_keys(rest, config, base, path, registered, k);
        let h = doc_prune_head(es[0], config, base, path, registered);
        let p = doc_prune(rest, config, base, path, registered);
        assert(h.len() <= 1 && (h.len() == 1 ==> h[0].0 == es[0].0));
        assert forall|j: int| 0 <= j < (h + p).len() implies (#[trigger] (h + p)[j]).0 != k by {
            if j >= h.len() {
                assert((h + p)[j] == p[j - h.len()]);
            }
        }
    }
}

proof fn lemma_key_found(s: DocEntries, k: Seq<char>, from: int, idx: int)
    requires
        0 <= from <= idx < s.len(),
        s[idx].0 == k,
        forall|j: int| from <= j < idx ==> s[j].0 != k,
    ensures
        key_from(s, k, from) == Some(idx),
    decreases idx - from,
{
    if from < idx {
        lemma_key_found(s, k, from + 1, idx);
    }
}

/// Prunes, in place, the entries of a table of an existing file that a
/// save drops (see `doc_prune`); the table's own formatting stays.
fn prune_doc(
    t: &mut toml_edit::Table,
    config: &SettingValue,
    base: &SettingValue,
    path: &str,
    registered: &Vec<String>,
)
    requires
        keys_distinct(table_entries(*old(t))),
    ensures
        table_entries(*final(t)) == doc_prune(
            table_entries(*old(t)),
            config@,
            base@,
            path@,
            names_view(registered@),
        ),
        table_format(*final(t)) == table_format(*old(t)),
        no_empty_items(*old(t)) ==> no_empty_items(*final(t)),
    decreases table_entries(*old(t)),
{
    let ghost es0 = table_entries(*t);
    let ghost f0 = table_format(*t);
    let ghost reg = names_view(registered@);
    let keys = table_keys(t);
    let mut k: usize = 0;
    proof {
        assert(es0.take(0) =~= DocEntries::empty());
        assert(es0.skip(0) =~= es0);
        assert(doc_prune(DocEntries::empty(), config@, base@, path@, reg) + es0 =~= es0);
    }
    while k < keys.len()
        invariant
            es0 == table_entries(*old(t)),
            keys_distinct(es0),
            reg == names_view(registered@),
            keys@.len() == es0.len(),
            forall|i: int| 0 <= i < keys@.len() ==> (#[trigger] keys@[i])@ == es0[i].0,
            k <= keys@.len(),
            table_entries(*t) == doc_prune(es0.take(k as int), config@, base@, path@, reg) + es0.skip(
                k as int,
            ),
            table_format(*t) == f0,
            f0 == table_format(*old(t)),
            no_empty_items(*old(t)) ==> no_empty_items(*t),
        decreases keys@.len() - k,
    {
        let ghost pre = doc_prune(es0.take(k as int), config@, base@, path@, reg);
        let ghost e = es0[k as int];
        let ghost rest = es0.skip(k as int + 1);
        let ghost cur = table_entries(*t);
        let ghost head = doc_prune_head(e, config@, base@, path@, reg);
        proof {
            assert(es0.take(k as int + 1) =~= es0.take(k as int) + seq![e]);
            lemma_doc_prune_concat(es0.take(k as int), seq![e], config@, base@, path@, reg);
            assert(seq![e].subrange(1, 1) =~= DocEntries::empty());
            assert(doc_prune(DocEntries::empty(), config@, base@, path@, reg) == DocEntries::empty());
            assert(doc_prune(seq![e], config@, base@, path@, reg) == head + doc_prune(
                DocEntries::empty(),
                config@,
                base@,
                path@,
                reg,
            ));
            assert(doc_prune(seq![e], config@, base@, path@, reg) =~= head);
            assert(es0.skip(k as int) =~= seq![e] + rest);
            assert forall|i: int| 0 <= i < es0.take(k as int).len() implies es0.take(k as int)[i].0 != e.0 by {
                assert(es0.take(k as int)[i] == es0[i]);
            }
            lemma_doc_prune_keys(es0.take(k as int), config@, base@, path@, reg, e.0);
            assert(cur == pre + (seq![e] + rest));
            assert(cur[pre.len() as int] == e);
            assert forall|j: int| 0 <= j < pre.len() implies cur[j].0 != e.0 by {
                assert(cur[j] == pre[j]);
            }
            lemma_key_found(cur, e.0, 0, pre.len() as int);
            assert(cur.remove(pre.len() as int) =~= pre + rest);
        }
        let key = keys[k].as_str();
        let name = dotted_name(path, key);
        match table_get(config, key) {
            None => {
                if listed(registered, name.as_str()) {
                    table_remove(t, key);
                    proof {
                        assert(pre + head + rest =~= pre + rest);
                    }
                } else {
                    proof {
                        assert(cur =~= pre + head + rest);
                    }
                }
            },
            Some(c) => {
                let bchild = table_get(base, key);
                let same = match bchild {
                    Some(b) => values_equal(b, c),
                    None => false,
                };
                if same {
                    table_remove(t, key);
                    proof {
                        assert(pre + head + rest =~= pre + rest);
                    }
                } else {
                    match c {
                        SettingValue::Table(_) => {
                            let empty = SettingValue::Table(Vec::new());
                            proof {
                                assert(entries_view(Seq::<(String, SettingValue)>::empty()) =~= Seq::<(Seq<char>, ValueView)>::empty());
                            }
                            let b = match bchild {
                                Some(b) => b,
                                None => &empty,
                            };
                            match child_table(t, key) {
                                Some(ch) => {
                                    proof {
                                        assert(decreases_to!(es0 => es0[k as int]));
                                        assert(decreases_to!(es0[k as int] => es0[k as int].2));
                                        assert(decreases_to!(es0[k as int].2 => (es0[k as int].2)->Table_1));
                                    }
                                    prune_doc(ch, c, b, name.as_str(), registered);
                                    let gone = table_is_empty(ch);
                                    proof {
                                        let p = doc_prune(
                                            (e.2)->Table_1,
                                            c@,
                                            b@,
                                            name@,
                                            reg,
                                        );
                                        assert(table_entries(*ch) == p);
                                        assert(table_entries(*t) == cur.update(
                                            pre.len() as int,
                                            (e.0, e.1, DocItem::Table((e.2)->Table_0, p)),
                                        ));
                                        if !gone {
                                            assert(head == seq![(e.0, e.1, DocItem::Table((e.2)->Table_0, p))]);
                                        } else {
                                            assert(head == DocEntries::empty());
                                        }
                                    }
                                    if gone {
                                        proof {
                                            let cur2 = table_entries(*t);
                                            assert forall|j: int| 0 <= j < pre.len() implies cur2[j].0 != e.0 by {
                                                assert(cur2[j] == cur[j]);
                                            }
                                            lemma_key_found(cur2, e.0, 0, pre.len() as int);
                                            assert(cur2.remove(pre.len() as int) =~= pre + rest);
                                        }
                                        table_remove(t, key);
                                        proof {
                                            assert(pre + head + rest =~= pre + rest);
                                        }
                                    } else {
                                        proof {
                                            assert(table_entries(*t) =~= pre + head + rest);
                                        }
                                    }
                                },
                                None => {
                                    proof {
                                        assert(cur =~= pre + head + rest);
                                    }
                                },
                            }
                        },
                        _ => {
                            proof {
                                assert(cur =~= pre + head + rest);
                            }
                        },
                    }
                }
            },
        }
        proof {
            assert(es0.skip(k as int + 1) =~= rest);
            assert(table_entries(*t) == pre + head + rest);
            assert(doc_prune(es0.take(k as int + 1), config@, base@, path@, reg) == pre + head);
        }
        k = k + 1;
    }
    proof {
        assert(es0.take(k as int) =~= es0);
        assert(es0.skip(k as int) =~= DocEntries::empty());
        assert(table_entries(*t) =~= doc_prune(es0, config@, base@, path@, reg));
    }
}


/// One key of what a save writes, written over a file's entries: a table
/// written where the file has a table (with a header of its own) under the
/// same key is written into it key by key; anything else takes the place
/// of the entry with that key, or is appended.
pub open spec fn doc_merge_one(es: DocEntries, p: (Seq<char>, ValueView)) -> DocEntries
    decreases p,
{
    match (p.1, key_at(es, p.0)) {
        (ValueView::Table(vs), Some(i)) => match es[i].2 {
            DocItem::Table(f, ces) => es.update(i, (es[i].0, es[i].1, DocItem::Table(f, doc_merge(ces, vs)))),
            _ => with_entry(es, p.0, new_item(p.1)),
        },
        _ => with_entry(es, p.0, new_item(p.1)),
    }
}

/// What a save writes (`src`, key by key in order) written over a file's
/// entries (see `doc_merge_one`).
pub open spec fn doc_merge(es: DocEntries, src: Seq<(Seq<char>, ValueView)>) -> DocEntries
    decreases src,
{
    if src.len() == 0 {
        es
    } else {
        doc_merge(doc_merge_one(es, src[0]), src.subrange(1, src.len() as int))
    }
}

proof fn lemma_doc_merge_snoc(es: DocEntries, s: Seq<(Seq<char>, ValueView)>, p: (Seq<char>, ValueView))
    ensures
        doc_merge(es, s.push(p)) == doc_merge_one(doc_merge(es, s), p),
    decreases s.len(),
{
    let e = Seq::<(Seq<char>, ValueView)>::empty();
    if s.len() == 0 {
        assert(s.push(p).subrange(1, 1) =~= e);
        assert(s.push(p)[0] == p);
        assert(doc_merge(doc_merge_one(es, p), e) == doc_merge_one(es, p));
        assert(doc_merge(es, s) == es);
        assert(doc_merge(es, s.push(p)) == doc_merge(doc_merge_one(es, p), s.push(p).subrange(1, 1)));
    } else {
        let s1 = s.subrange(1, s.len() as int);
        let m1 = doc_merge_one(es, s[0]);
        assert(s.push(p).subrange(1, s.push(p).len() as int) =~= s1.push(p));
        assert(s.push(p)[0] == s[0]);
        lemma_doc_merge_snoc(m1, s1, p);
        assert(doc_merge(es, s.push(p)) == doc_merge(m1, s.push(p).subrange(1, s.push(p).len() as int)));
        assert(doc_merge(es, s) == doc_merge(m1, s1));
    }
}

/// Writes `src` over a table of an existing file in place (see
/// `doc_merge`). Gives `false`, leaving the table partly written, when a
/// float or date in `src` is not written so that `toml_edit` reads it as
/// one.
fn merge_doc(t: &mut toml_edit::Table, src: &Vec<(String, SettingValue)>) -> (ok: bool)
    requires
        no_empty_items(*old(t)),
    ensures
        no_empty_items(*final(t)),
        ok == writable_pairs(entries_view(src@)),
        ok ==> table_entries(*final(t)) == doc_merge(table_entries(*old(t)), entries_view(src@)),
        table_format(*final(t)) == table_format(*old(t)),
    decreases src,
{
    let ghost es0 = table_entries(*t);
    let ghost sv = entries_view(src@);
    let mut i: usize = 0;
    proof {
        assert(sv.take(0) =~= Seq::<(Seq<char>, ValueView)>::empty());
    }
    while i < src.len()
        invariant
            es0 == table_entries(*old(t)),
            sv == entries_view(src@),
            i <= src@.len(),
            table_entries(*t) == doc_merge(es0, sv.take(i as int)),
            writable_pairs(sv.take(i as int)),
            table_format(*t) == table_format(*old(t)),
            no_empty_items(*t),
        decreases src@.len() - i,
    {
        proof {
            lemma_entries_step(src@, i as int);
            lemma_entries_view(src@);
            assert(sv.take(i as int + 1) =~= sv.take(i as int).push(sv[i as int]));
            lemma_doc_merge_snoc(es0, sv.take(i as int), sv[i as int]);
            assert(decreases_to!(*src => src[i as int]));
            assert(decreases_to!(src[i as int] => src[i as int].1));
        }
        let ghost cur = table_entries(*t);
        let key = src[i].0.as_str();
        match &src[i].1 {
            SettingValue::Table(sub) => {
                proof {
                    assert(decreases_to!(src[i as int].1 => (src[i as int].1)->Table_0));
                    assert(sv[i as int].1 == ValueView::Table(entries_view(sub@)));
                    assert(new_item(sv[i as int].1) == DocItem::Table(Seq::empty(), new_entries(entries_view(sub@))));
                    assert(writable(sv[i as int].1) == writable_pairs(entries_view(sub@)));
                }
                match child_table(t, key) {
                    Some(ch) => {
                        let ok = merge_doc(ch, sub);
                        if !ok {
                            proof {
                                lemma_writable_pairs_all(sv);
                            }
                            return false;
                        }
                    },
                    None => {
                        match build_table(sub) {
                            Some(c) => {
                                put_table(t, key, c);
                            },
                            None => {
                                proof {
                                    lemma_writable_pairs_all(sv);
                                }
                                return false;
                            },
                        }
                    },
                }
            },
            _ => {
                proof {
                    assert(sv[i as int].1 !is Table);
                    assert(new_item(sv[i as int].1) == DocItem::Value(new_value(sv[i as int].1), Seq::empty()));
                }
                match build_value(&src[i].1) {
                    Some(x) => {
                        put_value(t, key, x);
                    },
                    None => {
                        proof {
                            lemma_writable_pairs_all(sv);
                        }
                        return false;
                    },
                }
            },
        }
        i = i + 1;
    }
    proof {
        lemma_entries_view(src@);
        assert(sv.take(i as int) =~= sv);
    }
    true
}


/// Why a settings file could not be saved.
#[derive(Debug, Clone, Copy, PartialEq, Eq, Structural)]
pub enum SettingsError {
    /// The existing file is not TOML.
    NotToml,
    /// The settings to save are not a table.
    NotATable,
    /// A float or date among the settings to save is not written so that
    /// it reads back as one.
    Unwritable,
}

/// The document a save makes of a file whose entries are `es`: the
/// entries that merely restate the layer below pruned (`doc_prune`), then
/// what `config` states differently from `base` written over what is left
/// (`doc_merge`). Every entry the save neither drops nor writes stays as
/// written, its comments included.
pub open spec fn saved_document(
    es: DocEntries,
    config: ValueView,
    base: ValueView,
    registered: Seq<Seq<char>>,
) -> DocEntries {
    let pruned = doc_prune(es, config, base, Seq::empty(), registered);
    match diff_values(config, base, Seq::empty(), registered) {
        Some(ValueView::Table(d)) => doc_merge(pruned, d),
        _ => pruned,
    }
}

/// What saving `config` over `base` into a file holding `existing` gives:
/// the new document, or why there is none.
pub open spec fn save_outcome(
    existing: Seq<char>,
    config: ValueView,
    base: ValueView,
    registered: Seq<Seq<char>>,
) -> Result<DocEntries, SettingsError> {
    match toml_document(existing) {
        None => Err(SettingsError::NotToml),
        Some(es) => match diff_values(config, base, Seq::empty(), registered) {
            Some(ValueView::Table(d)) => if writable_pairs(d) {
                Ok(saved_document(es, config, base, registered))
            } else {
                Err(SettingsError::Unwritable)
            },
            Some(_) => Err(SettingsError::NotATable),
            None => Ok(saved_document(es, config, base, registered)),
        },
    }
}

/// The new text of a settings file that held `existing`, edited in place
/// so that it states exactly the keys where `config` differs from `base`:
/// restatements of the layer below are removed, differing keys are
/// written, and everything else in the file (keys the settings do not
/// know, and the comments and layout around what stays) is kept.
pub fn sparse_config_text(
    existing: &str,
    config: &SettingValue,
    base: &SettingValue,
    registered: &Vec<String>,
) -> (r: Result<String, SettingsError>)
    ensures
        match save_outcome(existing@, config@, base@, names_view(registered@)) {
            Ok(es) => r matches Ok(t) && exists|d: toml_edit::DocumentMut|
                #[trigger] document_entries(d) == es && t@ == document_text(d),
            Err(e) => r == Err::<String, SettingsError>(e),
        },
{
    let ghost reg = names_view(registered@);
    let mut doc = match parse_document(existing) {
        Some(d) => d,
        None => return Err(SettingsError::NotToml),
    };
    proof {
        reveal_strlit("");
        assert(""@ =~= Seq::<char>::empty());
    }
    let ghost es = document_entries(doc);
    let diff = diff_value(config, base, "", registered);
    let root = root_table(&mut doc);
    prune_doc(root, config, base, "", registered);
    match diff {
        Some(SettingValue::Table(d)) => {
            if !merge_doc(root, &d) {
                return Err(SettingsError::Unwritable);
            }
        },
        Some(_) => {
            return Err(SettingsError::NotATable);
        },
        None => {},
    }
    let text = render(&doc);
    proof {
        assert(document_entries(doc) == saved_document(es, config@, base@, reg));
    }
    Ok(text)
}


#[verifier::external_type_specification]
#[verifier::external_body]
pub struct ExTomlValue(toml::Value);

/// A name for the settings the `toml` crate reads from `text`
/// (`toml::from_str::<toml::Value>`): tables with their keys ascending,
/// `None` when the text is not TOML.
pub uninterp spec fn toml_value(text: Seq<char>) -> Option<ValueView>;

/// A name for what a value read by the `toml` crate holds; floats and
/// dates by the text the crate writes for them.
pub uninterp spec fn toml_content(v: toml::Value) -> ValueView;

/// Reads settings text (`toml::from_str::<toml::Value>`).
#[verifier::external_body]
fn parse_toml(text: &str) -> (r: Option<toml::Value>)
    ensures
        match r {
            Some(v) => toml_value(text@) == Some(toml_content(v)),
            None => toml_value(text@) is None,
        },
{
    toml::from_str::<toml::Value>(text).ok()
}

/// The string a value holds, when it is one.
#[verifier::external_body]
fn toml_text(v: &toml::Value) -> (r: Option<String>)
    ensures
        (r is Some) == (toml_content(*v) is Text),
        r matches Some(s) ==> toml_content(*v) == ValueView::Text(s@),
{
    match v {
        toml::Value::String(s) => Some(s.clone()),
        _ => None,
    }
}

/// The integer a value holds, when it is one.
#[verifier::external_body]
fn toml_integer(v: &toml::Value) -> (r: Option<i64>)
    ensures
        (r is Some) == (toml_content(*v) is Integer),
        r matches Some(i) ==> toml_content(*v) == ValueView::Integer(i),
{
    match v {
        toml::Value::Integer(i) => Some(*i),
        _ => None,
    }
}

/// The boolean a value holds, when it is one.
#[verifier::external_body]
fn toml_boolean(v: &toml::Value) -> (r: Option<bool>)
    ensures
        (r is Some) == (toml_content(*v) is Boolean),
        r matches Some(b) ==> toml_content(*v) == ValueView::Boolean(b),
{
    match v {
        toml::Value::Boolean(b) => Some(*b),
        _ => None,
    }
}

/// The text the `toml` crate writes for a float (`Value::to_string`), when
/// the value is one.
#[verifier::external_body]
fn toml_float(v: &toml::Value) -> (r: Option<String>)
    ensures
        (r is Some) == (toml_content(*v) is Float),
        r matches Some(s) ==> toml_content(*v) == ValueView::Float(s@),
{
    match v {
        toml::Value::Float(_) => Some(v.to_string()),
        _ => None,
    }
}

/// The text the `toml` crate writes for a date or time
/// (`Datetime::to_string`), when the value is one.
#[verifier::external_body]
fn toml_datetime(v: &toml::Value) -> (r: Option<String>)
    ensures
        (r is Some) == (toml_content(*v) is Datetime),
        r matches Some(s) ==> toml_content(*v) == ValueView::Datetime(s@),
{
    match v {
        toml::Value::Datetime(d) => Some(d.to_string()),
        _ => None,
    }
}

/// The items of an array (cloned), when the value is one.
#[verifier::external_body]
fn toml_array(v: &toml::Value) -> (r: Option<Vec<toml::Value>>)
    ensures
        (r is Some) == (toml_content(*v) is Array),
        r matches Some(a) ==> toml_content(*v) == ValueView::Array(
            a@.map_values(|x: toml::Value| toml_content(x)),
        ),
{
    match v {
        toml::Value::Array(a) => Some(a.clone()),
        _ => None,
    }
}

/// The keys and values of a table in key order (cloned), when the value
/// is one.
#[verifier::external_body]
fn toml_table(v: &toml::Value) -> (r: Option<Vec<(String, toml::Value)>>)
    ensures
        (r is Some) == (toml_content(*v) is Table),
        r matches Some(ps) ==> toml_content(*v) == ValueView::Table(
            ps@.map_values(|p: (String, toml::Value)| (p.0@, toml_content(p.1))),
        ),
{
    match v {
        toml::Value::Table(t) => {
            let mut ps = Vec::new();
            for (k, x) in t.iter() {
                ps.push((k.clone(), x.clone()));
            }
            Some(ps)
        },
        _ => None,
    }
}

proof fn lemma_items_push(s: Seq<SettingValue>, x: SettingValue)
    ensures
        items_view(s.push(x)) == items_view(s).push(x@),
{
    assert(s.push(x).subrange(0, s.len() as int) =~= s);
}

/// A value read by the `toml` crate as a settings tree.
fn setting_of(v: &toml::Value) -> (r: SettingValue)
    ensures
        r@ == toml_content(*v),
    decreases toml_content(*v),
{
    if let Some(s) = toml_text(v) {
        return SettingValue::Text(s);
    }
    if let Some(i) = toml_integer(v) {
        return SettingValue::Integer(i);
    }
    if let Some(b) = toml_boolean(v) {
        return SettingValue::Boolean(b);
    }
    if let Some(s) = toml_float(v) {
        return SettingValue::Float(s);
    }
    if let Some(s) = toml_datetime(v) {
        return SettingValue::Datetime(s);
    }
    if let Some(a) = toml_array(v) {
        let ghost cs = a@.map_values(|x: toml::Value| toml_content(x));
        let mut out: Vec<SettingValue> = Vec::new();
        let mut i: usize = 0;
        proof {
            assert(items_view(out@) =~= cs.take(0));
        }
        while i < a.len()
            invariant
                toml_content(*v) == ValueView::Array(cs),
                cs == a@.map_values(|x: toml::Value| toml_content(x)),
                i <= a@.len(),
                items_view(out@) == cs.take(i as int),
            decreases a@.len() - i,
        {
            proof {
                assert(cs[i as int] == toml_content(a@[i as int]));
                assert((toml_content(*v))->Array_0 == cs);
                assert(decreases_to!(toml_content(*v) => (toml_content(*v))->Array_0));
                assert(decreases_to!(cs => cs[i as int]));
            }
            let x = setting_of(&a[i]);
            proof {
                lemma_items_push(out@, x);
                assert(cs.take(i as int + 1) =~= cs.take(i as int).push(cs[i as int]));
            }
            out.push(x);
            i = i + 1;
        }
        proof {
            assert(cs.take(i as int) =~= cs);
        }
        return SettingValue::Array(out);
    }
    if let Some(ps) = toml_table(v) {
        let ghost cs = ps@.map_values(|p: (String, toml::Value)| (p.0@, toml_content(p.1)));
        let mut out: Vec<(String, SettingValue)> = Vec::new();
        let mut i: usize = 0;
        proof {
            assert(entries_view(out@) =~= cs.take(0));
        }
        while i < ps.len()
            invariant
                toml_content(*v) == ValueView::Table(cs),
                cs == ps@.map_values(|p: (String, toml::Value)| (p.0@, toml_content(p.1))),
                i <= ps@.len(),
                entries_view(out@) == cs.take(i as int),
            decreases ps@.len() - i,
        {
            proof {
                assert(cs[i as int] == (ps@[i as int].0@, toml_content(ps@[i as int].1)));
                assert((toml_content(*v))->Table_0 == cs);
                assert(decreases_to!(toml_content(*v) => (toml_content(*v))->Table_0));
                assert(decreases_to!(cs => cs[i as int]));
                assert(decreases_to!(cs[i as int] => cs[i as int].1));
            }
            let x = setting_of(&ps[i].1);
            let e = (ps[i].0.clone(), x);
            proof {
                lemma_entries_push(out@, e);
                assert(cs.take(i as int + 1) =~= cs.take(i as int).push(cs[i as int]));
            }
            out.push(e);
            i = i + 1;
        }
        proof {
            assert(cs.take(i as int) =~= cs);
        }
        return SettingValue::Table(out);
    }
    SettingValue::Boolean(false)
}

/// The text of an optional layer, by its view.
pub open spec fn opt_text(o: Option<&str>) -> Option<Seq<char>> {
    match o {
        Some(s) => Some(s@),
        None => None,
    }
}

/// A layer as read: `Some(None)` for a missing layer, `None` for text that
/// is not TOML.
pub open spec fn read_layer(text: Option<Seq<char>>) -> Option<Option<ValueView>> {
    match text {
        None => Some(None),
        Some(t) => match toml_value(t) {
            Some(v) => Some(Some(v)),
            None => None,
        },
    }
}

fn read_layer_exec(text: Option<&str>) -> (r: Result<Option<SettingValue>, SettingsError>)
    ensures
        match read_layer(opt_text(text)) {
            Some(l) => r matches Ok(o) && l == crate::config::sparse::opt_value_view(o),
            None => r == Err::<Option<SettingValue>, SettingsError>(SettingsError::NotToml),
        },
{
    match text {
        None => Ok(None),
        Some(t) => match parse_toml(t) {
            Some(v) => Ok(Some(setting_of(&v))),
            None => Err(SettingsError::NotToml),
        },
    }
}

/// The effective settings read from the text of the global and the
/// character's settings files (either may be missing): each layered over
/// what is below it only where it states a key, then the cleared marks of
/// optional text settings dropped. Text that is not TOML is refused.
pub fn layer_config_text(
    defaults: &SettingValue,
    global: Option<&str>,
    profile: Option<&str>,
    optional: &Vec<String>,
) -> (r: Result<SettingValue, SettingsError>)
    ensures
        match (read_layer(opt_text(global)), read_layer(opt_text(profile))) {
            (Some(g), Some(p)) => r matches Ok(v) && v@ == scrub_value(
                stacked(defaults@, g, p),
                Seq::empty(),
                names_view(optional@),
            ),
            _ => r == Err::<SettingValue, SettingsError>(SettingsError::NotToml),
        },
{
    let g = match read_layer_exec(global) {
        Ok(g) => g,
        Err(e) => return Err(e),
    };
    let p = match read_layer_exec(profile) {
        Ok(p) => p,
        Err(e) => return Err(e),
    };
    let gr = match &g {
        Some(x) => Some(x),
        None => None,
    };
    let pr = match &p {
        Some(x) => Some(x),
        None => None,
    };
    Ok(layer_settings(defaults, gr, pr, optional))
}


proof fn lemma_key_from_found(s: DocEntries, k: Seq<char>, from: int)
    ensures
        key_from(s, k, from) matches Some(x) ==> 0 <= x < s.len() && s[x].0 == k,
    decreases s.len() - from,
{
    if 0 <= from < s.len() && s[from].0 != k {
        lemma_key_from_found(s, k, from + 1);
    }
}

proof fn lemma_merge_keeps(es: DocEntries, src: Seq<(Seq<char>, ValueView)>, j: int)
    requires
        0 <= j < es.len(),
        forall|m: int| 0 <= m < src.len() ==> (#[trigger] src[m]).0 != es[j].0,
    ensures
        j < doc_merge(es, src).len(),
        doc_merge(es, src)[j] == es[j],
    decreases src.len(),
{
    if src.len() > 0 {
        let p = src[0];
        let es1 = doc_merge_one(es, p);
        lemma_key_from_found(es, p.0, 0);
        assert(p.0 != es[j].0);
        assert(j < es1.len() && es1[j] == es[j]);
        let s1 = src.subrange(1, src.len() as int);
        assert forall|m: int| 0 <= m < s1.len() implies (#[trigger] s1[m]).0 != es1[j].0 by {
            assert(s1[m] == src[m + 1]);
        }
        lemma_merge_keeps(es1, s1, j);
    }
}

proof fn lemma_lookup_none(s: Seq<(Seq<char>, ValueView)>, k: Seq<char>)
    requires
        lookup(s, k) is None,
    ensures
        forall|m: int| 0 <= m < s.len() ==> (#[trigger] s[m]).0 != k,
    decreases s.len(),
{
    if s.len() > 0 {
        let s1 = s.subrange(1, s.len() as int);
        lemma_lookup_none(s1, k);
        assert forall|m: int| 0 <= m < s.len() implies (#[trigger] s[m]).0 != k by {
            if m > 0 {
                assert(s[m] == s1[m - 1]);
            }
        }
    }
}

proof fn lemma_diff_keys(
    cs: Seq<(Seq<char>, ValueView)>,
    bs: Seq<(Seq<char>, ValueView)>,
    path: Seq<char>,
    registered: Seq<Seq<char>>,
    k: Seq<char>,
)
    requires
        forall|m: int| 0 <= m < cs.len() ==> (#[trigger] cs[m]).0 != k,
        !registered.contains(dotted(path, k)),
    ensures
        forall|m: int|
            0 <= m < diff_entries(cs, bs, path, registered).len() ==> (#[trigger] diff_entries(
                cs,
                bs,
                path,
                registered,
            )[m]).0 != k,
    decreases cs, bs,
{
    let out = diff_entries(cs, bs, path, registered);
    if cs.len() == 0 && bs.len() == 0 {
    } else if bs.len() == 0 || (cs.len() > 0 && lex_lt(cs[0].0, bs[0].0)) {
        let c1 = cs.subrange(1, cs.len() as int);
        assert forall|m: int| 0 <= m < c1.len() implies (#[trigger] c1[m]).0 != k by {
            assert(c1[m] == cs[m + 1]);
        }
        lemma_diff_keys(c1, bs, path, registered, k);
        let h = seq![cs[0]];
        let t = diff_entries(c1, bs, path, registered);
        assert forall|m: int| 0 <= m < (h + t).len() implies (#[trigger] (h + t)[m]).0 != k by {
            if m >= 1 {
                assert((h + t)[m] == t[m - 1]);
            }
        }
    } else if cs.len() == 0 || lex_lt(bs[0].0, cs[0].0) {
        let b1 = bs.subrange(1, bs.len() as int);
        lemma_diff_keys(cs, b1, path, registered, k);
        let h: Seq<(Seq<char>, ValueView)> = if registered.contains(dotted(path, bs[0].0)) {
            seq![(bs[0].0, cleared_mark())]
        } else {
            Seq::empty()
        };
        let t = diff_entries(cs, b1, path, registered);
        assert forall|m: int| 0 <= m < (h + t).len() implies (#[trigger] (h + t)[m]).0 != k by {
            if m >= h.len() {
                assert((h + t)[m] == t[m - h.len()]);
            } else {
                assert(bs[0].0 != k);
            }
        }
    } else {
        let c1 = cs.subrange(1, cs.len() as int);
        let b1 = bs.subrange(1, bs.len() as int);
        assert forall|m: int| 0 <= m < c1.len() implies (#[trigger] c1[m]).0 != k by {
            assert(c1[m] == cs[m + 1]);
        }
        lemma_diff_keys(c1, b1, path, registered, k);
        let h: Seq<(Seq<char>, ValueView)> = match diff_values(cs[0].1, bs[0].1, dotted(path, cs[0].0), registered) {
            Some(d) => seq![(cs[0].0, d)],
            None => Seq::empty(),
        };
        let t = diff_entries(c1, b1, path, registered);
        assert forall|m: int| 0 <= m < (h + t).len() implies (#[trigger] (h + t)[m]).0 != k by {
            if m >= h.len() {
                assert((h + t)[m] == t[m - h.len()]);
            }
        }
    }
}

/// A save keeps every entry of the file that the settings do not know (a
/// key that `config` does not hold and that is not a registered setting)
/// exactly as it was written, with its comments and layout.
pub proof fn unknown_keys_survive_a_save_as_written(
    es: DocEntries,
    config: ValueView,
    base: ValueView,
    registered: Seq<Seq<char>>,
    i: int,
)
    requires
        0 <= i < es.len(),
        get_key(config, es[i].0) is None,
        !registered.contains(es[i].0),
    ensures
        saved_document(es, config, base, registered).contains(es[i]),
{
    let e = es[i];
    let empty = Seq::<char>::empty();
    assert(dotted(empty, e.0) == e.0);
    let head = doc_prune_head(e, config, base, empty, registered);
    assert(head == seq![e]);
    let a = es.take(i);
    let b = es.skip(i + 1);
    assert(es =~= a + (seq![e] + b));
    lemma_doc_prune_concat(a, seq![e] + b, config, base, empty, registered);
    lemma_doc_prune_concat(seq![e], b, config, base, empty, registered);
    assert(seq![e].subrange(1, 1) =~= DocEntries::empty());
    assert(doc_prune(DocEntries::empty(), config, base, empty, registered) == DocEntries::empty());
    assert(doc_prune(seq![e], config, base, empty, registered) =~= head);
    let pa = doc_prune(a, config, base, empty, registered);
    let pruned = doc_prune(es, config, base, empty, registered);
    assert(pruned == pa + (seq![e] + doc_prune(b, config, base, empty, registered)));
    assert(pruned[pa.len() as int] == e);
    match diff_values(config, base, empty, registered) {
        Some(ValueView::Table(d)) => {
            match (config, base) {
                (ValueView::Table(ct), ValueView::Table(bt)) => {
                    lemma_lookup_none(ct, e.0);
                    lemma_diff_keys(ct, bt, empty, registered, e.0);
                    assert(d == diff_entries(ct, bt, empty, registered));
                },
                _ => {
                    assert(config == ValueView::Table(d));
                    lemma_lookup_none(d, e.0);
                },
            }
            lemma_merge_keeps(pruned, d, pa.len() as int);
            assert(doc_merge(pruned, d)[pa.len() as int] == e);
        },
        _ => {},
    }
}

} // verus!
