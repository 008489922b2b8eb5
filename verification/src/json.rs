//! What a runtime value looks like as JSON, JSON text written out with
//! `serde_json`, and request bodies read back into records.

use vstd::prelude::*;
use crate::bytecode::Program;
use crate::error::Fault;
use crate::value::{Value, ValueView, EntryView, views, lemma_views, entry_views, lemma_entry_views};
use serde_json::Value as JsonTree;

verus! {

/// A JSON value.
pub enum Json {
    Null,
    Bool(bool),
    Int(i64),
    /// A finite float: its bits, and the text `print` shows for it.
    Float { bits: u64, shown: String },
    Text(String),
    Array(Vec<Json>),
    /// Keys and values, in the order they were written.
    Object(Vec<(String, Json)>),
}

/// Whether a float's bits are an infinity or a `NaN`, which JSON has no
/// number for.
pub open spec fn not_finite(bits: u64) -> bool {
    bits & 0x7ff0_0000_0000_0000u64 == 0x7ff0_0000_0000_0000u64
}

/// Which values have a JSON form at all, looking all the way down.
pub open spec fn has_json(v: ValueView, program: Program) -> bool
    decreases v, 0nat,
{
    match v {
        ValueView::Nothing | ValueView::Int(_) | ValueView::Bool(_) | ValueView::Text(_) => true,
        ValueView::Float(bits, _) => !not_finite(bits),
        ValueView::List(items) => all_json(items, items.len(), program),
        ValueView::Tuple(items) => all_json(items, items.len(), program),
        ValueView::Table(entries) => entries_json(entries, entries.len(), program),
        ValueView::Maybe(None) => true,
        ValueView::Maybe(Some(held)) => has_json(*held, program),
        ValueView::Success(held) => has_json(*held, program),
        ValueView::Record { layout, fields, .. } => (layout as int) < program.layouts@.len()
            && all_json(fields, min_len(program.layouts@[layout as int].fields@.len(), fields.len()), program),
        ValueView::Variant { layout, fields } => (layout as int) < program.variants@.len()
            && all_json(fields, min_len(program.variants@[layout as int].fields@.len(), fields.len()), program),
        _ => false,
    }
}

/// The smaller of two lengths: how far a zip of the two goes.
pub open spec fn min_len(a: nat, b: nat) -> nat {
    if a <= b { a } else { b }
}

/// Whether each of the first `n` values has a JSON form.
pub open spec fn all_json(items: Seq<ValueView>, n: nat, program: Program) -> bool
    decreases items, n,
{
    if n == 0 || n > items.len() {
        n == 0
    } else {
        all_json(items, (n - 1) as nat, program) && has_json(items[n - 1], program)
    }
}

/// Whether each of the first `n` entries of a map has a text key and a
/// value with a JSON form.
pub open spec fn entries_json(entries: Seq<EntryView>, n: nat, program: Program) -> bool
    decreases entries, n,
{
    if n == 0 || n > entries.len() {
        n == 0
    } else {
        entries_json(entries, (n - 1) as nat, program)
            && entries[n - 1].0 is Text && has_json(entries[n - 1].1, program)
    }
}

} // verus!

verus! {

/// A JSON value, as the library reasons about it.
pub enum JsonView {
    Null,
    Bool(bool),
    Int(i64),
    Float(u64, Seq<char>),
    Text(Seq<char>),
    Array(Seq<JsonView>),
    Object(Seq<(Seq<char>, JsonView)>),
}

pub open spec fn json_view(j: Json) -> JsonView
    decreases j, 0nat,
{
    match j {
        Json::Null => JsonView::Null,
        Json::Bool(b) => JsonView::Bool(b),
        Json::Int(n) => JsonView::Int(n),
        Json::Float { bits, shown } => JsonView::Float(bits, shown@),
        Json::Text(t) => JsonView::Text(t@),
        Json::Array(items) => JsonView::Array(json_views(items@, items@.len())),
        Json::Object(entries) => JsonView::Object(json_fields(entries@, entries@.len())),
    }
}

pub open spec fn json_views(items: Seq<Json>, n: nat) -> Seq<JsonView>
    decreases items, n,
{
    if n == 0 || n > items.len() {
        Seq::empty()
    } else {
        json_views(items, (n - 1) as nat).push(json_view(items[n - 1]))
    }
}

pub open spec fn json_fields(entries: Seq<(String, Json)>, n: nat) -> Seq<(Seq<char>, JsonView)>
    decreases entries, n,
{
    if n == 0 || n > entries.len() {
        Seq::empty()
    } else {
        json_fields(entries, (n - 1) as nat).push((entries[n - 1].0@, json_view(entries[n - 1].1)))
    }
}

impl View for Json {
    type V = JsonView;

    open spec fn view(&self) -> JsonView {
        json_view(*self)
    }
}

/// The JSON a value stands for, when it has one: a map is an object keyed
/// by its text keys, a record an object keyed by its field names, a variant
/// an object holding one object under the variant's name; a list or a tuple
/// is an array; `nothing` and an absent maybe are `null`; a found maybe and
/// a success are what they hold.
pub open spec fn json_of(v: ValueView, program: Program) -> JsonView
    decreases v, 0nat,
{
    match v {
        ValueView::Nothing => JsonView::Null,
        ValueView::Int(n) => JsonView::Int(n),
        ValueView::Float(bits, shown) => JsonView::Float(bits, shown),
        ValueView::Bool(b) => JsonView::Bool(b),
        ValueView::Text(t) => JsonView::Text(t),
        ValueView::List(items) => JsonView::Array(json_items(items, items.len(), program)),
        ValueView::Tuple(items) => JsonView::Array(json_items(items, items.len(), program)),
        ValueView::Table(entries) => JsonView::Object(json_entries(entries, entries.len(), program)),
        ValueView::Maybe(None) => JsonView::Null,
        ValueView::Maybe(Some(held)) => json_of(*held, program),
        ValueView::Success(held) => json_of(*held, program),
        ValueView::Record { layout, fields, .. } => JsonView::Object(json_named(
            program.layouts@[layout as int].fields@, fields,
            min_len(program.layouts@[layout as int].fields@.len(), fields.len()), program)),
        ValueView::Variant { layout, fields } => JsonView::Object(seq![(
            program.variants@[layout as int].name@,
            JsonView::Object(json_named(program.variants@[layout as int].fields@, fields,
                min_len(program.variants@[layout as int].fields@.len(), fields.len()), program)),
        )]),
        _ => JsonView::Null,
    }
}

/// The JSON of the first `n` values.
pub open spec fn json_items(items: Seq<ValueView>, n: nat, program: Program) -> Seq<JsonView>
    decreases items, n,
{
    if n == 0 || n > items.len() {
        Seq::empty()
    } else {
        json_items(items, (n - 1) as nat, program).push(json_of(items[n - 1], program))
    }
}

/// The first `n` entries of a map as object fields.
pub open spec fn json_entries(entries: Seq<EntryView>, n: nat, program: Program) -> Seq<(Seq<char>, JsonView)>
    decreases entries, n,
{
    if n == 0 || n > entries.len() {
        Seq::empty()
    } else {
        json_entries(entries, (n - 1) as nat, program).push((
            match entries[n - 1].0 { ValueView::Text(t) => t, _ => Seq::empty() },
            json_of(entries[n - 1].1, program),
        ))
    }
}

/// The first `n` values under the names given them.
pub open spec fn json_named(names: Seq<String>, fields: Seq<ValueView>, n: nat, program: Program) -> Seq<(Seq<char>, JsonView)>
    decreases fields, n,
{
    if n == 0 || n > fields.len() || n > names.len() {
        Seq::empty()
    } else {
        json_named(names, fields, (n - 1) as nat, program).push((names[n - 1]@, json_of(fields[n - 1], program)))
    }
}

} // verus!

verus! {

proof fn lemma_json_views_prefix(js: Seq<Json>, n: nat)
    requires
        n <= js.len(),
    ensures
        json_views(js, n) == json_views(js.take(n as int), n),
        json_views(js, n).len() == n,
    decreases n,
{
    if n > 0 {
        lemma_json_views_prefix(js, (n - 1) as nat);
        lemma_json_views_prefix(js.take(n as int), (n - 1) as nat);
        assert(js.take(n as int).take((n - 1) as int) =~= js.take((n - 1) as int));
        assert(js.take(n as int)[n - 1] == js[n - 1]);
    }
}

proof fn lemma_json_fields_prefix(js: Seq<(String, Json)>, n: nat)
    requires
        n <= js.len(),
    ensures
        json_fields(js, n) == json_fields(js.take(n as int), n),
        json_fields(js, n).len() == n,
    decreases n,
{
    if n > 0 {
        lemma_json_fields_prefix(js, (n - 1) as nat);
        lemma_json_fields_prefix(js.take(n as int), (n - 1) as nat);
        assert(js.take(n as int).take((n - 1) as int) =~= js.take((n - 1) as int));
        assert(js.take(n as int)[n - 1] == js[n - 1]);
    }
}

/// The JSON of each of the first `n` values, or why one of them has none.
fn items_to_json(items: &Vec<Value>, n: usize, program: &Program) -> (r: Result<Vec<Json>, Fault>)
    requires
        n <= items@.len(),
    ensures
        r is Ok == all_json(views(items@), n as nat, *program),
        r matches Ok(js) ==> js@.len() == n && json_views(js@, n as nat) == json_items(views(items@), n as nat, *program),
    decreases items, 0nat,
{
    proof { lemma_views(items@); }
    let ghost vs = views(items@);
    let mut out: Vec<Json> = Vec::new();
    let mut i: usize = 0;
    while i < n
        invariant
            i <= n,
            n <= items@.len(),
            vs == views(items@),
            vs.len() == items@.len(),
            forall|k: int| 0 <= k < items@.len() ==> #[trigger] vs[k] == items@[k]@,
            out@.len() == i,
            all_json(vs, i as nat, *program),
            json_views(out@, i as nat) == json_items(vs, i as nat, *program),
        decreases n - i,
    {
        let j = match value_to_json(&items[i], program) {
            Ok(j) => j,
            Err(f) => {
                proof {
                    assert(!has_json(vs[i as int], *program));
                    lemma_all_json_stops(vs, i as nat, n as nat, *program);
                }
                return Err(f);
            },
        };
        let ghost before = out@;
        out.push(j);
        proof {
            assert(out@.take(i as int) =~= before);
            lemma_json_views_prefix(out@, i as nat);
            lemma_json_views_prefix(before, i as nat);
            assert(before.take(i as int) =~= before);
        }
        i = i + 1;
    }
    Ok(out)
}

/// Once one of the first `n` values has no JSON, none of the longer
/// prefixes have it either.
proof fn lemma_all_json_stops(vs: Seq<ValueView>, i: nat, n: nat, program: Program)
    requires
        i < n <= vs.len(),
        !has_json(vs[i as int], program),
    ensures
        !all_json(vs, n, program),
    decreases n,
{
    if n > i + 1 {
        lemma_all_json_stops(vs, i, (n - 1) as nat, program);
    }
}

/// Once one of the first `n` entries has no JSON, none of the longer
/// prefixes have it either.
proof fn lemma_entries_json_stops(es: Seq<EntryView>, i: nat, n: nat, program: Program)
    requires
        i < n <= es.len(),
        !(es[i as int].0 is Text && has_json(es[i as int].1, program)),
    ensures
        !entries_json(es, n, program),
    decreases n,
{
    if n > i + 1 {
        lemma_entries_json_stops(es, i, (n - 1) as nat, program);
    }
}

/// The first `n` values under their names, or why one of them has no JSON.
fn named_to_json(names: &Vec<String>, items: &Vec<Value>, n: usize, program: &Program) -> (r: Result<Vec<(String, Json)>, Fault>)
    requires
        n <= items@.len(),
        n <= names@.len(),
    ensures
        r is Ok == all_json(views(items@), n as nat, *program),
        r matches Ok(js) ==> js@.len() == n && json_fields(js@, n as nat) == json_named(names@, views(items@), n as nat, *program),
    decreases items, 0nat,
{
    proof { lemma_views(items@); }
    let ghost vs = views(items@);
    let mut out: Vec<(String, Json)> = Vec::new();
    let mut i: usize = 0;
    while i < n
        invariant
            i <= n,
            n <= items@.len(),
            n <= names@.len(),
            vs == views(items@),
            vs.len() == items@.len(),
            forall|k: int| 0 <= k < items@.len() ==> #[trigger] vs[k] == items@[k]@,
            out@.len() == i,
            all_json(vs, i as nat, *program),
            json_fields(out@, i as nat) == json_named(names@, vs, i as nat, *program),
        decreases n - i,
    {
        let j = match value_to_json(&items[i], program) {
            Ok(j) => j,
            Err(f) => {
                proof { lemma_all_json_stops(vs, i as nat, n as nat, *program); }
                return Err(f);
            },
        };
        let ghost before = out@;
        out.push((names[i].clone(), j));
        proof {
            assert(out@.take(i as int) =~= before);
            lemma_json_fields_prefix(out@, i as nat);
            lemma_json_fields_prefix(before, i as nat);
            assert(before.take(i as int) =~= before);
        }
        i = i + 1;
    }
    Ok(out)
}

/// The entries of a map as object fields, or why one of them has no JSON.
fn entries_to_json(entries: &Vec<crate::value::Entry>, program: &Program) -> (r: Result<Vec<(String, Json)>, Fault>)
    ensures
        r is Ok == entries_json(entry_views(entries@), entries@.len(), *program),
        r matches Ok(js) ==> js@.len() == entries@.len()
            && json_fields(js@, entries@.len()) == json_entries(entry_views(entries@), entries@.len(), *program),
    decreases entries, 0nat,
{
    proof { lemma_entry_views(entries@); }
    let ghost es = entry_views(entries@);
    let n = entries.len();
    let mut out: Vec<(String, Json)> = Vec::new();
    let mut i: usize = 0;
    while i < n
        invariant
            i <= n,
            n == entries@.len(),
            es == entry_views(entries@),
            es.len() == entries@.len(),
            forall|k: int| 0 <= k < entries@.len() ==> #[trigger] es[k] == crate::value::entry_view(entries@[k]),
            out@.len() == i,
            entries_json(es, i as nat, *program),
            json_fields(out@, i as nat) == json_entries(es, i as nat, *program),
        decreases n - i,
    {
        let key = match &entries[i].key {
            Value::Text(t) => t.clone(),
            _ => {
                proof {
                    crate::value::lemma_view_kind(entries@[i as int].key);
                    lemma_entries_json_stops(es, i as nat, n as nat, *program);
                }
                return Err(Fault::Confused("a map key was not text"));
            },
        };
        let j = match value_to_json(&entries[i].value, program) {
            Ok(j) => j,
            Err(f) => {
                proof { lemma_entries_json_stops(es, i as nat, n as nat, *program); }
                return Err(f);
            },
        };
        let ghost before = out@;
        out.push((key, j));
        proof {
            assert(out@.take(i as int) =~= before);
            lemma_json_fields_prefix(out@, i as nat);
            lemma_json_fields_prefix(before, i as nat);
            assert(before.take(i as int) =~= before);
        }
        i = i + 1;
    }
    Ok(out)
}

/// The JSON a value stands for, or why it has none.
pub fn value_to_json(v: &Value, program: &Program) -> (r: Result<Json, Fault>)
    ensures
        r is Ok == has_json(v@, *program),
        r matches Ok(j) ==> j@ == json_of(v@, *program),
    decreases v, 1nat,
{
    match v {
        Value::Nothing => Ok(Json::Null),
        Value::Int(n) => Ok(Json::Int(*n)),
        Value::Float(f) => {
            if f.bits & 0x7ff0_0000_0000_0000u64 == 0x7ff0_0000_0000_0000u64 {
                Err(Fault::Confused("a decimal that cannot be written as JSON"))
            } else {
                Ok(Json::Float { bits: f.bits, shown: f.shown.clone() })
            }
        },
        Value::Bool(b) => Ok(Json::Bool(*b)),
        Value::Text(t) => Ok(Json::Text(t.clone())),
        Value::List(items) | Value::Tuple(items) => {
            proof { lemma_views(items@); }
            let js = items_to_json(items, items.len(), program)?;
            proof { lemma_json_views_prefix(js@, js@.len()); }
            Ok(Json::Array(js))
        },
        Value::Table(entries) => {
            proof { crate::value::lemma_entry_views(entries@); }
            let js = entries_to_json(entries, program)?;
            proof { lemma_json_fields_prefix(js@, js@.len()); }
            Ok(Json::Object(js))
        },
        Value::Maybe(None) => Ok(Json::Null),
        Value::Maybe(Some(held)) => value_to_json(held, program),
        Value::Success(held) => value_to_json(held, program),
        Value::Record(r) => {
            if (r.layout as usize) >= program.layouts.len() {
                return Err(Fault::Confused("a value was built from a type that is not there"));
            }
            let names = &program.layouts[r.layout as usize].fields;
            let n = if names.len() <= r.fields.len() { names.len() } else { r.fields.len() };
            proof { lemma_views(r.fields@); }
            let js = named_to_json(names, &r.fields, n, program)?;
            proof { lemma_json_fields_prefix(js@, js@.len()); }
            Ok(Json::Object(js))
        },
        Value::Variant(r) => {
            if (r.layout as usize) >= program.variants.len() {
                return Err(Fault::Confused("a variant was built from a choice that is not there"));
            }
            let shape = &program.variants[r.layout as usize];
            let n = if shape.fields.len() <= r.fields.len() { shape.fields.len() } else { r.fields.len() };
            proof { lemma_views(r.fields@); }
            let js = named_to_json(&shape.fields, &r.fields, n, program)?;
            proof { lemma_json_fields_prefix(js@, js@.len()); }
            let mut outer: Vec<(String, Json)> = Vec::new();
            outer.push((shape.name.clone(), Json::Object(js)));
            proof {
                lemma_json_fields_prefix(outer@, 1);
                assert(json_fields(outer@, 1) =~= seq![(shape.name@, json_view(Json::Object(js)))]);
            }
            Ok(Json::Object(outer))
        },
        _ => {
            proof { crate::value::lemma_view_kind(*v); }
            Err(Fault::Confused("this value cannot be turned into JSON"))
        },
    }
}

} // verus!

verus! {

/// The value a JSON value reads as: `null` as an absent maybe, an array as a
/// list, an object as a map keyed by text, where a key met again keeps its
/// place and takes the later value.
pub open spec fn value_of_json(j: JsonView) -> ValueView
    decreases j, 0nat,
{
    match j {
        JsonView::Null => ValueView::Maybe(None),
        JsonView::Bool(b) => ValueView::Bool(b),
        JsonView::Int(n) => ValueView::Int(n),
        JsonView::Float(bits, shown) => ValueView::Float(bits, shown),
        JsonView::Text(t) => ValueView::Text(t),
        JsonView::Array(items) => ValueView::List(values_of_json(items, items.len())),
        JsonView::Object(fields) => ValueView::Table(table_of_json(fields, fields.len())),
    }
}

/// The values the first `n` JSON values read as.
pub open spec fn values_of_json(items: Seq<JsonView>, n: nat) -> Seq<ValueView>
    decreases items, n,
{
    if n == 0 || n > items.len() {
        Seq::empty()
    } else {
        values_of_json(items, (n - 1) as nat).push(value_of_json(items[n - 1]))
    }
}

/// The map the first `n` fields of a JSON object read as, one after the
/// other.
pub open spec fn table_of_json(fields: Seq<(Seq<char>, JsonView)>, n: nat) -> Seq<EntryView>
    decreases fields, n,
{
    if n == 0 || n > fields.len() {
        Seq::empty()
    } else {
        crate::value::table_insert(table_of_json(fields, (n - 1) as nat), ValueView::Text(fields[n - 1].0),
            value_of_json(fields[n - 1].1))
    }
}

proof fn lemma_json_views_index(js: Seq<Json>, n: nat, k: int)
    requires
        n <= js.len(),
        0 <= k < n,
    ensures
        json_views(js, n)[k] == json_view(js[k]),
    decreases n,
{
    lemma_json_views_prefix(js, (n - 1) as nat);
    if k < n - 1 {
        lemma_json_views_index(js, (n - 1) as nat, k);
    }
}

proof fn lemma_json_fields_index(js: Seq<(String, Json)>, n: nat, k: int)
    requires
        n <= js.len(),
        0 <= k < n,
    ensures
        json_fields(js, n)[k] == (js[k].0@, json_view(js[k].1)),
    decreases n,
{
    lemma_json_fields_prefix(js, (n - 1) as nat);
    if k < n - 1 {
        lemma_json_fields_index(js, (n - 1) as nat, k);
    }
}

/// The values a list of JSON values reads as.
fn values_from_json(items: &Vec<Json>) -> (r: Vec<Value>)
    ensures
        views(r@) == values_of_json(json_views(items@, items@.len()), items@.len()),
    decreases items, 0nat,
{
    let ghost jv = json_views(items@, items@.len());
    proof { lemma_json_views_prefix(items@, items@.len()); }
    let mut out: Vec<Value> = Vec::new();
    let mut i: usize = 0;
    while i < items.len()
        invariant
            i <= items@.len(),
            jv == json_views(items@, items@.len()),
            jv.len() == items@.len(),
            views(out@) == values_of_json(jv, i as nat),
        decreases items.len() - i,
    {
        let v = json_to_value(&items[i]);
        proof { lemma_json_views_index(items@, items@.len(), i as int); }
        let ghost before = out@;
        out.push(v);
        proof {
            lemma_views(before);
            lemma_views(out@);
            assert(views(out@) =~= views(before).push(v@));
        }
        i = i + 1;
    }
    out
}

/// The map a JSON object's fields read as.
fn table_from_json(fields: &Vec<(String, Json)>) -> (r: Vec<crate::value::Entry>)
    ensures
        entry_views(r@) == table_of_json(json_fields(fields@, fields@.len()), fields@.len()),
    decreases fields, 0nat,
{
    let ghost fv = json_fields(fields@, fields@.len());
    proof {
        lemma_json_fields_prefix(fields@, fields@.len());
        lemma_entry_views(Seq::<crate::value::Entry>::empty());
    }
    let mut table: Vec<crate::value::Entry> = Vec::new();
    let mut i: usize = 0;
    while i < fields.len()
        invariant
            i <= fields@.len(),
            fv == json_fields(fields@, fields@.len()),
            fv.len() == fields@.len(),
            entry_views(table@) == table_of_json(fv, i as nat),
        decreases fields.len() - i,
    {
        let v = json_to_value(&fields[i].1);
        proof { lemma_json_fields_index(fields@, fields@.len(), i as int); }
        crate::value::insert_entry(&mut table, Value::Text(fields[i].0.clone()), v);
        i = i + 1;
    }
    table
}

/// The value a JSON value reads as.
pub fn json_to_value(j: &Json) -> (r: Value)
    ensures
        r@ == value_of_json(j@),
    decreases j, 1nat,
{
    match j {
        Json::Null => Value::Maybe(None),
        Json::Bool(b) => Value::Bool(*b),
        Json::Int(n) => Value::Int(*n),
        Json::Float { bits, shown } => Value::Float(crate::value::Float { bits: *bits, shown: shown.clone() }),
        Json::Text(t) => Value::Text(t.clone()),
        Json::Array(items) => {
            proof { lemma_json_views_prefix(items@, items@.len()); }
            Value::List(values_from_json(items))
        },
        Json::Object(fields) => {
            proof { lemma_json_fields_prefix(fields@, fields@.len()); }
            Value::Table(table_from_json(fields))
        },
    }
}

} // verus!

verus! {

/// The value of an object's first field named `name`, if it has one.
pub open spec fn json_field(fields: Seq<(Seq<char>, JsonView)>, name: Seq<char>) -> Option<JsonView>
    decreases fields.len(),
{
    if fields.len() == 0 {
        None
    } else if fields[0].0 == name {
        Some(fields[0].1)
    } else {
        json_field(fields.drop_first(), name)
    }
}

/// What a request body's JSON comes to as a record of layout `layout`: it
/// must be an object, the layout must be there, and every field the layout
/// names must be in the object; the record's fields are then what the
/// object's fields of those names read as, in the layout's order.
pub open spec fn record_json(j: JsonView, layout: u32, program: Program) -> Result<ValueView, Fault> {
    match j {
        JsonView::Object(fields) => if layout as int >= program.layouts@.len() {
            Err(Fault::Confused("a record named a layout that is not there"))
        } else {
            let names = program.layouts@[layout as int].fields@;
            if exists|k: int| 0 <= k < names.len() && #[trigger] json_field(fields, names[k]@) is None {
                Err(Fault::Confused("the request body is missing a field"))
            } else {
                Ok(ValueView::Record {
                    layout,
                    fields: Seq::new(names.len(), |k: int| value_of_json(json_field(fields, names[k]@)->0)),
                    cells: None,
                })
            }
        },
        _ => Err(Fault::Confused("the request body must be a JSON object")),
    }
}

/// Where an object's first field named `name` is, if it has one.
fn find_field(fields: &Vec<(String, Json)>, name: &String) -> (r: Option<usize>)
    ensures
        match r {
            Some(i) => i < fields@.len() && json_field(json_fields(fields@, fields@.len()), name@)
                == Some(json_view(fields@[i as int].1)),
            None => json_field(json_fields(fields@, fields@.len()), name@) is None,
        },
{
    let ghost fv = json_fields(fields@, fields@.len());
    proof {
        lemma_json_fields_prefix(fields@, fields@.len());
        assert(fv.subrange(0, fv.len() as int) =~= fv);
    }
    let mut i: usize = 0;
    while i < fields.len()
        invariant
            i <= fields@.len(),
            fv == json_fields(fields@, fields@.len()),
            fv.len() == fields@.len(),
            json_field(fv, name@) == json_field(fv.subrange(i as int, fv.len() as int), name@),
        decreases fields.len() - i,
    {
        proof {
            lemma_json_fields_index(fields@, fields@.len(), i as int);
            let rest = fv.subrange(i as int, fv.len() as int);
            assert(rest[0] == fv[i as int]);
            assert(rest.drop_first() =~= fv.subrange(i + 1, fv.len() as int));
        }
        if crate::text::text_equal(&fields[i].0, name) {
            return Some(i);
        }
        i = i + 1;
    }
    proof { assert(fv.subrange(i as int, fv.len() as int).len() == 0); }
    None
}

/// A record of layout `layout` read from the JSON of a request body.
pub fn record_from_json(json: &Json, layout: u32, program: &Program) -> (r: Result<Value, Fault>)
    ensures
        match record_json(json@, layout, *program) {
            Ok(v) => r matches Ok(x) && x@ == v,
            Err(f) => r == Err::<Value, Fault>(f),
        },
{
    let fields = match json {
        Json::Object(fields) => fields,
        _ => return Err(Fault::Confused("the request body must be a JSON object")),
    };
    if layout as usize >= program.layouts.len() {
        return Err(Fault::Confused("a record named a layout that is not there"));
    }
    let names = &program.layouts[layout as usize].fields;
    let ghost fv = json_fields(fields@, fields@.len());
    let mut out: Vec<Value> = Vec::new();
    let mut i: usize = 0;
    while i < names.len()
        invariant
            fv == json_fields(fields@, fields@.len()),
            json@ == JsonView::Object(fv),
            (layout as int) < program.layouts@.len(),
            names@ == program.layouts@[layout as int].fields@,
            i <= names@.len(),
            out@.len() == i,
            forall|k: int| 0 <= k < i ==> #[trigger] json_field(fv, names@[k]@) is Some
                && out@[k]@ == value_of_json(json_field(fv, names@[k]@)->0),
        decreases names.len() - i,
    {
        match find_field(fields, &names[i]) {
            Some(at) => {
                let v = json_to_value(&fields[at].1);
                out.push(v);
            },
            None => {
                proof {
                    let all = program.layouts@[layout as int].fields@;
                    assert(json@ == JsonView::Object(fv));
                    assert(all[i as int]@ == names@[i as int]@);
                    assert(json_field(fv, all[i as int]@) is None);
                    assert(exists|k: int| 0 <= k < all.len() && #[trigger] json_field(fv, all[k]@) is None);
                }
                return Err(Fault::Confused("the request body is missing a field"));
            },
        }
        i = i + 1;
    }
    proof {
        lemma_views(out@);
        assert(views(out@) =~= Seq::new(names@.len(), |k: int| value_of_json(json_field(fv, names@[k]@)->0)));
    }
    Ok(Value::Record(Box::new(crate::value::Record { layout, fields: out, cells: None })))
}

} // verus!

verus! {

#[verifier::external_type_specification]
#[verifier::external_body]
pub struct ExJsonTree(JsonTree);

#[verifier::external_type_specification]
#[verifier::external_body]
pub struct ExJsonError(serde_json::Error);

/// What `serde_json` reads a text as, if it reads it as JSON at all.
pub uninterp spec fn json_read(text: Seq<char>) -> Option<JsonView>;

/// The text `serde_json` writes for a JSON value.
pub uninterp spec fn json_written(j: JsonView) -> Seq<char>;

/// One `JsonTree` as a [`Json`], variant for variant: a number is
/// whole where `Number::as_i64` reads it so and a float from
/// `Number::as_f64` otherwise, with the text Rust's `{:?}` writes for that
/// float; an object keeps the order its `serde_json::Map` walks its keys in.
/// `None` where `as_f64` reads nothing, which `serde_json` only does with its
/// `arbitrary_precision` feature, not asked for here.
#[verifier::external_body]
fn from_serde(value: JsonTree) -> Option<Json> {
    Some(match value {
        JsonTree::Null => Json::Null,
        JsonTree::Bool(yes) => Json::Bool(yes),
        JsonTree::Number(n) => match n.as_i64() {
            Some(whole) => Json::Int(whole),
            None => n.as_f64().map(|x| Json::Float { bits: x.to_bits(), shown: format!("{x:?}") })?,
        },
        JsonTree::String(text) => Json::Text(text),
        JsonTree::Array(items) => Json::Array(items.into_iter().map(from_serde).collect::<Option<_>>()?),
        JsonTree::Object(map) => Json::Object(map.into_iter().map(|(k, v)| Some((k, from_serde(v)?))).collect::<Option<_>>()?),
    })
}

/// A [`Json`] as a `JsonTree`, variant for variant; a float is
/// `Number::from_f64` of the number its text reads as, `null` where that is
/// not a finite number.
#[verifier::external_body]
fn to_serde(json: &Json) -> JsonTree {
    match json {
        Json::Null => JsonTree::Null,
        Json::Bool(yes) => JsonTree::Bool(*yes),
        Json::Int(n) => JsonTree::from(*n),
        Json::Float { shown, .. } => shown.parse().ok().and_then(serde_json::Number::from_f64).map_or(JsonTree::Null, JsonTree::Number),
        Json::Text(text) => JsonTree::String(text.clone()),
        Json::Array(items) => JsonTree::Array(items.iter().map(to_serde).collect()),
        Json::Object(entries) => JsonTree::Object(entries.iter().map(|(k, v)| (k.clone(), to_serde(v))).collect()),
    }
}

/// `serde_json::from_str` into a `JsonTree`, as a [`Json`]. What it
/// reads depends on the text alone, and `json_read` names it; `None` is
/// `serde_json` refusing the text.
#[verifier::external_body]
fn parse_json(text: &str) -> (r: Option<Json>)
    ensures
        r matches Some(j) ==> json_read(text@) == Some(j@),
        r is None ==> json_read(text@) is None,
{
    serde_json::from_str::<JsonTree>(text).ok().and_then(from_serde)
}

/// `serde_json::to_string` of a [`Json`], by way of `JsonTree`. The
/// text depends on the JSON alone, and `json_written` names it. When it
/// fails is left unsaid: `serde_json` reports an error, which for a value it
/// built itself its source shows it does not do.
#[verifier::external_body]
fn write_json(json: &Json) -> (r: Result<String, serde_json::Error>)
    ensures
        r matches Ok(text) ==> text@ == json_written(json@),
{
    serde_json::to_string(&to_serde(json))
}

/// JSON written out as text.
pub fn json_text(json: &Json) -> (r: Result<String, Fault>)
    ensures
        r matches Ok(text) ==> text@ == json_written(json@),
        r is Err ==> r == Err::<String, Fault>(Fault::Confused("could not turn the value into JSON text")),
{
    match write_json(json) {
        Ok(text) => Ok(text),
        Err(_) => Err(Fault::Confused("could not turn the value into JSON text")),
    }
}

/// A value written out as JSON text, where it has a JSON form.
pub fn encode(value: &Value, program: &Program) -> (r: Result<String, Fault>)
    ensures
        !has_json(value@, *program) ==> r is Err,
        r matches Ok(text) ==> has_json(value@, *program) && text@ == json_written(json_of(value@, *program)),
        has_json(value@, *program) && r is Err
            ==> r == Err::<String, Fault>(Fault::Confused("could not turn the value into JSON text")),
{
    let json = value_to_json(value, program)?;
    json_text(&json)
}

/// A request body read into a record of layout `layout`: the text must be
/// JSON, and what it reads as must make such a record.
pub fn decode_record(text: &str, layout: u32, program: &Program) -> (r: Result<Value, Fault>)
    ensures
        json_read(text@) is None ==> r == Err::<Value, Fault>(Fault::Confused("the request body is not valid JSON")),
        json_read(text@) matches Some(j) ==> match record_json(j, layout, *program) {
            Ok(v) => r matches Ok(x) && x@ == v,
            Err(f) => r == Err::<Value, Fault>(f),
        },
{
    match parse_json(text) {
        Some(json) => record_from_json(&json, layout, program),
        None => Err(Fault::Confused("the request body is not valid JSON")),
    }
}

} // verus!

verus! {

proof fn lemma_json_named_index(names: Seq<String>, fields: Seq<ValueView>, n: nat, program: Program, k: int)
    requires
        n <= fields.len(),
        n <= names.len(),
        0 <= k < n,
    ensures
        json_named(names, fields, n, program).len() == n,
        json_named(names, fields, n, program)[k] == (names[k]@, json_of(fields[k], program)),
    decreases n,
{
    lemma_json_named_len(names, fields, (n - 1) as nat, program);
    if k < n - 1 {
        lemma_json_named_index(names, fields, (n - 1) as nat, program, k);
    }
}

proof fn lemma_json_named_len(names: Seq<String>, fields: Seq<ValueView>, n: nat, program: Program)
    requires
        n <= fields.len(),
        n <= names.len(),
    ensures
        json_named(names, fields, n, program).len() == n,
    decreases n,
{
    if n > 0 {
        lemma_json_named_len(names, fields, (n - 1) as nat, program);
    }
}

/// The first field of a name is the one at the first place holding it.
proof fn lemma_json_field_first(fields: Seq<(Seq<char>, JsonView)>, name: Seq<char>, k: int)
    requires
        0 <= k < fields.len(),
        fields[k].0 == name,
        forall|j: int| 0 <= j < k ==> (#[trigger] fields[j]).0 != name,
    ensures
        json_field(fields, name) == Some(fields[k].1),
    decreases k,
{
    if k > 0 {
        let rest = fields.drop_first();
        assert(fields[0].0 != name);
        assert forall|j: int| 0 <= j < k - 1 implies (#[trigger] rest[j]).0 != name by {
            assert(rest[j] == fields[j + 1]);
        }
        lemma_json_field_first(rest, name, k - 1);
    }
}

/// A record's JSON read back as a record of its layout: where the layout's
/// field names are distinct and the record has a field for each, every
/// field comes back as what its own JSON reads as, in the same place.
pub proof fn lemma_record_json_reads_back(layout: u32, fields: Seq<ValueView>, cells: Option<Seq<usize>>, program: Program)
    requires
        (layout as int) < program.layouts@.len(),
        fields.len() == program.layouts@[layout as int].fields@.len(),
        forall|i: int, j: int| 0 <= i < j < fields.len()
            ==> (#[trigger] program.layouts@[layout as int].fields@[i])@ != (#[trigger] program.layouts@[layout as int].fields@[j])@,
    ensures
        record_json(json_of(ValueView::Record { layout, fields, cells }, program), layout, program)
            == Ok::<ValueView, Fault>(ValueView::Record {
                layout,
                fields: Seq::new(fields.len(), |k: int| value_of_json(json_of(fields[k], program))),
                cells: None,
            }),
{
    let names = program.layouts@[layout as int].fields@;
    let n = fields.len();
    let object = json_named(names, fields, min_len(names.len(), n), program);
    assert(min_len(names.len(), n) == n);
    lemma_json_named_len(names, fields, n, program);
    assert forall|k: int| 0 <= k < n implies #[trigger] json_field(object, names[k]@) == Some(json_of(fields[k], program)) by {
        lemma_json_named_index(names, fields, n, program, k);
        assert forall|j: int| 0 <= j < k implies (#[trigger] object[j]).0 != names[k]@ by {
            lemma_json_named_index(names, fields, n, program, j);
        }
        lemma_json_field_first(object, names[k]@, k);
    }
    assert(!(exists|k: int| 0 <= k < names.len() && #[trigger] json_field(object, names[k]@) is None));
    assert(Seq::new(names.len(), |k: int| value_of_json(json_field(object, names[k]@)->0))
        =~= Seq::new(n, |k: int| value_of_json(json_of(fields[k], program))));
}

} // verus!

verus! {

/// A found value and a success are written as what they hold: the same
/// JSON, present exactly when the held value has some; so a found value
/// reads back as what its held value reads back as.
pub proof fn lemma_found_is_written_as_what_it_holds(v: ValueView, program: Program)
    ensures
        json_of(ValueView::Maybe(Some(Box::new(v))), program) == json_of(v, program),
        has_json(ValueView::Maybe(Some(Box::new(v))), program) == has_json(v, program),
        json_of(ValueView::Success(Box::new(v)), program) == json_of(v, program),
        has_json(ValueView::Success(Box::new(v)), program) == has_json(v, program),
        value_of_json(json_of(ValueView::Maybe(Some(Box::new(v))), program)) == value_of_json(json_of(v, program)),
{
}

/// Whole numbers, truth values and text read back as themselves from their
/// JSON, also when they are held in a found value.
pub proof fn lemma_plain_values_read_back(n: i64, b: bool, t: Seq<char>, program: Program)
    ensures
        value_of_json(json_of(ValueView::Int(n), program)) == ValueView::Int(n),
        value_of_json(json_of(ValueView::Bool(b), program)) == ValueView::Bool(b),
        value_of_json(json_of(ValueView::Text(t), program)) == ValueView::Text(t),
        value_of_json(json_of(ValueView::Maybe(Some(Box::new(ValueView::Int(n)))), program)) == ValueView::Int(n),
        value_of_json(json_of(ValueView::Maybe(Some(Box::new(ValueView::Text(t)))), program)) == ValueView::Text(t),
        value_of_json(json_of(ValueView::Maybe(None), program)) == ValueView::Maybe(None),
        value_of_json(json_of(ValueView::Nothing, program)) == ValueView::Maybe(None),
{
}

} // verus!

verus! {

/// A list is written as an array of its items' JSON, in order, and a map
/// with a text key as an object with that key over its value's JSON.
pub proof fn lemma_lists_and_maps_keep_their_parts(a: ValueView, b: ValueView, key: Seq<char>, v: ValueView, program: Program)
    ensures
        json_of(ValueView::List(seq![a, b]), program) == JsonView::Array(seq![json_of(a, program), json_of(b, program)]),
        json_of(ValueView::Table(seq![(ValueView::Text(key), v)]), program)
            == JsonView::Object(seq![(key, json_of(v, program))]),
{
    let items = seq![a, b];
    assert(items[0] == a && items[1] == b && items.len() == 2);
    assert(json_items(items, 0, program) =~= Seq::<JsonView>::empty());
    assert(json_items(items, 1, program) =~= seq![json_of(a, program)]);
    assert(json_items(items, 2, program) =~= seq![json_of(a, program), json_of(b, program)]);
    let es = seq![(ValueView::Text(key), v)];
    assert(es[0] == (ValueView::Text(key), v) && es.len() == 1);
    assert(json_entries(es, 0, program) =~= Seq::<(Seq<char>, JsonView)>::empty());
    assert(json_entries(es, 1, program) =~= seq![(key, json_of(v, program))]);
}

} // verus!
