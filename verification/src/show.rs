//! What `print` shows for a value.
//!
//! Text is shown as it is when it *is* the value, and in quotes when it sits
//! inside something else, so that `["a", "b"]` does not read as two bare
//! words. A cell is read through to what it holds; `fuel` bounds how many
//! cells one rendering reads through, which a value whose cells do not hold
//! themselves never runs out of when it is the number of cells.

use vstd::prelude::*;
use crate::builtin::{Builtin, spec_name};
use crate::bytecode::Program;
use crate::text::{decimal, digits, push_char, push_decimal, push_text, chars_of};
use crate::value::{Value, ValueView, EntryView, views, view_of, lemma_views, entry_views, lemma_entry_views};

verus! {

/// The escapes Vaab knows, put back into text.
pub open spec fn escaped(text: Seq<char>) -> Seq<char>
    decreases text.len(),
{
    if text.len() == 0 {
        Seq::empty()
    } else {
        escaped(text.drop_last()) + escape_char(text.last())
    }
}

/// One character of text inside quotes.
pub open spec fn escape_char(c: char) -> Seq<char> {
    if c == '"' { "\\\""@ }
    else if c == '\\' { "\\\\"@ }
    else if c == '\n' { "\\n"@ }
    else if c == '\t' { "\\t"@ }
    else if c == '\r' { "\\r"@ }
    else { seq![c] }
}

/// Text inside a container: in quotes, with its escapes put back.
pub open spec fn quote(text: Seq<char>) -> Seq<char> {
    "\""@ + escaped(text) + "\""@
}

/// The value held in a cell, or `nothing` for a cell that is not there.
pub open spec fn cell_at(cells: Seq<ValueView>, index: usize) -> ValueView {
    if index < cells.len() { cells[index as int] } else { ValueView::Nothing }
}

/// A layout's name, or nothing for a layout the program does not have.
pub open spec fn layout_name(program: Program, layout: u32) -> Seq<char> {
    if layout < program.layouts@.len() { program.layouts@[layout as int].name@ } else { Seq::empty() }
}

/// A layout's field names.
pub open spec fn layout_fields(program: Program, layout: u32) -> Seq<Seq<char>> {
    if layout < program.layouts@.len() {
        program.layouts@[layout as int].fields@.map_values(|f: String| f@)
    } else {
        Seq::empty()
    }
}

/// `Choice.Name` for a variant.
pub open spec fn variant_path(program: Program, layout: u32) -> Seq<char> {
    if layout < program.variants@.len() {
        program.variants@[layout as int].choice@ + "."@ + program.variants@[layout as int].name@
    } else {
        "."@
    }
}

/// A value shown inside a list, a map, a tuple or a record.
pub open spec fn quoted(v: ValueView, program: Program, cells: Seq<ValueView>, fuel: nat) -> Seq<char>
    decreases fuel, v, 0nat,
{
    match v {
        ValueView::Nothing => "nothing"@,
        ValueView::Int(n) => decimal(n as int),
        ValueView::Float(_, shown) => shown,
        ValueView::Bool(b) => if b { "yes"@ } else { "no"@ },
        ValueView::Text(t) => quote(t),
        ValueView::List(items) => "["@ + joined(items, program, cells, fuel) + "]"@,
        ValueView::Table(entries) => if entries.len() == 0 {
            "{}"@
        } else {
            "{"@ + entries_joined(entries, program, cells, fuel) + "}"@
        },
        ValueView::Tuple(items) => "("@ + joined(items, program, cells, fuel) + ")"@,
        ValueView::Maybe(None) => "nothing"@,
        ValueView::Maybe(Some(held)) => "found "@ + quoted(*held, program, cells, fuel),
        ValueView::Success(held) => "success "@ + quoted(*held, program, cells, fuel),
        ValueView::Failure(held) => "failure "@ + quoted(*held, program, cells, fuel),
        ValueView::Record { layout, fields, cells: cell_ids } =>
            layout_name(program, layout) + "("@ + record_parts(
                layout_fields(program, layout), fields, cell_ids, program, cells, fuel,
                layout_fields(program, layout).len()) + ")"@,
        ValueView::Variant { layout, fields } => if fields.len() == 0 {
            variant_path(program, layout)
        } else {
            variant_path(program, layout) + "("@ + joined(fields, program, cells, fuel) + ")"@
        },
        ValueView::Function { name, .. } => name,
        ValueView::Builtin(b) => "to "@ + spec_name(b),
        ValueView::Captured(c) => if fuel == 0 { "..."@ } else { quoted(cell_at(cells, c), program, cells, (fuel - 1) as nat) },
        ValueView::Channel(_) => "channel"@,
        ValueView::Shared(c) => if fuel == 0 { "shared ..."@ } else { "shared "@ + quoted(cell_at(cells, c), program, cells, (fuel - 1) as nat) },
        ValueView::Task(id) => "task "@ + digits(id as nat),
        ValueView::Db(h) => "db "@ + digits(h as nat),
        ValueView::Store(h) => "store "@ + digits(h as nat),
        ValueView::Logger(h) => "logger "@ + digits(h as nat),
        ValueView::Query(_) => "query"@,
    }
}

/// Values shown one after another, separated by `, `.
pub open spec fn joined(items: Seq<ValueView>, program: Program, cells: Seq<ValueView>, fuel: nat) -> Seq<char>
    decreases fuel, items, 0nat,
{
    if items.len() == 0 {
        Seq::empty()
    } else if items.len() == 1 {
        quoted(items[0], program, cells, fuel)
    } else {
        joined(items.drop_last(), program, cells, fuel) + ", "@ + quoted(items.last(), program, cells, fuel)
    }
}

/// A map's entries shown as `key: value`, separated by `, `.
pub open spec fn entries_joined(entries: Seq<EntryView>, program: Program, cells: Seq<ValueView>, fuel: nat) -> Seq<char>
    decreases fuel, entries, 0nat,
{
    if entries.len() == 0 {
        Seq::empty()
    } else if entries.len() == 1 {
        quoted(entries[0].0, program, cells, fuel) + ": "@ + quoted(entries[0].1, program, cells, fuel)
    } else {
        entries_joined(entries.drop_last(), program, cells, fuel) + ", "@
            + quoted(entries.last().0, program, cells, fuel) + ": "@ + quoted(entries.last().1, program, cells, fuel)
    }
}

/// The value of a record's field: from its cell for a `cast`, else from its
/// storage, and `nothing` when there is no such field.
pub open spec fn record_field(fields: Seq<ValueView>, cell_ids: Option<Seq<usize>>, cells: Seq<ValueView>, i: int) -> ValueView {
    match cell_ids {
        Some(ids) => if 0 <= i < ids.len() { cell_at(cells, ids[i]) } else { ValueView::Nothing },
        None => if 0 <= i < fields.len() { fields[i] } else { ValueView::Nothing },
    }
}

/// The first `n` fields of a record shown as `name: value`, separated by `, `.
pub open spec fn record_parts(
    names: Seq<Seq<char>>,
    fields: Seq<ValueView>,
    cell_ids: Option<Seq<usize>>,
    program: Program,
    cells: Seq<ValueView>,
    fuel: nat,
    n: nat,
) -> Seq<char>
    decreases fuel, fields, n,
{
    if n == 0 || n > names.len() {
        Seq::empty()
    } else {
        let i = n - 1;
        let part = names[i] + ": "@ + field_text(fields, cell_ids, program, cells, fuel, i as nat);
        if n == 1 {
            part
        } else {
            record_parts(names, fields, cell_ids, program, cells, fuel, (n - 1) as nat) + ", "@ + part
        }
    }
}

/// One field of a record, as it is shown after its name.
pub open spec fn field_text(
    fields: Seq<ValueView>,
    cell_ids: Option<Seq<usize>>,
    program: Program,
    cells: Seq<ValueView>,
    fuel: nat,
    i: nat,
) -> Seq<char>
    decreases fuel, fields, i,
{
    match cell_ids {
        Some(ids) => if i < ids.len() {
            if fuel == 0 { "..."@ } else { quoted(cell_at(cells, ids[i as int]), program, cells, (fuel - 1) as nat) }
        } else {
            "nothing"@
        },
        None => if i < fields.len() { quoted(fields[i as int], program, cells, fuel) } else { "nothing"@ },
    }
}

/// What `print` shows: text as it is, anything else as it is quoted.
pub open spec fn shown(v: ValueView, program: Program, cells: Seq<ValueView>, fuel: nat) -> Seq<char> {
    match v {
        ValueView::Text(t) => t,
        _ => quoted(v, program, cells, fuel),
    }
}

} // verus!

verus! {

fn push_escaped(out: &mut String, text: &str)
    ensures
        final(out)@ == old(out)@ + escaped(text@),
{
    let chars = chars_of(text);
    let mut i: usize = 0;
    while i < chars.len()
        invariant
            i <= chars@.len(),
            chars@ == text@,
            out@ == old(out)@ + escaped(text@.subrange(0, i as int)),
        decreases chars.len() - i,
    {
        let c = chars[i];
        let ghost before = out@;
        if c == '"' {
            push_text(out, "\\\"");
        } else if c == '\\' {
            push_text(out, "\\\\");
        } else if c == '\n' {
            push_text(out, "\\n");
        } else if c == '\t' {
            push_text(out, "\\t");
        } else if c == '\r' {
            push_text(out, "\\r");
        } else {
            push_char(out, c);
            assert(out@ =~= before + seq![c]);
        }
        proof {
            let next = text@.subrange(0, i + 1);
            assert(next.drop_last() =~= text@.subrange(0, i as int));
            assert(next.last() == c);
        }
        i = i + 1;
    }
    assert(text@.subrange(0, text@.len() as int) =~= text@);
}

/// Appends text inside a container: in quotes, with its escapes put back.
pub fn push_quoted_text(out: &mut String, text: &str)
    ensures
        final(out)@ == old(out)@ + quote(text@),
{
    push_text(out, "\"");
    push_escaped(out, text);
    push_text(out, "\"");
}

/// Appends a value as it is shown inside a container.
#[verifier::rlimit(60)]
pub fn push_quoted(out: &mut String, v: &Value, program: &Program, cells: &Vec<Value>, fuel: usize)
    ensures
        final(out)@ == old(out)@ + quoted(v@, *program, views(cells@), fuel as nat),
    decreases fuel, v, 1nat,
{
    let ghost cs = views(cells@);
    proof { lemma_views(cells@); }
    match v {
        Value::Nothing => { push_text(out, "nothing"); assert(out@ =~= old(out)@ + quoted(v@, *program, views(cells@), fuel as nat)); },
        Value::Int(n) => push_decimal(out, *n),
        Value::Float(f) => push_text(out, f.shown.as_str()),
        Value::Bool(b) => if *b { push_text(out, "yes") } else { push_text(out, "no") },
        Value::Text(t) => push_quoted_text(out, t.as_str()),
        Value::List(items) => {
            push_text(out, "[");
            push_joined(out, items, program, cells, fuel);
            push_text(out, "]");
            assert(out@ =~= old(out)@ + quoted(v@, *program, views(cells@), fuel as nat));
        },
        Value::Table(entries) => {
            proof { lemma_entry_views(entries@); }
            if entries.len() == 0 {
                push_text(out, "{}");
            } else {
                push_text(out, "{");
                push_entries(out, entries, program, cells, fuel);
                push_text(out, "}");
            }
            assert(out@ =~= old(out)@ + quoted(v@, *program, views(cells@), fuel as nat));
        },
        Value::Tuple(items) => {
            push_text(out, "(");
            push_joined(out, items, program, cells, fuel);
            push_text(out, ")");
            assert(out@ =~= old(out)@ + quoted(v@, *program, views(cells@), fuel as nat));
        },
        Value::Maybe(None) => { push_text(out, "nothing"); assert(out@ =~= old(out)@ + quoted(v@, *program, views(cells@), fuel as nat)); },
        Value::Maybe(Some(held)) => {
            push_text(out, "found ");
            push_quoted(out, held, program, cells, fuel);
            assert(out@ =~= old(out)@ + quoted(v@, *program, views(cells@), fuel as nat));
        },
        Value::Success(held) => {
            push_text(out, "success ");
            push_quoted(out, held, program, cells, fuel);
            assert(out@ =~= old(out)@ + quoted(v@, *program, views(cells@), fuel as nat));
        },
        Value::Failure(held) => {
            push_text(out, "failure ");
            push_quoted(out, held, program, cells, fuel);
            assert(out@ =~= old(out)@ + quoted(v@, *program, views(cells@), fuel as nat));
        },
        Value::Record(record) => {
            let layout = record.layout;
            if (layout as usize) < program.layouts.len() {
                push_text(out, program.layouts[layout as usize].name.as_str());
            }
            push_text(out, "(");
            push_record_parts(out, record, program, cells, fuel);
            push_text(out, ")");
            assert(out@ =~= old(out)@ + quoted(v@, *program, views(cells@), fuel as nat));
        },
        Value::Variant(variant) => {
            proof { lemma_views(variant.fields@); }
            let layout = variant.layout;
            if (layout as usize) < program.variants.len() {
                push_text(out, program.variants[layout as usize].choice.as_str());
                push_text(out, ".");
                push_text(out, program.variants[layout as usize].name.as_str());
            } else {
                push_text(out, ".");
            }
            if variant.fields.len() > 0 {
                push_text(out, "(");
                push_joined(out, &variant.fields, program, cells, fuel);
                push_text(out, ")");
            }
            assert(out@ =~= old(out)@ + quoted(v@, *program, views(cells@), fuel as nat));
        },
        Value::Function(closure) => push_text(out, closure.name.as_str()),
        Value::Builtin(b) => {
            push_text(out, "to ");
            push_text(out, b.name());
            assert(out@ =~= old(out)@ + quoted(v@, *program, views(cells@), fuel as nat));
        },
        Value::Captured(c) => push_cell(out, *c, false, v, program, cells, fuel),
        Value::Channel(_) => { push_text(out, "channel"); assert(out@ =~= old(out)@ + quoted(v@, *program, views(cells@), fuel as nat)); },
        Value::Shared(c) => push_cell(out, *c, true, v, program, cells, fuel),
        Value::Task(id) => {
            push_text(out, "task ");
            crate::text::push_digits(out, *id as u64);
            assert(out@ =~= old(out)@ + quoted(v@, *program, views(cells@), fuel as nat));
        },
        Value::Db(h) => {
            push_text(out, "db ");
            crate::text::push_digits(out, *h as u64);
            assert(out@ =~= old(out)@ + quoted(v@, *program, views(cells@), fuel as nat));
        },
        Value::Store(h) => {
            push_text(out, "store ");
            crate::text::push_digits(out, *h as u64);
            assert(out@ =~= old(out)@ + quoted(v@, *program, views(cells@), fuel as nat));
        },
        Value::Logger(h) => {
            push_text(out, "logger ");
            crate::text::push_digits(out, *h as u64);
            assert(out@ =~= old(out)@ + quoted(v@, *program, views(cells@), fuel as nat));
        },
        Value::Query(_) => { push_text(out, "query"); assert(out@ =~= old(out)@ + quoted(v@, *program, views(cells@), fuel as nat)); },
    }
    assert(out@ =~= old(out)@ + quoted(v@, *program, views(cells@), fuel as nat));
}

/// Appends what a cell holds, as a captured local (`shared` false) or a
/// `shared` value shows it.
#[verifier::rlimit(30)]
fn push_cell(out: &mut String, c: usize, shared: bool, v: &Value, program: &Program, cells: &Vec<Value>, fuel: usize)
    ensures
        final(out)@ == old(out)@ + quoted(
            if shared { ValueView::Shared(c) } else { ValueView::Captured(c) }, *program, views(cells@), fuel as nat),
    decreases fuel, v, 0nat,
{
    proof { lemma_views(cells@); }
    let ghost cs = views(cells@);
    if fuel == 0 {
        if shared { push_text(out, "shared ..."); } else { push_text(out, "..."); }
    } else {
        if shared {
            push_text(out, "shared ");
        }
        let ghost before = out@;
        if c < cells.len() {
            assert(cell_at(cs, c) == view_of(cells@[c as int]));
            push_quoted(out, &cells[c], program, cells, fuel - 1);
        } else {
            push_text(out, "nothing");
        }
        assert(out@ == before + quoted(cell_at(cs, c), *program, cs, (fuel - 1) as nat));
        assert(quoted(ValueView::Captured(c), *program, cs, fuel as nat) == quoted(cell_at(cs, c), *program, cs, (fuel - 1) as nat));
        assert(quoted(ValueView::Shared(c), *program, cs, fuel as nat) == "shared "@ + quoted(cell_at(cs, c), *program, cs, (fuel - 1) as nat));
    }
    assert(out@ =~= old(out)@ + quoted(
            if shared { ValueView::Shared(c) } else { ValueView::Captured(c) }, *program, views(cells@), fuel as nat));
}

fn push_joined(out: &mut String, items: &Vec<Value>, program: &Program, cells: &Vec<Value>, fuel: usize)
    ensures
        final(out)@ == old(out)@ + joined(views(items@), *program, views(cells@), fuel as nat),
    decreases fuel, items, 0nat,
{
    proof { lemma_views(items@); }
    let ghost all = views(items@);
    let mut i: usize = 0;
    while i < items.len()
        invariant
            i <= items@.len(),
            all == views(items@),
            all.len() == items@.len(),
            forall|k: int| 0 <= k < items@.len() ==> #[trigger] all[k] == view_of(items@[k]),
            out@ == old(out)@ + joined(all.subrange(0, i as int), *program, views(cells@), fuel as nat),
        decreases items.len() - i,
    {
        let ghost next = all.subrange(0, i + 1);
        proof {
            assert(next.drop_last() =~= all.subrange(0, i as int));
            assert(next.last() == view_of(items@[i as int]));
        }
        if i > 0 {
            push_text(out, ", ");
        } else {
            assert(next.len() == 1);
            assert(next[0] == next.last());
        }
        push_quoted(out, &items[i], program, cells, fuel);
        i = i + 1;
    }
    assert(all.subrange(0, i as int) =~= all);
}

fn push_entries(out: &mut String, entries: &Vec<crate::value::Entry>, program: &Program, cells: &Vec<Value>, fuel: usize)
    ensures
        final(out)@ == old(out)@ + entries_joined(entry_views(entries@), *program, views(cells@), fuel as nat),
    decreases fuel, entries, 0nat,
{
    proof { lemma_entry_views(entries@); }
    let ghost all = entry_views(entries@);
    let mut i: usize = 0;
    while i < entries.len()
        invariant
            i <= entries@.len(),
            all == entry_views(entries@),
            all.len() == entries@.len(),
            forall|k: int| 0 <= k < entries@.len() ==> #[trigger] all[k] == crate::value::entry_view(entries@[k]),
            out@ == old(out)@ + entries_joined(all.subrange(0, i as int), *program, views(cells@), fuel as nat),
        decreases entries.len() - i,
    {
        let ghost next = all.subrange(0, i + 1);
        proof {
            assert(next.drop_last() =~= all.subrange(0, i as int));
            assert(next.last() == crate::value::entry_view(entries@[i as int]));
        }
        if i > 0 {
            push_text(out, ", ");
        } else {
            assert(next.len() == 1);
            assert(next[0] == next.last());
        }
        push_quoted(out, &entries[i].key, program, cells, fuel);
        push_text(out, ": ");
        push_quoted(out, &entries[i].value, program, cells, fuel);
        i = i + 1;
    }
    assert(all.subrange(0, i as int) =~= all);
}

fn push_field_value(out: &mut String, record: &crate::value::Record, i: usize, program: &Program, cells: &Vec<Value>, fuel: usize)
    ensures
        final(out)@ == old(out)@ + field_text(views(record.fields@), crate::value::cell_ids(*record), *program, views(cells@), fuel as nat, i as nat),
    decreases fuel, record, 1nat,
{
    proof { lemma_views(record.fields@); lemma_views(cells@); }
    match &record.cells {
        Some(ids_vec) => {
            if i < ids_vec.len() {
                if fuel == 0 {
                    push_text(out, "...");
                } else {
                    let c = ids_vec[i];
                    if c < cells.len() {
                        assert(cell_at(views(cells@), c) == view_of(cells@[c as int]));
                        push_quoted(out, &cells[c], program, cells, fuel - 1);
                    } else {
                        push_text(out, "nothing");
                    }
                }
            } else {
                push_text(out, "nothing");
            }
        },
        None => {
            if i < record.fields.len() {
                push_quoted(out, &record.fields[i], program, cells, fuel);
            } else {
                push_text(out, "nothing");
            }
        },
    }
}

fn push_record_parts(out: &mut String, record: &crate::value::Record, program: &Program, cells: &Vec<Value>, fuel: usize)
    ensures
        final(out)@ == old(out)@ + record_parts(
            layout_fields(*program, record.layout),
            views(record.fields@),
            crate::value::cell_ids(*record),
            *program, views(cells@), fuel as nat,
            layout_fields(*program, record.layout).len()),
    decreases fuel, record, 2nat,
{
    proof { lemma_views(record.fields@); lemma_views(cells@); }
    let ghost names = layout_fields(*program, record.layout);
    let ghost ids = crate::value::cell_ids(*record);
    let ghost fs = views(record.fields@);
    let ghost cs = views(cells@);
    let count: usize = if (record.layout as usize) < program.layouts.len() {
        program.layouts[record.layout as usize].fields.len()
    } else {
        0
    };
    let mut i: usize = 0;
    while i < count
        invariant
            i <= count,
            count == names.len(),
            names == layout_fields(*program, record.layout),
            ids == crate::value::cell_ids(*record),
            fs == views(record.fields@),
            cs == views(cells@),
            fs.len() == record.fields@.len(),
            cs.len() == cells@.len(),
            forall|k: int| 0 <= k < record.fields@.len() ==> #[trigger] fs[k] == view_of(record.fields@[k]),
            forall|k: int| 0 <= k < cells@.len() ==> #[trigger] cs[k] == view_of(cells@[k]),
            out@ == old(out)@ + record_parts(names, fs, ids, *program, cs, fuel as nat, i as nat),
        decreases count - i,
    {
        let ghost before = out@;
        if i > 0 {
            push_text(out, ", ");
        }
        push_text(out, program.layouts[record.layout as usize].fields[i].as_str());
        push_text(out, ": ");
        push_field_value(out, record, i, program, cells, fuel);
        proof {
            assert(names[i as int] == program.layouts@[record.layout as int].fields@[i as int]@);
            assert(out@ =~= old(out)@ + record_parts(names, fs, ids, *program, cs, fuel as nat, (i + 1) as nat));
        }
        i = i + 1;
    }
}

/// What `print` shows for a value.
pub fn show(v: &Value, program: &Program, cells: &Vec<Value>, fuel: usize) -> (r: String)
    ensures
        r@ == shown(v@, *program, views(cells@), fuel as nat),
{
    let mut out = String::new();
    match v {
        Value::Text(t) => push_text(&mut out, t.as_str()),
        _ => push_quoted(&mut out, v, program, cells, fuel),
    }
    out
}

} // verus!

verus! {

/// A map of one entry shows as its key's text, `: `, and its value's text,
/// in braces: the key comes first.
pub proof fn lemma_one_entry_map_shows_key_then_value(key: ValueView, value: ValueView, program: Program,
    cells: Seq<ValueView>, fuel: nat)
    ensures
        shown(ValueView::Table(seq![(key, value)]), program, cells, fuel)
            == "{"@ + quoted(key, program, cells, fuel) + ": "@ + quoted(value, program, cells, fuel) + "}"@,
{
    let es = seq![(key, value)];
    assert(es[0] == (key, value));
    let k = quoted(key, program, cells, fuel);
    let v = quoted(value, program, cells, fuel);
    assert(entries_joined(es, program, cells, fuel) == k + ": "@ + v);
    assert("{"@ + (k + ": "@ + v) + "}"@ =~= "{"@ + k + ": "@ + v + "}"@);
}

/// A map with a text key and a whole number shows the key in quotes, then
/// `: `, then the number.
pub proof fn lemma_text_keyed_entry_shows_in_order(key: Seq<char>, n: i64, program: Program, cells: Seq<ValueView>, fuel: nat)
    ensures
        shown(ValueView::Table(seq![(ValueView::Text(key), ValueView::Int(n))]), program, cells, fuel)
            == "{"@ + quote(key) + ": "@ + decimal(n as int) + "}"@,
{
    lemma_one_entry_map_shows_key_then_value(ValueView::Text(key), ValueView::Int(n), program, cells, fuel);
}

/// Adding an entry to a map that has some adds `, `, the new key's text,
/// `: ` and the new value's text just before the closing brace.
pub proof fn lemma_map_text_grows_by_its_last_entry(entries: Seq<EntryView>, key: ValueView, value: ValueView,
    program: Program, cells: Seq<ValueView>, fuel: nat)
    requires
        entries.len() > 0,
    ensures
        shown(ValueView::Table(entries.push((key, value))), program, cells, fuel)
            == "{"@ + entries_joined(entries, program, cells, fuel) + ", "@ + quoted(key, program, cells, fuel)
                + ": "@ + quoted(value, program, cells, fuel) + "}"@,
{
    let es = entries.push((key, value));
    assert(es.drop_last() =~= entries);
    assert(es.last() == (key, value));
    let j = entries_joined(entries, program, cells, fuel);
    let k = quoted(key, program, cells, fuel);
    let v = quoted(value, program, cells, fuel);
    assert(entries_joined(es, program, cells, fuel) == j + ", "@ + k + ": "@ + v);
    assert("{"@ + (j + ", "@ + k + ": "@ + v) + "}"@ =~= "{"@ + j + ", "@ + k + ": "@ + v + "}"@);
}

} // verus!

verus! {

/// A list of two items shows them in order between brackets, separated by
/// `, `.
pub proof fn lemma_two_item_list_shows_in_order(a: ValueView, b: ValueView, program: Program, cells: Seq<ValueView>, fuel: nat)
    ensures
        shown(ValueView::List(seq![a, b]), program, cells, fuel)
            == "["@ + quoted(a, program, cells, fuel) + ", "@ + quoted(b, program, cells, fuel) + "]"@,
{
    let items = seq![a, b];
    assert(items.drop_last() =~= seq![a]);
    let x = quoted(a, program, cells, fuel);
    let y = quoted(b, program, cells, fuel);
    assert(joined(seq![a], program, cells, fuel) == x);
    assert(joined(items, program, cells, fuel) == x + ", "@ + y);
    assert("["@ + (x + ", "@ + y) + "]"@ =~= "["@ + x + ", "@ + y + "]"@);
}

} // verus!
