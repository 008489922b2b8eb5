//! What a Vaab value is while a program runs.
//!
//! A heap value that more than one place can change (a local a closure
//! captured, a `shared` value, the fields of a `cast`) lives in a cell of the
//! world's cell table, and the value holds the cell's number. Everything else
//! is held by value.

use vstd::prelude::*;
use crate::builtin::Builtin;
use crate::query::{Query, QueryView};

verus! {

/// A `Float`, carried as its IEEE-754 bits together with the text `print`
/// shows for it. The arithmetic unit that makes floats lives outside the
/// verified library; here a float is only ever stored, compared and shown.
pub struct Float {
    pub bits: u64,
    pub shown: String,
}

/// One entry of a map: a key and the value stored under it.
pub struct Entry {
    pub key: Value,
    pub value: Value,
}

/// A value of a declared `type` or `cast`.
pub struct Record {
    /// Which layout of the program this is a value of.
    pub layout: u32,
    /// Field storage for a `type`.
    pub fields: Vec<Value>,
    /// For a `cast`, the cells holding its fields, which may change in place.
    pub cells: Option<Vec<usize>>,
}

/// One variant of a `choice`, with its payload.
pub struct Variant {
    /// The variant's place in the program's flattened variant table.
    pub layout: u32,
    pub fields: Vec<Value>,
}

/// A function as a value: which body to run, and what it took with it.
pub struct Closure {
    /// Which function value this is; two function values are equal only when
    /// they are the same value.
    pub identity: usize,
    pub body: u32,
    /// What to call it in a trace or when it is printed.
    pub name: String,
    /// One entry per capture of the body, each a [`Value::Captured`].
    pub captures: Vec<Value>,
}

/// A Vaab value.
pub enum Value {
    /// The one value of type `Nothing`.
    Nothing,
    Int(i64),
    Float(Float),
    Bool(bool),
    Text(String),
    List(Vec<Value>),
    /// A map, which keeps the order its keys were first put in.
    Table(Vec<Entry>),
    Tuple(Vec<Value>),
    /// A `maybe T`: `found x`, or absent.
    Maybe(Option<Box<Value>>),
    Success(Box<Value>),
    Failure(Box<Value>),
    Record(Box<Record>),
    Variant(Box<Variant>),
    Function(Box<Closure>),
    Builtin(Builtin),
    /// A local an inner closure can see, living in the numbered cell.
    Captured(usize),
    Channel(u32),
    /// State several tasks may read and change, living in the numbered cell.
    Shared(usize),
    Task(usize),
    Db(u32),
    Store(u32),
    Logger(u32),
    Query(Box<Query>),
}

// ---------------------------------------------------------------------------
// What a value is, as the library reasons about it
// ---------------------------------------------------------------------------

/// A map entry, as the library reasons about it: its key and its value.
pub type EntryView = (ValueView, ValueView);

/// A value as the library reasons about it: text is its characters and a
/// list is a sequence.
pub enum ValueView {
    Nothing,
    Int(i64),
    Float(u64, Seq<char>),
    Bool(bool),
    Text(Seq<char>),
    List(Seq<ValueView>),
    Table(Seq<EntryView>),
    Tuple(Seq<ValueView>),
    Maybe(Option<Box<ValueView>>),
    Success(Box<ValueView>),
    Failure(Box<ValueView>),
    Record { layout: u32, fields: Seq<ValueView>, cells: Option<Seq<usize>> },
    Variant { layout: u32, fields: Seq<ValueView> },
    Function { identity: usize, body: u32, name: Seq<char>, captures: Seq<ValueView> },
    Builtin(Builtin),
    Captured(usize),
    Channel(u32),
    Shared(usize),
    Task(usize),
    Db(u32),
    Store(u32),
    Logger(u32),
    Query(QueryView),
}

/// The cells holding a record's fields, for a `cast`.
pub open spec fn cell_ids(r: Record) -> Option<Seq<usize>> {
    match r.cells {
        Some(c) => Some(c@),
        None => None,
    }
}

/// The views of a sequence of values.
pub open spec fn views(items: Seq<Value>) -> Seq<ValueView>
    decreases items,
{
    if items.len() == 0 {
        Seq::empty()
    } else {
        views(items.drop_last()).push(view_of(items.last()))
    }
}

/// The views of a map's entries.
pub open spec fn entry_views(entries: Seq<Entry>) -> Seq<EntryView>
    decreases entries,
{
    if entries.len() == 0 {
        Seq::empty()
    } else {
        entry_views(entries.drop_last()).push(entry_view(entries.last()))
    }
}

/// The view of one map entry.
pub open spec fn entry_view(entry: Entry) -> EntryView
    decreases entry,
{
    (view_of(entry.key), view_of(entry.value))
}

/// What a value is, as the library reasons about it.
pub open spec fn view_of(v: Value) -> ValueView
    decreases v,
{
    match v {
        Value::Nothing => ValueView::Nothing,
        Value::Int(n) => ValueView::Int(n),
        Value::Float(f) => ValueView::Float(f.bits, f.shown@),
        Value::Bool(b) => ValueView::Bool(b),
        Value::Text(t) => ValueView::Text(t@),
        Value::List(items) => ValueView::List(views(items@)),
        Value::Table(entries) => ValueView::Table(entry_views(entries@)),
        Value::Tuple(items) => ValueView::Tuple(views(items@)),
        Value::Maybe(None) => ValueView::Maybe(None),
        Value::Maybe(Some(held)) => ValueView::Maybe(Some(Box::new(view_of(*held)))),
        Value::Success(held) => ValueView::Success(Box::new(view_of(*held))),
        Value::Failure(held) => ValueView::Failure(Box::new(view_of(*held))),
        Value::Record(r) => ValueView::Record {
            layout: r.layout,
            fields: views(r.fields@),
            cells: cell_ids(*r),
        },
        Value::Variant(r) => ValueView::Variant { layout: r.layout, fields: views(r.fields@) },
        Value::Function(c) => ValueView::Function {
            identity: c.identity,
            body: c.body,
            name: c.name@,
            captures: views(c.captures@),
        },
        Value::Builtin(b) => ValueView::Builtin(b),
        Value::Captured(c) => ValueView::Captured(c),
        Value::Channel(c) => ValueView::Channel(c),
        Value::Shared(c) => ValueView::Shared(c),
        Value::Task(t) => ValueView::Task(t),
        Value::Db(h) => ValueView::Db(h),
        Value::Store(h) => ValueView::Store(h),
        Value::Logger(h) => ValueView::Logger(h),
        Value::Query(q) => ValueView::Query(q@),
    }
}

/// The views of a sequence line up with its items.
pub proof fn lemma_views(items: Seq<Value>)
    ensures
        views(items).len() == items.len(),
        forall|i: int| 0 <= i < items.len() ==> #[trigger] views(items)[i] == view_of(items[i]),
    decreases items.len(),
{
    if items.len() > 0 {
        lemma_views(items.drop_last());
    }
}

/// The views of a sequence of entries line up with its entries.
pub proof fn lemma_entry_views(entries: Seq<Entry>)
    ensures
        entry_views(entries).len() == entries.len(),
        forall|i: int| 0 <= i < entries.len() ==> #[trigger] entry_views(entries)[i] == entry_view(entries[i]),
    decreases entries.len(),
{
    if entries.len() > 0 {
        lemma_entry_views(entries.drop_last());
    }
}

/// Views of a sequence with one more item.
pub proof fn lemma_views_push(items: Seq<Value>, item: Value)
    ensures
        views(items.push(item)) == views(items).push(view_of(item)),
{
    assert(items.push(item).drop_last() =~= items);
}

/// Views of entries with one more entry.
pub proof fn lemma_entry_views_push(entries: Seq<Entry>, entry: Entry)
    ensures
        entry_views(entries.push(entry)) == entry_views(entries).push(entry_view(entry)),
{
    assert(entries.push(entry).drop_last() =~= entries);
}

/// A value and its view are the same kind of value.
pub proof fn lemma_view_kind(v: Value)
    ensures
        (v is Nothing) == (view_of(v) is Nothing),
        (v is Int) == (view_of(v) is Int),
        (v is Float) == (view_of(v) is Float),
        (v is Bool) == (view_of(v) is Bool),
        (v is Text) == (view_of(v) is Text),
        (v is List) == (view_of(v) is List),
        (v is Table) == (view_of(v) is Table),
        (v is Tuple) == (view_of(v) is Tuple),
        (v is Maybe) == (view_of(v) is Maybe),
        (v is Success) == (view_of(v) is Success),
        (v is Failure) == (view_of(v) is Failure),
        (v is Record) == (view_of(v) is Record),
        (v is Variant) == (view_of(v) is Variant),
        (v is Function) == (view_of(v) is Function),
        (v is Builtin) == (view_of(v) is Builtin),
        (v is Captured) == (view_of(v) is Captured),
        (v is Channel) == (view_of(v) is Channel),
        (v is Shared) == (view_of(v) is Shared),
        (v is Task) == (view_of(v) is Task),
        (v is Db) == (view_of(v) is Db),
        (v is Store) == (view_of(v) is Store),
        (v is Logger) == (view_of(v) is Logger),
        (v is Query) == (view_of(v) is Query),
        (v matches Value::Maybe(None)) == (view_of(v) matches ValueView::Maybe(None)),
{
}

impl View for Value {
    type V = ValueView;

    open spec fn view(&self) -> ValueView {
        view_of(*self)
    }
}

// ---------------------------------------------------------------------------
// Floats compared as numbers
// ---------------------------------------------------------------------------

pub open spec fn exponent_bits(bits: u64) -> u64 {
    bits & 0x7ff0_0000_0000_0000u64
}

pub open spec fn fraction_bits(bits: u64) -> u64 {
    bits & 0x000f_ffff_ffff_ffffu64
}

/// Whether the bits are a `NaN`.
pub open spec fn is_nan(bits: u64) -> bool {
    exponent_bits(bits) == 0x7ff0_0000_0000_0000u64 && fraction_bits(bits) != 0
}

/// Whether the bits are `0.0` or `-0.0`.
pub open spec fn is_zero(bits: u64) -> bool {
    bits & 0x7fff_ffff_ffff_ffffu64 == 0
}

/// IEEE equality: a `NaN` equals nothing, and the two zeros are equal.
pub open spec fn float_equal(left: u64, right: u64) -> bool {
    if is_nan(left) || is_nan(right) {
        false
    } else if is_zero(left) && is_zero(right) {
        true
    } else {
        left == right
    }
}

pub fn float_equal_exec(left: u64, right: u64) -> (r: bool)
    ensures
        r == float_equal(left, right),
{
    let nan_left = (left & 0x7ff0_0000_0000_0000u64) == 0x7ff0_0000_0000_0000u64
        && (left & 0x000f_ffff_ffff_ffffu64) != 0;
    let nan_right = (right & 0x7ff0_0000_0000_0000u64) == 0x7ff0_0000_0000_0000u64
        && (right & 0x000f_ffff_ffff_ffffu64) != 0;
    if nan_left || nan_right {
        false
    } else if (left & 0x7fff_ffff_ffff_ffffu64) == 0 && (right & 0x7fff_ffff_ffff_ffffu64) == 0 {
        true
    } else {
        left == right
    }
}

// ---------------------------------------------------------------------------
// Equality
// ---------------------------------------------------------------------------

/// Whether `==` holds between two values (`by_bits` false), or whether they
/// are the same map key (`by_bits` true). The two differ only on floats: as
/// keys they are compared by their bits, so that a `NaN` key can be found
/// again.
pub open spec fn same(left: ValueView, right: ValueView, by_bits: bool) -> bool
    decreases left, 0int,
{
    match (left, right) {
        (ValueView::Nothing, ValueView::Nothing) => true,
        (ValueView::Int(l), ValueView::Int(r)) => l == r,
        (ValueView::Float(l, _), ValueView::Float(r, _)) => if by_bits { l == r } else { float_equal(l, r) },
        (ValueView::Bool(l), ValueView::Bool(r)) => l == r,
        (ValueView::Text(l), ValueView::Text(r)) => l == r,
        (ValueView::List(l), ValueView::List(r)) => l.len() == r.len() && same_prefix(l, r, by_bits),
        (ValueView::Tuple(l), ValueView::Tuple(r)) => l.len() == r.len() && same_prefix(l, r, by_bits),
        (ValueView::Table(l), ValueView::Table(r)) => l.len() == r.len()
            && tables_match(l, r, by_bits),
        (ValueView::Maybe(None), ValueView::Maybe(None)) => true,
        (ValueView::Maybe(Some(l)), ValueView::Maybe(Some(r))) => same(*l, *r, by_bits),
        (ValueView::Success(l), ValueView::Success(r)) => same(*l, *r, by_bits),
        (ValueView::Failure(l), ValueView::Failure(r)) => same(*l, *r, by_bits),
        (ValueView::Record { layout: l, fields: lf, .. }, ValueView::Record { layout: r, fields: rf, .. }) =>
            l == r && same_prefix(lf, rf, by_bits),
        (ValueView::Variant { layout: l, fields: lf }, ValueView::Variant { layout: r, fields: rf }) =>
            l == r && same_prefix(lf, rf, by_bits),
        (ValueView::Function { identity: l, .. }, ValueView::Function { identity: r, .. }) => l == r,
        (ValueView::Builtin(l), ValueView::Builtin(r)) => l == r,
        (ValueView::Channel(l), ValueView::Channel(r)) => l == r,
        (ValueView::Shared(l), ValueView::Shared(r)) => l == r,
        (ValueView::Task(l), ValueView::Task(r)) => l == r,
        (ValueView::Db(l), ValueView::Db(r)) => l == r,
        (ValueView::Store(l), ValueView::Store(r)) => l == r,
        (ValueView::Logger(l), ValueView::Logger(r)) => l == r,
        (ValueView::Query(l), ValueView::Query(r)) => l == r,
        _ => false,
    }
}

/// The items two sequences have in common, up to the shorter one's length,
/// are pairwise the same.
pub open spec fn same_prefix(left: Seq<ValueView>, right: Seq<ValueView>, by_bits: bool) -> bool
    decreases left, 0int,
{
    forall|i: int| 0 <= i < left.len() && i < right.len() ==> same(#[trigger] left[i], right[i], by_bits)
}

/// Every entry of `left` is matched by an entry of `right` with the same key
/// and the same value. A table never holds one key twice, so the matching
/// entry is the one found under that key.
pub open spec fn tables_match(left: Seq<EntryView>, right: Seq<EntryView>, by_bits: bool) -> bool
    decreases left, 0int,
{
    if left.len() == 0 {
        true
    } else {
        tables_match(left.drop_last(), right, by_bits) && entry_in(left.last(), right, by_bits)
    }
}

/// Some entry of `entries` has `entry`'s key and holds the same value.
pub open spec fn entry_in(entry: EntryView, entries: Seq<EntryView>, by_bits: bool) -> bool
    decreases entry, entries.len(),
{
    if entries.len() == 0 {
        false
    } else if same(entry.0, entries[0].0, true) && same(entry.1, entries[0].1, by_bits) {
        true
    } else {
        entry_in(entry, entries.drop_first(), by_bits)
    }
}

} // verus!

verus! {

// ---------------------------------------------------------------------------
// Copies
// ---------------------------------------------------------------------------

/// A copy of a value, equal to it in every part.
pub fn copy_value(value: &Value) -> (r: Value)
    ensures
        r@ == value@,
    decreases value,
{
    match value {
        Value::Nothing => Value::Nothing,
        Value::Int(n) => Value::Int(*n),
        Value::Float(f) => Value::Float(Float { bits: f.bits, shown: f.shown.clone() }),
        Value::Bool(b) => Value::Bool(*b),
        Value::Text(t) => Value::Text(t.clone()),
        Value::List(items) => Value::List(copy_values(items)),
        Value::Table(entries) => Value::Table(copy_entries(entries)),
        Value::Tuple(items) => Value::Tuple(copy_values(items)),
        Value::Maybe(None) => Value::Maybe(None),
        Value::Maybe(Some(held)) => Value::Maybe(Some(Box::new(copy_value(held)))),
        Value::Success(held) => Value::Success(Box::new(copy_value(held))),
        Value::Failure(held) => Value::Failure(Box::new(copy_value(held))),
        Value::Record(record) => {
            let cells = match &record.cells {
                None => None,
                Some(cells) => Some(copy_cells(cells)),
            };
            Value::Record(Box::new(Record { layout: record.layout, fields: copy_values(&record.fields), cells }))
        },
        Value::Variant(variant) => Value::Variant(
            Box::new(Variant { layout: variant.layout, fields: copy_values(&variant.fields) }),
        ),
        Value::Function(closure) => Value::Function(
            Box::new(
                Closure {
                    identity: closure.identity,
                    body: closure.body,
                    name: closure.name.clone(),
                    captures: copy_values(&closure.captures),
                },
            ),
        ),
        Value::Builtin(b) => Value::Builtin(*b),
        Value::Captured(c) => Value::Captured(*c),
        Value::Channel(c) => Value::Channel(*c),
        Value::Shared(c) => Value::Shared(*c),
        Value::Task(t) => Value::Task(*t),
        Value::Db(h) => Value::Db(*h),
        Value::Store(h) => Value::Store(*h),
        Value::Logger(h) => Value::Logger(*h),
        Value::Query(q) => Value::Query(Box::new(crate::query::copy_query(q))),
    }
}

/// A copy of a list of cell numbers.
pub fn copy_cells(cells: &Vec<usize>) -> (r: Vec<usize>)
    ensures
        r@ == cells@,
{
    let mut out: Vec<usize> = Vec::new();
    let mut i: usize = 0;
    while i < cells.len()
        invariant
            i <= cells.len(),
            out@ == cells@.subrange(0, i as int),
        decreases cells.len() - i,
    {
        out.push(cells[i]);
        i = i + 1;
        assert(out@ =~= cells@.subrange(0, i as int));
    }
    assert(cells@.subrange(0, cells.len() as int) =~= cells@);
    out
}

/// A copy of a sequence of values.
pub fn copy_values(items: &Vec<Value>) -> (r: Vec<Value>)
    ensures
        views(r@) == views(items@),
    decreases items,
{
    let mut out: Vec<Value> = Vec::new();
    let mut i: usize = 0;
    while i < items.len()
        invariant
            i <= items.len(),
            views(out@) == views(items@.subrange(0, i as int)),
        decreases items.len() - i,
    {
        let c = copy_value(&items[i]);
        proof {
            lemma_views_push(out@, c);
            lemma_views_push(items@.subrange(0, i as int), items@[i as int]);
            assert(items@.subrange(0, i as int).push(items@[i as int]) =~= items@.subrange(0, i + 1));
        }
        out.push(c);
        i = i + 1;
    }
    assert(items@.subrange(0, items.len() as int) =~= items@);
    out
}

/// A copy of a map's entries.
pub fn copy_entries(entries: &Vec<Entry>) -> (r: Vec<Entry>)
    ensures
        entry_views(r@) == entry_views(entries@),
    decreases entries,
{
    let mut out: Vec<Entry> = Vec::new();
    let mut i: usize = 0;
    while i < entries.len()
        invariant
            i <= entries.len(),
            entry_views(out@) == entry_views(entries@.subrange(0, i as int)),
        decreases entries.len() - i,
    {
        let key = copy_value(&entries[i].key);
        let value = copy_value(&entries[i].value);
        let entry = Entry { key, value };
        proof {
            lemma_entry_views_push(out@, entry);
            lemma_entry_views_push(entries@.subrange(0, i as int), entries@[i as int]);
            assert(entries@.subrange(0, i as int).push(entries@[i as int]) =~= entries@.subrange(0, i + 1));
        }
        out.push(entry);
        i = i + 1;
    }
    assert(entries@.subrange(0, entries.len() as int) =~= entries@);
    out
}

impl Clone for Value {
    fn clone(&self) -> (r: Self)
        ensures
            r@ == self@,
    {
        copy_value(self)
    }
}

} // verus!

verus! {

// ---------------------------------------------------------------------------
// Comparing
// ---------------------------------------------------------------------------

/// Whether two values are `==` (`by_bits` false) or the same map key
/// (`by_bits` true).
pub fn same_value(left: &Value, right: &Value, by_bits: bool) -> (r: bool)
    ensures
        r == same(left@, right@, by_bits),
    decreases left, 2nat,
{
    match (left, right) {
        (Value::Nothing, Value::Nothing) => { let res = true; assert(res == same(left@, right@, by_bits)); res },
        (Value::Int(l), Value::Int(r)) => { let res = *l == *r; assert(res == same(left@, right@, by_bits)); res },
        (Value::Float(l), Value::Float(r)) => { let res = if by_bits { l.bits == r.bits } else { float_equal_exec(l.bits, r.bits) }; assert(res == same(left@, right@, by_bits)); res },
        (Value::Bool(l), Value::Bool(r)) => { let res = *l == *r; assert(res == same(left@, right@, by_bits)); res },
        (Value::Text(l), Value::Text(r)) => { let res = crate::text::text_equal(l, r); assert(res == same(left@, right@, by_bits)); res },
        (Value::List(l), Value::List(r)) => {
            proof { lemma_views(l@); lemma_views(r@); }
            let res = l.len() == r.len() && same_prefix_exec(l, r, by_bits);
            assert(res == same(left@, right@, by_bits));
            res
        },
        (Value::Tuple(l), Value::Tuple(r)) => {
            proof { lemma_views(l@); lemma_views(r@); }
            let res = l.len() == r.len() && same_prefix_exec(l, r, by_bits);
            assert(res == same(left@, right@, by_bits));
            res
        },
        (Value::Table(l), Value::Table(r)) => {
            proof { lemma_entry_views(l@); lemma_entry_views(r@); }
            same_tables(l, r, by_bits)
        },
        (Value::Maybe(None), Value::Maybe(None)) => { let res = true; assert(res == same(left@, right@, by_bits)); res },
        (Value::Maybe(Some(l)), Value::Maybe(Some(r))) => { let res = same_value(l, r, by_bits); assert(res == same(left@, right@, by_bits)); res },
        (Value::Success(l), Value::Success(r)) => { let res = same_value(l, r, by_bits); assert(res == same(left@, right@, by_bits)); res },
        (Value::Failure(l), Value::Failure(r)) => { let res = same_value(l, r, by_bits); assert(res == same(left@, right@, by_bits)); res },
        (Value::Record(l), Value::Record(r)) => { let res = l.layout == r.layout && same_prefix_exec(&l.fields, &r.fields, by_bits); assert(res == same(left@, right@, by_bits)); res },
        (Value::Variant(l), Value::Variant(r)) => { let res = l.layout == r.layout && same_prefix_exec(&l.fields, &r.fields, by_bits); assert(res == same(left@, right@, by_bits)); res },
        (Value::Function(l), Value::Function(r)) => { let res = l.identity == r.identity; assert(res == same(left@, right@, by_bits)); res },
        (Value::Builtin(l), Value::Builtin(r)) => { let res = *l == *r; assert(res == same(left@, right@, by_bits)); res },
        (Value::Channel(l), Value::Channel(r)) => { let res = *l == *r; assert(res == same(left@, right@, by_bits)); res },
        (Value::Shared(l), Value::Shared(r)) => { let res = *l == *r; assert(res == same(left@, right@, by_bits)); res },
        (Value::Task(l), Value::Task(r)) => { let res = *l == *r; assert(res == same(left@, right@, by_bits)); res },
        (Value::Db(l), Value::Db(r)) => { let res = *l == *r; assert(res == same(left@, right@, by_bits)); res },
        (Value::Store(l), Value::Store(r)) => { let res = *l == *r; assert(res == same(left@, right@, by_bits)); res },
        (Value::Logger(l), Value::Logger(r)) => { let res = *l == *r; assert(res == same(left@, right@, by_bits)); res },
        (Value::Query(l), Value::Query(r)) => { let res = crate::query::query_equal(l, r); assert(res == same(left@, right@, by_bits)); res },
        _ => {
            proof {
                lemma_view_kind(*left);
                lemma_view_kind(*right);
            }
            false
        },
    }
}

fn same_prefix_exec(left: &Vec<Value>, right: &Vec<Value>, by_bits: bool) -> (r: bool)
    ensures
        r == same_prefix(views(left@), views(right@), by_bits),
    decreases left,
{
    proof { lemma_views(left@); lemma_views(right@); }
    let mut i: usize = 0;
    while i < left.len() && i < right.len()
        invariant
            views(left@).len() == left@.len(),
            views(right@).len() == right@.len(),
            forall|k: int| 0 <= k < left@.len() ==> #[trigger] views(left@)[k] == view_of(left@[k]),
            forall|k: int| 0 <= k < right@.len() ==> #[trigger] views(right@)[k] == view_of(right@[k]),
            forall|k: int| 0 <= k < i && k < left@.len() && k < right@.len()
                ==> same(#[trigger] views(left@)[k], views(right@)[k], by_bits),
        decreases left.len() - i,
    {
        if !same_value(&left[i], &right[i], by_bits) {
            assert(!same(views(left@)[i as int], views(right@)[i as int], by_bits));
            return false;
        }
        i = i + 1;
    }
    true
}

/// Whether two tables hold the same keys with the same values.
#[verifier::rlimit(40)]
fn same_tables(left: &Vec<Entry>, right: &Vec<Entry>, by_bits: bool) -> (r: bool)
    ensures
        r == (left@.len() == right@.len() && tables_match(entry_views(left@), entry_views(right@), by_bits)),
    decreases left, 1nat,
{
    proof { lemma_entry_views(left@); lemma_entry_views(right@); }
    if left.len() != right.len() {
        return false;
    }
    let ghost lv = entry_views(left@);
    let ghost rv = entry_views(right@);
    let mut i: usize = 0;
    while i < left.len()
        invariant
            i <= left.len(),
            lv == entry_views(left@),
            rv == entry_views(right@),
            lv.len() == left@.len(),
            forall|k: int| 0 <= k < left@.len() ==> #[trigger] lv[k] == entry_view(left@[k]),
            tables_match(lv.subrange(0, i as int), rv, by_bits),
        decreases left.len() - i,
    {
        let found = entry_in_exec(&left[i], right, by_bits);
        proof {
            let next = lv.subrange(0, i + 1);
            assert(next.drop_last() =~= lv.subrange(0, i as int));
            assert(next.last() == lv[i as int]);
        }
        if !found {
            proof { lemma_tables_match_prefix(lv, rv, by_bits, i as int); }
            return false;
        }
        i = i + 1;
    }
    assert(lv.subrange(0, i as int) =~= lv);
    true
}

/// A table that matches matches in every prefix too.
proof fn lemma_tables_match_prefix(l: Seq<EntryView>, r: Seq<EntryView>, by_bits: bool, i: int)
    requires
        0 <= i < l.len(),
        !entry_in(l[i], r, by_bits),
    ensures
        !tables_match(l, r, by_bits),
    decreases l.len(),
{
    if i == l.len() - 1 {
    } else {
        lemma_tables_match_prefix(l.drop_last(), r, by_bits, i);
    }
}

fn entry_in_exec(entry: &Entry, entries: &Vec<Entry>, by_bits: bool) -> (r: bool)
    ensures
        r == entry_in(entry_view(*entry), entry_views(entries@), by_bits),
    decreases entry, 0nat,
{
    proof { lemma_entry_views(entries@); }
    let ghost e = entry_view(*entry);
    let ghost es = entry_views(entries@);
    assert(es.subrange(0, es.len() as int) =~= es);
    let mut j: usize = 0;
    while j < entries.len()
        invariant
            j <= entries.len(),
            es == entry_views(entries@),
            e == entry_view(*entry),
            es.len() == entries@.len(),
            forall|k: int| 0 <= k < entries@.len() ==> #[trigger] es[k] == entry_view(entries@[k]),
            entry_in(e, es, by_bits) == entry_in(e, es.subrange(j as int, es.len() as int), by_bits),
        decreases entries.len() - j,
    {
        let ghost rest = es.subrange(j as int, es.len() as int);
        assert(rest[0] == es[j as int]);
        assert(rest.drop_first() =~= es.subrange(j + 1, es.len() as int));
        if same_value(&entry.key, &entries[j].key, true) && same_value(&entry.value, &entries[j].value, by_bits) {
            return true;
        }
        j = j + 1;
    }
    assert(es.subrange(j as int, es.len() as int).len() == 0);
    false
}

impl Value {
    /// Whether `==` holds between two values, `cells` holding what every
    /// `cast` keeps: two values of one declared type are equal when their
    /// fields are. Floats follow IEEE here, which is why a `NaN` is not equal
    /// to itself; map keys use [`same_key`].
    pub fn equals(&self, other: &Value, cells: &Vec<Value>) -> (r: bool)
        ensures
            r == equal_in(self@, other@, views(cells@), cells@.len() as nat),
    {
        equal_value(self, other, cells, cells.len())
    }
}

/// Whether two values are the same map key.
pub fn same_key(left: &Value, right: &Value) -> (r: bool)
    ensures
        r == same(left@, right@, true),
{
    same_value(left, right, true)
}

} // verus!

verus! {

// ---------------------------------------------------------------------------
// Tables: maps that keep the order their keys were first put in
// ---------------------------------------------------------------------------

/// Where a key sits in a table's entries, if it is there.
pub open spec fn key_index(entries: Seq<EntryView>, key: ValueView) -> Option<int>
    decreases entries.len(),
{
    if entries.len() == 0 {
        None
    } else {
        match key_index(entries.drop_last(), key) {
            Some(i) => Some(i),
            None => if same(entries.last().0, key, true) { Some(entries.len() - 1) } else { None },
        }
    }
}

/// A table with `key` set to `value`: a key already there keeps its place
/// (and its own form) and takes the new value; a new key goes at the end.
pub open spec fn table_insert(entries: Seq<EntryView>, key: ValueView, value: ValueView) -> Seq<EntryView> {
    match key_index(entries, key) {
        Some(i) => entries.update(i, (entries[i].0, value)),
        None => entries.push((key, value)),
    }
}

/// What a table lookup finds under a key.
pub open spec fn table_get(entries: Seq<EntryView>, key: ValueView) -> Option<ValueView> {
    match key_index(entries, key) {
        Some(i) => Some(entries[i].1),
        None => None,
    }
}

/// No key is in a table twice.
pub open spec fn keys_distinct(entries: Seq<EntryView>) -> bool {
    forall|i: int, j: int| 0 <= i < j < entries.len() ==> !same(#[trigger] entries[i].0, #[trigger] entries[j].0, true)
}

proof fn lemma_key_index(entries: Seq<EntryView>, key: ValueView)
    ensures
        match key_index(entries, key) {
            Some(i) => 0 <= i < entries.len() && same(entries[i].0, key, true)
                && forall|k: int| 0 <= k < i ==> !same(#[trigger] entries[k].0, key, true),
            None => forall|k: int| 0 <= k < entries.len() ==> !same(#[trigger] entries[k].0, key, true),
        },
    decreases entries.len(),
{
    if entries.len() > 0 {
        let p = entries.drop_last();
        lemma_key_index(p, key);
        assert forall|k: int| 0 <= k < p.len() implies #[trigger] entries[k] == p[k] by {}
        match key_index(p, key) {
            Some(i) => {
                assert forall|k: int| 0 <= k < i implies !same(#[trigger] entries[k].0, key, true) by {
                    assert(entries[k] == p[k]);
                }
            },
            None => {
                assert forall|k: int| 0 <= k < entries.len() - 1 implies !same(#[trigger] entries[k].0, key, true) by {
                    assert(entries[k] == p[k]);
                }
            },
        }
    }
}

/// Finds where a key sits in a table's entries.
pub fn find_key(entries: &Vec<Entry>, key: &Value) -> (r: Option<usize>)
    ensures
        match r {
            Some(i) => i < entries@.len() && key_index(entry_views(entries@), key@) == Some(i as int),
            None => key_index(entry_views(entries@), key@) is None,
        },
{
    let ghost es = entry_views(entries@);
    proof { lemma_entry_views(entries@); lemma_key_index(es, key@); }
    let mut i: usize = 0;
    while i < entries.len()
        invariant
            i <= entries@.len(),
            es == entry_views(entries@),
            es.len() == entries@.len(),
            forall|k: int| 0 <= k < entries@.len() ==> #[trigger] es[k] == entry_view(entries@[k]),
            forall|k: int| 0 <= k < i ==> !same(#[trigger] es[k].0, key@, true),
            match key_index(es, key@) {
                Some(j) => 0 <= j < es.len() && same(es[j].0, key@, true)
                    && forall|k: int| 0 <= k < j ==> !same(#[trigger] es[k].0, key@, true),
                None => forall|k: int| 0 <= k < es.len() ==> !same(#[trigger] es[k].0, key@, true),
            },
        decreases entries.len() - i,
    {
        if same_value(&entries[i].key, key, true) {
            proof {
                assert(es[i as int] == entry_view(entries@[i as int]));
                assert(same(es[i as int].0, key@, true));
                match key_index(es, key@) {
                    Some(j) => {
                        if j < i { assert(!same(es[j].0, key@, true)); }
                        if j > i { assert(!same(es[i as int].0, key@, true)); }
                    },
                    None => { assert(!same(es[i as int].0, key@, true)); },
                }
            }
            return Some(i);
        }
        proof { assert(es[i as int] == entry_view(entries@[i as int])); }
        i = i + 1;
    }
    proof {
        match key_index(es, key@) {
            Some(j) => { assert(!same(es[j].0, key@, true)); },
            None => {},
        }
    }
    None
}

/// Sets `key` to `value` in a table.
pub fn insert_entry(entries: &mut Vec<Entry>, key: Value, value: Value)
    ensures
        entry_views(final(entries)@) == table_insert(entry_views(old(entries)@), key@, value@),
{
    proof { lemma_entry_views(entries@); }
    match find_key(entries, &key) {
        Some(i) => {
            let kept = copy_value(&entries[i].key);
            let ghost before = entries@;
            let entry = Entry { key: kept, value };
            entries.set(i, entry);
            proof {
                lemma_entry_views(entries@);
                assert(entry_views(entries@) =~= entry_views(before).update(i as int, (entry_views(before)[i as int].0, value@)));
            }
        },
        None => {
            proof { lemma_entry_views_push(entries@, Entry { key, value }); }
            entries.push(Entry { key, value });
        },
    }
}

/// Looks a key up in a table.
pub fn get_entry<'a>(entries: &'a Vec<Entry>, key: &Value) -> (r: Option<&'a Value>)
    ensures
        match (r, table_get(entry_views(entries@), key@)) {
            (Some(v), Some(w)) => v@ == w,
            (None, None) => true,
            _ => false,
        },
{
    proof { lemma_entry_views(entries@); }
    match find_key(entries, key) {
        Some(i) => Some(&entries[i].value),
        None => None,
    }
}

/// The table built from keys and values pushed one pair after another: the
/// first `n` pairs, each set in turn.
pub open spec fn table_of(pairs: Seq<ValueView>, n: nat) -> Seq<EntryView>
    decreases n,
{
    if n == 0 || 2 * n > pairs.len() {
        Seq::empty()
    } else {
        table_insert(table_of(pairs, (n - 1) as nat), pairs[2 * n - 2], pairs[2 * n - 1])
    }
}

} // verus!

verus! {

impl Value {
    /// A piece of text as a value.
    pub fn text(text: &str) -> (r: Value)
        ensures
            r@ == ValueView::Text(text@),
    {
        Value::Text(String::from_str(text))
    }

    /// A list of values.
    pub fn list(items: Vec<Value>) -> (r: Value)
        ensures
            r@ == ValueView::List(views(items@)),
    {
        Value::List(items)
    }

    /// `found value`.
    pub fn found(value: Value) -> (r: Value)
        ensures
            r@ == ValueView::Maybe(Some(Box::new(value@))),
    {
        Value::Maybe(Some(Box::new(value)))
    }

    /// An absent maybe: `nothing`.
    pub fn absent() -> (r: Value)
        ensures
            r@ == ValueView::Maybe(None),
    {
        Value::Maybe(None)
    }

    /// `success value`.
    pub fn success(value: Value) -> (r: Value)
        ensures
            r@ == ValueView::Success(Box::new(value@)),
    {
        Value::Success(Box::new(value))
    }

    /// `failure value`.
    pub fn failure(value: Value) -> (r: Value)
        ensures
            r@ == ValueView::Failure(Box::new(value@)),
    {
        Value::Failure(Box::new(value))
    }

    /// Whether this is the value a statement that works nothing out leaves
    /// behind.
    pub fn is_nothing(&self) -> (r: bool)
        ensures
            r == (self@ is Nothing),
    {
        proof { lemma_view_kind(*self); }
        match self {
            Value::Nothing => true,
            _ => false,
        }
    }
}

} // verus!

verus! {

/// An entry is in a table when some entry there has the same key and the
/// same value.
proof fn lemma_entry_in_at(e: EntryView, entries: Seq<EntryView>, k: int, by_bits: bool)
    requires
        0 <= k < entries.len(),
        same(e.0, entries[k].0, true),
        same(e.1, entries[k].1, by_bits),
    ensures
        entry_in(e, entries, by_bits),
    decreases k,
{
    if k > 0 && !(same(e.0, entries[0].0, true) && same(e.1, entries[0].1, by_bits)) {
        lemma_entry_in_at(e, entries.drop_first(), k - 1, by_bits);
    }
}

/// A value with no captured cell anywhere inside it. A captured cell is a
/// local that a closure shares; it is never equal to anything, itself
/// included.
pub open spec fn holds_no_cell(v: ValueView) -> bool
    decreases v,
{
    match v {
        ValueView::Captured(_) => false,
        ValueView::List(items) => forall|i: int| 0 <= i < items.len() ==> holds_no_cell(#[trigger] items[i]),
        ValueView::Tuple(items) => forall|i: int| 0 <= i < items.len() ==> holds_no_cell(#[trigger] items[i]),
        ValueView::Record { fields, .. } => forall|i: int| 0 <= i < fields.len() ==> holds_no_cell(#[trigger] fields[i]),
        ValueView::Variant { fields, .. } => forall|i: int| 0 <= i < fields.len() ==> holds_no_cell(#[trigger] fields[i]),
        ValueView::Table(entries) => forall|i: int| 0 <= i < entries.len() ==>
            holds_no_cell((#[trigger] entries[i]).0) && holds_no_cell(entries[i].1),
        ValueView::Maybe(Some(held)) => holds_no_cell(*held),
        ValueView::Success(held) => holds_no_cell(*held),
        ValueView::Failure(held) => holds_no_cell(*held),
        _ => true,
    }
}

/// Every value with no captured cell in it is the same map key as itself: a
/// key, even a `NaN`, can always be found again.
pub proof fn lemma_key_finds_itself(v: ValueView)
    requires
        holds_no_cell(v),
    ensures
        same(v, v, true),
    decreases v,
{
    match v {
        ValueView::List(items) => {
            assert forall|i: int| 0 <= i < items.len() && i < items.len() implies same(#[trigger] items[i], items[i], true) by {
                lemma_key_finds_itself(items[i]);
            }
            assert(same_prefix(items, items, true));
        },
        ValueView::Tuple(items) => {
            assert forall|i: int| 0 <= i < items.len() && i < items.len() implies same(#[trigger] items[i], items[i], true) by {
                lemma_key_finds_itself(items[i]);
            }
            assert(same_prefix(items, items, true));
        },
        ValueView::Record { fields, .. } => {
            assert forall|i: int| 0 <= i < fields.len() && i < fields.len() implies same(#[trigger] fields[i], fields[i], true) by {
                lemma_key_finds_itself(fields[i]);
            }
            assert(same_prefix(fields, fields, true));
        },
        ValueView::Variant { fields, .. } => {
            assert forall|i: int| 0 <= i < fields.len() && i < fields.len() implies same(#[trigger] fields[i], fields[i], true) by {
                lemma_key_finds_itself(fields[i]);
            }
            assert(same_prefix(fields, fields, true));
        },
        ValueView::Maybe(Some(held)) => lemma_key_finds_itself(*held),
        ValueView::Success(held) => lemma_key_finds_itself(*held),
        ValueView::Failure(held) => lemma_key_finds_itself(*held),
        ValueView::Table(entries) => {
            lemma_tables_match_self(entries, entries.len() as int);
            assert(entries.take(entries.len() as int) =~= entries);
        },
        _ => {},
    }
}

proof fn lemma_tables_match_self(entries: Seq<EntryView>, n: int)
    requires
        0 <= n <= entries.len(),
        forall|i: int| 0 <= i < entries.len() ==> holds_no_cell((#[trigger] entries[i]).0) && holds_no_cell(entries[i].1),
    ensures
        tables_match(entries.take(n), entries, true),
    decreases entries, n,
{
    if n > 0 {
        lemma_tables_match_self(entries, n - 1);
        assert(entries.take(n).drop_last() =~= entries.take(n - 1));
        let e = entries[n - 1];
        lemma_key_finds_itself(e.0);
        lemma_key_finds_itself(e.1);
        lemma_entry_in_at(e, entries, n - 1, true);
    }
}

/// Where a key sits depends only on the keys of a table.
proof fn lemma_key_index_keys(a: Seq<EntryView>, b: Seq<EntryView>, key: ValueView)
    requires
        a.len() == b.len(),
        forall|k: int| 0 <= k < a.len() ==> (#[trigger] a[k]).0 == b[k].0,
    ensures
        key_index(a, key) == key_index(b, key),
    decreases a.len(),
{
    if a.len() > 0 {
        assert forall|k: int| 0 <= k < a.len() - 1 implies (#[trigger] a.drop_last()[k]).0 == b.drop_last()[k].0 by {
            assert(a.drop_last()[k] == a[k]);
            assert(b.drop_last()[k] == b[k]);
        }
        lemma_key_index_keys(a.drop_last(), b.drop_last(), key);
    }
}

/// What a map gives back for a key is what was last set under it (for any
/// key with no captured cell in it).
pub proof fn lemma_get_after_insert(entries: Seq<EntryView>, key: ValueView, value: ValueView)
    requires
        holds_no_cell(key),
    ensures
        table_get(table_insert(entries, key, value), key) == Some(value),
{
    lemma_key_index(entries, key);
    match key_index(entries, key) {
        Some(i) => {
            let updated = entries.update(i, (entries[i].0, value));
            lemma_key_index_keys(updated, entries, key);
        },
        None => {
            let pushed = entries.push((key, value));
            assert(pushed.drop_last() =~= entries);
            lemma_key_finds_itself(key);
        },
    }
}

/// Setting a key leaves every other key's value where it was: the value
/// under any key that the table tells apart from the one set (neither the
/// key itself nor a key held in the table that it finds) is unchanged.
pub proof fn lemma_insert_leaves_other_keys(entries: Seq<EntryView>, key: ValueView, value: ValueView, other: ValueView)
    requires
        !same(key, other, true),
        forall|k: int| 0 <= k < entries.len() && same(#[trigger] entries[k].0, key, true) ==> !same(entries[k].0, other, true),
    ensures
        table_get(table_insert(entries, key, value), other) == table_get(entries, other),
{
    lemma_key_index(entries, key);
    lemma_key_index(entries, other);
    match key_index(entries, key) {
        Some(i) => {
            let updated = entries.update(i, (entries[i].0, value));
            assert forall|k: int| 0 <= k < updated.len() implies (#[trigger] updated[k]).0 == entries[k].0 by {}
            lemma_key_index_keys(updated, entries, other);
        },
        None => {
            let pushed = entries.push((key, value));
            assert(pushed.drop_last() =~= entries);
        },
    }
}

/// Setting a key keeps a map's keys apart: no key is in it twice.
pub proof fn lemma_insert_keeps_keys_distinct(entries: Seq<EntryView>, key: ValueView, value: ValueView)
    requires
        keys_distinct(entries),
    ensures
        keys_distinct(table_insert(entries, key, value)),
{
    lemma_key_index(entries, key);
    match key_index(entries, key) {
        Some(i) => {
            let updated = entries.update(i, (entries[i].0, value));
            assert forall|a: int, b: int| 0 <= a < b < updated.len() implies !same(#[trigger] updated[a].0, #[trigger] updated[b].0, true) by {
                assert(updated[a].0 == entries[a].0);
                assert(updated[b].0 == entries[b].0);
            }
        },
        None => {
            let pushed = entries.push((key, value));
            assert forall|a: int, b: int| 0 <= a < b < pushed.len() implies !same(#[trigger] pushed[a].0, #[trigger] pushed[b].0, true) by {
                if b < entries.len() {
                    assert(pushed[a] == entries[a]);
                    assert(pushed[b] == entries[b]);
                } else {
                    assert(pushed[a] == entries[a]);
                    assert(!same(entries[a].0, key, true));
                }
            }
        },
    }
}

/// Setting a key that is already there keeps every key where it was: a map
/// keeps the order its keys were first put in.
pub proof fn lemma_insert_keeps_order(entries: Seq<EntryView>, key: ValueView, value: ValueView)
    ensures
        table_insert(entries, key, value).len() == entries.len() + (if key_index(entries, key) is Some { 0int } else { 1int }),
        forall|k: int| 0 <= k < entries.len() ==> (#[trigger] table_insert(entries, key, value)[k]).0 == entries[k].0,
{
    lemma_key_index(entries, key);
}

} // verus!

verus! {

impl Record {
    /// Changes a field of a `cast` in place, in the cells that hold its
    /// fields: `false` when this is a `type`, whose fields never change, or
    /// the field is not there.
    pub fn set_field(&self, index: usize, value: Value, cells: &mut Vec<Value>) -> (r: bool)
        ensures
            r == (self.cells matches Some(ids) && index < ids@.len() && ids@[index as int] < old(cells)@.len()),
            r ==> final(cells)@ == old(cells)@.update(self.cells->0@[index as int] as int, value),
            !r ==> final(cells)@ == old(cells)@,
    {
        match &self.cells {
            Some(ids) => {
                if index < ids.len() && ids[index] < cells.len() {
                    cells.set(ids[index], value);
                    true
                } else {
                    false
                }
            },
            None => false,
        }
    }
}

} // verus!

verus! {

// ---------------------------------------------------------------------------
// `==` on values whose casts keep their fields in cells
// ---------------------------------------------------------------------------

/// What the fields of a record are: its own fields for a `type`, what its
/// cells hold for a `cast` (`nothing` for a cell that is not there).
pub open spec fn record_parts(fields: Seq<ValueView>, ids: Option<Seq<usize>>, cells: Seq<ValueView>) -> Seq<ValueView> {
    match ids {
        None => fields,
        Some(ids) => Seq::new(ids.len(), |i: int| if (ids[i] as int) < cells.len() { cells[ids[i] as int] } else { ValueView::Nothing }),
    }
}

/// Whether `==` holds between two values, with `cells` holding what every
/// `cast` keeps: two records are equal when they are of one type and their
/// fields are, the fields of a cast being what its cells hold. Following a
/// cast's cells uses up one unit of `fuel`; with none left, two casts are
/// equal only when they are kept in the same cells (a cast that holds
/// itself could otherwise be followed for ever).
pub open spec fn equal_in(l: ValueView, r: ValueView, cells: Seq<ValueView>, fuel: nat) -> bool
    decreases fuel, l, 0int,
{
    match (l, r) {
        (ValueView::List(a), ValueView::List(b)) => a.len() == b.len() && equal_prefix_in(a, b, cells, fuel),
        (ValueView::Tuple(a), ValueView::Tuple(b)) => a.len() == b.len() && equal_prefix_in(a, b, cells, fuel),
        (ValueView::Table(a), ValueView::Table(b)) => a.len() == b.len() && tables_equal_in(a, b, cells, fuel),
        (ValueView::Maybe(Some(a)), ValueView::Maybe(Some(b))) => equal_in(*a, *b, cells, fuel),
        (ValueView::Success(a), ValueView::Success(b)) => equal_in(*a, *b, cells, fuel),
        (ValueView::Failure(a), ValueView::Failure(b)) => equal_in(*a, *b, cells, fuel),
        (ValueView::Record { layout: la, fields: fa, cells: ca }, ValueView::Record { layout: lb, fields: fb, cells: cb }) =>
            la == lb && if ca is None && cb is None {
                equal_prefix_in(fa, fb, cells, fuel)
            } else if fuel == 0 {
                ca == cb
            } else {
                equal_prefix_in(record_parts(fa, ca, cells), record_parts(fb, cb, cells), cells, (fuel - 1) as nat)
            },
        (ValueView::Variant { layout: la, fields: fa }, ValueView::Variant { layout: lb, fields: fb }) =>
            la == lb && equal_prefix_in(fa, fb, cells, fuel),
        _ => same(l, r, false),
    }
}

/// The items two sequences have in common are pairwise equal.
pub open spec fn equal_prefix_in(left: Seq<ValueView>, right: Seq<ValueView>, cells: Seq<ValueView>, fuel: nat) -> bool
    decreases fuel, left, 0int,
{
    forall|i: int| 0 <= i < left.len() && i < right.len() ==> equal_in(#[trigger] left[i], right[i], cells, fuel)
}

/// Every entry of `left` is matched by an entry of `right` under the same
/// key with an equal value.
pub open spec fn tables_equal_in(left: Seq<EntryView>, right: Seq<EntryView>, cells: Seq<ValueView>, fuel: nat) -> bool
    decreases fuel, left, 0int,
{
    if left.len() == 0 {
        true
    } else {
        tables_equal_in(left.drop_last(), right, cells, fuel) && entry_equal_in(left.last(), right, cells, fuel)
    }
}

/// Some entry of `entries` has `entry`'s key and an equal value.
pub open spec fn entry_equal_in(entry: EntryView, entries: Seq<EntryView>, cells: Seq<ValueView>, fuel: nat) -> bool
    decreases fuel, entry, entries.len(),
{
    if entries.len() == 0 {
        false
    } else if same(entry.0, entries[0].0, true) && equal_in(entry.1, entries[0].1, cells, fuel) {
        true
    } else {
        entry_equal_in(entry, entries.drop_first(), cells, fuel)
    }
}

/// The fields of a record as values, read from the cells for a `cast`.
fn record_parts_exec(record: &Record, cells: &Vec<Value>) -> (r: Vec<Value>)
    ensures
        views(r@) == record_parts(views(record.fields@), cell_ids(*record), views(cells@)),
{
    proof { lemma_views(cells@); lemma_views(record.fields@); }
    match &record.cells {
        None => copy_values(&record.fields),
        Some(ids) => {
            let mut out: Vec<Value> = Vec::new();
            let mut i: usize = 0;
            while i < ids.len()
                invariant
                    i <= ids@.len(),
                    views(cells@).len() == cells@.len(),
                    forall|k: int| 0 <= k < cells@.len() ==> #[trigger] views(cells@)[k] == view_of(cells@[k]),
                    views(out@).len() == i,
                    forall|k: int| 0 <= k < i ==> #[trigger] views(out@)[k] == (if (ids@[k] as int) < cells@.len() {
                        views(cells@)[ids@[k] as int] } else { ValueView::Nothing }),
                decreases ids.len() - i,
            {
                let v = if ids[i] < cells.len() { copy_value(&cells[ids[i]]) } else { Value::Nothing };
                proof { lemma_views_push(out@, v); lemma_views(out@); }
                out.push(v);
                proof { lemma_views(out@); }
                i = i + 1;
            }
            proof {
                assert(views(out@) =~= record_parts(views(record.fields@), cell_ids(*record), views(cells@)));
            }
            out
        },
    }
}

/// Whether two records are kept in the same cells.
fn same_cells(left: &Option<Vec<usize>>, right: &Option<Vec<usize>>) -> (r: bool)
    ensures
        r == (match left { Some(c) => Some(c@), None => None::<Seq<usize>> } == match right { Some(c) => Some(c@), None => None::<Seq<usize>> }),
{
    match (left, right) {
        (None, None) => true,
        (Some(a), Some(b)) => {
            if a.len() != b.len() {
                return false;
            }
            let mut i: usize = 0;
            while i < a.len()
                invariant
                    i <= a@.len(),
                    a@.len() == b@.len(),
                    *left == Some(*a),
                    *right == Some(*b),
                    forall|k: int| 0 <= k < i ==> a@[k] == b@[k],
                decreases a.len() - i,
            {
                if a[i] != b[i] {
                    assert(a@[i as int] != b@[i as int]);
                    assert(a@ != b@);
                    assert(Some(a@) != Some(b@));
                    return false;
                }
                i = i + 1;
            }
            assert(a@ =~= b@);
            true
        },
        _ => false,
    }
}

/// `equal_in`, computed.
pub fn equal_value(left: &Value, right: &Value, cells: &Vec<Value>, fuel: usize) -> (r: bool)
    ensures
        r == equal_in(left@, right@, views(cells@), fuel as nat),
    decreases fuel, left, 2nat,
{
    let ghost cv = views(cells@);
    match (left, right) {
        (Value::List(l), Value::List(r)) => {
            proof { lemma_views(l@); lemma_views(r@); }
            let res = l.len() == r.len() && equal_prefix_exec(l, r, cells, fuel);
            assert(res == equal_in(left@, right@, cv, fuel as nat));
            res
        },
        (Value::Tuple(l), Value::Tuple(r)) => {
            proof { lemma_views(l@); lemma_views(r@); }
            let res = l.len() == r.len() && equal_prefix_exec(l, r, cells, fuel);
            assert(res == equal_in(left@, right@, cv, fuel as nat));
            res
        },
        (Value::Table(l), Value::Table(r)) => {
            proof { lemma_entry_views(l@); lemma_entry_views(r@); }
            equal_tables(l, r, cells, fuel)
        },
        (Value::Maybe(Some(l)), Value::Maybe(Some(r))) => { let res = equal_value(l, r, cells, fuel); assert(res == equal_in(left@, right@, cv, fuel as nat)); res },
        (Value::Success(l), Value::Success(r)) => { let res = equal_value(l, r, cells, fuel); assert(res == equal_in(left@, right@, cv, fuel as nat)); res },
        (Value::Failure(l), Value::Failure(r)) => { let res = equal_value(l, r, cells, fuel); assert(res == equal_in(left@, right@, cv, fuel as nat)); res },
        (Value::Record(l), Value::Record(r)) => {
            if l.layout != r.layout {
                return false;
            }
            let res = if l.cells.is_none() && r.cells.is_none() {
                equal_prefix_exec(&l.fields, &r.fields, cells, fuel)
            } else if fuel == 0 {
                same_cells(&l.cells, &r.cells)
            } else {
                let lp = record_parts_exec(l, cells);
                let rp = record_parts_exec(r, cells);
                equal_prefix_exec(&lp, &rp, cells, fuel - 1)
            };
            assert(res == equal_in(left@, right@, cv, fuel as nat));
            res
        },
        (Value::Variant(l), Value::Variant(r)) => {
            let res = l.layout == r.layout && equal_prefix_exec(&l.fields, &r.fields, cells, fuel);
            assert(res == equal_in(left@, right@, cv, fuel as nat));
            res
        },
        _ => {
            proof { lemma_view_kind(*left); lemma_view_kind(*right); }
            let res = same_value(left, right, false);
            assert(res == equal_in(left@, right@, cv, fuel as nat));
            res
        },
    }
}

fn equal_prefix_exec(left: &Vec<Value>, right: &Vec<Value>, cells: &Vec<Value>, fuel: usize) -> (r: bool)
    ensures
        r == equal_prefix_in(views(left@), views(right@), views(cells@), fuel as nat),
    decreases fuel, left, 1nat,
{
    proof { lemma_views(left@); lemma_views(right@); }
    let mut i: usize = 0;
    while i < left.len() && i < right.len()
        invariant
            views(left@).len() == left@.len(),
            views(right@).len() == right@.len(),
            forall|k: int| 0 <= k < left@.len() ==> #[trigger] views(left@)[k] == view_of(left@[k]),
            forall|k: int| 0 <= k < right@.len() ==> #[trigger] views(right@)[k] == view_of(right@[k]),
            forall|k: int| 0 <= k < i && k < left@.len() && k < right@.len()
                ==> equal_in(#[trigger] views(left@)[k], views(right@)[k], views(cells@), fuel as nat),
        decreases left.len() - i,
    {
        if !equal_value(&left[i], &right[i], cells, fuel) {
            assert(!equal_in(views(left@)[i as int], views(right@)[i as int], views(cells@), fuel as nat));
            return false;
        }
        i = i + 1;
    }
    true
}

#[verifier::rlimit(40)]
fn equal_tables(left: &Vec<Entry>, right: &Vec<Entry>, cells: &Vec<Value>, fuel: usize) -> (r: bool)
    ensures
        r == (left@.len() == right@.len() && tables_equal_in(entry_views(left@), entry_views(right@), views(cells@), fuel as nat)),
    decreases fuel, left, 1nat,
{
    proof { lemma_entry_views(left@); lemma_entry_views(right@); }
    if left.len() != right.len() {
        return false;
    }
    let ghost lv = entry_views(left@);
    let ghost rv = entry_views(right@);
    let ghost cv = views(cells@);
    let mut i: usize = 0;
    while i < left.len()
        invariant
            i <= left.len(),
            lv == entry_views(left@),
            rv == entry_views(right@),
            cv == views(cells@),
            lv.len() == left@.len(),
            forall|k: int| 0 <= k < left@.len() ==> #[trigger] lv[k] == entry_view(left@[k]),
            tables_equal_in(lv.subrange(0, i as int), rv, cv, fuel as nat),
        decreases left.len() - i,
    {
        let found = entry_equal_exec(&left[i], right, cells, fuel);
        proof {
            let next = lv.subrange(0, i + 1);
            assert(next.drop_last() =~= lv.subrange(0, i as int));
            assert(next.last() == lv[i as int]);
        }
        if !found {
            proof { lemma_tables_equal_prefix(lv, rv, cv, fuel as nat, i as int); }
            return false;
        }
        i = i + 1;
    }
    assert(lv.subrange(0, i as int) =~= lv);
    true
}

proof fn lemma_tables_equal_prefix(l: Seq<EntryView>, r: Seq<EntryView>, cells: Seq<ValueView>, fuel: nat, i: int)
    requires
        0 <= i < l.len(),
        !entry_equal_in(l[i], r, cells, fuel),
    ensures
        !tables_equal_in(l, r, cells, fuel),
    decreases l.len(),
{
    if i < l.len() - 1 {
        lemma_tables_equal_prefix(l.drop_last(), r, cells, fuel, i);
    }
}

fn entry_equal_exec(entry: &Entry, entries: &Vec<Entry>, cells: &Vec<Value>, fuel: usize) -> (r: bool)
    ensures
        r == entry_equal_in(entry_view(*entry), entry_views(entries@), views(cells@), fuel as nat),
    decreases fuel, entry, 0nat,
{
    proof { lemma_entry_views(entries@); }
    let ghost e = entry_view(*entry);
    let ghost es = entry_views(entries@);
    let ghost cv = views(cells@);
    assert(es.subrange(0, es.len() as int) =~= es);
    let mut j: usize = 0;
    while j < entries.len()
        invariant
            j <= entries.len(),
            es == entry_views(entries@),
            e == entry_view(*entry),
            cv == views(cells@),
            es.len() == entries@.len(),
            forall|k: int| 0 <= k < entries@.len() ==> #[trigger] es[k] == entry_view(entries@[k]),
            entry_equal_in(e, es, cv, fuel as nat) == entry_equal_in(e, es.subrange(j as int, es.len() as int), cv, fuel as nat),
        decreases entries.len() - j,
    {
        let ghost rest = es.subrange(j as int, es.len() as int);
        assert(rest[0] == es[j as int]);
        assert(rest.drop_first() =~= es.subrange(j + 1, es.len() as int));
        if same_value(&entry.key, &entries[j].key, true) && equal_value(&entry.value, &entries[j].value, cells, fuel) {
            return true;
        }
        j = j + 1;
    }
    assert(es.subrange(j as int, es.len() as int).len() == 0);
    false
}

} // verus!
