//! The standard library functions with a native implementation.

use vstd::prelude::*;
use crate::bytecode::Program;
use crate::error::{Fault, Operation};
use crate::show::{shown, show};
use crate::text::{push_text, chars_of, from_chars};
use crate::value::{
    Value, ValueView, EntryView, Entry, Float, views, view_of, lemma_views, lemma_views_push, lemma_view_kind,
    entry_views, entry_view, lemma_entry_views, copy_value, table_get, table_of, get_entry, insert_entry,
};

verus! {

/// One function or method with a native implementation.
#[derive(Clone, Copy, Debug, PartialEq, Eq, Structural)]
pub enum Builtin {
    Print,
    Upper,
    Lower,
    Contains,
    Join,
    First,
    Get,
    Keys,
    Abs,
    Min,
    Max,
    ToFloat,
    Round,
}

} // verus!

verus! {

/// The name Vaab calls a builtin by.
pub open spec fn spec_name(b: Builtin) -> Seq<char> {
    match b {
        Builtin::Print => "print"@,
        Builtin::Upper => "upper"@,
        Builtin::Lower => "lower"@,
        Builtin::Contains => "contains"@,
        Builtin::Join => "join"@,
        Builtin::First => "first"@,
        Builtin::Get => "get"@,
        Builtin::Keys => "keys"@,
        Builtin::Abs => "abs"@,
        Builtin::Min => "min"@,
        Builtin::Max => "max"@,
        Builtin::ToFloat => "to_float"@,
        Builtin::Round => "round"@,
    }
}

/// How many values a builtin takes off the stack, counting a method's receiver.
pub open spec fn spec_arity(b: Builtin) -> usize {
    match b {
        Builtin::Contains | Builtin::Join | Builtin::Get | Builtin::Min | Builtin::Max => 2,
        _ => 1,
    }
}

impl Builtin {
    /// The name Vaab calls it by, which is also the name in the checker's prelude.
    pub fn name(self) -> (r: &'static str)
        ensures
            r@ == spec_name(self),
    {
        match self {
            Builtin::Print => "print",
            Builtin::Upper => "upper",
            Builtin::Lower => "lower",
            Builtin::Contains => "contains",
            Builtin::Join => "join",
            Builtin::First => "first",
            Builtin::Get => "get",
            Builtin::Keys => "keys",
            Builtin::Abs => "abs",
            Builtin::Min => "min",
            Builtin::Max => "max",
            Builtin::ToFloat => "to_float",
            Builtin::Round => "round",
        }
    }

    /// How many values it takes off the stack, counting the receiver of a method.
    pub fn arity(self) -> (r: usize)
        ensures
            r == spec_arity(self),
    {
        match self {
            Builtin::Print
            | Builtin::Upper
            | Builtin::Lower
            | Builtin::First
            | Builtin::Keys
            | Builtin::Abs
            | Builtin::ToFloat
            | Builtin::Round => 1,
            Builtin::Contains | Builtin::Join | Builtin::Get | Builtin::Min | Builtin::Max => 2,
        }
    }
}

} // verus!

verus! {

// ---------------------------------------------------------------------------
// Running a builtin
// ---------------------------------------------------------------------------

/// What `upper` makes of a piece of text (`str::to_uppercase`).
pub uninterp spec fn upper_of(text: Seq<char>) -> Seq<char>;

/// What `lower` makes of a piece of text (`str::to_lowercase`).
pub uninterp spec fn lower_of(text: Seq<char>) -> Seq<char>;

/// `str::to_uppercase`: the text with every character in upper case, named
/// rather than spelled out because Unicode's case tables decide it.
#[verifier::external_body]
fn upper_text(text: &str) -> (r: String)
    ensures
        r@ == upper_of(text@),
{
    text.to_uppercase()
}

/// `str::to_lowercase`: the text with every character in lower case.
#[verifier::external_body]
fn lower_text(text: &str) -> (r: String)
    ensures
        r@ == lower_of(text@),
{
    text.to_lowercase()
}

/// Whether `part` occurs somewhere in `text`, character for character.
pub open spec fn holds_piece(text: Seq<char>, part: Seq<char>) -> bool {
    exists|i: int| 0 <= i && i + part.len() <= text.len() && #[trigger] text.subrange(i, i + part.len()) == part
}

/// Whether `part` stands in `t` from position `at` on, character for
/// character.
fn piece_at(t: &Vec<char>, part: &Vec<char>, at: usize) -> (r: bool)
    requires
        at + part@.len() <= t@.len(),
    ensures
        r == (t@.subrange(at as int, at + part@.len()) == part@),
{
    let mut k: usize = 0;
    while k < part.len()
        invariant
            k <= part@.len(),
            at + part@.len() <= t.len(),
            forall|j: int| 0 <= j < k ==> t@[at + j] == part@[j],
        decreases part.len() - k,
    {
        if t[at + k] != part[k] {
            proof { assert(t@.subrange(at as int, at + part@.len())[k as int] != part@[k as int]); }
            return false;
        }
        k = k + 1;
    }
    proof { assert(t@.subrange(at as int, at + part@.len()) =~= part@); }
    true
}

/// Whether `part` occurs in `text`, as `str::contains` has it with a text
/// pattern: the empty pattern occurs in every text.
fn text_holds(text: &str, part: &str) -> (r: bool)
    ensures
        r == holds_piece(text@, part@),
{
    let t = chars_of(text);
    let p = chars_of(part);
    if p.len() > t.len() {
        return false;
    }
    let last = t.len() - p.len();
    let mut i: usize = 0;
    loop
        invariant
            t@ == text@,
            p@ == part@,
            last == t@.len() - p@.len(),
            i <= last,
            forall|k: int| 0 <= k < i ==> #[trigger] t@.subrange(k, k + p@.len()) != p@,
        decreases last - i,
    {
        if piece_at(&t, &p, i) {
            return true;
        }
        if i == last {
            return false;
        }
        i = i + 1;
    }
}

/// What a builtin comes to when the machine alone cannot finish it.
pub enum Applied {
    /// The builtin's answer.
    Done(Value),
    /// `to_float` of this whole number: only the float unit can make it.
    ToFloat(i64),
    /// `round` of the float with these bits.
    Round(u64),
}

/// What a builtin comes to, as the library reasons about it.
pub enum AppliedView {
    Done(ValueView),
    ToFloat(i64),
    Round(u64),
}

impl View for Applied {
    type V = AppliedView;

    open spec fn view(&self) -> AppliedView {
        match self {
            Applied::Done(v) => AppliedView::Done(v@),
            Applied::ToFloat(n) => AppliedView::ToFloat(*n),
            Applied::Round(bits) => AppliedView::Round(*bits),
        }
    }
}

/// The texts of a list of values, one after another with a separator
/// between each two.
pub open spec fn joined_texts(items: Seq<ValueView>, separator: Seq<char>, program: Program, cells: Seq<ValueView>, fuel: nat) -> Seq<char>
    decreases items.len(),
{
    if items.len() == 0 {
        Seq::empty()
    } else if items.len() == 1 {
        shown(items[0], program, cells, fuel)
    } else {
        joined_texts(items.drop_last(), separator, program, cells, fuel) + separator + shown(items.last(), program, cells, fuel)
    }
}

/// The float with its sign dropped: the sign bit cleared, and the minus the
/// float's text starts with taken off.
pub open spec fn float_size(bits: u64, shown: Seq<char>) -> ValueView {
    ValueView::Float(
        bits & 0x7fff_ffff_ffff_ffffu64,
        if shown.len() > 0 && shown[0] == '-' { shown.drop_first() } else { shown },
    )
}

/// What a builtin gives for its arguments. `print` is not here: it is the
/// one builtin that needs somewhere to write to, so the machine handles it.
pub open spec fn spec_apply(b: Builtin, args: Seq<ValueView>, program: Program, cells: Seq<ValueView>) -> Result<AppliedView, Fault> {
    let wrong = Err(Fault::Confused("a builtin was given a value of the wrong shape"));
    let fuel = cells.len();
    if args.len() == 1 {
        match (b, args[0]) {
            (Builtin::Upper, ValueView::Text(t)) => Ok(AppliedView::Done(ValueView::Text(upper_of(t)))),
            (Builtin::Lower, ValueView::Text(t)) => Ok(AppliedView::Done(ValueView::Text(lower_of(t)))),
            (Builtin::First, ValueView::List(items)) => Ok(AppliedView::Done(
                if items.len() == 0 { ValueView::Maybe(None) } else { ValueView::Maybe(Some(Box::new(items[0]))) })),
            (Builtin::Keys, ValueView::Table(entries)) => Ok(AppliedView::Done(
                ValueView::List(entries.map_values(|e: EntryView| e.0)))),
            (Builtin::Abs, ValueView::Int(n)) => if n == i64::MIN {
                Err(Fault::Overflowed(Operation::Size))
            } else {
                Ok(AppliedView::Done(ValueView::Int((if n < 0 { -n } else { n as int }) as i64)))
            },
            (Builtin::Abs, ValueView::Float(bits, shown)) => Ok(AppliedView::Done(float_size(bits, shown))),
            (Builtin::ToFloat, ValueView::Int(n)) => Ok(AppliedView::ToFloat(n)),
            (Builtin::Round, ValueView::Float(bits, _)) => Ok(AppliedView::Round(bits)),
            _ => wrong,
        }
    } else if args.len() == 2 {
        match (b, args[0], args[1]) {
            (Builtin::Contains, ValueView::Text(t), ValueView::Text(p)) => Ok(AppliedView::Done(ValueView::Bool(holds_piece(t, p)))),
            (Builtin::Join, ValueView::List(items), ValueView::Text(sep)) =>
                Ok(AppliedView::Done(ValueView::Text(joined_texts(items, sep, program, cells, fuel)))),
            (Builtin::Get, ValueView::Table(entries), key) => Ok(AppliedView::Done(match table_get(entries, key) {
                Some(v) => ValueView::Maybe(Some(Box::new(v))),
                None => ValueView::Maybe(None),
            })),
            (Builtin::Min, ValueView::Int(l), ValueView::Int(r)) => Ok(AppliedView::Done(ValueView::Int(if l <= r { l } else { r }))),
            (Builtin::Max, ValueView::Int(l), ValueView::Int(r)) => Ok(AppliedView::Done(ValueView::Int(if l >= r { l } else { r }))),
            _ => wrong,
        }
    } else {
        wrong
    }
}

fn join_shown(items: &Vec<Value>, separator: &str, program: &Program, cells: &Vec<Value>) -> (r: String)
    ensures
        r@ == joined_texts(views(items@), separator@, *program, views(cells@), cells@.len() as nat),
{
    proof { lemma_views(items@); lemma_views(cells@); }
    let ghost vs = views(items@);
    let ghost cs = views(cells@);
    let fuel = cells.len();
    let mut out = String::new();
    let mut i: usize = 0;
    while i < items.len()
        invariant
            i <= items@.len(),
            vs == views(items@),
            vs.len() == items@.len(),
            cs == views(cells@),
            fuel == cells@.len(),
            forall|k: int| 0 <= k < items@.len() ==> #[trigger] vs[k] == view_of(items@[k]),
            out@ == joined_texts(vs.subrange(0, i as int), separator@, *program, cs, fuel as nat),
        decreases items.len() - i,
    {
        let piece = show(&items[i], program, cells, fuel);
        if i > 0 {
            push_text(&mut out, separator);
        }
        push_text(&mut out, piece.as_str());
        proof {
            let next = vs.subrange(0, i + 1);
            assert(next.drop_last() =~= vs.subrange(0, i as int));
            assert(next.last() == vs[i as int]);
            if i == 0 {
                assert(next.len() == 1);
                assert(out@ =~= shown(next[0], *program, cs, fuel as nat));
            }
        }
        i = i + 1;
    }
    assert(vs.subrange(0, items@.len() as int) =~= vs);
    out
}

fn keys_of(entries: &Vec<Entry>) -> (r: Vec<Value>)
    ensures
        views(r@) == entry_views(entries@).map_values(|e: EntryView| e.0),
{
    proof { lemma_entry_views(entries@); }
    let ghost es = entry_views(entries@);
    let mut out: Vec<Value> = Vec::new();
    let mut i: usize = 0;
    while i < entries.len()
        invariant
            i <= entries@.len(),
            es == entry_views(entries@),
            es.len() == entries@.len(),
            forall|k: int| 0 <= k < entries@.len() ==> #[trigger] es[k] == entry_view(entries@[k]),
            views(out@) =~= es.subrange(0, i as int).map_values(|e: EntryView| e.0),
        decreases entries.len() - i,
    {
        let key = copy_value(&entries[i].key);
        proof {
            lemma_views_push(out@, key);
            assert(es.subrange(0, i + 1).map_values(|e: EntryView| e.0)
                =~= es.subrange(0, i as int).map_values(|e: EntryView| e.0).push(es[i as int].0));
        }
        out.push(key);
        i = i + 1;
    }
    assert(es.subrange(0, entries@.len() as int) =~= es);
    out
}

impl Builtin {
    /// Runs a builtin on its arguments.
    pub fn apply(self, arguments: &Vec<Value>, program: &Program, cells: &Vec<Value>) -> (r: Result<Applied, Fault>)
        ensures
            match (r, spec_apply(self, views(arguments@), *program, views(cells@))) {
                (Ok(a), Ok(b)) => a@ == b,
                (Err(f), Err(g)) => f == g,
                _ => false,
            },
    {
        proof { lemma_views(arguments@); lemma_views(cells@); }
        let wrong = Err(Fault::Confused("a builtin was given a value of the wrong shape"));
        if arguments.len() == 1 {
            let a = &arguments[0];
            match (self, a) {
                (Builtin::Upper, Value::Text(t)) => Ok(Applied::Done(Value::Text(upper_text(t.as_str())))),
                (Builtin::Lower, Value::Text(t)) => Ok(Applied::Done(Value::Text(lower_text(t.as_str())))),
                (Builtin::First, Value::List(items)) => {
                    proof { lemma_views(items@); }
                    if items.len() == 0 {
                        Ok(Applied::Done(Value::Maybe(None)))
                    } else {
                        Ok(Applied::Done(Value::Maybe(Some(Box::new(copy_value(&items[0]))))))
                    }
                },
                (Builtin::Keys, Value::Table(entries)) => Ok(Applied::Done(Value::List(keys_of(entries)))),
                (Builtin::Abs, Value::Int(n)) => if *n == i64::MIN {
                    Err(Fault::Overflowed(Operation::Size))
                } else if *n < 0 {
                    Ok(Applied::Done(Value::Int(-*n)))
                } else {
                    Ok(Applied::Done(Value::Int(*n)))
                },
                (Builtin::Abs, Value::Float(f)) => {
                    let chars = chars_of(f.shown.as_str());
                    let shown = if chars.len() > 0 && chars[0] == '-' {
                        let mut rest: Vec<char> = Vec::new();
                        let mut i: usize = 1;
                        while i < chars.len()
                            invariant
                                1 <= i <= chars@.len(),
                                rest@ =~= chars@.subrange(1, i as int),
                            decreases chars.len() - i,
                        {
                            rest.push(chars[i]);
                            i = i + 1;
                        }
                        from_chars(&rest)
                    } else {
                        from_chars(&chars)
                    };
                    Ok(Applied::Done(Value::Float(Float { bits: f.bits & 0x7fff_ffff_ffff_ffffu64, shown })))
                },
                (Builtin::ToFloat, Value::Int(n)) => Ok(Applied::ToFloat(*n)),
                (Builtin::Round, Value::Float(f)) => Ok(Applied::Round(f.bits)),
                _ => {
                    proof { lemma_view_kind(*a); }
                    wrong
                },
            }
        } else if arguments.len() == 2 {
            let a = &arguments[0];
            let b = &arguments[1];
            match (self, a, b) {
                (Builtin::Contains, Value::Text(t), Value::Text(p)) => Ok(Applied::Done(Value::Bool(text_holds(t.as_str(), p.as_str())))),
                (Builtin::Join, Value::List(items), Value::Text(sep)) =>
                    Ok(Applied::Done(Value::Text(join_shown(items, sep.as_str(), program, cells)))),
                (Builtin::Get, Value::Table(entries), key) => match get_entry(entries, key) {
                    Some(found) => Ok(Applied::Done(Value::Maybe(Some(Box::new(copy_value(found)))))),
                    None => Ok(Applied::Done(Value::Maybe(None))),
                },
                (Builtin::Min, Value::Int(l), Value::Int(r)) => Ok(Applied::Done(Value::Int(if *l <= *r { *l } else { *r }))),
                (Builtin::Max, Value::Int(l), Value::Int(r)) => Ok(Applied::Done(Value::Int(if *l >= *r { *l } else { *r }))),
                _ => {
                    proof { lemma_view_kind(*a); lemma_view_kind(*b); }
                    wrong
                },
            }
        } else {
            wrong
        }
    }
}

/// Builds a map from keys and values pushed one pair after another; a key
/// left without a value at the end is dropped.
pub fn table(pairs: Vec<Value>) -> (r: Value)
    ensures
        r@ == ValueView::Table(table_of(views(pairs@), pairs@.len() / 2)),
{
    proof { lemma_views(pairs@); }
    let ghost ps = views(pairs@);
    let mut entries: Vec<Entry> = Vec::new();
    let half = pairs.len() / 2;
    let mut n: usize = 0;
    while n < half
        invariant
            n <= half,
            half == pairs@.len() / 2,
            ps == views(pairs@),
            ps.len() == pairs@.len(),
            forall|k: int| 0 <= k < pairs@.len() ==> #[trigger] ps[k] == view_of(pairs@[k]),
            entry_views(entries@) == table_of(ps, n as nat),
        decreases half - n,
    {
        assert(2 * n + 1 < pairs@.len()) by (nonlinear_arith)
            requires n < half, half == pairs@.len() / 2;
        assert(pairs@.len() == pairs.len());
        let key = copy_value(&pairs[2 * n]);
        let value = copy_value(&pairs[2 * n + 1]);
        insert_entry(&mut entries, key, value);
        n = n + 1;
    }
    Value::Table(entries)
}

} // verus!

verus! {

/// `first` of a list hands out the item at its front, found, whatever
/// follows it; of an empty list it finds nothing.
pub proof fn lemma_first_is_the_front_item(front: ValueView, rest: Seq<ValueView>, program: Program, cells: Seq<ValueView>)
    ensures
        spec_apply(Builtin::First, seq![ValueView::List(seq![front] + rest)], program, cells)
            == Ok::<AppliedView, Fault>(AppliedView::Done(ValueView::Maybe(Some(Box::new(front))))),
        spec_apply(Builtin::First, seq![ValueView::List(Seq::empty())], program, cells)
            == Ok::<AppliedView, Fault>(AppliedView::Done(ValueView::Maybe(None))),
{
    assert((seq![front] + rest)[0] == front);
}

} // verus!

verus! {

/// `min` and `max` of two whole numbers give one of them, `min` no more and
/// `max` no less than either, and swapping the two changes neither; `abs`
/// gives the number or its negation, never below zero.
pub proof fn lemma_min_max_abs_are_what_they_say(l: i64, r: i64, program: Program, cells: Seq<ValueView>)
    ensures
        spec_apply(Builtin::Min, seq![ValueView::Int(l), ValueView::Int(r)], program, cells) matches Ok(AppliedView::Done(ValueView::Int(m)))
            && m <= l && m <= r && (m == l || m == r),
        spec_apply(Builtin::Max, seq![ValueView::Int(l), ValueView::Int(r)], program, cells) matches Ok(AppliedView::Done(ValueView::Int(m)))
            && m >= l && m >= r && (m == l || m == r),
        spec_apply(Builtin::Min, seq![ValueView::Int(l), ValueView::Int(r)], program, cells)
            == spec_apply(Builtin::Min, seq![ValueView::Int(r), ValueView::Int(l)], program, cells),
        spec_apply(Builtin::Max, seq![ValueView::Int(l), ValueView::Int(r)], program, cells)
            == spec_apply(Builtin::Max, seq![ValueView::Int(r), ValueView::Int(l)], program, cells),
        l != i64::MIN ==> (spec_apply(Builtin::Abs, seq![ValueView::Int(l)], program, cells) matches Ok(AppliedView::Done(ValueView::Int(a)))
            && a >= 0 && (a == l || a == -(l as int))),
{
}

/// `keys` of a map lists one key per entry, each entry's key in its place.
pub proof fn lemma_keys_lists_each_entry_key(entries: Seq<EntryView>, program: Program, cells: Seq<ValueView>)
    ensures
        spec_apply(Builtin::Keys, seq![ValueView::Table(entries)], program, cells) matches Ok(AppliedView::Done(ValueView::List(keys)))
            && keys.len() == entries.len()
            && forall|i: int| 0 <= i < entries.len() ==> #[trigger] keys[i] == entries[i].0,
{
}

} // verus!
