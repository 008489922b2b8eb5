//! Work only the world outside the machine can do, and what it answers.
//!
//! The machine hands a [`Request`] out and waits; whoever runs it does the
//! work (writes the line, reads the file, asks the database, does the float
//! arithmetic) and hands back an [`Answer`], which the machine turns into the
//! value the program sees.

use vstd::prelude::*;
use crate::bytecode::Op;
use crate::value::{Value, Float};

verus! {

/// Something the machine needs done outside before it can go on.
pub enum Request {
    /// Write a line to the terminal.
    Print { text: String },
    /// `+ - * / %` on two floats; a division by zero never gets this far.
    FloatArithmetic { op: Op, left: u64, right: u64 },
    /// `to_float` of a whole number.
    ToFloat { number: i64 },
    /// `round` of a float: the nearest whole number, a half away from zero.
    Round { bits: u64 },
    /// The contents of a file.
    ReadFile { path: String },
    /// Seconds since 1970.
    Now,
    /// An environment variable, if it is set.
    EnvGet { name: String },
    /// An environment variable that must be set.
    EnvRequired { name: String },
    /// The secret bearer tokens are signed with, if it is set.
    AuthSecret,
    DbConnect { url: String },
    DbExecute { handle: u32, sql: String, arguments: Vec<Value> },
    DbQuery { handle: u32, sql: String, arguments: Vec<Value> },
    StoreOpen { path: String },
    StoreGet { handle: u32, key: String },
    StoreSet { handle: u32, key: String, value: String },
    StoreRemove { handle: u32, key: String },
    StoreKeys { handle: u32, prefix: String },
    HttpGet { url: String },
    HttpPost { url: String, body: String },
    HttpSend { method: String, url: String, body: String, headers: Vec<(String, String)> },
    /// A file served as the reply, with this status.
    ReplyFile { path: String, status: u16 },
}

/// What the outside world made of a [`Request`].
pub enum Answer {
    /// It was done, and there is nothing to hand back.
    Done,
    /// A float.
    Float(Float),
    /// A whole number, or none when there is no whole number to give (a
    /// float too large to round).
    Whole(Option<i64>),
    /// A piece of text: a file's contents or a response body.
    Text(String),
    /// Something looked up, or nothing when it is not there.
    Found(Option<String>),
    /// The thing asked for is not there (a missing file).
    Missing,
    /// A handle to a database or store that was opened.
    Handle(u32),
    /// Whether something was there to remove.
    Removed(bool),
    /// Keys that were listed.
    Keys(Vec<String>),
    /// The rows a query read.
    Rows(Value),
    /// The request failed, and the message says why.
    Refused(String),
    /// The outside world could not do it at all.
    Broken,
}

} // verus!

verus! {

use crate::error::Fault;
use crate::value::{ValueView, EntryView, Variant, entry_views, lemma_entry_views, lemma_view_kind};

/// `failure Choice.Variant(message)`: how an outside call that failed is
/// handed to the program.
pub fn failure_message(layout: u32, message: String) -> (r: Value)
    ensures
        r@ == ValueView::Failure(Box::new(ValueView::Variant {
            layout,
            fields: seq![ValueView::Text(message@)],
        })),
{
    let mut fields: Vec<Value> = Vec::new();
    fields.push(Value::Text(message));
    proof {
        crate::value::lemma_views(fields@);
        assert(crate::value::views(fields@) =~= seq![ValueView::Text(message@)]);
    }
    let inner = Value::Variant(Box::new(Variant { layout, fields }));
    assert(inner@ == ValueView::Variant { layout, fields: seq![ValueView::Text(message@)] });
    let r = Value::Failure(Box::new(inner));
    r
}

/// `failure Choice.Variant`, with nothing inside.
pub fn failure_unit(layout: u32) -> (r: Value)
    ensures
        r@ == ValueView::Failure(Box::new(ValueView::Variant { layout, fields: Seq::empty() })),
{
    let fields: Vec<Value> = Vec::new();
    proof {
        crate::value::lemma_views(fields@);
        assert(crate::value::views(fields@) =~= Seq::<ValueView>::empty());
    }
    let inner = Value::Variant(Box::new(Variant { layout, fields }));
    assert(inner@ == ValueView::Variant { layout, fields: Seq::empty() });
    let r = Value::Failure(Box::new(inner));
    r
}

/// The names and values of the first `n` entries of a map of headers, or
/// the fault the first entry that is not text to text comes to.
pub open spec fn header_pairs(entries: Seq<EntryView>, n: nat) -> Result<Seq<(Seq<char>, Seq<char>)>, Fault>
    decreases n,
{
    if n == 0 || n > entries.len() {
        Ok(Seq::empty())
    } else {
        match header_pairs(entries, (n - 1) as nat) {
            Err(f) => Err(f),
            Ok(pairs) => match (entries[n - 1].0, entries[n - 1].1) {
                (ValueView::Text(name), ValueView::Text(text)) => Ok(pairs.push((name, text))),
                (ValueView::Text(_), _) => Err(Fault::Confused("a header value was not text")),
                _ => Err(Fault::Confused("a header name was not text")),
            },
        }
    }
}

/// The characters of each name and value.
pub open spec fn pair_views(pairs: Seq<(String, String)>) -> Seq<(Seq<char>, Seq<char>)> {
    pairs.map_values(|p: (String, String)| (p.0@, p.1@))
}

/// The headers a request carries, as name and value pairs.
pub fn headers_from_value(value: &Value) -> (r: Result<Vec<(String, String)>, Fault>)
    ensures
        match value@ {
            ValueView::Table(entries) => match (r, header_pairs(entries, entries.len())) {
                (Ok(pairs), Ok(want)) => pair_views(pairs@) == want,
                (Err(f), Err(g)) => f == g,
                _ => false,
            },
            _ => r == Err::<Vec<(String, String)>, Fault>(Fault::Confused("request headers must be a map")),
        },
{
    let entries = match value {
        Value::Table(entries) => entries,
        _ => {
            proof { lemma_view_kind(*value); }
            return Err(Fault::Confused("request headers must be a map"));
        },
    };
    proof { lemma_entry_views(entries@); }
    let ghost es = entry_views(entries@);
    let mut out: Vec<(String, String)> = Vec::new();
    assert(pair_views(out@) =~= Seq::<(Seq<char>, Seq<char>)>::empty());
    let mut i: usize = 0;
    while i < entries.len()
        invariant
            i <= entries@.len(),
            es == entry_views(entries@),
            es.len() == entries@.len(),
            forall|k: int| 0 <= k < entries@.len() ==> #[trigger] es[k] == crate::value::entry_view(entries@[k]),
            header_pairs(es, i as nat) == Ok::<Seq<(Seq<char>, Seq<char>)>, Fault>(pair_views(out@)),
            value@ == ValueView::Table(es),
        decreases entries.len() - i,
    {
        let name = match &entries[i].key {
            Value::Text(t) => t.clone(),
            _ => {
                proof {
                    lemma_view_kind(entries@[i as int].key);
                    assert(es[i as int].0 == entries@[i as int].key@);
                    assert(header_pairs(es, (i + 1) as nat) == Err::<Seq<(Seq<char>, Seq<char>)>, Fault>(Fault::Confused("a header name was not text")));
                    lemma_header_pairs_stop(es, (i + 1) as nat, es.len());
                }
                return Err(Fault::Confused("a header name was not text"));
            },
        };
        let text = match &entries[i].value {
            Value::Text(t) => t.clone(),
            _ => {
                proof {
                    lemma_view_kind(entries@[i as int].value);
                    assert(es[i as int].0 == entries@[i as int].key@);
                    assert(es[i as int].1 == entries@[i as int].value@);
                    assert(header_pairs(es, (i + 1) as nat) == Err::<Seq<(Seq<char>, Seq<char>)>, Fault>(Fault::Confused("a header value was not text")));
                    lemma_header_pairs_stop(es, (i + 1) as nat, es.len());
                }
                return Err(Fault::Confused("a header value was not text"));
            },
        };
        proof {
            assert(es[i as int].0 == entries@[i as int].key@);
            assert(es[i as int].1 == entries@[i as int].value@);
        }
        let ghost before = out@;
        out.push((name, text));
        proof { assert(pair_views(out@) =~= pair_views(before).push((name@, text@))); }
        i = i + 1;
    }
    Ok(out)
}

/// Once a prefix of the headers fails, every longer prefix fails the same way.
proof fn lemma_header_pairs_stop(entries: Seq<EntryView>, i: nat, n: nat)
    requires
        0 < i <= n <= entries.len(),
        header_pairs(entries, i) is Err,
    ensures
        header_pairs(entries, n) == header_pairs(entries, i),
    decreases n,
{
    if n > i {
        lemma_header_pairs_stop(entries, i, (n - 1) as nat);
    }
}

} // verus!

verus! {

/// How many ASCII digits a text starts with.
pub open spec fn digit_run(s: Seq<char>) -> nat
    decreases s.len(),
{
    if s.len() > 0 && '0' <= s[0] && s[0] <= '9' { 1 + digit_run(s.drop_first()) } else { 0 }
}

/// A text starts with no more digits than it has characters.
pub proof fn lemma_digit_run_bound(s: Seq<char>)
    ensures
        digit_run(s) <= s.len(),
    decreases s.len(),
{
    if s.len() > 0 {
        lemma_digit_run_bound(s.drop_first());
    }
}

/// SQL with each `$N` placeholder written `?N`; a `$` that no digit follows
/// stays as it is.
pub open spec fn spec_placeholders(sql: Seq<char>) -> Seq<char>
    decreases sql.len(),
{
    if sql.len() == 0 {
        Seq::empty()
    } else if sql[0] == '$' {
        let run = digit_run(sql.drop_first());
        proof { lemma_digit_run_bound(sql.drop_first()); }
        if run == 0 {
            seq!['$'] + spec_placeholders(sql.drop_first())
        } else {
            seq!['?'] + sql.subrange(1, 1 + run as int) + spec_placeholders(sql.skip(1 + run as int))
        }
    } else {
        seq![sql[0]] + spec_placeholders(sql.drop_first())
    }
}

proof fn lemma_digit_run(s: Seq<char>, i: int)
    requires
        0 <= i <= s.len(),
        forall|k: int| 0 <= k < i ==> '0' <= #[trigger] s[k] && s[k] <= '9',
    ensures
        digit_run(s) == i + digit_run(s.skip(i)),
    decreases i,
{
    if i > 0 {
        lemma_digit_run(s.drop_first(), i - 1);
        assert(s.drop_first().skip(i - 1) =~= s.skip(i));
    } else {
        assert(s.skip(0) =~= s);
    }
}

/// SQL written with `$1`-style placeholders, rewritten in the `?1` style
/// SQLite reads.
pub fn postgres_placeholders(sql: &str) -> (r: String)
    ensures
        r@ == spec_placeholders(sql@),
{
    let chars = crate::text::chars_of(sql);
    let mut out: Vec<char> = Vec::new();
    let mut i: usize = 0;
    proof { assert(chars@.skip(0) =~= chars@); }
    while i < chars.len()
        invariant
            i <= chars@.len(),
            chars@ == sql@,
            out@ + spec_placeholders(chars@.skip(i as int)) == spec_placeholders(sql@),
        decreases chars.len() - i,
    {
        let ghost rest = chars@.skip(i as int);
        if chars[i] == '$' {
            let mut j: usize = i + 1;
            while j < chars.len() && '0' <= chars[j] && chars[j] <= '9'
                invariant
                    i + 1 <= j <= chars@.len(),
                    forall|k: int| i + 1 <= k < j ==> '0' <= #[trigger] chars@[k] && chars@[k] <= '9',
                decreases chars.len() - j,
            {
                j = j + 1;
            }
            proof {
                let after = rest.drop_first();
                assert(after =~= chars@.skip(i + 1));
                assert forall|k: int| 0 <= k < j - (i + 1) implies '0' <= #[trigger] after[k] && after[k] <= '9' by {
                    assert(after[k] == chars@[i + 1 + k]);
                }
                lemma_digit_run(after, j - (i + 1));
                if j < chars.len() {
                    assert(after.skip(j - (i + 1)) =~= chars@.skip(j as int));
                    assert(!('0' <= chars@[j as int] && chars@[j as int] <= '9'));
                    assert(digit_run(chars@.skip(j as int)) == 0);
                } else {
                    assert(after.skip(j - (i + 1)).len() == 0);
                }
            }
            if j == i + 1 {
                out.push('$');
                proof { assert(rest.drop_first() =~= chars@.skip(i + 1)); }
                proof { assert(out@ + spec_placeholders(chars@.skip(i + 1)) =~= out@.drop_last() + (seq!['$'] + spec_placeholders(rest.drop_first()))); }
                i = i + 1;
            } else {
                let ghost before = out@;
                out.push('?');
                let mut k: usize = i + 1;
                while k < j
                    invariant
                        i + 1 <= k <= j,
                        j <= chars@.len(),
                        out@ == before + seq!['?'] + chars@.subrange(i + 1, k as int),
                    decreases j - k,
                {
                    out.push(chars[k]);
                    proof { assert(out@ =~= before + seq!['?'] + chars@.subrange(i + 1, k + 1)); }
                    k = k + 1;
                }
                proof {
                    assert(rest.subrange(1, 1 + (j - (i + 1))) =~= chars@.subrange(i + 1, j as int));
                    assert(rest.skip(1 + (j - (i + 1))) =~= chars@.skip(j as int));
                    assert(out@ + spec_placeholders(chars@.skip(j as int)) =~= before + (seq!['?'] + chars@.subrange(i + 1, j as int) + spec_placeholders(chars@.skip(j as int))));
                }
                i = j;
            }
        } else {
            let ghost before = out@;
            out.push(chars[i]);
            proof {
                assert(rest.drop_first() =~= chars@.skip(i + 1));
                assert(out@ + spec_placeholders(chars@.skip(i + 1)) =~= before + (seq![chars@[i as int]] + spec_placeholders(rest.drop_first())));
            }
            i = i + 1;
        }
    }
    proof {
        assert(chars@.skip(i as int).len() == 0);
        assert(out@ + spec_placeholders(chars@.skip(i as int)) =~= out@);
    }
    crate::text::from_chars(&out)
}

} // verus!

verus! {

/// Rewriting placeholders keeps the SQL's length: each `$` becomes one `?`
/// and every other character stays.
pub proof fn lemma_placeholders_keep_length(sql: Seq<char>)
    ensures
        spec_placeholders(sql).len() == sql.len(),
    decreases sql.len(),
{
    if sql.len() > 0 {
        if sql[0] == '$' {
            let run = digit_run(sql.drop_first());
            lemma_digit_run_bound(sql.drop_first());
            if run == 0 {
                lemma_placeholders_keep_length(sql.drop_first());
            } else {
                lemma_placeholders_keep_length(sql.skip(1 + run as int));
            }
        } else {
            lemma_placeholders_keep_length(sql.drop_first());
        }
    }
}

/// SQL with no `$` in it is left exactly as it was.
pub proof fn lemma_placeholders_without_dollar(sql: Seq<char>)
    requires
        !sql.contains('$'),
    ensures
        spec_placeholders(sql) == sql,
    decreases sql.len(),
{
    if sql.len() > 0 {
        assert(sql[0] != '$');
        assert(!sql.drop_first().contains('$')) by {
            if sql.drop_first().contains('$') {
                let k = choose|k: int| 0 <= k < sql.drop_first().len() && sql.drop_first()[k] == '$';
                assert(sql[k + 1] == '$');
            }
        }
        lemma_placeholders_without_dollar(sql.drop_first());
        assert(seq![sql[0]] + sql.drop_first() =~= sql);
    }
}

} // verus!

verus! {

use crate::value::{table_insert, Entry, views, lemma_views};

/// An argument bound into a SQL statement: text, or a float whose text only
/// the outside world can write.
pub enum Bound {
    Text(String),
    FloatBits(u64),
}

/// What an argument is bound as, or none when it cannot be bound.
pub open spec fn bound_view(v: ValueView) -> Option<Result<Seq<char>, u64>> {
    match v {
        ValueView::Text(t) => Some(Ok(t)),
        ValueView::Int(n) => Some(Ok(crate::text::decimal(n as int))),
        ValueView::Bool(b) => Some(Ok(if b { "1"@ } else { "0"@ })),
        ValueView::Float(bits, _) => Some(Err(bits)),
        _ => None,
    }
}

/// The view of a bound argument.
pub open spec fn bound_of(b: Bound) -> Result<Seq<char>, u64> {
    match b {
        Bound::Text(t) => Ok(t@),
        Bound::FloatBits(bits) => Err(bits),
    }
}

/// The arguments of a SQL statement, each as the text it is bound as: text
/// as it is, a whole number in decimal, `yes` and `no` as `1` and `0`, and a
/// float by its bits. Anything else is refused.
pub fn bind_arguments(arguments: &Vec<Value>) -> (r: Result<Vec<Bound>, String>)
    ensures
        match r {
            Ok(bound) => bound@.len() == arguments@.len()
                && forall|i: int| 0 <= i < bound@.len() ==> bound_view((#[trigger] arguments@[i])@) == Some(bound_of(bound@[i])),
            Err(message) => (exists|i: int| 0 <= i < arguments@.len() && bound_view((#[trigger] arguments@[i])@) is None)
                && message@ == "database arguments must be text, numbers, or yes/no"@,
        },
{
    let mut out: Vec<Bound> = Vec::new();
    let mut i: usize = 0;
    while i < arguments.len()
        invariant
            i <= arguments@.len(),
            out@.len() == i,
            forall|k: int| 0 <= k < i ==> bound_view((#[trigger] arguments@[k])@) == Some(bound_of(out@[k])),
        decreases arguments.len() - i,
    {
        proof { crate::value::lemma_view_kind(arguments@[i as int]); }
        let bound = match &arguments[i] {
            Value::Text(t) => Bound::Text(t.clone()),
            Value::Int(n) => Bound::Text(crate::text::decimal_text(*n)),
            Value::Bool(b) => {
                proof { reveal_strlit("1"); reveal_strlit("0"); }
                Bound::Text(String::from_str(if *b { "1" } else { "0" }))
            },
            Value::Float(f) => Bound::FloatBits(f.bits),
            _ => {
                return Err(String::from_str("database arguments must be text, numbers, or yes/no"));
            },
        };
        out.push(bound);
        i = i + 1;
    }
    Ok(out)
}

/// The table a row of a query comes to: each column's name set to its
/// cell, in order, the first `n` of them.
pub open spec fn row_entries(names: Seq<Seq<char>>, cells: Seq<Seq<char>>, n: nat) -> Seq<EntryView>
    decreases n,
{
    if n == 0 || n > names.len() || n > cells.len() {
        Seq::empty()
    } else {
        table_insert(row_entries(names, cells, (n - 1) as nat), ValueView::Text(names[n - 1]), ValueView::Text(cells[n - 1]))
    }
}

/// The rows a query read, as a list of maps from column name to the text
/// of the cell. Each row must have a cell for every column.
pub fn rows_value(names: &Vec<String>, rows: &Vec<Vec<String>>) -> (r: Value)
    requires
        forall|i: int| 0 <= i < rows@.len() ==> (#[trigger] rows@[i])@.len() == names@.len(),
    ensures
        r@ matches ValueView::List(items) && items.len() == rows@.len()
            && forall|i: int| 0 <= i < items.len() ==> #[trigger] items[i] == ValueView::Table(row_entries(
                crate::text::view_texts(names@), crate::text::view_texts(rows@[i]@), names@.len())),
{
    let mut list: Vec<Value> = Vec::new();
    let mut i: usize = 0;
    while i < rows.len()
        invariant
            i <= rows@.len(),
            forall|k: int| 0 <= k < rows@.len() ==> (#[trigger] rows@[k])@.len() == names@.len(),
            list@.len() == i,
            forall|k: int| 0 <= k < i ==> #[trigger] list@[k]@ == ValueView::Table(row_entries(
                crate::text::view_texts(names@), crate::text::view_texts(rows@[k]@), names@.len())),
        decreases rows.len() - i,
    {
        let row = &rows[i];
        let mut entries: Vec<Entry> = Vec::new();
        let mut j: usize = 0;
        proof { lemma_entry_views(entries@); }
        while j < names.len()
            invariant
                j <= names@.len(),
                row@.len() == names@.len(),
                entry_views(entries@) == row_entries(crate::text::view_texts(names@), crate::text::view_texts(row@), j as nat),
            decreases names.len() - j,
        {
            crate::value::insert_entry(&mut entries, Value::Text(names[j].clone()), Value::Text(row[j].clone()));
            j = j + 1;
        }
        let table = Value::Table(entries);
        list.push(table);
        i = i + 1;
    }
    proof { lemma_views(list@); }
    let r = Value::List(list);
    proof {
        assert forall|k: int| 0 <= k < list@.len() implies #[trigger] views(list@)[k] == list@[k]@ by {}
    }
    r
}

} // verus!
