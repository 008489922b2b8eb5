//! Which types may be turned into JSON.
//!
//! The checker's picture of a program's types, as far as this question
//! needs it: the shape of a type, and the records and choices the program
//! declares.

use vstd::prelude::*;
use crate::text::text_equal;

verus! {

/// The type of a value, as the checker writes it.
pub enum Type {
    Int,
    Float,
    Bool,
    Text,
    Nothing,
    List(Box<Type>),
    Maybe(Box<Type>),
    /// A map from keys to values.
    Table { key: Box<Type>, value: Box<Type> },
    Tuple(Vec<Type>),
    /// A type the checker has not worked out yet.
    Variable(u32),
    /// A declared record or choice, by name.
    Named(String),
    /// A generic parameter.
    Parameter(String),
    Unknown,
    Function,
    Fallible,
    Task,
    Shared,
    Channel,
    Ability,
}

impl Type {
    /// A declared type, by name.
    pub fn named(name: &str) -> (t: Type)
        ensures
            t matches Type::Named(n) && n@ == name@,
    {
        Type::Named(String::from_str(name))
    }
}

/// A field of a record or of a choice's variant, with its declared type.
pub struct Field {
    pub name: String,
    pub declared: Type,
}

/// A declared record type.
pub struct DeclaredType {
    pub name: String,
    pub fields: Vec<Field>,
}

/// One variant of a choice.
pub struct ChoiceVariant {
    pub name: String,
    pub fields: Vec<Field>,
}

/// A declared choice.
pub struct Choice {
    pub name: String,
    pub variants: Vec<ChoiceVariant>,
}

/// What the checker found a program declares.
pub struct Checked {
    pub declared_types: Vec<DeclaredType>,
    pub choices: Vec<Choice>,
}

impl Default for Checked {
    /// A program that declares nothing.
    fn default() -> (r: Self)
        ensures
            r.declared_types@.len() == 0,
            r.choices@.len() == 0,
    {
        Checked { declared_types: Vec::new(), choices: Vec::new() }
    }
}

/// The first declared record with this name.
pub open spec fn record_named(c: Checked, name: Seq<char>) -> Option<int> {
    if exists|i: int| 0 <= i < c.declared_types@.len() && (#[trigger] c.declared_types@[i]).name@ == name {
        Some(choose|i: int| 0 <= i < c.declared_types@.len() && (#[trigger] c.declared_types@[i]).name@ == name
            && forall|k: int| 0 <= k < i ==> (#[trigger] c.declared_types@[k]).name@ != name)
    } else {
        None
    }
}

/// The first declared choice with this name.
pub open spec fn choice_named(c: Checked, name: Seq<char>) -> Option<int> {
    if exists|i: int| 0 <= i < c.choices@.len() && (#[trigger] c.choices@[i]).name@ == name {
        Some(choose|i: int| 0 <= i < c.choices@.len() && (#[trigger] c.choices@[i]).name@ == name
            && forall|k: int| 0 <= k < i ==> (#[trigger] c.choices@[k]).name@ != name)
    } else {
        None
    }
}

/// The declared types of a list of fields, in order.
pub open spec fn field_types(fields: Seq<Field>) -> Seq<Type> {
    fields.map_values(|f: Field| f.declared)
}

/// Whether a value of type `t` can be turned into JSON, following names at
/// most `fuel` deep: `None` when that is not deep enough to say. Scalars
/// can; lists, maybes and tuples can when what they hold can; a map can
/// when its keys are text and its values can; a record or a choice can when
/// every field can; functions, tasks, channels and the like cannot.
pub open spec fn json_ok(t: Type, c: Checked, fuel: nat) -> Option<bool>
    decreases fuel, 1nat, t, 0int,
{
    match t {
        Type::Int | Type::Float | Type::Bool | Type::Text | Type::Nothing => Some(true),
        Type::List(item) => json_ok(*item, c, fuel),
        Type::Maybe(item) => json_ok(*item, c, fuel),
        Type::Table { key, value } => if *key is Text { json_ok(*value, c, fuel) } else { Some(false) },
        Type::Tuple(items) => types_ok(items@, c, fuel, 0),
        Type::Variable(_) => Some(false),
        Type::Named(name) => if fuel == 0 {
            None
        } else {
            match record_named(c, name@) {
                Some(i) => types_ok(field_types(c.declared_types@[i].fields@), c, (fuel - 1) as nat, 0),
                None => match choice_named(c, name@) {
                    Some(j) => choice_ok(c.choices@[j].variants@, c, (fuel - 1) as nat, 0),
                    None => Some(false),
                },
            }
        },
        Type::Parameter(_) | Type::Unknown => Some(true),
        _ => Some(false),
    }
}

/// Whether every type from the `k`th on can, stopping at the first that
/// cannot.
pub open spec fn types_ok(items: Seq<Type>, c: Checked, fuel: nat, k: int) -> Option<bool>
    decreases fuel, 1nat, items, items.len() - k,
{
    if k < 0 || k >= items.len() {
        Some(true)
    } else {
        match json_ok(items[k], c, fuel) {
            Some(true) => types_ok(items, c, fuel, k + 1),
            other => other,
        }
    }
}

/// Whether every field of every variant from the `v`th on can, stopping at
/// the first that cannot.
pub open spec fn choice_ok(variants: Seq<ChoiceVariant>, c: Checked, fuel: nat, v: int) -> Option<bool>
    decreases fuel, 2nat, variants, variants.len() - v,
{
    if v < 0 || v >= variants.len() {
        Some(true)
    } else {
        match types_ok(field_types(variants[v].fields@), c, fuel, 0) {
            Some(true) => choice_ok(variants, c, fuel, v + 1),
            other => other,
        }
    }
}

/// A verdict reached with some depth of names stays the same with more.
pub proof fn lemma_json_more_fuel(t: Type, c: Checked, fuel: nat, more: nat)
    requires
        fuel <= more,
        json_ok(t, c, fuel) is Some,
    ensures
        json_ok(t, c, more) == json_ok(t, c, fuel),
    decreases fuel, 1nat, t, 0int,
{
    match t {
        Type::List(item) => lemma_json_more_fuel(*item, c, fuel, more),
        Type::Maybe(item) => lemma_json_more_fuel(*item, c, fuel, more),
        Type::Table { key, value } => if *key is Text {
            lemma_json_more_fuel(*value, c, fuel, more);
        },
        Type::Tuple(items) => lemma_types_more_fuel(items@, c, fuel, more, 0),
        Type::Named(name) => {
            match record_named(c, name@) {
                Some(i) => lemma_types_more_fuel(
                    field_types(c.declared_types@[i].fields@), c, (fuel - 1) as nat, (more - 1) as nat, 0),
                None => match choice_named(c, name@) {
                    Some(j) => lemma_choice_more_fuel(
                        c.choices@[j].variants@, c, (fuel - 1) as nat, (more - 1) as nat, 0),
                    None => {},
                },
            }
        },
        _ => {},
    }
}

/// The same for a run of types.
pub proof fn lemma_types_more_fuel(items: Seq<Type>, c: Checked, fuel: nat, more: nat, k: int)
    requires
        fuel <= more,
        types_ok(items, c, fuel, k) is Some,
    ensures
        types_ok(items, c, more, k) == types_ok(items, c, fuel, k),
    decreases fuel, 1nat, items, items.len() - k,
{
    if 0 <= k < items.len() {
        lemma_json_more_fuel(items[k], c, fuel, more);
        if json_ok(items[k], c, fuel) == Some(true) {
            lemma_types_more_fuel(items, c, fuel, more, k + 1);
        }
    }
}

/// The same for the variants of a choice.
pub proof fn lemma_choice_more_fuel(variants: Seq<ChoiceVariant>, c: Checked, fuel: nat, more: nat, v: int)
    requires
        fuel <= more,
        choice_ok(variants, c, fuel, v) is Some,
    ensures
        choice_ok(variants, c, more, v) == choice_ok(variants, c, fuel, v),
    decreases fuel, 2nat, variants, variants.len() - v,
{
    if 0 <= v < variants.len() {
        lemma_types_more_fuel(field_types(variants[v].fields@), c, fuel, more, 0);
        if types_ok(field_types(variants[v].fields@), c, fuel, 0) == Some(true) {
            lemma_choice_more_fuel(variants, c, fuel, more, v + 1);
        }
    }
}

/// Whether some depth of names is enough to say whether a value of type
/// `t` can be turned into JSON: it is not for a type that names itself
/// along a path that has to be followed.
pub open spec fn json_settles(t: Type, c: Checked) -> bool {
    exists|fuel: nat| #[trigger] json_ok(t, c, fuel) is Some
}

/// Whether a value of type `t` can be turned into JSON, where that settles.
pub open spec fn json_verdict(t: Type, c: Checked) -> bool {
    json_ok(t, c, choose|fuel: nat| #[trigger] json_ok(t, c, fuel) is Some)->0
}

/// Any depth of names that is enough to say gives the verdict.
pub proof fn lemma_verdict_at_any_depth(t: Type, c: Checked, fuel: nat)
    requires
        json_ok(t, c, fuel) is Some,
    ensures
        json_settles(t, c),
        json_verdict(t, c) == json_ok(t, c, fuel)->0,
{
    let first = choose|f: nat| #[trigger] json_ok(t, c, f) is Some;
    if first <= fuel {
        lemma_json_more_fuel(t, c, first, fuel);
    } else {
        lemma_json_more_fuel(t, c, fuel, first);
    }
}

/// Whether a value of type `value` can be turned into JSON.
pub fn can_json(value: &Type, checked: &Checked) -> (r: bool)
    requires
        json_settles(*value, *checked),
    ensures
        r == json_verdict(*value, *checked),
{
    let ghost fuel = choose|fuel: nat| #[trigger] json_ok(*value, *checked, fuel) is Some;
    json_within(value, checked, Ghost(fuel))
}

/// The index of the first declared record with this name.
fn record_index(checked: &Checked, name: &String) -> (r: Option<usize>)
    ensures
        match r {
            Some(i) => record_named(*checked, name@) == Some(i as int) && i < checked.declared_types@.len(),
            None => record_named(*checked, name@) is None,
        },
{
    let mut i: usize = 0;
    while i < checked.declared_types.len()
        invariant
            i <= checked.declared_types@.len(),
            forall|k: int| 0 <= k < i ==> (#[trigger] checked.declared_types@[k]).name@ != name@,
        decreases checked.declared_types@.len() - i,
    {
        if text_equal(&checked.declared_types[i].name, name) {
            proof {
                let c = *checked;
                assert(0 <= i < c.declared_types@.len() && (c.declared_types@[i as int]).name@ == name@
                    && forall|k: int| 0 <= k < i ==> (#[trigger] c.declared_types@[k]).name@ != name@);
                let j = choose|j: int| 0 <= j < c.declared_types@.len() && (#[trigger] c.declared_types@[j]).name@ == name@
                    && forall|k: int| 0 <= k < j ==> (#[trigger] c.declared_types@[k]).name@ != name@;
                if j < i {
                    assert(c.declared_types@[j].name@ != name@);
                } else if j > i {
                    assert(c.declared_types@[i as int].name@ != name@);
                }
            }
            return Some(i);
        }
        i += 1;
    }
    None
}

/// The index of the first declared choice with this name.
fn choice_index(checked: &Checked, name: &String) -> (r: Option<usize>)
    ensures
        match r {
            Some(i) => choice_named(*checked, name@) == Some(i as int) && i < checked.choices@.len(),
            None => choice_named(*checked, name@) is None,
        },
{
    let mut i: usize = 0;
    while i < checked.choices.len()
        invariant
            i <= checked.choices@.len(),
            forall|k: int| 0 <= k < i ==> (#[trigger] checked.choices@[k]).name@ != name@,
        decreases checked.choices@.len() - i,
    {
        if text_equal(&checked.choices[i].name, name) {
            proof {
                let c = *checked;
                assert(0 <= i < c.choices@.len() && (c.choices@[i as int]).name@ == name@
                    && forall|k: int| 0 <= k < i ==> (#[trigger] c.choices@[k]).name@ != name@);
                let j = choose|j: int| 0 <= j < c.choices@.len() && (#[trigger] c.choices@[j]).name@ == name@
                    && forall|k: int| 0 <= k < j ==> (#[trigger] c.choices@[k]).name@ != name@;
                if j < i {
                    assert(c.choices@[j].name@ != name@);
                } else if j > i {
                    assert(c.choices@[i as int].name@ != name@);
                }
            }
            return Some(i);
        }
        i += 1;
    }
    None
}

/// `can_json`, following names at most `fuel` deep, where that is enough.
fn json_within(t: &Type, checked: &Checked, Ghost(fuel): Ghost<nat>) -> (r: bool)
    requires
        json_ok(*t, *checked, fuel) is Some,
    ensures
        r == json_ok(*t, *checked, fuel)->0,
    decreases fuel, 3nat, *t,
{
    match t {
        Type::Int | Type::Float | Type::Bool | Type::Text | Type::Nothing => true,
        Type::List(item) => json_within(item, checked, Ghost(fuel)),
        Type::Maybe(item) => json_within(item, checked, Ghost(fuel)),
        Type::Table { key, value } => match &**key {
            Type::Text => json_within(value, checked, Ghost(fuel)),
            _ => false,
        },
        Type::Tuple(items) => {
            let mut k: usize = 0;
            while k < items.len()
                invariant
                    *t == Type::Tuple(*items),
                    k <= items@.len(),
                    types_ok(items@, *checked, fuel, 0) is Some,
                    types_ok(items@, *checked, fuel, 0) == types_ok(items@, *checked, fuel, k as int),
                    json_ok(*t, *checked, fuel) == types_ok(items@, *checked, fuel, 0),
                decreases items@.len() - k,
            {
                proof {
                    assert(decreases_to!(*t => *items));
                    assert(decreases_to!(*items => items@));
                    assert(decreases_to!(items@ => items@[k as int]));
                }
                if !json_within(&items[k], checked, Ghost(fuel)) {
                    return false;
                }
                k += 1;
            }
            true
        },
        Type::Variable(_) => false,
        Type::Named(name) => match record_index(checked, name) {
            Some(i) => record_can_json(i, checked, Ghost((fuel - 1) as nat)),
            None => match choice_index(checked, name) {
                Some(j) => choice_can_json(j, checked, Ghost((fuel - 1) as nat)),
                None => false,
            },
        },
        Type::Parameter(_) | Type::Unknown => true,
        _ => false,
    }
}

/// Whether every field of the record at `index` can.
fn record_can_json(index: usize, checked: &Checked, Ghost(fuel): Ghost<nat>) -> (r: bool)
    requires
        index < checked.declared_types@.len(),
        types_ok(field_types(checked.declared_types@[index as int].fields@), *checked, fuel, 0) is Some,
    ensures
        r == types_ok(field_types(checked.declared_types@[index as int].fields@), *checked, fuel, 0)->0,
    decreases fuel + 1, 2nat, Type::Unknown,
{
    fields_can_json(&checked.declared_types[index].fields, checked, Ghost(fuel))
}

/// Whether every field of every variant of the choice at `index` can.
fn choice_can_json(index: usize, checked: &Checked, Ghost(fuel): Ghost<nat>) -> (r: bool)
    requires
        index < checked.choices@.len(),
        choice_ok(checked.choices@[index as int].variants@, *checked, fuel, 0) is Some,
    ensures
        r == choice_ok(checked.choices@[index as int].variants@, *checked, fuel, 0)->0,
    decreases fuel + 1, 2nat, Type::Unknown,
{
    let variants = &checked.choices[index].variants;
    let mut v: usize = 0;
    while v < variants.len()
        invariant
            *variants == checked.choices@[index as int].variants,
            v <= variants@.len(),
            choice_ok(variants@, *checked, fuel, 0) is Some,
            choice_ok(variants@, *checked, fuel, 0) == choice_ok(variants@, *checked, fuel, v as int),
        decreases variants@.len() - v,
    {
        if !fields_can_json(&variants[v].fields, checked, Ghost(fuel)) {
            return false;
        }
        v += 1;
    }
    true
}

/// Whether every one of these fields can.
fn fields_can_json(fields: &Vec<Field>, checked: &Checked, Ghost(fuel): Ghost<nat>) -> (r: bool)
    requires
        types_ok(field_types(fields@), *checked, fuel, 0) is Some,
    ensures
        r == types_ok(field_types(fields@), *checked, fuel, 0)->0,
    decreases fuel + 1, 1nat, Type::Unknown,
{
    let ghost declared = field_types(fields@);
    let mut k: usize = 0;
    while k < fields.len()
        invariant
            declared == field_types(fields@),
            k <= fields@.len(),
            types_ok(declared, *checked, fuel, 0) is Some,
            types_ok(declared, *checked, fuel, 0) == types_ok(declared, *checked, fuel, k as int),
        decreases fields@.len() - k,
    {
        assert(declared[k as int] == fields@[k as int].declared);
        if !json_within(&fields[k].declared, checked, Ghost(fuel)) {
            return false;
        }
        k += 1;
    }
    true
}

/// A run of types that can each be turned into JSON at one depth can all
/// be, from any point on.
proof fn lemma_types_all_true(items: Seq<Type>, c: Checked, fuel: nat, k: int)
    requires
        0 <= k <= items.len(),
        forall|j: int| k <= j < items.len() ==> #[trigger] json_ok(items[j], c, fuel) == Some(true),
    ensures
        types_ok(items, c, fuel, k) == Some(true),
    decreases items.len() - k,
{
    if k < items.len() {
        assert(json_ok(items[k], c, fuel) == Some(true));
        lemma_types_all_true(items, c, fuel, k + 1);
    }
}

/// One depth of names that settles each of the first `m` types as one that
/// can be turned into JSON.
proof fn lemma_common_depth(items: Seq<Type>, c: Checked, m: int) -> (fuel: nat)
    requires
        0 <= m <= items.len(),
        forall|j: int| 0 <= j < m ==> json_settles(#[trigger] items[j], c) && json_verdict(items[j], c),
    ensures
        forall|j: int| 0 <= j < m ==> #[trigger] json_ok(items[j], c, fuel) == Some(true),
    decreases m,
{
    if m == 0 {
        0
    } else {
        let before = lemma_common_depth(items, c, m - 1);
        let last = items[m - 1];
        let own = choose|f: nat| #[trigger] json_ok(last, c, f) is Some;
        let fuel = if own <= before { before } else { own };
        lemma_json_more_fuel(last, c, own, fuel);
        assert forall|j: int| 0 <= j < m implies #[trigger] json_ok(items[j], c, fuel) == Some(true) by {
            if j < m - 1 {
                lemma_json_more_fuel(items[j], c, before, fuel);
            }
        }
        fuel
    }
}

/// A declared record can be turned into JSON when every one of its fields
/// can.
pub proof fn lemma_record_can_json_when_fields_can(t: Type, c: Checked, i: int)
    requires
        t matches Type::Named(n) && record_named(c, n@) == Some(i),
        0 <= i < c.declared_types@.len(),
        forall|k: int| 0 <= k < c.declared_types@[i].fields@.len()
            ==> json_settles(#[trigger] c.declared_types@[i].fields@[k].declared, c)
                && json_verdict(c.declared_types@[i].fields@[k].declared, c),
    ensures
        json_settles(t, c),
        json_verdict(t, c),
{
    let items = field_types(c.declared_types@[i].fields@);
    assert forall|j: int| 0 <= j < items.len() implies json_settles(#[trigger] items[j], c) && json_verdict(items[j], c) by {
        assert(items[j] == c.declared_types@[i].fields@[j].declared);
    }
    let fuel = lemma_common_depth(items, c, items.len() as int);
    lemma_types_all_true(items, c, fuel, 0);
    assert(json_ok(t, c, fuel + 1) == Some(true));
    lemma_verdict_at_any_depth(t, c, fuel + 1);
}

} // verus!

verus! {

/// Whether a value of type `value` can be turned into JSON, following names
/// at most `depth` deep: `None` when that is not deep enough to say (as for
/// a type that names itself along a path that has to be followed). A
/// verdict it gives is `can_json`'s.
pub fn can_json_within(value: &Type, checked: &Checked, depth: usize) -> (r: Option<bool>)
    ensures
        r == json_ok(*value, *checked, depth as nat),
        r matches Some(b) ==> json_settles(*value, *checked) && json_verdict(*value, *checked) == b,
{
    let r = json_upto(value, checked, depth);
    proof {
        if r is Some {
            lemma_verdict_at_any_depth(*value, *checked, depth as nat);
        }
    }
    r
}

fn json_upto(t: &Type, checked: &Checked, fuel: usize) -> (r: Option<bool>)
    ensures
        r == json_ok(*t, *checked, fuel as nat),
    decreases fuel, 3nat, *t,
{
    match t {
        Type::Int | Type::Float | Type::Bool | Type::Text | Type::Nothing => Some(true),
        Type::List(item) => json_upto(item, checked, fuel),
        Type::Maybe(item) => json_upto(item, checked, fuel),
        Type::Table { key, value } => match &**key {
            Type::Text => json_upto(value, checked, fuel),
            _ => Some(false),
        },
        Type::Tuple(items) => {
            let mut k: usize = 0;
            while k < items.len()
                invariant
                    *t == Type::Tuple(*items),
                    k <= items@.len(),
                    types_ok(items@, *checked, fuel as nat, 0) == types_ok(items@, *checked, fuel as nat, k as int),
                    json_ok(*t, *checked, fuel as nat) == types_ok(items@, *checked, fuel as nat, 0),
                decreases items@.len() - k,
            {
                proof {
                    assert(decreases_to!(*t => *items));
                    assert(decreases_to!(*items => items@));
                    assert(decreases_to!(items@ => items@[k as int]));
                }
                match json_upto(&items[k], checked, fuel) {
                    Some(true) => {},
                    other => return other,
                }
                k += 1;
            }
            Some(true)
        },
        Type::Variable(_) => Some(false),
        Type::Named(name) => {
            if fuel == 0 {
                return None;
            }
            match record_index(checked, name) {
                Some(i) => fields_upto(&checked.declared_types[i].fields, checked, fuel - 1),
                None => match choice_index(checked, name) {
                    Some(j) => choice_upto(j, checked, fuel - 1),
                    None => Some(false),
                },
            }
        },
        Type::Parameter(_) | Type::Unknown => Some(true),
        _ => Some(false),
    }
}

fn choice_upto(index: usize, checked: &Checked, fuel: usize) -> (r: Option<bool>)
    requires
        index < checked.choices@.len(),
    ensures
        r == choice_ok(checked.choices@[index as int].variants@, *checked, fuel as nat, 0),
    decreases fuel + 1, 2nat, Type::Unknown,
{
    let variants = &checked.choices[index].variants;
    let mut v: usize = 0;
    while v < variants.len()
        invariant
            *variants == checked.choices@[index as int].variants,
            v <= variants@.len(),
            choice_ok(variants@, *checked, fuel as nat, 0) == choice_ok(variants@, *checked, fuel as nat, v as int),
        decreases variants@.len() - v,
    {
        match fields_upto(&variants[v].fields, checked, fuel) {
            Some(true) => {},
            other => return other,
        }
        v += 1;
    }
    Some(true)
}

fn fields_upto(fields: &Vec<Field>, checked: &Checked, fuel: usize) -> (r: Option<bool>)
    ensures
        r == types_ok(field_types(fields@), *checked, fuel as nat, 0),
    decreases fuel + 1, 1nat, Type::Unknown,
{
    let ghost declared = field_types(fields@);
    let mut k: usize = 0;
    while k < fields.len()
        invariant
            declared == field_types(fields@),
            k <= fields@.len(),
            types_ok(declared, *checked, fuel as nat, 0) == types_ok(declared, *checked, fuel as nat, k as int),
        decreases fields@.len() - k,
    {
        assert(declared[k as int] == fields@[k as int].declared);
        match json_upto(&fields[k].declared, checked, fuel) {
            Some(true) => {},
            other => return other,
        }
        k += 1;
    }
    Some(true)
}

} // verus!
