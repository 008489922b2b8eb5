//! AREL-style fluent queries over `Db` and `Store`.
//!
//! The Vaab surface is one `Query` type: `.from`, `.where_eq`, `.order`,
//! `.all`, and friends. The embedded store evaluates a query against its
//! key/value rows here; SQL backends run it through the database.

use vstd::prelude::*;
use crate::text::{view_texts, copy_texts};

verus! {

/// Which backend a fluent query runs against.
#[derive(Clone, Copy, Debug, PartialEq, Eq, Structural)]
pub enum QuerySource {
    Db(u32),
    Store(u32),
}

/// Comparison used by `.where_*` methods.
#[derive(Clone, Copy, Debug, PartialEq, Eq, Structural)]
pub enum Compare {
    Eq,
    Not,
    Gt,
    Gte,
    Lt,
    Lte,
    Like,
}

/// One `.where_*` condition: a column, how to compare, and the text to compare with.
pub struct Predicate {
    pub column: String,
    pub compare: Compare,
    pub value: String,
}

/// One `.order` rule.
pub struct OrderBy {
    pub column: String,
    pub descending: bool,
}

/// One fluent relation, built by chaining methods and finished by a terminal.
pub struct Query {
    pub source: QuerySource,
    /// Table name for SQL, or key prefix for the store.
    pub table: String,
    pub predicates: Vec<Predicate>,
    pub order: Vec<OrderBy>,
    pub limit: Option<i64>,
    pub offset: Option<i64>,
    /// `None` means every column.
    pub columns: Option<Vec<String>>,
}

/// A predicate as the library reasons about it.
pub struct PredicateView {
    pub column: Seq<char>,
    pub compare: Compare,
    pub value: Seq<char>,
}

/// An order rule as the library reasons about it.
pub struct OrderView {
    pub column: Seq<char>,
    pub descending: bool,
}

/// A query as the library reasons about it.
pub struct QueryView {
    pub source: QuerySource,
    pub table: Seq<char>,
    pub predicates: Seq<PredicateView>,
    pub order: Seq<OrderView>,
    pub limit: Option<i64>,
    pub offset: Option<i64>,
    pub columns: Option<Seq<Seq<char>>>,
}

impl View for Predicate {
    type V = PredicateView;

    open spec fn view(&self) -> PredicateView {
        PredicateView { column: self.column@, compare: self.compare, value: self.value@ }
    }
}

impl View for OrderBy {
    type V = OrderView;

    open spec fn view(&self) -> OrderView {
        OrderView { column: self.column@, descending: self.descending }
    }
}

impl View for Query {
    type V = QueryView;

    open spec fn view(&self) -> QueryView {
        QueryView {
            source: self.source,
            table: self.table@,
            predicates: self.predicates@.map_values(|p: Predicate| p@),
            order: self.order@.map_values(|o: OrderBy| o@),
            limit: self.limit,
            offset: self.offset,
            columns: match self.columns {
                Some(columns) => Some(view_texts(columns@)),
                None => None,
            },
        }
    }
}

fn copy_predicates(items: &Vec<Predicate>) -> (r: Vec<Predicate>)
    ensures
        r@.map_values(|p: Predicate| p@) == items@.map_values(|p: Predicate| p@),
{
    let mut out: Vec<Predicate> = Vec::new();
    let mut i: usize = 0;
    while i < items.len()
        invariant
            i <= items.len(),
            out@.len() == i,
            forall|k: int| 0 <= k < i ==> #[trigger] out@[k]@ == items@[k]@,
        decreases items.len() - i,
    {
        let p = &items[i];
        out.push(Predicate { column: p.column.clone(), compare: p.compare, value: p.value.clone() });
        i = i + 1;
    }
    assert(out@.map_values(|p: Predicate| p@) =~= items@.map_values(|p: Predicate| p@));
    out
}

fn copy_orders(items: &Vec<OrderBy>) -> (r: Vec<OrderBy>)
    ensures
        r@.map_values(|o: OrderBy| o@) == items@.map_values(|o: OrderBy| o@),
{
    let mut out: Vec<OrderBy> = Vec::new();
    let mut i: usize = 0;
    while i < items.len()
        invariant
            i <= items.len(),
            out@.len() == i,
            forall|k: int| 0 <= k < i ==> #[trigger] out@[k]@ == items@[k]@,
        decreases items.len() - i,
    {
        let o = &items[i];
        out.push(OrderBy { column: o.column.clone(), descending: o.descending });
        i = i + 1;
    }
    assert(out@.map_values(|o: OrderBy| o@) =~= items@.map_values(|o: OrderBy| o@));
    out
}

/// A copy of a query.
pub fn copy_query(q: &Query) -> (r: Query)
    ensures
        r@ == q@,
{
    let columns = match &q.columns {
        Some(columns) => Some(copy_texts(columns)),
        None => None,
    };
    Query {
        source: q.source,
        table: q.table.clone(),
        predicates: copy_predicates(&q.predicates),
        order: copy_orders(&q.order),
        limit: q.limit,
        offset: q.offset,
        columns,
    }
}

} // verus!

verus! {

/// Whether two queries are the same relation.
pub fn query_equal(left: &Query, right: &Query) -> (r: bool)
    ensures
        r == (left@ == right@),
{
    if left.source != right.source || !crate::text::text_equal(&left.table, &right.table)
        || left.limit != right.limit || left.offset != right.offset
        || left.predicates.len() != right.predicates.len() || left.order.len() != right.order.len() {
        proof {
            if left.predicates.len() != right.predicates.len() {
                assert(left@.predicates.len() != right@.predicates.len());
            }
            if left.order.len() != right.order.len() {
                assert(left@.order.len() != right@.order.len());
            }
        }
        return false;
    }
    let mut i: usize = 0;
    while i < left.predicates.len()
        invariant
            left.predicates.len() == right.predicates.len(),
            forall|k: int| 0 <= k < i ==> #[trigger] left.predicates@[k]@ == right.predicates@[k]@,
        decreases left.predicates.len() - i,
    {
        let a = &left.predicates[i];
        let b = &right.predicates[i];
        if a.compare != b.compare || !crate::text::text_equal(&a.column, &b.column)
            || !crate::text::text_equal(&a.value, &b.value) {
            assert(left@.predicates[i as int] != right@.predicates[i as int]);
            return false;
        }
        i = i + 1;
    }
    assert(left@.predicates =~= right@.predicates);
    let mut i: usize = 0;
    while i < left.order.len()
        invariant
            left.order.len() == right.order.len(),
            forall|k: int| 0 <= k < i ==> #[trigger] left.order@[k]@ == right.order@[k]@,
        decreases left.order.len() - i,
    {
        let a = &left.order[i];
        let b = &right.order[i];
        if a.descending != b.descending || !crate::text::text_equal(&a.column, &b.column) {
            assert(left@.order[i as int] != right@.order[i as int]);
            return false;
        }
        i = i + 1;
    }
    assert(left@.order =~= right@.order);
    match (&left.columns, &right.columns) {
        (None, None) => true,
        (Some(l), Some(r)) => {
            let same = crate::text::texts_equal(l, r);
            proof {
                if same {
                    assert(left@.columns == right@.columns);
                }
            }
            same
        },
        _ => false,
    }
}

} // verus!

verus! {

impl Query {
    /// A query over every row of a table of a database.
    pub fn from_db(handle: u32, table: String) -> (q: Query)
        ensures
            q@ == (QueryView { source: QuerySource::Db(handle), table: table@, predicates: Seq::empty(),
                order: Seq::empty(), limit: None, offset: None, columns: None }),
    {
        let q = Query { source: QuerySource::Db(handle), table, predicates: Vec::new(), order: Vec::new(), limit: None, offset: None, columns: None };
        assert(q@.predicates =~= Seq::<PredicateView>::empty());
        assert(q@.order =~= Seq::<OrderView>::empty());
        q
    }

    /// A query over every row of a store whose key starts with a prefix.
    pub fn from_store(handle: u32, prefix: String) -> (q: Query)
        ensures
            q@ == (QueryView { source: QuerySource::Store(handle), table: prefix@, predicates: Seq::empty(),
                order: Seq::empty(), limit: None, offset: None, columns: None }),
    {
        let q = Query { source: QuerySource::Store(handle), table: prefix, predicates: Vec::new(), order: Vec::new(), limit: None, offset: None, columns: None };
        assert(q@.predicates =~= Seq::<PredicateView>::empty());
        assert(q@.order =~= Seq::<OrderView>::empty());
        q
    }

    /// The query with one more condition, after those it had.
    pub fn with_predicate(self, column: String, compare: Compare, value: String) -> (q: Query)
        ensures
            q@ == (QueryView { predicates: self@.predicates.push(PredicateView { column: column@, compare, value: value@ }), ..self@ }),
    {
        let mut q = self;
        let ghost before = q.predicates@;
        q.predicates.push(Predicate { column, compare, value });
        assert(q.predicates@.map_values(|p: Predicate| p@) =~= before.map_values(|p: Predicate| p@).push(PredicateView { column: column@, compare, value: value@ }));
        q
    }

    /// The query with one more ordering rule, after those it had.
    pub fn with_order(self, column: String, descending: bool) -> (q: Query)
        ensures
            q@ == (QueryView { order: self@.order.push(OrderView { column: column@, descending }), ..self@ }),
    {
        let mut q = self;
        let ghost before = q.order@;
        q.order.push(OrderBy { column, descending });
        assert(q.order@.map_values(|o: OrderBy| o@) =~= before.map_values(|o: OrderBy| o@).push(OrderView { column: column@, descending }));
        q
    }

    /// The query with at most `limit` rows.
    pub fn with_limit(self, limit: i64) -> (q: Query)
        ensures
            q@ == (QueryView { limit: Some(limit), ..self@ }),
    {
        let mut q = self;
        q.limit = Some(limit);
        q
    }

    /// The query skipping its first `offset` rows.
    pub fn with_offset(self, offset: i64) -> (q: Query)
        ensures
            q@ == (QueryView { offset: Some(offset), ..self@ }),
    {
        let mut q = self;
        q.offset = Some(offset);
        q
    }

    /// The query reading only these columns.
    pub fn with_columns(self, columns: Vec<String>) -> (q: Query)
        ensures
            q@ == (QueryView { columns: Some(view_texts(columns@)), ..self@ }),
    {
        let mut q = self;
        q.columns = Some(columns);
        q
    }

    /// The name of the error a query against its backend fails with.
    pub fn error_name(&self) -> (r: &'static str)
        ensures
            r@ == (match self.source {
                QuerySource::Db(_) => "DbError"@,
                QuerySource::Store(_) => "StoreError"@,
            }),
    {
        match self.source {
            QuerySource::Db(_) => "DbError",
            QuerySource::Store(_) => "StoreError",
        }
    }
}

/// How SQL is spelled for the open connection.
#[derive(Clone, Copy, Debug, PartialEq, Eq, Structural)]
pub enum Dialect {
    Sqlite,
    Postgres,
}

/// A character with an ASCII capital letter made small.
pub open spec fn ascii_lower(c: char) -> char {
    if 'A' <= c && c <= 'Z' { ((c as u32) + 32) as char } else { c }
}

/// Whether a connection string names a Postgres server: it starts, in any
/// mix of ASCII case, with `postgres:` or `postgresql:`.
pub open spec fn names_postgres(url: Seq<char>) -> bool {
    let lower = url.map_values(|c: char| ascii_lower(c));
    (lower.len() >= 9 && lower.take(9) == "postgres:"@) || (lower.len() >= 11 && lower.take(11) == "postgresql:"@)
}

fn lower_char(c: char) -> (r: char)
    ensures
        r == ascii_lower(c),
{
    if 'A' <= c && c <= 'Z' {
        let code = ((c as u32) + 32) as u8;
        code as char
    } else {
        c
    }
}

/// Which SQL dialect a connection string calls for.
pub fn dialect_for(url: &str) -> (r: Dialect)
    ensures
        r == (if names_postgres(url@) { Dialect::Postgres } else { Dialect::Sqlite }),
{
    let chars = crate::text::chars_of(url);
    let mut lower: Vec<char> = Vec::new();
    let mut i: usize = 0;
    while i < chars.len()
        invariant
            i <= chars@.len(),
            chars@ == url@,
            lower@ =~= chars@.take(i as int).map_values(|c: char| ascii_lower(c)),
        decreases chars.len() - i,
    {
        lower.push(lower_char(chars[i]));
        proof { assert(chars@.take(i + 1) =~= chars@.take(i as int).push(chars@[i as int])); }
        i = i + 1;
    }
    proof { assert(chars@.take(chars@.len() as int) =~= chars@); }
    let postgres = crate::text::starts_with_text(&lower, "postgres:") || crate::text::starts_with_text(&lower, "postgresql:");
    proof {
        reveal_strlit("postgres:");
        reveal_strlit("postgresql:");
    }
    if postgres { Dialect::Postgres } else { Dialect::Sqlite }
}

} // verus!

verus! {

/// Where the first `%` of a pattern is.
pub open spec fn percent_at(p: Seq<char>) -> Option<int>
    decreases p.len(),
{
    if p.len() == 0 {
        None
    } else if p[0] == '%' {
        Some(0)
    } else {
        match percent_at(p.drop_first()) {
            Some(i) => Some(i + 1),
            None => None,
        }
    }
}

/// Where `percent_at` points is a `%`, with none before it.
pub proof fn lemma_percent_at(p: Seq<char>)
    ensures
        match percent_at(p) {
            Some(i) => 0 <= i < p.len() && p[i] == '%' && forall|k: int| 0 <= k < i ==> p[k] != '%',
            None => forall|k: int| 0 <= k < p.len() ==> p[k] != '%',
        },
    decreases p.len(),
{
    if p.len() > 0 {
        let q = p.drop_first();
        lemma_percent_at(q);
        assert forall|k: int| 0 <= k < q.len() implies #[trigger] q[k] == p[k + 1] by {}
        match percent_at(q) {
            Some(i) => {
                if p[0] != '%' {
                    assert forall|k: int| 0 <= k < i + 1 implies p[k] != '%' by {
                        if k > 0 { assert(p[k] == q[k - 1]); }
                    }
                }
            },
            None => {
                if p[0] != '%' {
                    assert forall|k: int| 0 <= k < p.len() implies p[k] != '%' by {
                        if k > 0 { assert(p[k] == q[k - 1]); }
                    }
                }
            },
        }
    }
}

/// A pattern cut at every `%` (`str::split('%')`).
pub open spec fn split_percent(p: Seq<char>) -> Seq<Seq<char>>
    decreases p.len(),
{
    match percent_at(p) {
        None => seq![p],
        Some(i) => {
            proof { lemma_percent_at(p); }
            seq![p.take(i)] + split_percent(p.skip(i + 1))
        },
    }
}

/// Where a piece first occurs in a text at or after position `i`.
pub open spec fn find_from(hay: Seq<char>, needle: Seq<char>, i: int) -> Option<int>
    decreases hay.len() - i,
{
    if i < 0 || i + needle.len() > hay.len() {
        None
    } else if hay.subrange(i, i + needle.len()) == needle {
        Some(i)
    } else {
        proof {
            if needle.len() == 0 {
                assert(hay.subrange(i, i + needle.len()) =~= needle);
            }
        }
        find_from(hay, needle, i + 1)
    }
}

/// Where a piece first occurs in a text (`str::find`).
pub open spec fn find_piece(hay: Seq<char>, needle: Seq<char>) -> Option<int> {
    find_from(hay, needle, 0)
}

/// Whether the pieces occur in a text one after another, each after the
/// end of the one before; an empty piece is passed over.
pub open spec fn pieces_in_order(rest: Seq<char>, parts: Seq<Seq<char>>) -> bool
    decreases parts.len(),
{
    if parts.len() == 0 {
        true
    } else if parts[0].len() == 0 {
        pieces_in_order(rest, parts.drop_first())
    } else {
        match find_piece(rest, parts[0]) {
            Some(i) => pieces_in_order(rest.skip(i + parts[0].len()), parts.drop_first()),
            None => false,
        }
    }
}

/// Whether a value matches a `LIKE` pattern whose `%` stands for any run of
/// characters: the piece before the first `%` must start the value, the
/// piece after the last `%` must end what is left after it, and the pieces
/// in between must then be found in order in what is left between them.
pub open spec fn spec_like(value: Seq<char>, pattern: Seq<char>) -> bool {
    let parts = split_percent(pattern);
    if parts.len() <= 1 {
        value == pattern
    } else {
        let starts = pattern.len() > 0 && pattern[0] == '%';
        let ends = pattern.len() > 0 && pattern.last() == '%';
        let first = parts[0];
        let last = parts.last();
        if !starts && !(value.len() >= first.len() && value.take(first.len() as int) == first) {
            false
        } else {
            let rest = if starts { value } else { value.skip(first.len() as int) };
            if !ends && !(rest.len() >= last.len() && rest.skip(rest.len() - last.len()) == last) {
                false
            } else {
                let rest = if ends { rest } else { rest.take(rest.len() - last.len()) };
                pieces_in_order(rest, parts.subrange(1, parts.len() - 1))
            }
        }
    }
}

} // verus!

verus! {

proof fn lemma_percent_scan(q: Seq<char>, m: int)
    requires
        0 <= m <= q.len(),
        forall|k: int| 0 <= k < m ==> q[k] != '%',
    ensures
        m < q.len() && q[m] == '%' ==> percent_at(q) == Some(m),
        m == q.len() ==> percent_at(q) is None,
    decreases m,
{
    if m > 0 {
        let r = q.drop_first();
        assert forall|k: int| 0 <= k < m - 1 implies r[k] != '%' by { assert(r[k] == q[k + 1]); }
        lemma_percent_scan(r, m - 1);
    }
}

/// The pieces of a pattern from position `start` on, cut at every `%`.
fn split_from(p: &Vec<char>, start: usize) -> (r: Vec<Vec<char>>)
    requires
        start <= p@.len(),
    ensures
        r@.map_values(|piece: Vec<char>| piece@) == split_percent(p@.skip(start as int)),
    decreases p@.len() - start,
{
    let mut j: usize = start;
    while j < p.len() && p[j] != '%'
        invariant
            start <= j <= p@.len(),
            forall|k: int| start <= k < j ==> p@[k] != '%',
        decreases p.len() - j,
    {
        j = j + 1;
    }
    let ghost q = p@.skip(start as int);
    proof {
        assert forall|k: int| 0 <= k < j - start implies q[k] != '%' by { assert(q[k] == p@[start + k]); }
        lemma_percent_scan(q, j - start);
    }
    let mut piece: Vec<char> = Vec::new();
    let mut k: usize = start;
    while k < j
        invariant
            start <= k <= j,
            j <= p@.len(),
            piece@ =~= p@.subrange(start as int, k as int),
        decreases j - k,
    {
        piece.push(p[k]);
        k = k + 1;
    }
    if j < p.len() {
        let mut rest = split_from(p, j + 1);
        let ghost tail = rest@;
        rest.insert(0, piece);
        proof {
            assert(q.take(j - start) =~= p@.subrange(start as int, j as int));
            assert(q.skip(j - start + 1) =~= p@.skip(j + 1));
            assert(rest@.map_values(|x: Vec<char>| x@) =~= seq![p@.subrange(start as int, j as int)] + tail.map_values(|x: Vec<char>| x@));
        }
        rest
    } else {
        let mut only: Vec<Vec<char>> = Vec::new();
        only.push(piece);
        proof {
            assert(q =~= p@.subrange(start as int, j as int));
            assert(only@.map_values(|x: Vec<char>| x@) =~= seq![q]);
        }
        only
    }
}

/// Whether `needle` sits in `hay` at position `i`.
fn sits_at(hay: &Vec<char>, needle: &Vec<char>, i: usize) -> (r: bool)
    requires
        i + needle@.len() <= hay@.len(),
    ensures
        r == (hay@.subrange(i as int, i + needle@.len()) == needle@),
{
    let mut k: usize = 0;
    while k < needle.len()
        invariant
            k <= needle@.len(),
            i + needle@.len() <= hay@.len(),
            forall|m: int| 0 <= m < k ==> hay@[i + m] == needle@[m],
        decreases needle.len() - k,
    {
        let len = hay.len();
        assert(i + k < len);
        if hay[i + k] != needle[k] {
            proof { assert(hay@.subrange(i as int, i + needle@.len())[k as int] != needle@[k as int]); }
            return false;
        }
        k = k + 1;
    }
    proof { assert(hay@.subrange(i as int, i + needle@.len()) =~= needle@); }
    true
}

/// Where `needle` first occurs in `hay` at or after position `from`.
fn find_in(hay: &Vec<char>, needle: &Vec<char>, from: usize) -> (r: Option<usize>)
    ensures
        match r {
            Some(i) => find_from(hay@, needle@, from as int) == Some(i as int) && i + needle@.len() <= hay@.len(),
            None => find_from(hay@, needle@, from as int) is None,
        },
    decreases hay@.len() - from,
{
    if from > hay.len() || needle.len() > hay.len() - from {
        return None;
    }
    if sits_at(hay, needle, from) {
        return Some(from);
    }
    proof {
        if needle@.len() == 0 {
            assert(hay@.subrange(from as int, from + needle@.len()) =~= needle@);
        }
    }
    find_in(hay, needle, from + 1)
}

/// Whether the pieces from `k` on occur in `rest` in order, as
/// `pieces_in_order` says.
fn in_order(rest: &Vec<char>, parts: &Vec<Vec<char>>, k: usize, stop: usize) -> (r: bool)
    requires
        k <= stop <= parts@.len(),
    ensures
        r == pieces_in_order(rest@, parts@.map_values(|x: Vec<char>| x@).subrange(k as int, stop as int)),
    decreases stop - k,
{
    let ghost ps = parts@.map_values(|x: Vec<char>| x@).subrange(k as int, stop as int);
    if k == stop {
        return true;
    }
    proof {
        assert(ps[0] == parts@[k as int]@);
        assert(ps.drop_first() =~= parts@.map_values(|x: Vec<char>| x@).subrange(k + 1, stop as int));
    }
    if parts[k].len() == 0 {
        return in_order(rest, parts, k + 1, stop);
    }
    match find_in(rest, &parts[k], 0) {
        Some(i) => {
            let len = rest.len();
            assert(i + parts[k as int]@.len() <= len);
            let mut tail: Vec<char> = Vec::new();
            let mut m: usize = i + parts[k].len();
            let from = m;
            while m < rest.len()
                invariant
                    from <= m <= rest@.len(),
                    tail@ =~= rest@.subrange(from as int, m as int),
                decreases rest.len() - m,
            {
                tail.push(rest[m]);
                m = m + 1;
            }
            proof { assert(tail@ =~= rest@.skip(from as int)); }
            in_order(&tail, parts, k + 1, stop)
        },
        None => false,
    }
}

/// Whether a value matches a `LIKE` pattern, `%` standing for any run of
/// characters.
pub fn like_match(value: &str, pattern: &str) -> (r: bool)
    ensures
        r == spec_like(value@, pattern@),
{
    let v = crate::text::chars_of(value);
    let p = crate::text::chars_of(pattern);
    let parts = split_from(&p, 0);
    proof { assert(p@.skip(0) =~= p@); }
    let ghost ps = parts@.map_values(|x: Vec<char>| x@);
    assert(ps.len() == parts@.len());
    assert(ps == split_percent(pattern@));
    if parts.len() <= 1 {
        if v.len() != p.len() {
            return false;
        }
        let mut i: usize = 0;
        while i < v.len()
            invariant
                i <= v@.len(),
                v@.len() == p@.len(),
                v@ == value@,
                p@ == pattern@,
                split_percent(pattern@).len() <= 1,
                forall|k: int| 0 <= k < i ==> v@[k] == p@[k],
            decreases v.len() - i,
        {
            if v[i] != p[i] {
                assert(v@[i as int] != p@[i as int]);
                return false;
            }
            i = i + 1;
        }
        proof { assert(v@ =~= p@); }
        return true;
    }
    let starts = p.len() > 0 && p[0] == '%';
    let ends = p.len() > 0 && p[p.len() - 1] == '%';
    let first = &parts[0];
    let last = &parts[parts.len() - 1];
    proof {
        assert(ps[0] == first@);
        assert(ps.last() == last@);
    }
    let mut rest: Vec<char> = Vec::new();
    if !starts {
        if v.len() < first.len() || !sits_at(&v, first, 0) {
            proof {
                if v@.len() >= first@.len() { assert(v@.take(first@.len() as int) =~= v@.subrange(0, first@.len() as int)); }
            }
            return false;
        }
        proof { assert(v@.take(first@.len() as int) =~= v@.subrange(0, first@.len() as int)); }
        let mut m: usize = first.len();
        while m < v.len()
            invariant
                first@.len() <= m <= v@.len(),
                rest@ =~= v@.subrange(first@.len() as int, m as int),
            decreases v.len() - m,
        {
            rest.push(v[m]);
            m = m + 1;
        }
        proof { assert(rest@ =~= v@.skip(first@.len() as int)); }
    } else {
        let mut m: usize = 0;
        while m < v.len()
            invariant
                m <= v@.len(),
                rest@ =~= v@.subrange(0, m as int),
            decreases v.len() - m,
        {
            rest.push(v[m]);
            m = m + 1;
        }
        proof { assert(rest@ =~= v@); }
    }
    let ghost rest1 = rest@;
    if !ends {
        if rest.len() < last.len() || !sits_at(&rest, last, rest.len() - last.len()) {
            proof {
                if rest@.len() >= last@.len() {
                    assert(rest@.skip(rest@.len() - last@.len()) =~= rest@.subrange(rest@.len() - last@.len(), rest@.len() as int));
                }
            }
            return false;
        }
        proof { assert(rest@.skip(rest@.len() - last@.len()) =~= rest@.subrange(rest@.len() - last@.len(), rest@.len() as int)); }
        let keep = rest.len() - last.len();
        rest.truncate(keep);
        proof { assert(rest@ =~= rest1.take(rest1.len() - last@.len())); }
    }
    let stop = parts.len() - 1;
    in_order(&rest, &parts, 1, stop)
}

} // verus!

verus! {

/// A pattern with no `%` in it matches exactly the text it spells.
pub proof fn lemma_like_without_percent(value: Seq<char>, pattern: Seq<char>)
    requires
        !pattern.contains('%'),
    ensures
        spec_like(value, pattern) == (value == pattern),
{
    lemma_percent_at(pattern);
    match percent_at(pattern) {
        Some(i) => { assert(pattern[i] == '%'); },
        None => {},
    }
    assert(split_percent(pattern).len() == 1);
}

} // verus!

verus! {

use crate::value::{Value, ValueView, Entry, EntryView, entry_views, lemma_entry_views, views, lemma_views, table_get, table_insert};

// ---------------------------------------------------------------------------
// What a store query does with the rows it found
// ---------------------------------------------------------------------------

/// The columns of a row a query asked for, each found one set in turn: the
/// first `n` columns.
pub open spec fn projected(row: Seq<EntryView>, columns: Seq<Seq<char>>, n: nat) -> Seq<EntryView>
    decreases n,
{
    if n == 0 || n > columns.len() {
        Seq::empty()
    } else {
        let before = projected(row, columns, (n - 1) as nat);
        match table_get(row, ValueView::Text(columns[n - 1])) {
            Some(v) => table_insert(before, ValueView::Text(columns[n - 1]), v),
            None => before,
        }
    }
}

/// A row cut down to the columns a query asked for, in the order it asked
/// for them; a column the row does not have is left out. A query that asked
/// for no columns gets the whole row.
pub fn project_row(row: Vec<Entry>, columns: &Option<Vec<String>>) -> (r: Value)
    ensures
        r@ == match columns {
            Some(c) => if c@.len() > 0 {
                ValueView::Table(projected(entry_views(row@), view_texts(c@), c@.len()))
            } else {
                ValueView::Table(entry_views(row@))
            },
            None => ValueView::Table(entry_views(row@)),
        },
{
    proof { lemma_entry_views(row@); }
    let columns = match columns {
        Some(c) => c,
        None => return Value::Table(row),
    };
    if columns.len() == 0 {
        return Value::Table(row);
    }
    let mut out: Vec<Entry> = Vec::new();
    let mut i: usize = 0;
    proof { lemma_entry_views(out@); }
    while i < columns.len()
        invariant
            i <= columns@.len(),
            entry_views(out@) == projected(entry_views(row@), view_texts(columns@), i as nat),
        decreases columns.len() - i,
    {
        let key = Value::Text(columns[i].clone());
        match crate::value::get_entry(&row, &key) {
            Some(v) => {
                let kept = crate::value::copy_value(v);
                crate::value::insert_entry(&mut out, key, kept);
            },
            None => {},
        }
        i = i + 1;
    }
    Value::Table(out)
}

/// The rows a query keeps once its offset and limit are applied: a negative
/// offset or limit counts as none at all.
pub open spec fn windowed<T>(rows: Seq<T>, offset: Option<i64>, limit: Option<i64>) -> Seq<T> {
    let after = match offset {
        Some(o) => {
            let skip: int = if o < 0 { 0 } else { o as int };
            if skip >= rows.len() { Seq::empty() } else { rows.skip(skip) }
        },
        None => rows,
    };
    match limit {
        Some(l) => {
            let keep: int = if l < 0 { 0 } else { l as int };
            if keep < after.len() { after.take(keep) } else { after }
        },
        None => after,
    }
}

/// Applies a query's offset and limit to the rows it found.
pub fn window(rows: Vec<Value>, offset: Option<i64>, limit: Option<i64>) -> (r: Vec<Value>)
    ensures
        r@ == windowed(rows@, offset, limit),
{
    let mut rows = rows;
    let ghost all = rows@;
    match offset {
        Some(o) => {
            let skip: u64 = if o < 0 { 0 } else { o as u64 };
            if skip >= rows.len() as u64 {
                rows = Vec::new();
                assert(rows@ =~= Seq::<Value>::empty());
            } else {
                let rest = rows.split_off(skip as usize);
                rows = rest;
                assert(rows@ =~= all.skip(skip as int));
            }
        },
        None => {},
    }
    let ghost after = rows@;
    match limit {
        Some(l) => {
            let keep: u64 = if l < 0 { 0 } else { l as u64 };
            if keep < rows.len() as u64 {
                rows.truncate(keep as usize);
                assert(rows@ =~= after.take(keep as int));
            }
        },
        None => {},
    }
    rows
}

// ---------------------------------------------------------------------------
// Whole numbers written as text
// ---------------------------------------------------------------------------

/// The number a run of decimal digits spells.
pub open spec fn digits_value(s: Seq<char>) -> int
    decreases s.len(),
{
    if s.len() == 0 { 0 } else { digits_value(s.drop_last()) * 10 + (s.last() as int - '0' as int) }
}

/// At least one character, and every one a decimal digit.
pub open spec fn all_digits(s: Seq<char>) -> bool {
    s.len() > 0 && forall|i: int| 0 <= i < s.len() ==> '0' <= #[trigger] s[i] && s[i] <= '9'
}

/// The whole number a text spells (`str::parse::<i64>`, before the range
/// check): an optional `+` or `-`, then decimal digits, nothing else.
pub open spec fn whole_of(s: Seq<char>) -> Option<int> {
    if s.len() > 0 && (s[0] == '+' || s[0] == '-') {
        if all_digits(s.drop_first()) {
            Some(if s[0] == '-' { -digits_value(s.drop_first()) } else { digits_value(s.drop_first()) })
        } else {
            None
        }
    } else if all_digits(s) {
        Some(digits_value(s))
    } else {
        None
    }
}

/// The whole number a text spells, when it fits in an `Int`.
pub open spec fn parsed_whole(s: Seq<char>) -> Option<i64> {
    match whole_of(s) {
        Some(n) => if i64::MIN <= n <= i64::MAX { Some(n as i64) } else { None },
        None => None,
    }
}

proof fn lemma_digits_value_grows(s: Seq<char>, i: int)
    requires
        0 <= i <= s.len(),
        forall|k: int| 0 <= k < s.len() ==> '0' <= #[trigger] s[k] && s[k] <= '9',
    ensures
        digits_value(s.take(i)) <= digits_value(s),
        0 <= digits_value(s.take(i)),
    decreases s.len() - i,
{
    if i < s.len() {
        lemma_digits_value_grows(s, i + 1);
        assert(s.take(i + 1).drop_last() =~= s.take(i));
        lemma_digits_value_nonnegative(s.take(i));
    } else {
        assert(s.take(i) =~= s);
        lemma_digits_value_nonnegative(s);
    }
}

proof fn lemma_digits_value_nonnegative(s: Seq<char>)
    requires
        forall|k: int| 0 <= k < s.len() ==> '0' <= #[trigger] s[k] && s[k] <= '9',
    ensures
        0 <= digits_value(s),
    decreases s.len(),
{
    if s.len() > 0 {
        lemma_digits_value_nonnegative(s.drop_last());
    }
}

/// The value of the digits of `s` from `from` on, or none when they are
/// not all digits or spell more than `2^63`.
fn digits_from(s: &Vec<char>, from: usize) -> (r: Option<u64>)
    requires
        from <= s@.len(),
    ensures
        match r {
            Some(n) => all_digits(s@.skip(from as int)) && n == digits_value(s@.skip(from as int))
                && n <= 0x8000_0000_0000_0000u64,
            None => !all_digits(s@.skip(from as int)) || digits_value(s@.skip(from as int)) > 0x8000_0000_0000_0000,
        },
{
    let ghost rest = s@.skip(from as int);
    if from >= s.len() {
        return None;
    }
    let mut acc: u64 = 0;
    let mut i: usize = from;
    while i < s.len()
        invariant
            from <= i <= s@.len(),
            rest == s@.skip(from as int),
            forall|k: int| from <= k < i ==> '0' <= #[trigger] s@[k] && s@[k] <= '9',
            acc == digits_value(rest.take(i - from)),
            acc <= 0x8000_0000_0000_0000,
        decreases s.len() - i,
    {
        let c = s[i];
        if !('0' <= c && c <= '9') {
            proof { assert(rest[i - from] == c); }
            return None;
        }
        let d = (c as u32 - '0' as u32) as u64;
        proof {
            assert(rest.take(i + 1 - from).drop_last() =~= rest.take(i - from));
            assert(rest.take(i + 1 - from).last() == c);
        }
        if acc > 0x0CCC_CCCC_CCCC_CCCC || acc * 10 + d > 0x8000_0000_0000_0000 {
            proof {
                assert forall|k: int| 0 <= k < rest.len() implies '0' <= #[trigger] rest[k] && rest[k] <= '9' || !all_digits(rest) by {}
                if all_digits(rest) {
                    lemma_digits_value_grows(rest, i + 1 - from);
                }
            }
            return None;
        }
        acc = acc * 10 + d;
        i = i + 1;
    }
    proof {
        assert(rest.take(i - from) =~= rest);
        assert forall|k: int| 0 <= k < rest.len() implies '0' <= #[trigger] rest[k] && rest[k] <= '9' by {
            assert(rest[k] == s@[k + from]);
        }
    }
    Some(acc)
}

/// The whole number a text spells, as `str::parse::<i64>` reads it.
pub fn parse_whole(text: &str) -> (r: Option<i64>)
    ensures
        r == parsed_whole(text@),
{
    let s = crate::text::chars_of(text);
    if s.len() == 0 {
        return None;
    }
    let signed = s[0] == '+' || s[0] == '-';
    let from: usize = if signed { 1 } else { 0 };
    proof {
        assert(s@.skip(1) =~= s@.drop_first());
        assert(s@.skip(0) =~= s@);
        if !signed && all_digits(s@) {
        }
    }
    let ghost rest = s@.skip(from as int);
    assert(s@ == text@);
    assert(signed ==> rest == s@.drop_first());
    assert(!signed ==> rest == s@);
    match digits_from(&s, from) {
        Some(n) => {
            if s[0] == '-' {
                if n == 0x8000_0000_0000_0000u64 {
                    Some(i64::MIN)
                } else {
                    assert(n < 0x8000_0000_0000_0000u64);
                    let m: i64 = n as i64;
                    Some(-m)
                }
            } else if n > 0x7fff_ffff_ffff_ffffu64 {
                None
            } else {
                Some(n as i64)
            }
        },
        None => {
            proof {
                if !signed && all_digits(s@) {
                    assert(s@[0] != '+' && s@[0] != '-');
                }
            }
            None
        },
    }
}

/// The count a `COUNT(*)` query read: the first cell of its first row that
/// spells a whole number.
pub open spec fn first_whole(entries: Seq<EntryView>) -> Option<i64>
    decreases entries.len(),
{
    if entries.len() == 0 {
        None
    } else {
        match entries[0].1 {
            ValueView::Text(t) => match parsed_whole(t) {
                Some(n) => Some(n),
                None => first_whole(entries.drop_first()),
            },
            _ => first_whole(entries.drop_first()),
        }
    }
}

/// The number a `COUNT(*)` query came to: the first cell of the first row
/// that spells a whole number, or 0 when there is none.
pub fn count_from_rows(rows: &Value) -> (r: Result<i64, String>)
    ensures
        match rows@ {
            ValueView::List(items) => r matches Ok(n) && n == if items.len() > 0 && items[0] is Table {
                match first_whole(items[0]->Table_0) { Some(k) => k, None => 0 }
            } else {
                0
            },
            _ => r matches Err(m) && m@ == "count did not return a list"@,
        },
{
    proof { crate::value::lemma_view_kind(*rows); }
    let items = match rows {
        Value::List(items) => items,
        _ => return Err(String::from_str("count did not return a list")),
    };
    proof { lemma_views(items@); }
    if items.len() == 0 {
        return Ok(0);
    }
    proof { crate::value::lemma_view_kind(items@[0]); }
    let entries = match &items[0] {
        Value::Table(entries) => entries,
        _ => return Ok(0),
    };
    proof { lemma_entry_views(entries@); }
    let ghost es = entry_views(entries@);
    assert(views(items@)[0] == items@[0]@);
    assert(items@[0]@ == ValueView::Table(es));
    assert(es.skip(0) =~= es);
    let mut i: usize = 0;
    while i < entries.len()
        invariant
            i <= entries@.len(),
            rows@ == ValueView::List(views(items@)),
            views(items@).len() > 0,
            views(items@)[0] == ValueView::Table(es),
            es == entry_views(entries@),
            es.len() == entries@.len(),
            forall|k: int| 0 <= k < entries@.len() ==> #[trigger] es[k] == crate::value::entry_view(entries@[k]),
            first_whole(es) == first_whole(es.skip(i as int)),
        decreases entries.len() - i,
    {
        let ghost rest = es.skip(i as int);
        assert(rest[0] == es[i as int]);
        assert(rest.drop_first() =~= es.skip(i + 1));
        proof { crate::value::lemma_view_kind(entries@[i as int].value); }
        assert(es[i as int] == crate::value::entry_view(entries@[i as int]));
        assert(es[i as int].1 == entries@[i as int].value@);
        match &entries[i].value {
            Value::Text(t) => {
                assert(entries@[i as int].value@ == ValueView::Text(t@));
                match parse_whole(t.as_str()) {
                    Some(n) => {
                        assert(first_whole(rest) == Some(n));
                        return Ok(n);
                    },
                    None => {},
                }
            },
            _ => {},
        }
        i = i + 1;
    }
    assert(es.skip(i as int).len() == 0);
    Ok(0)
}

} // verus!

verus! {


/// Where one value sorts against another.
#[derive(Clone, Copy, Debug, PartialEq, Eq, Structural)]
pub enum Sorted {
    Before,
    Same,
    After,
}

/// Where text sorts against other text, character by character.
pub open spec fn text_sorted(a: Seq<char>, b: Seq<char>) -> Sorted {
    let order = crate::ops::text_order(a, b);
    if order < 0 { Sorted::Before } else if order == 0 { Sorted::Same } else { Sorted::After }
}

/// Whether one predicate holds of the text in its column. `numeric` is how
/// the two sides compare as numbers, when both read as numbers; otherwise
/// they compare as text.
pub open spec fn predicate_holds(compare: Compare, cell: Seq<char>, value: Seq<char>, numeric: Option<Sorted>) -> bool {
    let order = match numeric { Some(o) => o, None => text_sorted(cell, value) };
    match compare {
        Compare::Eq => cell == value,
        Compare::Not => cell != value,
        Compare::Gt => order == Sorted::After,
        Compare::Gte => order != Sorted::Before,
        Compare::Lt => order == Sorted::Before,
        Compare::Lte => order != Sorted::After,
        Compare::Like => spec_like(cell, value),
    }
}

/// The text a row holds in each predicate's column, or none when some
/// predicate's column is missing or holds something other than text (a row
/// like that matches no query with that predicate).
pub fn predicate_cells(row: &Vec<Entry>, predicates: &Vec<Predicate>) -> (r: Option<Vec<String>>)
    ensures
        match r {
            Some(cells) => cells@.len() == predicates@.len()
                && forall|i: int| 0 <= i < cells@.len() ==> table_get(entry_views(row@), ValueView::Text((#[trigger] predicates@[i]).column@))
                    == Some(ValueView::Text(cells@[i]@)),
            None => exists|i: int| 0 <= i < predicates@.len() && !(table_get(entry_views(row@), ValueView::Text((#[trigger] predicates@[i]).column@)) matches Some(ValueView::Text(_))),
        },
{
    let mut cells: Vec<String> = Vec::new();
    let mut i: usize = 0;
    while i < predicates.len()
        invariant
            i <= predicates@.len(),
            cells@.len() == i,
            forall|k: int| 0 <= k < i ==> table_get(entry_views(row@), ValueView::Text((#[trigger] predicates@[k]).column@))
                == Some(ValueView::Text(cells@[k]@)),
        decreases predicates.len() - i,
    {
        let key = Value::Text(predicates[i].column.clone());
        match crate::value::get_entry(row, &key) {
            Some(v) => {
                proof { crate::value::lemma_view_kind(*v); }
                match v {
                    Value::Text(t) => {
                        cells.push(t.clone());
                    },
                    _ => {
                        return None;
                    },
                }
            },
            None => {
                return None;
            },
        }
        i = i + 1;
    }
    Some(cells)
}

/// Whether every predicate holds of its cell.
pub fn predicates_hold(cells: &Vec<String>, predicates: &Vec<Predicate>, numeric: &Vec<Option<Sorted>>) -> (r: bool)
    requires
        cells@.len() == predicates@.len(),
        numeric@.len() == predicates@.len(),
    ensures
        r == forall|i: int| 0 <= i < predicates@.len() ==> predicate_holds((#[trigger] predicates@[i]).compare,
            cells@[i]@, predicates@[i].value@, numeric@[i]),
{
    let mut i: usize = 0;
    while i < predicates.len()
        invariant
            i <= predicates@.len(),
            cells@.len() == predicates@.len(),
            numeric@.len() == predicates@.len(),
            forall|k: int| 0 <= k < i ==> predicate_holds((#[trigger] predicates@[k]).compare,
                cells@[k]@, predicates@[k].value@, numeric@[k]),
        decreases predicates.len() - i,
    {
        let cell = &cells[i];
        let value = &predicates[i].value;
        let order = match numeric[i] {
            Some(o) => o,
            None => {
                let order = crate::ops::compare_texts(cell.as_str(), value.as_str());
                if order < 0 { Sorted::Before } else if order == 0 { Sorted::Same } else { Sorted::After }
            },
        };
        let holds = match predicates[i].compare {
            Compare::Eq => crate::text::text_equal(cell, value),
            Compare::Not => !crate::text::text_equal(cell, value),
            Compare::Gt => order == Sorted::After,
            Compare::Gte => order != Sorted::Before,
            Compare::Lt => order == Sorted::Before,
            Compare::Lte => order != Sorted::After,
            Compare::Like => like_match(cell.as_str(), value.as_str()),
        };
        if !holds {
            return false;
        }
        i = i + 1;
    }
    true
}

} // verus!

verus! {

/// The row a store entry reads as, before any of its JSON fields: `key` and
/// `value`, then each field set in turn (the first `n`).
pub open spec fn store_row_entries(key: Seq<char>, value: Seq<char>, fields: Seq<(Seq<char>, Seq<char>)>, n: nat) -> Seq<EntryView>
    decreases n,
{
    if n == 0 || n > fields.len() {
        table_insert(
            table_insert(Seq::empty(), ValueView::Text("key"@), ValueView::Text(key)),
            ValueView::Text("value"@), ValueView::Text(value))
    } else {
        table_insert(store_row_entries(key, value, fields, (n - 1) as nat),
            ValueView::Text(fields[n - 1].0), ValueView::Text(fields[n - 1].1))
    }
}

/// The row a store entry reads as in a query: its key under `key`, its
/// value under `value`, and, when the value is a JSON object, each of its
/// fields (given here already written as text) under its own name.
pub fn store_row(key: &String, value: &String, fields: &Vec<(String, String)>) -> (r: Vec<Entry>)
    ensures
        entry_views(r@) == store_row_entries(key@, value@,
            crate::outside::pair_views(fields@), fields@.len()),
{
    let mut row: Vec<Entry> = Vec::new();
    proof { lemma_entry_views(row@); }
    crate::value::insert_entry(&mut row, Value::text("key"), Value::Text(key.clone()));
    crate::value::insert_entry(&mut row, Value::text("value"), Value::Text(value.clone()));
    let ghost pairs = crate::outside::pair_views(fields@);
    let mut i: usize = 0;
    while i < fields.len()
        invariant
            i <= fields@.len(),
            pairs == crate::outside::pair_views(fields@),
            entry_views(row@) == store_row_entries(key@, value@, pairs, i as nat),
        decreases fields.len() - i,
    {
        assert(pairs[i as int] == (fields@[i as int].0@, fields@[i as int].1@));
        crate::value::insert_entry(&mut row, Value::Text(fields[i].0.clone()), Value::Text(fields[i].1.clone()));
        i = i + 1;
    }
    row
}

} // verus!

verus! {

/// The key a store query writes a row under: the row's own key, with the
/// query's prefix put in front unless it is empty or already there.
pub fn store_key(prefix: &String, key: &String) -> (r: String)
    ensures
        r@ == if prefix@.len() == 0 || crate::store::begins(key@, prefix@) { key@ } else { prefix@ + key@ },
{
    let chars = crate::text::chars_of(key.as_str());
    if prefix.as_str().is_empty() || crate::text::starts_with_text(&chars, prefix.as_str()) {
        return key.clone();
    }
    let mut out = prefix.clone();
    crate::text::push_text(&mut out, key.as_str());
    out
}

} // verus!

verus! {

/// The query a value holds, or why it holds none.
pub fn as_query(value: &Value) -> (r: Result<Query, String>)
    ensures
        match value@ {
            ValueView::Query(q) => r matches Ok(got) && got@ == q,
            _ => r matches Err(e) && e@ == "expected a Query"@,
        },
{
    match value {
        Value::Query(query) => Ok(copy_query(query)),
        _ => Err(String::from_str("expected a Query")),
    }
}

/// A query as a value.
pub fn wrap(query: Query) -> (r: Value)
    ensures
        r@ == ValueView::Query(query@),
{
    Value::Query(Box::new(query))
}

} // verus!

verus! {

/// A pattern of a `%` followed by text with no `%` in it matches exactly the
/// values that end with that text.
pub proof fn lemma_like_ends_with(value: Seq<char>, tail: Seq<char>)
    requires
        !tail.contains('%'),
    ensures
        spec_like(value, seq!['%'] + tail)
            == (value.len() >= tail.len() && value.skip(value.len() - tail.len()) == tail),
{
    let pattern = seq!['%'] + tail;
    assert(pattern[0] == '%');
    assert(percent_at(pattern) == Some(0int));
    assert(pattern.take(0) =~= Seq::<char>::empty());
    assert(pattern.skip(1) =~= tail);
    lemma_percent_at(tail);
    match percent_at(tail) {
        Some(i) => { assert(tail[i] == '%'); },
        None => {},
    }
    assert(split_percent(tail) == seq![tail]);
    let parts = split_percent(pattern);
    assert(parts =~= seq![Seq::<char>::empty(), tail]);
    assert(parts.subrange(1, parts.len() - 1) =~= Seq::<Seq<char>>::empty());
    assert(parts.len() == 2 && parts[0].len() == 0 && parts.last() == tail);
    assert(forall|rest: Seq<char>| pieces_in_order(rest, Seq::<Seq<char>>::empty()));
    assert(pattern.len() > 0 && pattern[0] == '%');
    if tail.len() > 0 {
        assert(pattern.last() == tail.last());
        assert(tail.last() != '%') by {
            if tail.last() == '%' { assert(tail[tail.len() - 1] == '%'); }
        }
        let ok = value.len() >= tail.len() && value.skip(value.len() - tail.len()) == tail;
        if ok {
            let rest = value.take(value.len() - tail.len());
            assert(pieces_in_order(rest, parts.subrange(1, parts.len() - 1)));
            assert(spec_like(value, pattern));
        } else {
            assert(!spec_like(value, pattern));
        }
    } else {
        assert(pattern =~= seq!['%']);
        assert(tail =~= Seq::<char>::empty());
        assert(value.skip(value.len() - 0) =~= Seq::<char>::empty());
        assert(pattern.last() == '%');
        assert(spec_like(value, pattern));
    }
}

} // verus!

verus! {

/// Whether the pieces sit in a text one after another at the given places,
/// none running into the next: piece `j` starts at `at[j]`.
pub open spec fn placed(text: Seq<char>, parts: Seq<Seq<char>>, at: Seq<int>) -> bool {
    &&& at.len() == parts.len()
    &&& forall|j: int| 0 <= j < parts.len() ==> 0 <= #[trigger] at[j] && at[j] + parts[j].len() <= text.len()
        && text.subrange(at[j], at[j] + parts[j].len()) == parts[j]
    &&& forall|j: int| 0 <= j < parts.len() - 1 ==> #[trigger] at[j] + parts[j].len() <= at[j + 1]
}

/// Where `find_from` stops is an occurrence at or after the start, and no
/// occurrence from the start on comes before it.
proof fn lemma_find_from(hay: Seq<char>, needle: Seq<char>, i: int, p: int)
    requires
        0 <= i,
    ensures
        find_from(hay, needle, i) matches Some(f) ==> i <= f && f + needle.len() <= hay.len()
            && hay.subrange(f, f + needle.len()) == needle,
        (i <= p && p + needle.len() <= hay.len() && hay.subrange(p, p + needle.len()) == needle)
            ==> (find_from(hay, needle, i) matches Some(f) && f <= p),
    decreases hay.len() - i,
{
    if i + needle.len() <= hay.len() && hay.subrange(i, i + needle.len()) != needle {
        if needle.len() == 0 {
            assert(hay.subrange(i, i + needle.len()) =~= needle);
        }
        lemma_find_from(hay, needle, i + 1, p);
    }
}

/// A text cut after `a` holds what the text holds from `a` on.
proof fn lemma_skip_subrange(t: Seq<char>, a: int, x: int, y: int)
    requires
        0 <= a <= t.len(),
        0 <= x <= y <= t.len() - a,
    ensures
        t.skip(a).subrange(x, y) == t.subrange(a + x, a + y),
{
    assert(t.skip(a).subrange(x, y) =~= t.subrange(a + x, a + y));
}

/// Every piece after the first sits after the end of the first.
proof fn lemma_placed_after_first(text: Seq<char>, parts: Seq<Seq<char>>, at: Seq<int>, j: int)
    requires
        placed(text, parts, at),
        1 <= j < parts.len(),
    ensures
        at[0] + parts[0].len() <= at[j],
    decreases j,
{
    if j > 1 {
        lemma_placed_after_first(text, parts, at, j - 1);
        assert(at[j - 1] + parts[j - 1].len() <= at[j]);
    } else {
        assert(at[0] + parts[0].len() <= at[1]);
    }
}

/// Pieces found in order one after another can be placed so.
#[verifier::rlimit(50)]
proof fn lemma_in_order_places(rest: Seq<char>, parts: Seq<Seq<char>>)
    requires
        pieces_in_order(rest, parts),
    ensures
        exists|at: Seq<int>| #[trigger] placed(rest, parts, at),
    decreases parts.len(),
{
    if parts.len() == 0 {
        assert(placed(rest, parts, Seq::<int>::empty()));
        return;
    }
    let tail = parts.drop_first();
    let n0 = parts[0].len() as int;
    let (skip, r2) = if n0 == 0 {
        (0int, rest)
    } else {
        let f = find_piece(rest, parts[0])->0;
        lemma_find_from(rest, parts[0], 0, 0);
        (f + n0, rest.skip(f + n0))
    };
    if n0 == 0 {
        assert(rest.skip(0) =~= rest);
    }
    lemma_in_order_places(r2, tail);
    let q = choose|q: Seq<int>| #[trigger] placed(r2, tail, q);
    let at = seq![skip - n0].add(q.map_values(|x: int| x + skip));
    assert forall|j: int| 0 <= j < parts.len() implies 0 <= #[trigger] at[j] && at[j] + parts[j].len() <= rest.len()
        && rest.subrange(at[j], at[j] + parts[j].len()) == parts[j] by {
        if j == 0 {
            assert(rest.subrange(skip - n0, skip) =~= parts[0]) by {
                if n0 == 0 { assert(rest.subrange(0, 0) =~= Seq::<char>::empty()); }
            }
        } else {
            assert(tail[j - 1] == parts[j]);
            assert(at[j] == q[j - 1] + skip);
            assert(0 <= q[j - 1] && q[j - 1] + tail[j - 1].len() <= r2.len());
            lemma_skip_subrange(rest, skip, q[j - 1], q[j - 1] + tail[j - 1].len());
            if n0 == 0 { assert(rest.skip(0) =~= rest); }
        }
    }
    assert forall|j: int| 0 <= j < parts.len() - 1 implies #[trigger] at[j] + parts[j].len() <= at[j + 1] by {
        assert(tail[j] == parts[j + 1]);
        if j == 0 {
            assert(0 <= q[0]);
        } else {
            assert(q[j - 1] + tail[j - 1].len() <= q[j]);
        }
    }
    assert(placed(rest, parts, at));
}

/// Pieces that can be placed in order one after another are found so.
#[verifier::rlimit(50)]
proof fn lemma_placed_in_order(rest: Seq<char>, parts: Seq<Seq<char>>, at: Seq<int>)
    requires
        placed(rest, parts, at),
    ensures
        pieces_in_order(rest, parts),
    decreases parts.len(),
{
    if parts.len() == 0 {
        return;
    }
    let tail = parts.drop_first();
    let n0 = parts[0].len() as int;
    let p = at[0];
    let (skip, r2) = if n0 == 0 {
        (0int, rest)
    } else {
        lemma_find_from(rest, parts[0], 0, p);
        let f = find_piece(rest, parts[0])->0;
        (f + n0, rest.skip(f + n0))
    };
    if n0 == 0 {
        assert(rest.skip(0) =~= rest);
    }
    let q = at.drop_first().map_values(|x: int| x - skip);
    assert forall|j: int| 0 <= j < tail.len() implies 0 <= #[trigger] q[j] && q[j] + tail[j].len() <= r2.len()
        && r2.subrange(q[j], q[j] + tail[j].len()) == tail[j] by {
        assert(tail[j] == parts[j + 1]);
        lemma_placed_after_first(rest, parts, at, j + 1);
        lemma_skip_subrange(rest, skip, q[j], q[j] + tail[j].len());
    }
    assert forall|j: int| 0 <= j < tail.len() - 1 implies #[trigger] q[j] + tail[j].len() <= q[j + 1] by {
        assert(tail[j] == parts[j + 1]);
        assert(at[j + 1] + parts[j + 1].len() <= at[j + 2]);
    }
    assert(placed(r2, tail, q));
    lemma_placed_in_order(r2, tail, q);
}

/// Finding the pieces in order one after another succeeds exactly when
/// they can be placed so.
proof fn lemma_in_order_placed(rest: Seq<char>, parts: Seq<Seq<char>>)
    ensures
        pieces_in_order(rest, parts) <==> exists|at: Seq<int>| #[trigger] placed(rest, parts, at),
{
    if pieces_in_order(rest, parts) {
        lemma_in_order_places(rest, parts);
    }
    if exists|at: Seq<int>| #[trigger] placed(rest, parts, at) {
        let at = choose|at: Seq<int>| #[trigger] placed(rest, parts, at);
        lemma_placed_in_order(rest, parts, at);
    }
}

} // verus!

verus! {

/// Each piece sits before every later one.
proof fn lemma_placed_order(text: Seq<char>, parts: Seq<Seq<char>>, at: Seq<int>, i: int, j: int)
    requires
        placed(text, parts, at),
        0 <= i < j < parts.len(),
    ensures
        at[i] + parts[i].len() <= at[j],
    decreases j - i,
{
    if j > i + 1 {
        lemma_placed_order(text, parts, at, i, j - 1);
        assert(at[j - 1] + parts[j - 1].len() <= at[j]);
        assert(at[j - 1] >= 0 && parts[j - 1].len() >= 0);
    } else {
        assert(at[i] + parts[i].len() <= at[i + 1]);
    }
}

/// A pattern that starts with `%` has an empty first piece.
proof fn lemma_split_starts_empty(p: Seq<char>)
    requires
        p.len() > 0,
        p[0] == '%',
    ensures
        split_percent(p).len() >= 2,
        split_percent(p)[0].len() == 0,
{
    lemma_percent_at(p);
    assert(percent_at(p) == Some(0int));
    lemma_split_nonempty(p.skip(1));
}

/// A pattern that ends with `%` has an empty last piece.
proof fn lemma_split_ends_empty(p: Seq<char>)
    requires
        p.len() > 0,
        p.last() == '%',
    ensures
        split_percent(p).len() >= 2,
        split_percent(p).last().len() == 0,
    decreases p.len(),
{
    lemma_percent_at(p);
    let i = percent_at(p)->0;
    let rest = p.skip(i + 1);
    lemma_split_nonempty(rest);
    if i == p.len() - 1 {
        assert(rest =~= Seq::<char>::empty());
        lemma_percent_at(rest);
        assert(split_percent(rest) == seq![rest]);
    } else {
        assert(rest.last() == p.last());
        lemma_split_ends_empty(rest);
    }
}

/// A pattern has at least one piece.
proof fn lemma_split_nonempty(p: Seq<char>)
    ensures
        split_percent(p).len() >= 1,
    decreases p.len(),
{
    lemma_percent_at(p);
    match percent_at(p) {
        Some(i) => lemma_split_nonempty(p.skip(i + 1)),
        None => {},
    }
}

/// What a value must hold for `like_match` of a pattern with a `%`: the
/// first piece at its start, the last at its end, not overlapping, and the
/// pieces between found in order in what lies between those two.
pub open spec fn like_cut(value: Seq<char>, parts: Seq<Seq<char>>) -> bool {
    let f = parts[0].len() as int;
    let l = parts.last().len() as int;
    let n = value.len() as int;
    &&& n >= f + l
    &&& value.take(f) == parts[0]
    &&& value.skip(n - l) == parts.last()
    &&& pieces_in_order(value.subrange(f, n - l), parts.subrange(1, parts.len() - 1))
}

/// `spec_like` of a pattern with a `%` is `like_cut`.
#[verifier::rlimit(50)]
proof fn lemma_like_cut(value: Seq<char>, pattern: Seq<char>)
    requires
        split_percent(pattern).len() >= 2,
    ensures
        spec_like(value, pattern) == like_cut(value, split_percent(pattern)),
{
    let parts = split_percent(pattern);
    let first = parts[0];
    let last = parts.last();
    let f = first.len() as int;
    let l = last.len() as int;
    let n = value.len() as int;
    let starts = pattern.len() > 0 && pattern[0] == '%';
    let ends = pattern.len() > 0 && pattern.last() == '%';
    if starts {
        lemma_split_starts_empty(pattern);
        assert(value.take(0) =~= first);
        assert(value.skip(0) =~= value);
    }
    if ends {
        lemma_split_ends_empty(pattern);
        assert(value.skip(n - 0) =~= last);
    }
    let rest = if starts { value } else { value.skip(f) };
    if n >= f {
        assert(rest =~= value.skip(f));
        if rest.len() >= l {
            assert(rest.skip(rest.len() - l) =~= value.skip(n - l));
            assert(rest.take(rest.len() - l) =~= value.subrange(f, n - l));
            if ends {
                assert(rest.take(rest.len() - 0) =~= rest);
            }
        }
    }
}

/// A value cut so holds the pieces in order, anchored at both ends.
#[verifier::rlimit(50)]
proof fn lemma_cut_places(value: Seq<char>, parts: Seq<Seq<char>>)
    requires
        parts.len() >= 2,
        like_cut(value, parts),
    ensures
        exists|at: Seq<int>| #[trigger] placed(value, parts, at) && at[0] == 0 && at.last() + parts.last().len() == value.len(),
{
    let k = parts.len() as int;
    let f = parts[0].len() as int;
    let l = parts.last().len() as int;
    let n = value.len() as int;
    let mid = parts.subrange(1, k - 1);
    let r = value.subrange(f, n - l);
    lemma_in_order_places(r, mid);
    let q = choose|q: Seq<int>| #[trigger] placed(r, mid, q);
    let at = seq![0int] + q.map_values(|x: int| x + f) + seq![n - l];
    assert(at.len() == k);
    assert forall|j: int| 0 <= j < k implies 0 <= #[trigger] at[j] && at[j] + parts[j].len() <= n
        && value.subrange(at[j], at[j] + parts[j].len()) == parts[j] by {
        if j == 0 {
            assert(value.subrange(0, f) =~= value.take(f));
        } else if j == k - 1 {
            assert(value.subrange(n - l, n) =~= value.skip(n - l));
        } else {
            assert(mid[j - 1] == parts[j]);
            assert(at[j] == q[j - 1] + f);
            assert(r.subrange(q[j - 1], q[j - 1] + mid[j - 1].len())
                =~= value.subrange(q[j - 1] + f, q[j - 1] + f + mid[j - 1].len()));
        }
    }
    assert forall|j: int| 0 <= j < k - 1 implies #[trigger] at[j] + parts[j].len() <= at[j + 1] by {
        if j == 0 {
            if k > 2 { assert(at[1] == q[0] + f); assert(q[0] >= 0); }
        } else if j == k - 2 {
            assert(mid[j - 1] == parts[j]);
            assert(q[j - 1] + mid[j - 1].len() <= r.len());
        } else {
            assert(mid[j - 1] == parts[j] && mid[j] == parts[j + 1]);
            assert(q[j - 1] + mid[j - 1].len() <= q[j]);
        }
    }
    assert(placed(value, parts, at));
    assert(at.last() == n - l);
}

/// Pieces placed in order, anchored at both ends, cut the value so.
#[verifier::rlimit(50)]
proof fn lemma_places_cut(value: Seq<char>, parts: Seq<Seq<char>>, at: Seq<int>)
    requires
        parts.len() >= 2,
        placed(value, parts, at),
        at[0] == 0,
        at.last() + parts.last().len() == value.len(),
    ensures
        like_cut(value, parts),
{
    let k = parts.len() as int;
    let f = parts[0].len() as int;
    let l = parts.last().len() as int;
    let n = value.len() as int;
    let mid = parts.subrange(1, k - 1);
    let r = value.subrange(f, n - l);
    assert(at[k - 1] == at.last());
    lemma_placed_order(value, parts, at, 0, k - 1);
    assert(value.take(f) =~= value.subrange(0, f));
    assert(value.skip(n - l) =~= value.subrange(n - l, n));
    let q = at.subrange(1, k - 1).map_values(|x: int| x - f);
    assert forall|j: int| 0 <= j < mid.len() implies 0 <= #[trigger] q[j] && q[j] + mid[j].len() <= r.len()
        && r.subrange(q[j], q[j] + mid[j].len()) == mid[j] by {
        assert(mid[j] == parts[j + 1]);
        lemma_placed_order(value, parts, at, 0, j + 1);
        lemma_placed_order(value, parts, at, j + 1, k - 1);
        assert(r.subrange(q[j], q[j] + mid[j].len()) =~= value.subrange(at[j + 1], at[j + 1] + parts[j + 1].len()));
    }
    assert forall|j: int| 0 <= j < mid.len() - 1 implies #[trigger] q[j] + mid[j].len() <= q[j + 1] by {
        assert(mid[j] == parts[j + 1]);
        assert(at[j + 1] + parts[j + 1].len() <= at[j + 2]);
    }
    assert(placed(r, mid, q));
    lemma_placed_in_order(r, mid, q);
}

/// A value matches a pattern with a `%` in it exactly when the pattern's
/// pieces can be placed in it in order with anything between them, the
/// first at the very start and the last at the very end.
pub proof fn lemma_like_is_pieces_with_anything_between(value: Seq<char>, pattern: Seq<char>)
    requires
        split_percent(pattern).len() >= 2,
    ensures
        spec_like(value, pattern) <==> exists|at: Seq<int>| #[trigger] placed(value, split_percent(pattern), at)
            && at[0] == 0 && at.last() + split_percent(pattern).last().len() == value.len(),
{
    let parts = split_percent(pattern);
    lemma_like_cut(value, pattern);
    if like_cut(value, parts) {
        lemma_cut_places(value, parts);
    }
    if exists|at: Seq<int>| #[trigger] placed(value, parts, at) && at[0] == 0 && at.last() + parts.last().len() == value.len() {
        let at = choose|at: Seq<int>| #[trigger] placed(value, parts, at) && at[0] == 0 && at.last() + parts.last().len() == value.len();
        lemma_places_cut(value, parts, at);
    }
}

} // verus!

verus! {

/// The text a row holds under a text key `name`: the first entry whose key
/// is that text and whose value is text.
pub open spec fn text_field_of(row: Seq<crate::value::EntryView>, name: Seq<char>) -> Option<Seq<char>>
    decreases row.len(),
{
    if row.len() == 0 {
        None
    } else {
        match text_field_of(row.drop_last(), name) {
            Some(t) => Some(t),
            None => match row.last() {
                (ValueView::Text(k), ValueView::Text(t)) => if k == name { Some(t) } else { None },
                _ => None,
            },
        }
    }
}

/// The text a row holds under a text key `name`, if any.
pub fn text_field(row: &Vec<Entry>, name: &str) -> (r: Option<String>)
    ensures
        match r {
            Some(t) => text_field_of(crate::value::entry_views(row@), name@) == Some(t@),
            None => text_field_of(crate::value::entry_views(row@), name@) is None,
        },
{
    proof { crate::value::lemma_entry_views(row@); }
    let mut i: usize = 0;
    while i < row.len()
        invariant
            i <= row@.len(),
            crate::value::entry_views(row@).len() == row@.len(),
            forall|j: int| 0 <= j < row@.len() ==> #[trigger] crate::value::entry_views(row@)[j] == crate::value::entry_view(row@[j]),
            text_field_of(crate::value::entry_views(row@).take(i as int), name@) is None,
        decreases row.len() - i,
    {
        let ghost ev = crate::value::entry_views(row@);
        proof {
            assert(ev.take(i + 1).drop_last() =~= ev.take(i as int));
            assert(ev.take(i + 1).last() == ev[i as int]);
        }
        match (&row[i].key, &row[i].value) {
            (Value::Text(k), Value::Text(t)) => {
                if crate::text::text_equal(k, &String::from_str(name)) {
                    let found = t.clone();
                    proof {
                        assert(text_field_of(ev.take(i + 1), name@) == Some(t@));
                        lemma_text_field_prefix(ev, name@, i + 1);
                    }
                    return Some(found);
                }
            },
            _ => {},
        }
        i = i + 1;
    }
    proof { assert(crate::value::entry_views(row@).take(row@.len() as int) =~= crate::value::entry_views(row@)); }
    None
}

/// Once a prefix of a row holds a text field, the whole row gives that one.
proof fn lemma_text_field_prefix(row: Seq<crate::value::EntryView>, name: Seq<char>, n: int)
    requires
        0 <= n <= row.len(),
        text_field_of(row.take(n), name) is Some,
    ensures
        text_field_of(row, name) == text_field_of(row.take(n), name),
    decreases row.len() - n,
{
    if n < row.len() {
        assert(row.take(n + 1).drop_last() =~= row.take(n));
        lemma_text_field_prefix(row, name, n + 1);
    } else {
        assert(row.take(n) =~= row);
    }
}

/// How a row is written to a store: the text of a value field as it is,
/// or else these fields, to be written as an object of texts.
pub enum StoreValue {
    Given(String),
    Fields(Vec<Entry>),
}

fn is_named(entry: &Entry, a: &str, b: &str) -> (r: bool)
    ensures
        r == (entry.key@ matches ValueView::Text(k) && (k == a@ || k == b@)),
{
    match &entry.key {
        Value::Text(k) => crate::text::text_equal(k, &String::from_str(a)) || crate::text::text_equal(k, &String::from_str(b)),
        _ => false,
    }
}

/// The entries of a row but those under the text keys `a` and `b`, in order.
pub open spec fn fields_but(row: Seq<crate::value::EntryView>, a: Seq<char>, b: Seq<char>) -> Seq<crate::value::EntryView>
    decreases row.len(),
{
    if row.len() == 0 {
        Seq::empty()
    } else {
        fields_but(row.drop_last(), a, b) + if row.last().0 matches ValueView::Text(k) && (k == a || k == b) {
            Seq::empty()
        } else {
            seq![row.last()]
        }
    }
}

fn entries_but(row: &Vec<Entry>, a: &str, b: &str) -> (r: Vec<Entry>)
    ensures
        crate::value::entry_views(r@) == fields_but(crate::value::entry_views(row@), a@, b@),
{
    proof { crate::value::lemma_entry_views(row@); }
    let ghost ev = crate::value::entry_views(row@);
    let mut out: Vec<Entry> = Vec::new();
    let mut i: usize = 0;
    while i < row.len()
        invariant
            i <= row@.len(),
            ev == crate::value::entry_views(row@),
            ev.len() == row@.len(),
            forall|j: int| 0 <= j < row@.len() ==> #[trigger] ev[j] == crate::value::entry_view(row@[j]),
            crate::value::entry_views(out@) == fields_but(ev.take(i as int), a@, b@),
        decreases row.len() - i,
    {
        proof {
            assert(ev.take(i + 1).drop_last() =~= ev.take(i as int));
            assert(ev.take(i + 1).last() == ev[i as int]);
        }
        if !is_named(&row[i], a, b) {
            let ghost before = out@;
            let e = Entry { key: crate::value::copy_value(&row[i].key), value: crate::value::copy_value(&row[i].value) };
            out.push(e);
            proof {
                crate::value::lemma_entry_views_push(before, e);
                assert(fields_but(ev.take(i + 1), a@, b@) =~= fields_but(ev.take(i as int), a@, b@) + seq![ev[i as int]]);
            }
        } else {
            proof { assert(fields_but(ev.take(i + 1), a@, b@) =~= fields_but(ev.take(i as int), a@, b@)); }
        }
        i = i + 1;
    }
    proof { assert(ev.take(row@.len() as int) =~= ev); }
    out
}

/// What a store insert writes for a row: the text of its `value` field as
/// it is, or else its fields but `key`.
pub fn store_insert_value(row: &Vec<Entry>) -> (r: StoreValue)
    ensures
        match text_field_of(crate::value::entry_views(row@), "value"@) {
            Some(t) => r matches StoreValue::Given(g) && g@ == t,
            None => r matches StoreValue::Fields(f)
                && crate::value::entry_views(f@) == fields_but(crate::value::entry_views(row@), "key"@, "key"@),
        },
{
    match text_field(row, "value") {
        Some(t) => StoreValue::Given(t),
        None => StoreValue::Fields(entries_but(row, "key", "key")),
    }
}

/// What a store update writes for a row `next` (the row with the new values
/// in it): the text of the new `value` field as it is; else the row's fields
/// but `key` and `value`; else, where there are none, the row's own `value`
/// text, or nothing.
pub fn store_update_value(values: &Vec<Entry>, next: &Vec<Entry>) -> (r: StoreValue)
    ensures
        match text_field_of(crate::value::entry_views(values@), "value"@) {
            Some(t) => r matches StoreValue::Given(g) && g@ == t,
            None => {
                let rest = fields_but(crate::value::entry_views(next@), "key"@, "value"@);
                if rest.len() > 0 {
                    r matches StoreValue::Fields(f) && crate::value::entry_views(f@) == rest
                } else {
                    r matches StoreValue::Given(g) && g@ == match text_field_of(crate::value::entry_views(next@), "value"@) {
                        Some(t) => t,
                        None => Seq::empty(),
                    }
                }
            },
        },
{
    match text_field(values, "value") {
        Some(t) => StoreValue::Given(t),
        None => {
            let rest = entries_but(next, "key", "value");
            if rest.len() > 0 {
                proof { crate::value::lemma_entry_views(rest@); }
                StoreValue::Fields(rest)
            } else {
                proof { crate::value::lemma_entry_views(rest@); }
                match text_field(next, "value") {
                    Some(t) => StoreValue::Given(t),
                    None => StoreValue::Given(String::new()),
                }
            }
        },
    }
}

} // verus!

verus! {

/// The ordered predicates fit together for every cell, value and numeric
/// reading: `>=` holds exactly when `<` does not, `<=` exactly when `>` does
/// not, `>` and `<` never hold together, and two sides that read as the same
/// number satisfy `>=` and `<=` but neither `>` nor `<`.
pub proof fn lemma_ordered_predicates_fit_together(cell: Seq<char>, value: Seq<char>, numeric: Option<Sorted>)
    ensures
        predicate_holds(Compare::Gte, cell, value, numeric) == !predicate_holds(Compare::Lt, cell, value, numeric),
        predicate_holds(Compare::Lte, cell, value, numeric) == !predicate_holds(Compare::Gt, cell, value, numeric),
        !(predicate_holds(Compare::Gt, cell, value, numeric) && predicate_holds(Compare::Lt, cell, value, numeric)),
        numeric == Some(Sorted::Same) ==> predicate_holds(Compare::Gte, cell, value, numeric)
            && predicate_holds(Compare::Lte, cell, value, numeric)
            && !predicate_holds(Compare::Gt, cell, value, numeric)
            && !predicate_holds(Compare::Lt, cell, value, numeric),
        predicate_holds(Compare::Eq, cell, value, numeric) == (cell == value),
        predicate_holds(Compare::Not, cell, value, numeric) == (cell != value),
{
}

/// Compared as text: `>=` is `>` or equal, `<=` is `<` or equal, a cell is
/// at least and at most itself but neither above nor below it, and `>` is
/// `<` with the sides swapped.
pub proof fn lemma_text_predicates_order_the_text(cell: Seq<char>, value: Seq<char>)
    ensures
        predicate_holds(Compare::Gte, cell, value, None) == (predicate_holds(Compare::Gt, cell, value, None) || cell == value),
        predicate_holds(Compare::Lte, cell, value, None) == (predicate_holds(Compare::Lt, cell, value, None) || cell == value),
        predicate_holds(Compare::Gte, cell, cell, None),
        predicate_holds(Compare::Lte, cell, cell, None),
        !predicate_holds(Compare::Gt, cell, cell, None),
        !predicate_holds(Compare::Lt, cell, cell, None),
        predicate_holds(Compare::Gt, cell, value, None) == predicate_holds(Compare::Lt, value, cell, None),
{
    crate::ops::lemma_text_order_is_an_order(cell, value);
    crate::ops::lemma_text_order_is_an_order(cell, cell);
}

} // verus!
