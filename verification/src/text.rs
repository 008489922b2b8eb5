//! Building and taking apart text, character by character.

use vstd::prelude::*;

verus! {

/// The decimal digits of a natural number, most significant first.
pub open spec fn digits(n: nat) -> Seq<char>
    decreases n,
{
    if n < 10 {
        seq![digit_char(n)]
    } else {
        digits(n / 10).push(digit_char(n % 10))
    }
}

/// The character for one decimal digit.
pub open spec fn digit_char(d: nat) -> char {
    if d == 0 { '0' }
    else if d == 1 { '1' }
    else if d == 2 { '2' }
    else if d == 3 { '3' }
    else if d == 4 { '4' }
    else if d == 5 { '5' }
    else if d == 6 { '6' }
    else if d == 7 { '7' }
    else if d == 8 { '8' }
    else { '9' }
}

/// An integer written in decimal, with a leading `-` when it is negative.
pub open spec fn decimal(n: int) -> Seq<char> {
    if n < 0 {
        seq!['-'] + digits((-n) as nat)
    } else {
        digits(n as nat)
    }
}

/// Appends one character (`String::push`).
#[verifier::external_body]
pub(crate) fn push_char(s: &mut String, c: char)
    ensures
        final(s)@ == old(s)@.push(c),
{
    s.push(c);
}

/// The characters of a piece of text, in order.
pub(crate) fn chars_of(s: &str) -> (r: Vec<char>)
    ensures
        r@ == s@,
{
    broadcast use vstd::string::axiom_spec_iter;
    let mut out: Vec<char> = Vec::new();
    for c in it: s.chars()
        invariant
            out@ == it.seq().take(it.index() as int),
    {
        proof { assert(it.seq().take(it.index() + 1) =~= it.seq().take(it.index() as int).push(c)); }
        out.push(c);
    }
    proof { assert(out@ =~= s@); }
    out
}

/// Text made of the given characters.
pub(crate) fn from_chars(v: &Vec<char>) -> (r: String)
    ensures
        r@ == v@,
{
    let mut out = String::new();
    let mut i: usize = 0;
    while i < v.len()
        invariant
            i <= v@.len(),
            out@ == v@.take(i as int),
        decreases v.len() - i,
    {
        push_char(&mut out, v[i]);
        proof { assert(v@.take(i + 1) =~= v@.take(i as int).push(v@[i as int])); }
        i = i + 1;
    }
    proof { assert(v@.take(v@.len() as int) =~= v@); }
    out
}

fn digit_of(d: u64) -> (c: char)
    requires
        d < 10,
    ensures
        c == digit_char(d as nat),
{
    if d == 0 { '0' }
    else if d == 1 { '1' }
    else if d == 2 { '2' }
    else if d == 3 { '3' }
    else if d == 4 { '4' }
    else if d == 5 { '5' }
    else if d == 6 { '6' }
    else if d == 7 { '7' }
    else if d == 8 { '8' }
    else { '9' }
}

/// Appends the decimal digits of `n`.
pub fn push_digits(out: &mut String, n: u64)
    ensures
        final(out)@ == old(out)@ + digits(n as nat),
    decreases n,
{
    if n < 10 {
        push_char(out, digit_of(n));
        assert(digits(n as nat) == seq![digit_char(n as nat)]);
    } else {
        push_digits(out, n / 10);
        push_char(out, digit_of(n % 10));
        assert(digits(n as nat) == digits((n / 10) as nat).push(digit_char((n % 10) as nat)));
    }
}

/// Appends `n` in decimal, with a `-` in front of a negative number.
pub fn push_decimal(out: &mut String, n: i64)
    ensures
        final(out)@ == old(out)@ + decimal(n as int),
{
    if n < 0 {
        push_char(out, '-');
        let magnitude: u64 = if n == i64::MIN {
            9223372036854775808u64
        } else {
            (-n) as u64
        };
        push_digits(out, magnitude);
    } else {
        push_digits(out, n as u64);
    }
}

/// `n` in decimal.
pub fn decimal_text(n: i64) -> (r: String)
    ensures
        r@ == decimal(n as int),
{
    let mut out = String::new();
    push_decimal(&mut out, n);
    out
}

/// Appends a piece of text.
pub fn push_text(out: &mut String, piece: &str)
    ensures
        final(out)@ == old(out)@ + piece@,
{
    out.append(piece);
}

} // verus!

verus! {

/// The characters of each piece of text in a sequence.
pub open spec fn view_texts(texts: Seq<String>) -> Seq<Seq<char>> {
    texts.map_values(|t: String| t@)
}

/// A copy of a list of texts.
pub fn copy_texts(texts: &Vec<String>) -> (r: Vec<String>)
    ensures
        view_texts(r@) == view_texts(texts@),
{
    let mut out: Vec<String> = Vec::new();
    let mut i: usize = 0;
    while i < texts.len()
        invariant
            i <= texts.len(),
            out@.len() == i,
            forall|k: int| 0 <= k < i ==> #[trigger] out@[k]@ == texts@[k]@,
        decreases texts.len() - i,
    {
        out.push(texts[i].clone());
        i = i + 1;
    }
    assert(view_texts(out@) =~= view_texts(texts@));
    out
}

/// Whether two pieces of text hold the same characters (`String::eq`).
pub fn text_equal(left: &String, right: &String) -> (r: bool)
    ensures
        r == (left@ == right@),
{
    *left == *right
}

} // verus!

verus! {

/// Whether two lists of text hold the same texts in the same order.
pub fn texts_equal(left: &Vec<String>, right: &Vec<String>) -> (r: bool)
    ensures
        r == (view_texts(left@) == view_texts(right@)),
{
    if left.len() != right.len() {
        assert(view_texts(left@).len() != view_texts(right@).len());
        return false;
    }
    let mut i: usize = 0;
    while i < left.len()
        invariant
            left.len() == right.len(),
            forall|k: int| 0 <= k < i ==> #[trigger] left@[k]@ == right@[k]@,
        decreases left.len() - i,
    {
        if !text_equal(&left[i], &right[i]) {
            assert(view_texts(left@)[i as int] != view_texts(right@)[i as int]);
            return false;
        }
        i = i + 1;
    }
    assert(view_texts(left@) =~= view_texts(right@));
    true
}

/// Whether characters start with a piece of text.
pub fn starts_with_text(chars: &Vec<char>, prefix: &str) -> (r: bool)
    ensures
        r == (chars@.len() >= prefix@.len() && chars@.take(prefix@.len() as int) == prefix@),
{
    let p = chars_of(prefix);
    if chars.len() < p.len() {
        return false;
    }
    let mut i: usize = 0;
    while i < p.len()
        invariant
            i <= p@.len(),
            p@ == prefix@,
            p@.len() <= chars@.len(),
            forall|k: int| 0 <= k < i ==> chars@[k] == p@[k],
        decreases p.len() - i,
    {
        if chars[i] != p[i] {
            proof { assert(chars@.take(p@.len() as int)[i as int] != p@[i as int]); }
            return false;
        }
        i = i + 1;
    }
    proof { assert(chars@.take(p@.len() as int) =~= p@); }
    true
}


/// The characters from `from` up to `to`, as text.
pub fn text_between(chars: &Vec<char>, from: usize, to: usize) -> (r: String)
    requires
        from <= to <= chars@.len(),
    ensures
        r@ == chars@.subrange(from as int, to as int),
{
    let mut out: Vec<char> = Vec::new();
    let mut i: usize = from;
    while i < to
        invariant
            from <= i <= to,
            to <= chars@.len(),
            out@ =~= chars@.subrange(from as int, i as int),
        decreases to - i,
    {
        out.push(chars[i]);
        i = i + 1;
    }
    from_chars(&out)
}

} // verus!
