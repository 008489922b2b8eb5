//! Signed bearer tokens: who a request says it comes from, and whether the
//! signature bears it out.
//!
//! A token is `id|email|mac`, where the mac is the HMAC-SHA256 of `id.email`
//! under the server's secret, in lower-case hex. Emails hold dots, so `|` is
//! the separator.

use vstd::prelude::*;
use hmac::{Hmac, Mac};
use sha2::Sha256;
use crate::text::{chars_of, from_chars};
use crate::value::{Value, ValueView, Record};

verus! {

/// The lower-case hex digit for a number below 16.
pub open spec fn hex_digit(n: int) -> char {
    if n == 0 { '0' } else if n == 1 { '1' } else if n == 2 { '2' } else if n == 3 { '3' }
    else if n == 4 { '4' } else if n == 5 { '5' } else if n == 6 { '6' } else if n == 7 { '7' }
    else if n == 8 { '8' } else if n == 9 { '9' } else if n == 10 { 'a' } else if n == 11 { 'b' }
    else if n == 12 { 'c' } else if n == 13 { 'd' } else if n == 14 { 'e' } else { 'f' }
}

/// Bytes in lower-case hex, two digits a byte, high digit first.
pub open spec fn hex_chars(bytes: Seq<u8>) -> Seq<char>
    decreases bytes.len(),
{
    if bytes.len() == 0 {
        Seq::empty()
    } else {
        hex_chars(bytes.drop_last()) + seq![hex_digit(bytes.last() as int / 16), hex_digit(bytes.last() as int % 16)]
    }
}

/// The HMAC-SHA256 of a message under a key (`hmac::Hmac<sha2::Sha256>`).
pub uninterp spec fn hmac_sha256(key: Seq<u8>, message: Seq<u8>) -> Seq<u8>;

/// `Hmac::<Sha256>::new_from_slice`, `update` and `finalize`: the 32-byte
/// MAC of a message. The crate accepts a key of any length, so making the
/// MAC cannot fail.
#[verifier::external_body]
fn mac_of(key: &[u8], message: &[u8]) -> (r: Vec<u8>)
    ensures
        r@ == hmac_sha256(key@, message@),
{
    match <Hmac<Sha256> as Mac>::new_from_slice(key) {
        Ok(mut mac) => {
            mac.update(message);
            mac.finalize().into_bytes().to_vec()
        },
        Err(_) => Vec::new(),
    }
}

/// `hex::encode`: each byte as two lower-case hex digits.
#[verifier::external_body]
fn hex_text(bytes: &[u8]) -> (r: String)
    ensures
        r@ == hex_chars(bytes@),
{
    hex::encode(bytes)
}

/// The bytes of a text, as UTF-8.
pub open spec fn utf8(text: Seq<char>) -> Seq<u8> {
    vstd::utf8::encode_utf8(text)
}

/// The signature a token for `id` and `email` carries.
pub open spec fn spec_signature(secret: Seq<char>, id: Seq<char>, email: Seq<char>) -> Seq<char> {
    hex_chars(hmac_sha256(utf8(secret), utf8(id) + seq![46u8] + utf8(email)))
}

fn push_bytes(out: &mut Vec<u8>, bytes: &[u8])
    ensures
        final(out)@ == old(out)@ + bytes@,
{
    let mut i: usize = 0;
    while i < bytes.len()
        invariant
            i <= bytes@.len(),
            out@ == old(out)@ + bytes@.subrange(0, i as int),
        decreases bytes.len() - i,
    {
        out.push(bytes[i]);
        proof { assert(out@ =~= old(out)@ + bytes@.subrange(0, i + 1)); }
        i = i + 1;
    }
    proof { assert(bytes@.subrange(0, bytes@.len() as int) =~= bytes@); }
}

/// The signature a token for `id` and `email` must carry: the HMAC-SHA256
/// of `id.email` under the secret, in lower-case hex.
pub fn sign_token(secret: &str, id: &str, email: &str) -> (r: String)
    ensures
        r@ == spec_signature(secret@, id@, email@),
{
    let mut message: Vec<u8> = Vec::new();
    push_bytes(&mut message, id.as_bytes());
    message.push(46u8);
    push_bytes(&mut message, email.as_bytes());
    let mac = mac_of(secret.as_bytes(), message.as_slice());
    proof { assert(message@ =~= utf8(id@) + seq![46u8] + utf8(email@)); }
    hex_text(mac.as_slice())
}

/// Whether two byte strings are the same, looking at every byte whatever
/// the earlier ones held, so the time taken says nothing of where they
/// differ.
pub fn constant_time_eq(left: &[u8], right: &[u8]) -> (r: bool)
    ensures
        r == (left@ == right@),
{
    if left.len() != right.len() {
        return false;
    }
    let mut acc: u8 = 0;
    let mut i: usize = 0;
    while i < left.len()
        invariant
            i <= left@.len(),
            left@.len() == right@.len(),
            (acc == 0) == (forall|k: int| 0 <= k < i ==> left@[k] == right@[k]),
        decreases left.len() - i,
    {
        let a = left[i];
        let b = right[i];
        let before = acc;
        acc = acc | (a ^ b);
        assert((before | (a ^ b)) == 0 <==> (before == 0 && a == b)) by (bit_vector);
        proof {
            if acc == 0 {
                assert forall|k: int| 0 <= k < i + 1 implies left@[k] == right@[k] by {
                    if k < i {} else { assert(left@[i as int] == a && right@[i as int] == b); }
                }
            }
        }
        i = i + 1;
    }
    proof {
        if acc == 0 { assert(left@ =~= right@); }
    }
    acc == 0
}

} // verus!

verus! {

/// The value of the first header with this name.
pub open spec fn header_named(headers: Seq<(Seq<char>, Seq<char>)>, name: Seq<char>) -> Option<Seq<char>>
    decreases headers.len(),
{
    if headers.len() == 0 {
        None
    } else if headers[0].0 == name {
        Some(headers[0].1)
    } else {
        header_named(headers.drop_first(), name)
    }
}

/// Text without the white space it starts with.
pub open spec fn trim_start(text: Seq<char>) -> Seq<char>
    decreases text.len(),
{
    if text.len() > 0 && crate::log::is_space(text[0]) { trim_start(text.drop_first()) } else { text }
}

/// Text without the white space it ends with.
pub open spec fn trim_end(text: Seq<char>) -> Seq<char>
    decreases text.len(),
{
    if text.len() > 0 && crate::log::is_space(text.last()) { trim_end(text.drop_last()) } else { text }
}

/// Text with the white space at both ends taken off (`str::trim`).
pub open spec fn trimmed(text: Seq<char>) -> Seq<char> {
    trim_end(trim_start(text))
}

/// The text without the white space (`char::is_whitespace`) it starts or
/// ends with, as `str::trim` has it.
pub(crate) fn trim_text(text: &str) -> (r: String)
    ensures
        r@ == trimmed(text@),
{
    let t = crate::text::chars_of(text);
    proof { assert(t@.subrange(0, t@.len() as int) =~= t@); }
    let mut start: usize = 0;
    while start < t.len() && crate::log::space(t[start])
        invariant
            t@ == text@,
            start <= t@.len(),
            trim_start(text@) == trim_start(t@.subrange(start as int, t@.len() as int)),
        decreases t.len() - start,
    {
        proof {
            let rest = t@.subrange(start as int, t@.len() as int);
            assert(rest.drop_first() =~= t@.subrange(start + 1, t@.len() as int));
        }
        start = start + 1;
    }
    let ghost front = t@.subrange(start as int, t@.len() as int);
    proof { assert(trim_start(front) == front); }
    let mut end: usize = t.len();
    while end > start && crate::log::space(t[end - 1])
        invariant
            t@ == text@,
            start <= end <= t@.len(),
            front == t@.subrange(start as int, t@.len() as int),
            trim_end(front) == trim_end(t@.subrange(start as int, end as int)),
        decreases end - start,
    {
        proof {
            let rest = t@.subrange(start as int, end as int);
            assert(rest.drop_last() =~= t@.subrange(start as int, end - 1));
        }
        end = end - 1;
    }
    let mut kept: Vec<char> = Vec::new();
    let mut i: usize = start;
    while i < end
        invariant
            start <= i <= end <= t@.len(),
            kept@ == t@.subrange(start as int, i as int),
        decreases end - i,
    {
        kept.push(t[i]);
        proof { assert(t@.subrange(start as int, i + 1) =~= t@.subrange(start as int, i as int).push(t@[i as int])); }
        i = i + 1;
    }
    proof {
        assert(trim_start(text@) == front);
        assert(trim_end(t@.subrange(start as int, end as int)) == t@.subrange(start as int, end as int));
    }
    crate::text::from_chars(&kept)
}

/// The token a bearer header carries, when it has the form of one.
pub open spec fn token_of(header: Seq<char>) -> Option<Seq<char>> {
    if header.len() >= 7 && (header.take(7) == "Bearer "@ || header.take(7) == "bearer "@) {
        Some(trimmed(header.skip(7)))
    } else {
        None
    }
}

/// Where the first `|` of a text is.
pub open spec fn bar_at(s: Seq<char>) -> Option<int>
    decreases s.len(),
{
    if s.len() == 0 {
        None
    } else if s[0] == '|' {
        Some(0)
    } else {
        match bar_at(s.drop_first()) {
            Some(i) => Some(i + 1),
            None => None,
        }
    }
}

/// A token taken apart at its first two `|`: id, email and mac.
pub open spec fn token_parts(token: Seq<char>) -> Option<(Seq<char>, Seq<char>, Seq<char>)> {
    match bar_at(token) {
        None => None,
        Some(i) => {
            let rest = token.skip(i + 1);
            match bar_at(rest) {
                None => None,
                Some(j) => Some((token.take(i), rest.take(j), rest.skip(j + 1))),
            }
        },
    }
}

/// Who a request's headers show it comes from: the id and email of a
/// bearer token whose mac is the signature they must carry.
pub open spec fn bearer_of(headers: Seq<(Seq<char>, Seq<char>)>, secret: Option<Seq<char>>) -> Option<(Seq<char>, Seq<char>)> {
    let header = if header_named(headers, "authorization"@) is Some {
        header_named(headers, "authorization"@)
    } else {
        header_named(headers, "Authorization"@)
    };
    match (secret, header) {
        (Some(s), Some(h)) => match token_of(h) {
            Some(t) => match token_parts(t) {
                Some((id, email, mac)) => if id.len() > 0 && email.len() > 0 && mac.len() > 0
                    && mac == spec_signature(s, id, email) {
                    Some((id, email))
                } else {
                    None
                },
                None => None,
            },
            None => None,
        },
        _ => None,
    }
}

/// The names and values of headers, as characters.
pub open spec fn header_views(pairs: Seq<(String, String)>) -> Seq<(Seq<char>, Seq<char>)> {
    pairs.map_values(|p: (String, String)| (p.0@, p.1@))
}

fn find_header(headers: &Vec<(String, String)>, name: &str) -> (r: Option<String>)
    ensures
        match r {
            Some(v) => header_named(header_views(headers@), name@) == Some(v@),
            None => header_named(header_views(headers@), name@) is None,
        },
{
    let ghost hs = header_views(headers@);
    let wanted = String::from_str(name);
    let mut i: usize = 0;
    proof { assert(hs.skip(0) =~= hs); }
    while i < headers.len()
        invariant
            i <= headers@.len(),
            hs == header_views(headers@),
            wanted@ == name@,
            header_named(hs, name@) == header_named(hs.skip(i as int), name@),
        decreases headers.len() - i,
    {
        proof { assert(hs.skip(i as int)[0] == (headers@[i as int].0@, headers@[i as int].1@)); }
        if headers[i].0 == wanted {
            return Some(headers[i].1.clone());
        }
        proof { assert(hs.skip(i as int).drop_first() =~= hs.skip(i + 1)); }
        i = i + 1;
    }
    proof { assert(hs.skip(i as int) =~= Seq::<(Seq<char>, Seq<char>)>::empty()); }
    None
}

/// Where the first `|` at or after `from` is.
fn bar_from(chars: &Vec<char>, from: usize) -> (r: Option<usize>)
    requires
        from <= chars@.len(),
    ensures
        match (r, bar_at(chars@.skip(from as int))) {
            (Some(i), Some(j)) => from <= i < chars@.len() && i - from == j,
            (None, None) => true,
            _ => false,
        },
{
    let mut i: usize = from;
    while i < chars.len()
        invariant
            from <= i <= chars@.len(),
            bar_at(chars@.skip(from as int)) == match bar_at(chars@.skip(i as int)) {
                Some(k) => Some(k + (i - from)),
                None => None,
            },
        decreases chars.len() - i,
    {
        proof { assert(chars@.skip(i as int).drop_first() =~= chars@.skip(i + 1)); }
        if chars[i] == '|' {
            return Some(i);
        }
        i = i + 1;
    }
    proof { assert(chars@.skip(i as int) =~= Seq::<char>::empty()); }
    None
}


/// The user a request comes from, when its bearer token is signed with the
/// secret: a record of the given layout holding the token's id and email.
pub fn verify_bearer(headers: &Vec<(String, String)>, secret: Option<String>, user: u32) -> (r: Option<Value>)
    ensures
        match (r, bearer_of(header_views(headers@), match secret { Some(s) => Some(s@), None => None })) {
            (Some(v), Some((id, email))) => v@ == (ValueView::Record {
                layout: user,
                fields: seq![ValueView::Text(id), ValueView::Text(email)],
                cells: None,
            }),
            (None, None) => true,
            _ => false,
        },
{
    let secret = match secret {
        Some(s) => s,
        None => return None,
    };
    let header = match find_header(headers, "authorization") {
        Some(h) => h,
        None => match find_header(headers, "Authorization") {
            Some(h) => h,
            None => return None,
        },
    };
    let chars = chars_of(header.as_str());
    if !(crate::text::starts_with_text(&chars, "Bearer ") || crate::text::starts_with_text(&chars, "bearer ")) {
        proof {
            reveal_strlit("Bearer ");
            reveal_strlit("bearer ");
        }
        return None;
    }
    proof {
        reveal_strlit("Bearer ");
        reveal_strlit("bearer ");
    }
    let rest = crate::text::text_between(&chars, 7, chars.len());
    assert(rest@ =~= header@.skip(7));
    let token = trim_text(rest.as_str());
    let t = chars_of(token.as_str());
    let first = match bar_from(&t, 0) {
        Some(i) => {
            proof {
                match bar_at(t@.skip(0)) {
                    Some(k) => {},
                    None => {},
                }
            }
            i
        },
        None => {
            proof { assert(t@.skip(0) =~= t@); }
            return None;
        },
    };
    proof { assert(t@.skip(0) =~= t@); }
    let t_len = t.len();
    assert(first < t_len);
    let after_first = first + 1;
    let second = match bar_from(&t, after_first) {
        Some(j) => {
            proof {
                match bar_at(t@.skip(first + 1)) {
                    Some(k) => { assert(j < t@.len()); },
                    None => { assert(false); },
                }
            }
            j
        },
        None => {
            proof { assert(t@.skip(first + 1) =~= t@.skip(first as int + 1)); }
            return None;
        },
    };
    let id = crate::text::text_between(&t, 0, first);
    let email = crate::text::text_between(&t, first + 1, second);
    let length = t.len();
    assert(second < length);
    let after = second + 1;
    let mac = crate::text::text_between(&t, after, length);
    proof {
        let rest_t = t@.skip(first + 1);
        assert(id@ =~= t@.take(first as int));
        assert(email@ =~= rest_t.take(second - (first + 1)));
        assert(mac@ =~= rest_t.skip(second - (first + 1) + 1));
    }
    if id.as_str().is_empty() || email.as_str().is_empty() || mac.as_str().is_empty() {
        return None;
    }
    let expected = sign_token(secret.as_str(), id.as_str(), email.as_str());
    if !constant_time_eq(mac.as_str().as_bytes(), expected.as_str().as_bytes()) {
        return None;
    }
    proof {
        vstd::utf8::encode_utf8_decode_utf8(mac@);
        vstd::utf8::encode_utf8_decode_utf8(expected@);
    }
    let mut fields: Vec<Value> = Vec::new();
    fields.push(Value::Text(id));
    fields.push(Value::Text(email));
    proof {
        crate::value::lemma_views(fields@);
        assert(crate::value::views(fields@) =~= seq![ValueView::Text(id@), ValueView::Text(email@)]);
    }
    Some(Value::Record(Box::new(Record { layout: user, fields, cells: None })))
}

} // verus!

verus! {

/// The token that carries `id` and `email`, signed with `secret`.
pub open spec fn signed_token(secret: Seq<char>, id: Seq<char>, email: Seq<char>) -> Seq<char> {
    id + seq!['|'] + email + seq!['|'] + spec_signature(secret, id, email)
}

/// The first `|` of a text that has none before a `|` it was given is that one.
proof fn lemma_bar_after(a: Seq<char>, b: Seq<char>)
    requires
        !a.contains('|'),
    ensures
        bar_at(a + seq!['|'] + b) == Some(a.len() as int),
    decreases a.len(),
{
    let t = a + seq!['|'] + b;
    if a.len() == 0 {
        assert(t[0] == '|');
    } else {
        assert(t[0] == a[0]);
        assert(a[0] != '|') by {
            if a[0] == '|' { assert(a.contains('|')); }
        }
        assert(!a.drop_first().contains('|')) by {
            if a.drop_first().contains('|') {
                let k = choose|k: int| 0 <= k < a.drop_first().len() && a.drop_first()[k] == '|';
                assert(a[k + 1] == '|');
            }
        }
        lemma_bar_after(a.drop_first(), b);
        assert(t.drop_first() =~= a.drop_first() + seq!['|'] + b);
    }
}

/// A token signed with the secret is accepted, and gives back the id and
/// email it was signed for: for any id and email that are not empty and hold
/// no `|`, sent as `Bearer` in an `authorization` header with nothing for
/// `str::trim` to take off, whenever the signature is not empty.
pub proof fn lemma_signed_token_verifies(secret: Seq<char>, id: Seq<char>, email: Seq<char>)
    requires
        id.len() > 0,
        email.len() > 0,
        !id.contains('|'),
        !email.contains('|'),
        spec_signature(secret, id, email).len() > 0,
        trimmed(signed_token(secret, id, email)) == signed_token(secret, id, email),
    ensures
        bearer_of(seq![("authorization"@, "Bearer "@ + signed_token(secret, id, email))], Some(secret)) == Some((id, email)),
{
    reveal_strlit("Bearer ");
    reveal_strlit("authorization");
    let token = signed_token(secret, id, email);
    let mac = spec_signature(secret, id, email);
    let header = "Bearer "@ + token;
    let headers = seq![("authorization"@, header)];
    assert(header_named(headers, "authorization"@) == Some(header));
    assert(header.take(7) =~= "Bearer "@);
    assert(header.skip(7) =~= token);
    assert(token_of(header) == Some(token));
    let rest = email + seq!['|'] + mac;
    assert(token =~= id + seq!['|'] + rest);
    lemma_bar_after(id, rest);
    lemma_bar_after(email, mac);
    assert(token.skip(id.len() as int + 1) =~= rest);
    assert(token.take(id.len() as int) =~= id);
    assert(rest.take(email.len() as int) =~= email);
    assert(rest.skip(email.len() as int + 1) =~= mac);
    assert(token_parts(token) == Some((id, email, mac)));
}

} // verus!
