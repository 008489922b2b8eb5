//! What a served file is said to be, by the end of its name.

use vstd::prelude::*;

verus! {

/// Where the last `.` of a path is, if it has one.
pub open spec fn last_dot(path: Seq<char>) -> Option<int>
    decreases path.len(),
{
    if path.len() == 0 {
        None
    } else if path.last() == '.' {
        Some(path.len() - 1)
    } else {
        last_dot(path.drop_last())
    }
}

/// The end of a path after its last `.`, or the whole path when there is
/// no `.` in it.
pub open spec fn extension(path: Seq<char>) -> Seq<char> {
    match last_dot(path) {
        Some(i) => path.subrange(i + 1, path.len() as int),
        None => path,
    }
}

/// The content type a file is served with, by its extension.
pub open spec fn spec_mime(ext: Seq<char>) -> Seq<char> {
    if ext == "html"@ { "text/html; charset=utf-8"@ }
    else if ext == "css"@ { "text/css; charset=utf-8"@ }
    else if ext == "js"@ || ext == "mjs"@ { "text/javascript; charset=utf-8"@ }
    else if ext == "json"@ { "application/json; charset=utf-8"@ }
    else if ext == "svg"@ { "image/svg+xml"@ }
    else if ext == "png"@ { "image/png"@ }
    else if ext == "jpg"@ || ext == "jpeg"@ { "image/jpeg"@ }
    else if ext == "gif"@ { "image/gif"@ }
    else if ext == "webp"@ { "image/webp"@ }
    else if ext == "ico"@ { "image/x-icon"@ }
    else if ext == "woff"@ { "font/woff"@ }
    else if ext == "woff2"@ { "font/woff2"@ }
    else if ext == "txt"@ { "text/plain; charset=utf-8"@ }
    else if ext == "map"@ { "application/json; charset=utf-8"@ }
    else { "application/octet-stream"@ }
}

fn same_chars(a: &Vec<char>, b: &str) -> (r: bool)
    ensures
        r == (a@ == b@),
{
    let bs = crate::text::chars_of(b);
    if a.len() != bs.len() {
        return false;
    }
    let mut i: usize = 0;
    while i < a.len()
        invariant
            a@.len() == bs@.len(),
            bs@ == b@,
            i <= a@.len(),
            forall|k: int| 0 <= k < i ==> a@[k] == bs@[k],
        decreases a.len() - i,
    {
        if a[i] != bs[i] {
            return false;
        }
        i = i + 1;
    }
    assert(a@ =~= bs@);
    true
}

/// The content type a file is served with.
pub fn mime_for(path: &str) -> (r: &'static str)
    ensures
        r@ == spec_mime(extension(path@)),
{
    let chars = crate::text::chars_of(path);
    let mut i: usize = chars.len();
    proof { assert(chars@.subrange(0, i as int) =~= chars@); }
    while i > 0 && chars[i - 1] != '.'
        invariant
            i <= chars@.len(),
            chars@ == path@,
            last_dot(chars@) == last_dot(chars@.subrange(0, i as int)),
        decreases i,
    {
        proof { assert(chars@.subrange(0, i as int).drop_last() =~= chars@.subrange(0, i - 1)); }
        i = i - 1;
    }
    let mut ext: Vec<char> = Vec::new();
    let start = if i > 0 { i } else { 0 };
    proof {
        if i > 0 {
            assert(chars@.subrange(0, i as int).last() == '.');
        } else {
            assert(chars@.subrange(0, 0) =~= Seq::<char>::empty());
        }
    }
    let mut k: usize = start;
    while k < chars.len()
        invariant
            start <= k <= chars@.len(),
            ext@ =~= chars@.subrange(start as int, k as int),
        decreases chars.len() - k,
    {
        ext.push(chars[k]);
        k = k + 1;
    }
    proof {
        if i == 0 {
            assert(extension(path@) =~= ext@);
        } else {
            assert(extension(path@) =~= ext@);
        }
    }
    if same_chars(&ext, "html") { "text/html; charset=utf-8" }
    else if same_chars(&ext, "css") { "text/css; charset=utf-8" }
    else if same_chars(&ext, "js") || same_chars(&ext, "mjs") { "text/javascript; charset=utf-8" }
    else if same_chars(&ext, "json") { "application/json; charset=utf-8" }
    else if same_chars(&ext, "svg") { "image/svg+xml" }
    else if same_chars(&ext, "png") { "image/png" }
    else if same_chars(&ext, "jpg") || same_chars(&ext, "jpeg") { "image/jpeg" }
    else if same_chars(&ext, "gif") { "image/gif" }
    else if same_chars(&ext, "webp") { "image/webp" }
    else if same_chars(&ext, "ico") { "image/x-icon" }
    else if same_chars(&ext, "woff") { "font/woff" }
    else if same_chars(&ext, "woff2") { "font/woff2" }
    else if same_chars(&ext, "txt") { "text/plain; charset=utf-8" }
    else if same_chars(&ext, "map") { "application/json; charset=utf-8" }
    else { "application/octet-stream" }
}

} // verus!
