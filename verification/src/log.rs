//! What a logger decides: which lines it keeps, and how a line is laid out.
//!
//! Levels and formats are the ones other languages' loggers have; a line is
//! kept when its level is at or above the logger's, and written as text, as
//! JSON, or in a layout meant for terminals.

use vstd::prelude::*;
use crate::json::{Json, json_view};
use crate::text::{chars_of, push_char, push_text, push_digits, digits};

verus! {

/// How loud a logger is. Messages below the configured level are dropped.
#[derive(Clone, Copy, Debug, PartialEq, Eq, Structural)]
pub enum Level {
    Debug,
    Info,
    Warn,
    Error,
}

/// Where a level sits, quietest first.
pub open spec fn rank(level: Level) -> int {
    match level {
        Level::Debug => 10,
        Level::Info => 20,
        Level::Warn => 30,
        Level::Error => 40,
    }
}

/// A character with an ASCII capital letter made small.
pub open spec fn lower(c: char) -> char {
    crate::query::ascii_lower(c)
}

/// The name a level or a format was given, as it is matched: without the
/// white space around it, in small ASCII letters.
pub open spec fn normal_name(name: Seq<char>) -> Seq<char> {
    crate::auth::trimmed(name).map_values(|c: char| lower(c))
}

/// The level a name stands for.
pub open spec fn spec_level(name: Seq<char>) -> Option<Level> {
    let n = normal_name(name);
    if n == "debug"@ { Some(Level::Debug) }
    else if n == "info"@ { Some(Level::Info) }
    else if n == "warn"@ || n == "warning"@ { Some(Level::Warn) }
    else if n == "error"@ { Some(Level::Error) }
    else { None }
}

/// The name a level is shown by.
pub open spec fn spec_level_name(level: Level) -> Seq<char> {
    match level {
        Level::Debug => "debug"@,
        Level::Info => "info"@,
        Level::Warn => "warn"@,
        Level::Error => "error"@,
    }
}

/// The tag a text line carries for a level.
pub open spec fn spec_label(level: Level) -> Seq<char> {
    match level {
        Level::Debug => "DEBUG"@,
        Level::Info => "INFO"@,
        Level::Warn => "WARN"@,
        Level::Error => "ERROR"@,
    }
}

/// How a line is laid out.
#[derive(Clone, Copy, Debug, PartialEq, Eq, Structural)]
pub enum Format {
    /// One line: a time stamp, the level, the message and `key=value` fields.
    Text,
    /// One JSON object per line.
    Json,
    /// A short level tag and indented fields, meant for terminals.
    Pretty,
}

/// The format a name stands for.
pub open spec fn spec_format(name: Seq<char>) -> Option<Format> {
    let n = normal_name(name);
    if n == "text"@ { Some(Format::Text) }
    else if n == "json"@ { Some(Format::Json) }
    else if n == "pretty"@ { Some(Format::Pretty) }
    else { None }
}

/// The name a format is shown by.
pub open spec fn spec_format_name(format: Format) -> Seq<char> {
    match format {
        Format::Text => "text"@,
        Format::Json => "json"@,
        Format::Pretty => "pretty"@,
    }
}

/// A name trimmed and in small ASCII letters.
fn normalized(name: &str) -> (r: Vec<char>)
    ensures
        r@ == normal_name(name@),
{
    let trimmed = crate::auth::trim_text(name);
    let chars = chars_of(trimmed.as_str());
    let mut out: Vec<char> = Vec::new();
    let mut i: usize = 0;
    while i < chars.len()
        invariant
            i <= chars@.len(),
            chars@ == crate::auth::trimmed(name@),
            out@ =~= chars@.take(i as int).map_values(|c: char| lower(c)),
        decreases chars.len() - i,
    {
        let c = chars[i];
        let small = if 'A' <= c && c <= 'Z' { (((c as u32) + 32) as u8) as char } else { c };
        out.push(small);
        proof { assert(chars@.take(i + 1) =~= chars@.take(i as int).push(c)); }
        i = i + 1;
    }
    proof { assert(chars@.take(chars@.len() as int) =~= chars@); }
    out
}

/// Whether characters spell a piece of text exactly.
fn spells(chars: &Vec<char>, word: &str) -> (r: bool)
    ensures
        r == (chars@ == word@),
{
    let w = chars_of(word);
    if chars.len() != w.len() {
        return false;
    }
    let mut i: usize = 0;
    while i < w.len()
        invariant
            i <= w@.len(),
            w@ == word@,
            chars@.len() == w@.len(),
            forall|k: int| 0 <= k < i ==> chars@[k] == w@[k],
        decreases w.len() - i,
    {
        if chars[i] != w[i] {
            return false;
        }
        i = i + 1;
    }
    proof { assert(chars@ =~= w@); }
    true
}

impl Level {
    /// The level a name stands for, ignoring case and surrounding space;
    /// `warning` is `warn`.
    pub fn parse(name: &str) -> (r: Option<Level>)
        ensures
            r == spec_level(name@),
    {
        let n = normalized(name);
        if spells(&n, "debug") { Some(Level::Debug) }
        else if spells(&n, "info") { Some(Level::Info) }
        else if spells(&n, "warn") || spells(&n, "warning") { Some(Level::Warn) }
        else if spells(&n, "error") { Some(Level::Error) }
        else { None }
    }

    /// The name the level is shown by.
    pub fn as_str(self) -> (r: &'static str)
        ensures
            r@ == spec_level_name(self),
    {
        match self {
            Level::Debug => "debug",
            Level::Info => "info",
            Level::Warn => "warn",
            Level::Error => "error",
        }
    }

    /// The tag a text line carries.
    pub fn label(self) -> (r: &'static str)
        ensures
            r@ == spec_label(self),
    {
        match self {
            Level::Debug => "DEBUG",
            Level::Info => "INFO",
            Level::Warn => "WARN",
            Level::Error => "ERROR",
        }
    }

    /// Where the level sits, quietest first.
    pub fn rank(self) -> (r: u8)
        ensures
            r == rank(self),
    {
        match self {
            Level::Debug => 10,
            Level::Info => 20,
            Level::Warn => 30,
            Level::Error => 40,
        }
    }
}

impl Format {
    /// The format a name stands for, ignoring case and surrounding space.
    pub fn parse(name: &str) -> (r: Option<Format>)
        ensures
            r == spec_format(name@),
    {
        let n = normalized(name);
        if spells(&n, "text") { Some(Format::Text) }
        else if spells(&n, "json") { Some(Format::Json) }
        else if spells(&n, "pretty") { Some(Format::Pretty) }
        else { None }
    }

    /// The name the format is shown by.
    pub fn as_str(self) -> (r: &'static str)
        ensures
            r@ == spec_format_name(self),
    {
        match self {
            Format::Text => "text",
            Format::Json => "json",
            Format::Pretty => "pretty",
        }
    }
}

/// Whether a logger set to `threshold` keeps a line at `level`.
pub fn keeps(threshold: Level, level: Level) -> (r: bool)
    ensures
        r == (rank(level) >= rank(threshold)),
{
    level.rank() >= threshold.rank()
}

} // verus!

verus! {

/// Whether a character is white space (`char::is_whitespace`), that is,
/// has Unicode's `White_Space` property: tab, line feed, vertical tab, form
/// feed, carriage return and space among ASCII; next line, no-break space,
/// the Ogham space mark, the spaces from en quad to hair space, the line and
/// paragraph separators, the narrow no-break space, the medium mathematical
/// space and the ideographic space beyond it.
pub open spec fn is_space(c: char) -> bool {
    let n = c as u32;
    (0x09 <= n <= 0x0D) || n == 0x20 || n == 0x85 || n == 0xA0 || n == 0x1680
        || (0x2000 <= n <= 0x200A) || n == 0x2028 || n == 0x2029 || n == 0x202F
        || n == 0x205F || n == 0x3000
}

/// Whether a character is white space, as `char::is_whitespace` has it.
pub(crate) fn space(c: char) -> (r: bool)
    ensures
        r == is_space(c),
{
    let n = c as u32;
    (0x09 <= n && n <= 0x0D) || n == 0x20 || n == 0x85 || n == 0xA0 || n == 0x1680
        || (0x2000 <= n && n <= 0x200A) || n == 0x2028 || n == 0x2029 || n == 0x202F
        || n == 0x205F || n == 0x3000
}

/// Whether a field value has to be quoted to be read back: it is empty, or
/// holds white space, a quote, an `=` or a backslash.
pub open spec fn needs_quotes(value: Seq<char>) -> bool {
    value.len() == 0 || exists|i: int| 0 <= i < value.len()
        && (is_space(#[trigger] value[i]) || value[i] == '"' || value[i] == '=' || value[i] == '\\')
}

/// One character inside a quoted field.
pub open spec fn field_char(c: char) -> Seq<char> {
    if c == '"' { seq!['\\', '"'] } else if c == '\\' { seq!['\\', '\\'] } else if c == '\n' { seq!['\\', 'n'] } else { seq![c] }
}

/// Characters with the escapes of a quoted field put in.
pub open spec fn field_escaped(value: Seq<char>) -> Seq<char>
    decreases value.len(),
{
    if value.len() == 0 { Seq::empty() } else { field_escaped(value.drop_last()) + field_char(value.last()) }
}

/// A field value as a line shows it.
pub open spec fn spec_escape_field(value: Seq<char>) -> Seq<char> {
    if needs_quotes(value) { seq!['"'] + field_escaped(value) + seq!['"'] } else { value }
}

/// A field value as a line shows it: as it is, or in quotes with its
/// quotes, backslashes and line breaks escaped when it could not be read
/// back otherwise.
pub fn escape_field(value: &str) -> (r: String)
    ensures
        r@ == spec_escape_field(value@),
{
    let chars = chars_of(value);
    let mut quote = chars.len() == 0;
    let mut i: usize = 0;
    while i < chars.len()
        invariant
            i <= chars@.len(),
            chars@ == value@,
            quote == (chars@.len() == 0 || exists|k: int| 0 <= k < i
                && (is_space(#[trigger] chars@[k]) || chars@[k] == '"' || chars@[k] == '=' || chars@[k] == '\\')),
        decreases chars.len() - i,
    {
        let c = chars[i];
        if space(c) || c == '"' || c == '=' || c == '\\' {
            quote = true;
        }
        i = i + 1;
    }
    if !quote {
        return String::from_str(value);
    }
    let mut out = String::new();
    push_char(&mut out, '"');
    let mut k: usize = 0;
    while k < chars.len()
        invariant
            k <= chars@.len(),
            chars@ == value@,
            out@ == seq!['"'] + field_escaped(chars@.take(k as int)),
        decreases chars.len() - k,
    {
        let c = chars[k];
        if c == '"' {
            push_char(&mut out, '\\');
            push_char(&mut out, '"');
        } else if c == '\\' {
            push_char(&mut out, '\\');
            push_char(&mut out, '\\');
        } else if c == '\n' {
            push_char(&mut out, '\\');
            push_char(&mut out, 'n');
        } else {
            push_char(&mut out, c);
        }
        proof {
            assert(chars@.take(k + 1).drop_last() =~= chars@.take(k as int));
            assert(out@ =~= seq!['"'] + field_escaped(chars@.take(k + 1)));
        }
        k = k + 1;
    }
    proof { assert(chars@.take(chars@.len() as int) =~= chars@); }
    push_char(&mut out, '"');
    out
}

/// The date and time of day `secs` seconds after 1970 began, in UTC:
/// year, month, day, hour, minute and second.
pub open spec fn spec_civil(secs: u64) -> (i32, u32, u32, u32, u32, u32) {
    let second = secs % 60;
    let minutes = secs / 60;
    let minute = minutes % 60;
    let hours = minutes / 60;
    let hour = hours % 24;
    let days = hours / 24;
    let z = days + 719_468;
    let era = z / 146_097;
    let doe = z - era * 146_097;
    let yoe = (doe - doe / 1460 + doe / 36_524 - doe / 146_096) / 365;
    let y = yoe + era * 400;
    let doy = doe - (365 * yoe + yoe / 4 - yoe / 100);
    let mp = (5 * doy + 2) / 153;
    let d = doy - (153 * mp + 2) / 5 + 1;
    let m = if mp < 10 { mp + 3 } else { mp - 9 };
    let y = if m <= 2 { y + 1 } else { y };
    (y as i32, m as u32, d as u32, hour as u32, minute as u32, second as u32)
}

/// The civil date and time of day of a count of seconds since 1970, in UTC,
/// by Howard Hinnant's days-to-civil calendar.
#[verifier::nonlinear]
pub fn civil_from_days(secs: u64) -> (r: (i32, u32, u32, u32, u32, u32))
    ensures
        r == spec_civil(secs),
        1 <= r.1 <= 12,
        1 <= r.2 <= 31,
        r.3 < 24,
        r.4 < 60,
        r.5 < 60,
{
    let second = secs % 60;
    let minutes = secs / 60;
    let minute = minutes % 60;
    let hours = minutes / 60;
    let hour = hours % 24;
    let days = hours / 24;
    let z: u64 = days + 719_468;
    let era: u64 = z / 146_097;
    let doe: u64 = z - era * 146_097;
    assert(doe < 146_097);
    let yoe: u64 = (doe - doe / 1460 + doe / 36_524 - doe / 146_096) / 365;
    assert(yoe < 400);
    let y: u64 = yoe + era * 400;
    let doy: u64 = doe - (365 * yoe + yoe / 4 - yoe / 100);
    assert(doy < 366);
    let mp: u64 = (5 * doy + 2) / 153;
    assert(mp < 12);
    let d: u64 = doy - (153 * mp + 2) / 5 + 1;
    assert(1 <= d <= 31);
    let m: u64 = if mp < 10 { mp + 3 } else { mp - 9 };
    let y: u64 = if m <= 2 { y + 1 } else { y };
    (y as i32, m as u32, d as u32, hour as u32, minute as u32, second as u32)
}

} // verus!

verus! {

/// A number in decimal, with zeros in front to make it `width` long.
pub open spec fn padded(n: nat, width: nat) -> Seq<char> {
    let d = digits(n);
    if d.len() >= width { d } else { Seq::new((width - d.len()) as nat, |i: int| '0') + d }
}

/// A year as `{:04}` writes it: at least four characters, a minus counting
/// as one.
pub open spec fn year_text(year: i32) -> Seq<char> {
    if year < 0 { seq!['-'] + padded((-year) as nat, 3) } else { padded(year as nat, 4) }
}

/// A moment as a log line stamps it: `YYYY-MM-DDTHH:MM:SSZ`, in UTC.
pub open spec fn spec_stamp(secs: u64) -> Seq<char> {
    let (y, mo, d, h, mi, s) = spec_civil(secs);
    year_text(y) + "-"@ + padded(mo as nat, 2) + "-"@ + padded(d as nat, 2) + "T"@
        + padded(h as nat, 2) + ":"@ + padded(mi as nat, 2) + ":"@ + padded(s as nat, 2) + "Z"@
}

/// How many decimal digits a number has.
fn digit_count(n: u64) -> (r: u64)
    ensures
        r == digits(n as nat).len(),
        r <= 1 + n / 10,
    decreases n,
{
    if n < 10 {
        1
    } else {
        let rest = digit_count(n / 10);
        assert(digits(n as nat) == digits((n / 10) as nat).push(crate::text::digit_char((n % 10) as nat)));
        rest + 1
    }
}

fn push_padded(out: &mut String, n: u64, width: usize)
    ensures
        final(out)@ == old(out)@ + padded(n as nat, width as nat),
{
    let count = digit_count(n);
    if count < width as u64 {
        let count = count as usize;
        let mut k: usize = 0;
        while k < width - count
            invariant
                count < width,
                k <= width - count,
                out@ == old(out)@ + Seq::new(k as nat, |i: int| '0'),
            decreases width - count - k,
        {
            push_char(out, '0');
            proof { assert(out@ =~= old(out)@ + Seq::new((k + 1) as nat, |i: int| '0')); }
            k = k + 1;
        }
        proof { assert(old(out)@ + Seq::new((width - count) as nat, |i: int| '0') + digits(n as nat)
            =~= old(out)@ + (Seq::new((width - count) as nat, |i: int| '0') + digits(n as nat))); }
    } else {
        proof { assert(out@ =~= old(out)@ + Seq::<char>::empty()); }
    }
    push_digits(out, n);
}

/// The stamp a log line starts with for a moment `secs` seconds after 1970
/// began: `YYYY-MM-DDTHH:MM:SSZ`, in UTC.
pub fn timestamp(secs: u64) -> (r: String)
    ensures
        r@ == spec_stamp(secs),
{
    let (y, mo, d, h, mi, s) = civil_from_days(secs);
    let mut out = String::new();
    if y < 0 {
        push_char(&mut out, '-');
        let magnitude: u64 = if y == i32::MIN { 2147483648u64 } else { (-y) as u64 };
        push_padded(&mut out, magnitude, 3);
    } else {
        push_padded(&mut out, y as u64, 4);
    }
    push_text(&mut out, "-");
    push_padded(&mut out, mo as u64, 2);
    push_text(&mut out, "-");
    push_padded(&mut out, d as u64, 2);
    push_text(&mut out, "T");
    push_padded(&mut out, h as u64, 2);
    push_text(&mut out, ":");
    push_padded(&mut out, mi as u64, 2);
    push_text(&mut out, ":");
    push_padded(&mut out, s as u64, 2);
    push_text(&mut out, "Z");
    proof {
        if y < 0 {
            assert(year_text(y) =~= seq!['-'] + padded((-y) as nat, 3));
        }
        assert(out@ =~= spec_stamp(secs));
    }
    out
}

} // verus!

verus! {

/// Fields as a text line ends with them: ` key=value` for each.
pub open spec fn text_fields(fields: Seq<(Seq<char>, Seq<char>)>) -> Seq<char>
    decreases fields.len(),
{
    if fields.len() == 0 {
        Seq::empty()
    } else {
        text_fields(fields.drop_last()) + " "@ + fields.last().0 + "="@ + spec_escape_field(fields.last().1)
    }
}

/// Fields as the pretty layout shows them: `key=value`, two spaces apart.
pub open spec fn pretty_fields(fields: Seq<(Seq<char>, Seq<char>)>) -> Seq<char>
    decreases fields.len(),
{
    if fields.len() == 0 {
        Seq::empty()
    } else if fields.len() == 1 {
        fields[0].0 + "="@ + spec_escape_field(fields[0].1)
    } else {
        pretty_fields(fields.drop_last()) + "  "@ + fields.last().0 + "="@ + spec_escape_field(fields.last().1)
    }
}

/// A text line: `stamp LEVEL message key=value ...`.
pub open spec fn spec_text_line(stamp: Seq<char>, level: Level, message: Seq<char>, fields: Seq<(Seq<char>, Seq<char>)>) -> Seq<char> {
    stamp + " "@ + spec_label(level) + " "@ + message + text_fields(fields)
}

/// A pretty line: the level's name, two spaces, the message, and the
/// fields on an indented line of their own when there are any.
pub open spec fn spec_pretty_line(level: Level, message: Seq<char>, fields: Seq<(Seq<char>, Seq<char>)>) -> Seq<char> {
    spec_level_name(level) + "  "@ + message
        + if fields.len() == 0 { Seq::empty() } else { "\n       "@ + pretty_fields(fields) }
}

/// A log line laid out as text.
pub fn render_text(stamp: &str, level: Level, message: &str, fields: &Vec<(String, String)>) -> (r: String)
    ensures
        r@ == spec_text_line(stamp@, level, message@, crate::auth::header_views(fields@)),
{
    let ghost fs = crate::auth::header_views(fields@);
    let mut line = String::new();
    push_text(&mut line, stamp);
    push_text(&mut line, " ");
    push_text(&mut line, level.label());
    push_text(&mut line, " ");
    push_text(&mut line, message);
    let ghost head = line@;
    let mut i: usize = 0;
    while i < fields.len()
        invariant
            i <= fields@.len(),
            fs == crate::auth::header_views(fields@),
            line@ == head + text_fields(fs.take(i as int)),
        decreases fields.len() - i,
    {
        push_text(&mut line, " ");
        push_text(&mut line, fields[i].0.as_str());
        push_text(&mut line, "=");
        let shown = escape_field(fields[i].1.as_str());
        push_text(&mut line, shown.as_str());
        proof {
            assert(fs.take(i + 1).drop_last() =~= fs.take(i as int));
            assert(line@ =~= head + text_fields(fs.take(i + 1)));
        }
        i = i + 1;
    }
    proof { assert(fs.take(fields@.len() as int) =~= fs); }
    line
}

/// A log line laid out for a terminal.
pub fn render_pretty(level: Level, message: &str, fields: &Vec<(String, String)>) -> (r: String)
    ensures
        r@ == spec_pretty_line(level, message@, crate::auth::header_views(fields@)),
{
    let ghost fs = crate::auth::header_views(fields@);
    let mut line = String::new();
    push_text(&mut line, level.as_str());
    push_text(&mut line, "  ");
    push_text(&mut line, message);
    if fields.len() == 0 {
        proof { assert(line@ =~= spec_pretty_line(level, message@, fs)); }
        return line;
    }
    push_text(&mut line, "\n       ");
    let ghost head = line@;
    let mut i: usize = 0;
    while i < fields.len()
        invariant
            i <= fields@.len(),
            fs == crate::auth::header_views(fields@),
            line@ == head + pretty_fields(fs.take(i as int)),
        decreases fields.len() - i,
    {
        if i > 0 {
            push_text(&mut line, "  ");
        }
        push_text(&mut line, fields[i].0.as_str());
        push_text(&mut line, "=");
        let shown = escape_field(fields[i].1.as_str());
        push_text(&mut line, shown.as_str());
        proof {
            assert(fs.take(i + 1).drop_last() =~= fs.take(i as int));
            if i == 0 { assert(fs.take(1)[0] == fs[0]); }
            assert(line@ =~= head + pretty_fields(fs.take(i + 1)));
        }
        i = i + 1;
    }
    proof { assert(fs.take(fields@.len() as int) =~= fs); }
    line
}

/// A log line's fields as a JSON object's entries: each value as a string.
pub open spec fn json_field_entries(fields: Seq<(Seq<char>, Seq<char>)>) -> Seq<(Seq<char>, crate::json::JsonView)> {
    fields.map_values(|f: (Seq<char>, Seq<char>)| (f.0, crate::json::JsonView::Text(f.1)))
}

/// The JSON object a log line is: its time, level and message, and its
/// fields in an object of their own when there are any.
pub open spec fn spec_json_line(stamp: Seq<char>, level: Level, message: Seq<char>, fields: Seq<(Seq<char>, Seq<char>)>) -> crate::json::JsonView {
    crate::json::JsonView::Object(seq![
        ("time"@, crate::json::JsonView::Text(stamp)),
        ("level"@, crate::json::JsonView::Text(spec_level_name(level))),
        ("message"@, crate::json::JsonView::Text(message)),
    ] + if fields.len() == 0 {
        Seq::empty()
    } else {
        seq![("fields"@, crate::json::JsonView::Object(json_field_entries(fields)))]
    })
}

/// A log line as one JSON object: its time, level and message, and its
/// fields in an object of their own when there are any.
pub fn render_json(stamp: &str, level: Level, message: &str, fields: &Vec<(String, String)>) -> (r: Json)
    ensures
        r@ == spec_json_line(stamp@, level, message@, crate::auth::header_views(fields@)),
{
    let ghost fs = crate::auth::header_views(fields@);
    let mut entries: Vec<(String, Json)> = Vec::new();
    entries.push((String::from_str("time"), Json::Text(String::from_str(stamp))));
    entries.push((String::from_str("level"), Json::Text(String::from_str(level.as_str()))));
    entries.push((String::from_str("message"), Json::Text(String::from_str(message))));
    proof {
        reveal_strlit("time");
        reveal_strlit("level");
        reveal_strlit("message");
        reveal_strlit("fields");
        assert(crate::json::json_fields(entries@, 3) =~= seq![
            ("time"@, crate::json::JsonView::Text(stamp@)),
            ("level"@, crate::json::JsonView::Text(spec_level_name(level))),
            ("message"@, crate::json::JsonView::Text(message@)),
        ]) by {
            reveal_with_fuel(crate::json::json_fields, 4);
        }
    }
    if fields.len() > 0 {
        let mut object: Vec<(String, Json)> = Vec::new();
        let mut i: usize = 0;
        while i < fields.len()
            invariant
                i <= fields@.len(),
                fs == crate::auth::header_views(fields@),
                object@.len() == i,
                crate::json::json_fields(object@, i as nat) == json_field_entries(fs.take(i as int)),
            decreases fields.len() - i,
        {
            let ghost before = object@;
            object.push((fields[i].0.clone(), Json::Text(fields[i].1.clone())));
            proof {
                assert forall|k: nat| k <= i implies crate::json::json_fields(object@, k) == crate::json::json_fields(before, k) by {
                    lemma_json_fields_prefix(before, object@, k);
                }
                assert(fs[i as int] == (fields@[i as int].0@, fields@[i as int].1@));
                assert(object@[i as int].0@ == fs[i as int].0);
                assert(json_view(object@[i as int].1) == crate::json::JsonView::Text(fs[i as int].1));
                assert(crate::json::json_fields(object@, (i + 1) as nat) == crate::json::json_fields(object@, i as nat).push(
                    (object@[i as int].0@, json_view(object@[i as int].1))));
                assert(json_field_entries(fs.take(i + 1)) =~= json_field_entries(fs.take(i as int)).push(
                    (fs[i as int].0, crate::json::JsonView::Text(fs[i as int].1))));
            }
            i = i + 1;
        }
        proof { assert(fs.take(fields@.len() as int) =~= fs); }
        let ghost head = entries@;
        let ghost fields_json = Json::Object(object);
        assert(json_view(fields_json) == crate::json::JsonView::Object(json_field_entries(fs)));
        entries.push((String::from_str("fields"), Json::Object(object)));
        proof {
            lemma_json_fields_prefix(head, entries@, 3);
            assert(entries@[3].0@ == "fields"@);
            assert(crate::json::json_fields(entries@, 4) == crate::json::json_fields(entries@, 3).push(
                (entries@[3].0@, json_view(entries@[3].1))));
        }
    }
    let r = Json::Object(entries);
    proof {
        let three = seq![
            ("time"@, crate::json::JsonView::Text(stamp@)),
            ("level"@, crate::json::JsonView::Text(spec_level_name(level))),
            ("message"@, crate::json::JsonView::Text(message@)),
        ];
        if fields@.len() == 0 {
            assert(three + Seq::empty() =~= three);
        } else {
            assert(crate::json::json_fields(entries@, 4) =~= three + seq![("fields"@, crate::json::JsonView::Object(json_field_entries(fs)))]);
        }
    }
    r
}

/// Pushing onto a list of JSON fields leaves the views of its prefixes
/// alone.
proof fn lemma_json_fields_prefix(a: Seq<(String, Json)>, b: Seq<(String, Json)>, k: nat)
    requires
        k <= a.len() <= b.len(),
        forall|i: int| 0 <= i < a.len() ==> b[i] == a[i],
    ensures
        crate::json::json_fields(b, k) == crate::json::json_fields(a, k),
    decreases k,
{
    if k > 0 {
        lemma_json_fields_prefix(a, b, (k - 1) as nat);
    }
}

} // verus!

verus! {

/// A name made only of small ASCII letters is matched as it is written.
proof fn lemma_plain_name(name: Seq<char>)
    requires
        name.len() > 0,
        forall|i: int| 0 <= i < name.len() ==> 'a' <= #[trigger] name[i] <= 'z',
    ensures
        normal_name(name) == name,
{
    assert(!is_space(name[0]));
    assert(!is_space(name.last()));
    assert(crate::auth::trim_start(name) == name);
    assert(crate::auth::trim_end(name) == name);
    assert(name.map_values(|c: char| lower(c)) =~= name);
}

/// The name a format is shown by reads back as that format.
pub proof fn lemma_format_name_round_trip(format: Format)
    ensures
        spec_format(spec_format_name(format)) == Some(format),
{
    reveal_strlit("text");
    reveal_strlit("json");
    reveal_strlit("pretty");
    lemma_plain_name(spec_format_name(format));
}

/// The name a level is shown by reads back as that level.
pub proof fn lemma_level_name_round_trip(level: Level)
    ensures
        spec_level(spec_level_name(level)) == Some(level),
{
    reveal_strlit("debug");
    reveal_strlit("info");
    reveal_strlit("warn");
    reveal_strlit("warning");
    reveal_strlit("error");
    lemma_plain_name(spec_level_name(level));
}

} // verus!
