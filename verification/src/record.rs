//! Operational records: identifiers, timestamps and file names, the errors
//! of reading a record, and the text-level pieces of the record TOML format
//! (escaping, key lines, string decoding, top-level splitting).
use vstd::prelude::*;
use crate::qualified_name::join_with;
use crate::text::{chars_of, decimal, ends_with, own, push_char, push_str, string_of, usize_to_decimal};

verus! {

/// Errors that can occur when working with records.
#[derive(Debug)]
pub enum RecordError {
    /// A required section or key is missing.
    MissingField(String),
    /// A value could not be read as the expected type.
    InvalidValue { key: String, detail: String },
    /// The TOML text is malformed.
    ParseError(String),
}

/// The message of a record error.
pub open spec fn record_error_text(e: RecordError) -> Seq<char> {
    match e {
        RecordError::MissingField(name) => "missing required field: "@ + name@,
        RecordError::InvalidValue { key, detail } => "invalid value for '"@ + key@ + "': "@ + detail@,
        RecordError::ParseError(msg) => "TOML parse error: "@ + msg@,
    }
}

impl RecordError {
    /// The error message.
    pub fn to_string(&self) -> (r: String)
        ensures
            r@ == record_error_text(*self),
    {
        match self {
            RecordError::MissingField(name) => {
                let mut r = own("missing required field: ");
                push_str(&mut r, name.as_str());
                r
            },
            RecordError::InvalidValue { key, detail } => {
                let mut r = own("invalid value for '");
                push_str(&mut r, key.as_str());
                push_str(&mut r, "': ");
                push_str(&mut r, detail.as_str());
                r
            },
            RecordError::ParseError(msg) => {
                let mut r = own("TOML parse error: ");
                push_str(&mut r, msg.as_str());
                r
            },
        }
    }
}

// ------------------------------------------------------------------------
// Dates and times
// ------------------------------------------------------------------------

/// The civil date `(year, month, day)` of a day count since 1970-01-01
/// (Howard Hinnant's `civil_from_days`, on a non-negative shifted count).
pub open spec fn civil_from_days(days: int) -> (int, int, int) {
    let z = days + 719468;
    let era = z / 146097;
    let doe = z - era * 146097;
    let yoe = (doe - doe / 1460 + doe / 36524 - doe / 146096) / 365;
    let y = yoe + era * 400;
    let doy = doe - (365 * yoe + yoe / 4 - yoe / 100);
    let mp = (5 * doy + 2) / 153;
    let d = doy - (153 * mp + 2) / 5 + 1;
    let m = if mp < 10 { mp + 3 } else { mp - 9 };
    (if m <= 2 { y + 1 } else { y }, m, d)
}

/// The largest day count whose shifted count fits an `i64`.
pub open spec fn max_days() -> u64 {
    (i64::MAX - 719468) as u64
}

/// The date of a day count since the Unix epoch.
pub fn days_to_ymd(days: u64) -> (r: (u64, u64, u64))
    requires
        days <= max_days(),
    ensures
        r.0 == civil_from_days(days as int).0 as u64,
        r.1 == civil_from_days(days as int).1 as u64,
        r.2 == civil_from_days(days as int).2 as u64,
{
    let z: i64 = days as i64 + 719468;
    let era: i64 = z / 146097;
    assert(0 <= era * 146097 <= z) by (nonlinear_arith)
        requires era == z / 146097, z >= 0;
    assert(z - era * 146097 < 146097) by (nonlinear_arith)
        requires era == z / 146097, z >= 0;
    let doe: i64 = z - era * 146097;
    let yoe: i64 = (doe - doe / 1460 + doe / 36524 - doe / 146096) / 365;
    assert(0 <= yoe <= 400);
    assert(era <= z / 146097);
    let y: i64 = yoe + era * 400;
    let doy: i64 = doe - (365 * yoe + yoe / 4 - yoe / 100);
    let mp: i64 = (5 * doy + 2) / 153;
    let d: i64 = doy - (153 * mp + 2) / 5 + 1;
    let m: i64 = if mp < 10 { mp + 3 } else { mp - 9 };
    let y2: i64 = if m <= 2 { y + 1 } else { y };
    (y2 as u64, m as u64, d as u64)
}

/// `n` in decimal, padded with zeros to at least `w` digits.
pub open spec fn padded(n: nat, w: nat) -> Seq<char> {
    Seq::new(
        if decimal(n).len() < w { (w - decimal(n).len()) as nat } else { 0 },
        |i: int| '0',
    ) + decimal(n)
}

/// The ISO 8601 UTC timestamp `YYYY-MM-DDTHH:MM:SSZ` of a count of seconds
/// since the Unix epoch.
pub open spec fn iso8601_text(secs: u64) -> Seq<char> {
    let days = secs / 86400;
    let tod = secs % 86400;
    let ymd = civil_from_days(days as int);
    padded(ymd.0 as u64 as nat, 4) + "-"@ + padded(ymd.1 as u64 as nat, 2) + "-"@ + padded(
        ymd.2 as u64 as nat,
        2,
    ) + "T"@ + padded((tod / 3600) as nat, 2) + ":"@ + padded(((tod % 3600) / 60) as nat, 2) + ":"@
        + padded((tod % 60) as nat, 2) + "Z"@
}

/// Appends `n` in decimal padded with zeros to at least `w` digits.
fn push_padded(out: &mut String, n: u64, w: usize)
    ensures
        final(out)@ == old(out)@ + padded(n as nat, w as nat),
{
    let digits = usize_to_decimal_u64(n);
    let len = digits.as_str().unicode_len();
    let mut k: usize = len;
    while k < w
        invariant
            len == decimal(n as nat).len(),
            len <= k <= w || (k == len && len >= w),
            out@ == old(out)@ + Seq::new((k - len) as nat, |i: int| '0'),
        decreases w - k,
    {
        push_char(out, '0');
        assert(out@ =~= old(out)@ + Seq::new((k + 1 - len) as nat, |i: int| '0'));
        k = k + 1;
    }
    push_str(out, digits.as_str());
    assert(out@ =~= old(out)@ + padded(n as nat, w as nat));
}

/// The decimal form of a `u64`.
fn usize_to_decimal_u64(n: u64) -> (r: String)
    ensures
        r@ == decimal(n as nat),
    decreases n,
{
    if n < 10 {
        let mut r = String::new();
        let c = digit_char(n);
        push_char(&mut r, c);
        assert(r@ =~= decimal(n as nat));
        r
    } else {
        let mut r = usize_to_decimal_u64(n / 10);
        let c = digit_char(n % 10);
        push_char(&mut r, c);
        assert(r@ =~= decimal(n as nat));
        r
    }
}

/// The decimal digit of `d`.
fn digit_char(d: u64) -> (c: char)
    requires
        d < 10,
    ensures
        c == (('0' as u32) + d) as char,
{
    if d == 0 { '0' }
    else if d == 1 { '1' }
    else if d == 2 { '2' }
    else if d == 3 { '3' }
    else if d == 4 { '4' }
    else if d == 5 { '5' }
    else if d == 6 { '6' }
    else if d == 7 { '7' }
    else if d == 8 { '8' }
    else { '9' }
}

/// The ISO 8601 UTC timestamp of a count of seconds since the Unix epoch.
pub fn iso8601_from_secs(secs: u64) -> (r: String)
    ensures
        r@ == iso8601_text(secs),
{
    let days = secs / 86400;
    let time_of_day = secs % 86400;
    let hours = time_of_day / 3600;
    let minutes = (time_of_day % 3600) / 60;
    let seconds = time_of_day % 60;
    assert(days <= max_days());
    let (year, month, day) = days_to_ymd(days);
    let mut out = String::new();
    push_padded(&mut out, year, 4);
    push_str(&mut out, "-");
    push_padded(&mut out, month, 2);
    push_str(&mut out, "-");
    push_padded(&mut out, day, 2);
    push_str(&mut out, "T");
    push_padded(&mut out, hours, 2);
    push_str(&mut out, ":");
    push_padded(&mut out, minutes, 2);
    push_str(&mut out, ":");
    push_padded(&mut out, seconds, 2);
    push_str(&mut out, "Z");
    assert(out@ =~= iso8601_text(secs));
    out
}

/// Seconds since the Unix epoch by the system clock (`SystemTime::elapsed`
/// of `UNIX_EPOCH`, zero when the clock is set before the epoch).  What
/// the clock reads is not stated.
#[verifier::external_body]
fn clock_seconds() -> (r: u64) {
    match std::time::UNIX_EPOCH.elapsed() {
        Ok(d) => d.as_secs(),
        Err(_) => 0,
    }
}

/// The current time as an ISO 8601 UTC timestamp, e.g. `2026-03-09T14:30:00Z`.
pub fn now_iso8601() -> (r: String)
    ensures
        exists|secs: u64| r@ == iso8601_text(secs),
{
    let secs = clock_seconds();
    iso8601_from_secs(secs)
}

// ------------------------------------------------------------------------
// Identifiers
// ------------------------------------------------------------------------

/// The FNV-1a 64-bit offset basis.
pub open spec fn fnv_offset() -> u64 {
    0xcbf29ce484222325u64
}

/// The FNV-1a 64-bit prime.
pub open spec fn fnv_prime() -> u64 {
    0x100000001b3u64
}

/// The 64-bit FNV-1a hash of `bytes`.
pub open spec fn fnv1a(bytes: Seq<u8>) -> u64
    decreases bytes.len(),
{
    if bytes.len() == 0 {
        fnv_offset()
    } else {
        vstd::wrapping::u64_specs::wrapping_mul(fnv1a(bytes.drop_last()) ^ (bytes.last() as u64), fnv_prime())
    }
}

/// The lower-case hex digit of `d`.
pub open spec fn hex_digit(d: nat) -> char {
    if d < 10 {
        (('0' as u32) + d) as char
    } else {
        (('a' as u32) + d - 10) as char
    }
}

/// `v` as four lower-case hex digits.
pub open spec fn hex4(v: nat) -> Seq<char> {
    seq![hex_digit((v / 4096) % 16), hex_digit((v / 256) % 16), hex_digit((v / 16) % 16), hex_digit(v % 16)]
}

/// The 4-hex-digit fingerprint of a text: the low 16 bits of its FNV-1a hash.
pub open spec fn short_hash_text(input: Seq<char>) -> Seq<char> {
    hex4((fnv1a(vstd::utf8::encode_utf8(input)) % 65536) as nat)
}

/// The lower-case hex digit of `d`.
fn hex_char(d: u64) -> (c: char)
    requires
        d < 16,
    ensures
        c == hex_digit(d as nat),
{
    if d < 10 {
        digit_char(d)
    } else if d == 10 { 'a' }
    else if d == 11 { 'b' }
    else if d == 12 { 'c' }
    else if d == 13 { 'd' }
    else if d == 14 { 'e' }
    else { 'f' }
}

/// A 4-hex-character fingerprint of `input` (the low 16 bits of its
/// FNV-1a hash).
pub fn short_hash(input: &str) -> (r: String)
    ensures
        r@ == short_hash_text(input@),
{
    let bytes = input.as_bytes();
    let ghost b = bytes@;
    let mut h: u64 = 0xcbf29ce484222325;
    let mut i: usize = 0;
    while i < bytes.len()
        invariant
            i <= b.len(),
            b == bytes@,
            h == fnv1a(b.take(i as int)),
        decreases b.len() - i,
    {
        assert(b.take(i + 1).drop_last() =~= b.take(i as int));
        h = h ^ (bytes[i] as u64);
        h = h.wrapping_mul(0x100000001b3);
        i = i + 1;
    }
    assert(b.take(b.len() as int) =~= b);
    let v = h % 65536;
    let mut r = String::new();
    push_char(&mut r, hex_char((v / 4096) % 16));
    push_char(&mut r, hex_char((v / 256) % 16));
    push_char(&mut r, hex_char((v / 16) % 16));
    push_char(&mut r, hex_char(v % 16));
    assert(r@ =~= short_hash_text(input@));
    r
}

/// The ASCII digits of a text, in order.
pub open spec fn digits_only(s: Seq<char>) -> Seq<char> {
    crate::cache::filter_seq(s, |c: char| '0' <= c <= '9')
}

/// The record id `{tool}-{type}-{digits of ts}-{author}-{hash}`, where the
/// hash fingerprints tool, type, timestamp and author together.
pub open spec fn record_id_text(tool: Seq<char>, record_type: Seq<char>, author: Seq<char>, ts: Seq<char>) -> Seq<char> {
    tool + "-"@ + record_type + "-"@ + digits_only(ts) + "-"@ + author + "-"@ + short_hash_text(
        tool + record_type + ts + author,
    )
}

/// The record id for a record made at timestamp `ts`.
pub fn record_id_at(tool: &str, record_type: &str, author: &str, ts: &str) -> (r: String)
    ensures
        r@ == record_id_text(tool@, record_type@, author@, ts@),
{
    let ghost f = |c: char| '0' <= c <= '9';
    let mut compact = String::new();
    let cs = chars_of(ts);
    let mut i: usize = 0;
    while i < cs.len()
        invariant
            i <= cs@.len(),
            cs@ == ts@,
            forall|c: char| #[trigger] f(c) == ('0' <= c <= '9'),
            compact@ == crate::cache::filter_seq(cs@.take(i as int), f),
        decreases cs@.len() - i,
    {
        proof {
            crate::cache::lemma_filter_take(cs@, f, i as int);
        }
        let c = cs[i];
        if '0' <= c && c <= '9' {
            push_char(&mut compact, c);
        }
        assert(compact@ =~= crate::cache::filter_seq(cs@.take(i + 1), f));
        i = i + 1;
    }
    assert(cs@.take(cs@.len() as int) =~= cs@);
    proof {
        assert(f =~= |c: char| '0' <= c <= '9');
    }
    let mut all = own(tool);
    push_str(&mut all, record_type);
    push_str(&mut all, ts);
    push_str(&mut all, author);
    let hash = short_hash(all.as_str());
    let mut id = own(tool);
    push_str(&mut id, "-");
    push_str(&mut id, record_type);
    push_str(&mut id, "-");
    push_str(&mut id, compact.as_str());
    push_str(&mut id, "-");
    push_str(&mut id, author);
    push_str(&mut id, "-");
    push_str(&mut id, hash.as_str());
    assert(id@ =~= record_id_text(tool@, record_type@, author@, ts@));
    id
}

/// A record id `{tool}-{type}-{timestamp}-{author}-{hash}` for a record
/// made now.
pub fn generate_record_id(tool: &str, record_type: &str, author: &str) -> (r: String)
    ensures
        exists|secs: u64| r@ == record_id_text(tool@, record_type@, author@, iso8601_text(secs)),
{
    let ts = now_iso8601();
    record_id_at(tool, record_type, author, ts.as_str())
}

/// The file name of a record: its id with `.toml`.
pub fn record_filename(id: &str) -> (r: String)
    ensures
        r@ == id@ + ".toml"@,
{
    let mut r = own(id);
    push_str(&mut r, ".toml");
    r
}

// ------------------------------------------------------------------------
// Record identity
// ------------------------------------------------------------------------

/// Identity and provenance of a record.
#[derive(Debug, Clone)]
pub struct RecordMeta {
    pub id: String,
    pub tool: String,
    pub record_type: String,
    /// ISO 8601 timestamp (e.g. `2026-03-09T14:30:00Z`).
    pub created: String,
    pub author: String,
}

// ------------------------------------------------------------------------
// TOML text
// ------------------------------------------------------------------------

/// A character as written inside a TOML basic string.
pub open spec fn toml_escape_char(c: char) -> Seq<char> {
    if c == '"' {
        seq!['\\', '"']
    } else if c == '\\' {
        seq!['\\', '\\']
    } else if c == '\n' {
        seq!['\\', 'n']
    } else if c == '\r' {
        seq!['\\', 'r']
    } else if c == '\t' {
        seq!['\\', 't']
    } else {
        seq![c]
    }
}

/// The escaped body of a TOML basic string.
pub open spec fn toml_escaped(s: Seq<char>) -> Seq<char>
    decreases s.len(),
{
    if s.len() == 0 {
        seq![]
    } else {
        toml_escaped(s.drop_last()) + toml_escape_char(s.last())
    }
}

/// Append `s` escaped for a TOML basic string.
pub fn push_escaped(out: &mut String, s: &str)
    ensures
        final(out)@ == old(out)@ + toml_escaped(s@),
{
    let cs = chars_of(s);
    let ghost start = out@;
    let mut i: usize = 0;
    while i < cs.len()
        invariant
            i <= cs@.len(),
            cs@ == s@,
            out@ == start + toml_escaped(cs@.take(i as int)),
        decreases cs@.len() - i,
    {
        let c = cs[i];
        if c == '"' {
            push_str(out, "\\\"");
        } else if c == '\\' {
            push_str(out, "\\\\");
        } else if c == '\n' {
            push_str(out, "\\n");
        } else if c == '\r' {
            push_str(out, "\\r");
        } else if c == '\t' {
            push_str(out, "\\t");
        } else {
            push_char(out, c);
        }
        proof {
            reveal_strlit("\\\"");
            reveal_strlit("\\\\");
            reveal_strlit("\\n");
            reveal_strlit("\\r");
            reveal_strlit("\\t");
        }
        assert(cs@.take(i + 1).drop_last() =~= cs@.take(i as int));
        assert(out@ =~= start + toml_escaped(cs@.take(i + 1)));
        i = i + 1;
    }
    assert(cs@.take(cs@.len() as int) =~= cs@);
}

/// A quoted, escaped TOML string.
pub open spec fn toml_quoted(s: Seq<char>) -> Seq<char> {
    seq!['"'] + toml_escaped(s) + seq!['"']
}

/// Write `key = "value"` and a newline, with the value escaped.
pub fn push_kv_string(out: &mut String, key: &str, value: &str)
    ensures
        final(out)@ == old(out)@ + key@ + " = "@ + toml_quoted(value@) + "\n"@,
{
    let ghost start = out@;
    push_str(out, key);
    push_str(out, " = \"");
    push_escaped(out, value);
    push_str(out, "\"\n");
    proof {
        reveal_strlit(" = \"");
        reveal_strlit("\"\n");
        reveal_strlit(" = ");
        reveal_strlit("\n");
    }
    assert(out@ =~= start + key@ + " = "@ + toml_quoted(value@) + "\n"@);
}

/// Write `key = ["a", "b"]` and a newline, with the items escaped.
pub fn push_kv_string_array(out: &mut String, key: &str, items: &Vec<String>)
    ensures
        final(out)@ == old(out)@ + key@ + " = ["@ + join_with(
            items.deep_view().map_values(|x: Seq<char>| toml_quoted(x)),
            ", "@,
        ) + "]\n"@,
{
    let ghost start = out@;
    let ghost q = items.deep_view().map_values(|x: Seq<char>| toml_quoted(x));
    push_str(out, key);
    push_str(out, " = [");
    let ghost head = out@;
    let mut i: usize = 0;
    while i < items.len()
        invariant
            i <= items@.len(),
            q == items.deep_view().map_values(|x: Seq<char>| toml_quoted(x)),
            q.len() == items@.len(),
            out@ == head + join_with(q.take(i as int), ", "@),
        decreases items@.len() - i,
    {
        let ghost before = out@;
        if i > 0 {
            push_str(out, ", ");
        }
        push_char(out, '"');
        push_escaped(out, items[i].as_str());
        push_char(out, '"');
        assert(q[i as int] == toml_quoted(items@[i as int]@));
        proof {
            if i > 0 {
                crate::qualified_name::lemma_join_step(q, ", "@, i as int);
            } else {
                assert(q.take(1) =~= seq![q[0]]);
            }
            reveal_strlit(", ");
        }
        assert(out@ =~= head + join_with(q.take(i + 1), ", "@));
        i = i + 1;
    }
    assert(q.take(q.len() as int) =~= q);
    push_str(out, "]\n");
    proof {
        reveal_strlit(" = [");
        reveal_strlit("]\n");
    }
}

/// The message `{msg} at line {n + 1}`.
pub open spec fn at_line(msg: Seq<char>, n: nat) -> Seq<char> {
    msg + " at line "@ + decimal(n + 1)
}

/// The contents of a basic string body with the escapes `\"`, `\\`, `\n`,
/// `\r` and `\t` decoded; any other escape, or a backslash at the end, is
/// an error (reported for line `n`, 0-based).
pub open spec fn unescape_body(s: Seq<char>, n: nat) -> Result<Seq<char>, Seq<char>>
    decreases s.len(),
{
    if s.len() == 0 {
        Ok(seq![])
    } else if s[0] == '\\' {
        if s.len() < 2 {
            Err(at_line("trailing backslash"@, n))
        } else {
            let d = s[1];
            let c = if d == '"' {
                Some('"')
            } else if d == '\\' {
                Some('\\')
            } else if d == 'n' {
                Some('\n')
            } else if d == 'r' {
                Some('\r')
            } else if d == 't' {
                Some('\t')
            } else {
                None
            };
            match c {
                Some(c) => match unescape_body(s.skip(2), n) {
                    Ok(rest) => Ok(seq![c] + rest),
                    Err(e) => Err(e),
                },
                None => Err(at_line("unknown escape '\\"@ + seq![d] + "'"@, n)),
            }
        }
    } else {
        match unescape_body(s.drop_first(), n) {
            Ok(rest) => Ok(seq![s[0]] + rest),
            Err(e) => Err(e),
        }
    }
}

/// A basic TOML string `"..."`: unterminated when shorter than two
/// characters or not ending with `"`.
pub open spec fn basic_string(s: Seq<char>, n: nat) -> Result<Seq<char>, Seq<char>> {
    if s.len() < 2 || !ends_with(s, "\""@) {
        Err(at_line("unterminated string"@, n))
    } else {
        unescape_body(s.subrange(1, s.len() - 1), n)
    }
}

pub(crate) fn at_line_exec(msg: &str, line_no: usize) -> (r: String)
    requires
        line_no < usize::MAX,
    ensures
        r@ == at_line(msg@, line_no as nat),
{
    let mut r = own(msg);
    push_str(&mut r, " at line ");
    let d = usize_to_decimal(line_no + 1);
    push_str(&mut r, d.as_str());
    r
}

/// Parse a basic (double-quoted) TOML string, decoding its escapes; errors
/// name line `line_no + 1`.
pub fn parse_basic_string(s: &str, line_no: usize) -> (r: Result<String, RecordError>)
    requires
        line_no < usize::MAX,
        s@.len() == 0 || (s@[0] as u32) < 0x80,
    ensures
        match (r, basic_string(s@, line_no as nat)) {
            (Ok(a), Ok(b)) => a@ == b,
            (Err(RecordError::ParseError(m)), Err(b)) => m@ == b,
            _ => false,
        },
{
    let cs = chars_of(s);
    proof {
        reveal_strlit("\"");
        assert("\""@ =~= seq!['"']);
        if cs@.len() >= 1 {
            assert(cs@.skip(cs@.len() - 1) =~= seq![cs@.last()]);
        }
    }
    if cs.len() < 2 || cs[cs.len() - 1] != '"' {
        proof {
            if s@.len() >= 2 {
                assert(s@.skip(s@.len() - 1)[0] == s@.last());
                assert("\""@[0] == '"');
            }
        }
        assert(!ends_with(s@, "\""@) || s@.len() < 2);
        let e = at_line_exec("unterminated string", line_no);
        assert(basic_string(s@, line_no as nat) == Err::<Seq<char>, Seq<char>>(e@));
        return Err(RecordError::ParseError(e));
    }
    let ghost body = cs@.subrange(1, cs@.len() - 1);
    let ghost total = unescape_body(body, line_no as nat);
    assert(basic_string(s@, line_no as nat) == total);
    let mut out: Vec<char> = Vec::new();
    let mut i: usize = 1;
    let end = cs.len() - 1;
    assert(body.skip(0) =~= body);
    assert(out@ + body =~= body);
    while i < end
        invariant
            1 <= i <= end,
            end == cs@.len() - 1,
            body == cs@.subrange(1, end as int),
            match unescape_body(body.skip(i - 1), line_no as nat) {
                Ok(rest) => total == Ok::<Seq<char>, Seq<char>>(out@ + rest),
                Err(e) => total == Err::<Seq<char>, Seq<char>>(e),
            },
            basic_string(s@, line_no as nat) == total,
            line_no < usize::MAX,
        decreases end - i,
    {
        let ghost t = body.skip(i - 1);
        let c = cs[i];
        assert(t[0] == c);
        if c == '\\' {
            if i + 1 >= end {
                assert(t.len() < 2);
                return Err(RecordError::ParseError(at_line_exec("trailing backslash", line_no)));
            }
            let d = cs[i + 1];
            assert(t[1] == d);
            assert(t.skip(2) =~= body.skip(i + 1));
            let decoded = if d == '"' {
                Some('"')
            } else if d == '\\' {
                Some('\\')
            } else if d == 'n' {
                Some('\n')
            } else if d == 'r' {
                Some('\r')
            } else if d == 't' {
                Some('\t')
            } else {
                None
            };
            match decoded {
                Some(x) => {
                    let ghost o0 = out@;
                    out.push(x);
                    assert(out@ =~= o0 + seq![x]);
                    i = i + 2;
                    proof {
                        match unescape_body(body.skip(i - 1), line_no as nat) {
                            Ok(rest) => {
                                assert(o0 + (seq![x] + rest) =~= out@ + rest);
                            },
                            Err(e) => {},
                        }
                    }
                },
                None => {
                    let mut m = own("unknown escape '\\");
                    push_char(&mut m, d);
                    push_str(&mut m, "'");
                    assert(m@ =~= "unknown escape '\\"@ + seq![d] + "'"@);
                    let msg = at_line_exec(m.as_str(), line_no);
                    return Err(RecordError::ParseError(msg));
                },
            }
        } else {
            assert(t.drop_first() =~= body.skip(i as int));
            let ghost o0 = out@;
            out.push(c);
            i = i + 1;
            proof {
                match unescape_body(body.skip(i - 1), line_no as nat) {
                    Ok(rest) => {
                        assert(o0 + (seq![c] + rest) =~= out@ + rest);
                    },
                    Err(e) => {},
                }
            }
        }
    }
    assert(body.skip(i - 1) =~= Seq::<char>::empty());
    assert(out@ + Seq::<char>::empty() =~= out@);
    Ok(string_of(&out))
}

/// The scanning state of a top-level split.
pub struct SplitState {
    pub parts: Seq<Seq<char>>,
    pub current: Seq<char>,
    pub depth: int,
    pub in_string: bool,
    pub prev_escape: bool,
}

/// One character of a top-level split: quotes (unless escaped) toggle the
/// string state; outside strings brackets and braces change the nesting
/// depth, and `delim` at depth zero ends a part.
pub open spec fn split_step(st: SplitState, c: char, delim: char) -> SplitState {
    let in1 = if c == '"' && !st.prev_escape {
        !st.in_string
    } else {
        st.in_string
    };
    let esc = c == '\\' && !st.prev_escape;
    if !in1 && (c == '[' || c == '{') {
        SplitState { parts: st.parts, current: st.current.push(c), depth: st.depth + 1, in_string: in1, prev_escape: esc }
    } else if !in1 && (c == ']' || c == '}') {
        SplitState { parts: st.parts, current: st.current.push(c), depth: st.depth - 1, in_string: in1, prev_escape: esc }
    } else if !in1 && c == delim && st.depth == 0 {
        SplitState { parts: st.parts.push(st.current), current: seq![], depth: st.depth, in_string: in1, prev_escape: false }
    } else {
        SplitState { parts: st.parts, current: st.current.push(c), depth: st.depth, in_string: in1, prev_escape: esc }
    }
}

/// The state after scanning `s`.
pub open spec fn split_scan(s: Seq<char>, delim: char) -> SplitState
    decreases s.len(),
{
    if s.len() == 0 {
        SplitState { parts: seq![], current: seq![], depth: 0, in_string: false, prev_escape: false }
    } else {
        split_step(split_scan(s.drop_last(), delim), s.last(), delim)
    }
}

/// The parts of `s` split at top-level occurrences of `delim` (a last
/// empty part dropped).
pub open spec fn top_level_parts(s: Seq<char>, delim: char) -> Seq<Seq<char>> {
    let st = split_scan(s, delim);
    if st.current.len() > 0 {
        st.parts.push(st.current)
    } else {
        st.parts
    }
}

/// Split `s` at `delim`, except inside quoted strings, brackets and braces.
pub fn split_top_level(s: &str, delim: char) -> (r: Vec<String>)
    requires
        s@.len() <= i32::MAX,
    ensures
        r.deep_view() == top_level_parts(s@, delim),
{
    let cs = chars_of(s);
    let mut parts: Vec<String> = Vec::new();
    let mut current: Vec<char> = Vec::new();
    let mut depth: i32 = 0;
    let mut in_string = false;
    let mut prev_escape = false;
    let mut i: usize = 0;
    while i < cs.len()
        invariant
            i <= cs@.len(),
            cs@ == s@,
            cs@.len() <= i32::MAX,
            -(i as int) <= depth <= i,
            ({
                let st = split_scan(cs@.take(i as int), delim);
                &&& st.parts == parts.deep_view()
                &&& st.current == current@
                &&& st.depth == depth as int
                &&& st.in_string == in_string
                &&& st.prev_escape == prev_escape
            }),
        decreases cs@.len() - i,
    {
        let ch = cs[i];
        assert(cs@.take(i + 1).drop_last() =~= cs@.take(i as int));
        if ch == '"' && !prev_escape {
            in_string = !in_string;
        }
        let mut split = false;
        if !in_string {
            if ch == '[' || ch == '{' {
                depth = depth + 1;
            } else if ch == ']' || ch == '}' {
                depth = depth - 1;
            } else if ch == delim && depth == 0 {
                let ghost p0 = parts.deep_view();
                let part = string_of(&current);
                parts.push(part);
                assert(parts.deep_view() =~= p0.push(current@));
                current = Vec::new();
                prev_escape = false;
                split = true;
            }
        }
        if !split {
            prev_escape = ch == '\\' && !prev_escape;
            current.push(ch);
        }
        i = i + 1;
    }
    assert(cs@.take(cs@.len() as int) =~= cs@);
    if current.len() > 0 {
        let ghost p0 = parts.deep_view();
        parts.push(string_of(&current));
        assert(parts.deep_view() =~= p0.push(current@));
    }
    parts
}

proof fn lemma_toml_escaped_cons(c: char, s: Seq<char>)
    ensures
        toml_escaped(seq![c] + s) == toml_escape_char(c) + toml_escaped(s),
    decreases s.len(),
{
    if s.len() == 0 {
        assert(seq![c] + s =~= seq![c]);
        assert(seq![c].drop_last() =~= Seq::<char>::empty());
        assert(toml_escaped(Seq::<char>::empty()) =~= Seq::<char>::empty());
        assert(toml_escaped(seq![c]) =~= toml_escaped(seq![c].drop_last()) + toml_escape_char(c));
        assert(toml_escaped(seq![c]) =~= toml_escape_char(c));
    } else {
        let t = seq![c] + s;
        assert(t.drop_last() =~= seq![c] + s.drop_last());
        lemma_toml_escaped_cons(c, s.drop_last());
        assert(toml_escaped(t) =~= toml_escape_char(c) + toml_escaped(s));
    }
}

proof fn lemma_unescape_escaped(x: Seq<char>, n: nat)
    ensures
        unescape_body(toml_escaped(x), n) == Ok::<Seq<char>, Seq<char>>(x),
    decreases x.len(),
{
    if x.len() == 0 {
        assert(toml_escaped(x) =~= Seq::<char>::empty());
        assert(x =~= Seq::<char>::empty());
    } else {
        let c = x[0];
        let y = x.drop_first();
        assert(x =~= seq![c] + y);
        lemma_toml_escaped_cons(c, y);
        lemma_unescape_escaped(y, n);
        let e = toml_escaped(x);
        let tail = toml_escaped(y);
        if c == '"' || c == '\\' || c == '\n' || c == '\r' || c == '\t' {
            assert(e[0] == '\\');
            assert(e[1] == toml_escape_char(c)[1]);
            assert(e.skip(2) =~= tail);
        } else {
            assert(e[0] == c);
            assert(e.drop_first() =~= tail);
        }
        assert(seq![c] + y =~= x);
    }
}

/// A string written as a quoted, escaped TOML string reads back as itself.
pub proof fn law_basic_string_roundtrip(x: Seq<char>, n: nat)
    ensures
        basic_string(toml_quoted(x), n) == Ok::<Seq<char>, Seq<char>>(x),
{
    let q = toml_quoted(x);
    reveal_strlit("\"");
    assert("\""@ =~= seq!['"']);
    assert(q.skip(q.len() - 1) =~= seq!['"']);
    assert(q.subrange(1, q.len() - 1) =~= toml_escaped(x));
    lemma_unescape_escaped(x, n);
}

} // verus!
