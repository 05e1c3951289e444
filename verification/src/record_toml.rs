//! The TOML subset of record files, read into plain values.
//!
//! A record file is a sequence of table headers (`[data.sub]`) and
//! `key = value` lines.  Values are strings, integers, booleans, arrays and
//! inline tables; floating-point values are recognised and kept as their
//! literal text for the caller to convert.  The lines build one root table
//! whose entries keep the order in which their keys first appeared.
use vstd::prelude::*;
use crate::config::{joined, lemma_lines_joined, lines, lines_exec, no_newline, split_nl_from};
use crate::qualified_name::join_with;
use crate::record::{at_line, at_line_exec, basic_string, law_basic_string_roundtrip, toml_escape_char, toml_escaped, toml_quoted, parse_basic_string, split_top_level, top_level_parts, RecordError, SplitState, split_scan, split_step};
use crate::text::{
    all_digits, digits_value, lemma_digits_grow, chars_of, seq_eq, find_from, first_occurrence, lemma_first_occurrence, own, push_str, slice_chars,
    string_of, strip_trailing, strip_trailing_exec, trim, trim_chars, trim_end, trim_start, is_ws, decimal, usize_to_decimal,
};

verus! {

// ------------------------------------------------------------------------
// Values
// ------------------------------------------------------------------------

/// A parsed TOML value.
#[derive(Debug)]
pub enum TomlValue {
    Str(String),
    Int(i64),
    /// A floating-point literal, as written.
    Float(String),
    Bool(bool),
    Array(Vec<TomlValue>),
    /// Entries in order of first appearance, keys distinct.
    Table(Vec<(String, TomlValue)>),
}

/// A TOML value as plain data.
pub enum TomlView {
    Str(Seq<char>),
    Int(int),
    Float(Seq<char>),
    Bool(bool),
    Array(Seq<TomlView>),
    Table(Seq<(Seq<char>, TomlView)>),
}

/// The plain data of a value.
pub open spec fn toml_view(v: TomlValue) -> TomlView
    decreases v,
{
    match v {
        TomlValue::Str(s) => TomlView::Str(s@),
        TomlValue::Int(n) => TomlView::Int(n as int),
        TomlValue::Float(s) => TomlView::Float(s@),
        TomlValue::Bool(b) => TomlView::Bool(b),
        TomlValue::Array(items) => {
            proof {
                assert(decreases_to!(items => items@));
            }
            TomlView::Array(values_view(items@))
        },
        TomlValue::Table(entries) => {
            proof {
                assert(decreases_to!(entries => entries@));
            }
            TomlView::Table(entries_view(entries@))
        },
    }
}

/// The plain data of a list of values.
pub open spec fn values_view(s: Seq<TomlValue>) -> Seq<TomlView>
    decreases s,
{
    if s.len() == 0 {
        seq![]
    } else {
        values_view(s.subrange(0, s.len() - 1)).push(toml_view(s[s.len() - 1]))
    }
}

/// The plain data of a list of table entries.
pub open spec fn entries_view(s: Seq<(String, TomlValue)>) -> Seq<(Seq<char>, TomlView)>
    decreases s,
{
    if s.len() == 0 {
        seq![]
    } else {
        entries_view(s.subrange(0, s.len() - 1)).push((s[s.len() - 1].0@, toml_view(s[s.len() - 1].1)))
    }
}

// ------------------------------------------------------------------------
// Scanning with quote state
// ------------------------------------------------------------------------

/// The quote state after character `c`: a quote not preceded by an escaping
/// backslash toggles it.
pub open spec fn quote_after(in_string: bool, prev_escape: bool, c: char) -> bool {
    if c == '"' && !prev_escape {
        !in_string
    } else {
        in_string
    }
}

/// Whether `c` escapes the next character.
pub open spec fn escape_after(prev_escape: bool, c: char) -> bool {
    c == '\\' && !prev_escape
}

/// The position (from `i` on) of the first `target` outside quoted strings.
pub open spec fn first_unquoted(s: Seq<char>, target: char, i: int, in_string: bool, prev_escape: bool) -> Option<int>
    decreases s.len() - i,
{
    if i < 0 || i >= s.len() {
        None
    } else {
        let in1 = quote_after(in_string, prev_escape, s[i]);
        if s[i] == target && !in1 {
            Some(i)
        } else {
            first_unquoted(s, target, i + 1, in1, escape_after(prev_escape, s[i]))
        }
    }
}

/// The first `target` outside quoted strings.
fn first_unquoted_exec(s: &Vec<char>, target: char) -> (r: Option<usize>)
    ensures
        match (r, first_unquoted(s@, target, 0, false, false)) {
            (Some(a), Some(b)) => a as int == b,
            (None, None) => true,
            _ => false,
        },
{
    let mut in_string = false;
    let mut prev_escape = false;
    let mut i: usize = 0;
    while i < s.len()
        invariant
            i <= s@.len(),
            first_unquoted(s@, target, 0, false, false) == first_unquoted(s@, target, i as int, in_string, prev_escape),
        decreases s@.len() - i,
    {
        let ch = s[i];
        if ch == '"' && !prev_escape {
            in_string = !in_string;
        }
        if ch == target && !in_string {
            return Some(i);
        }
        prev_escape = ch == '\\' && !prev_escape;
        i = i + 1;
    }
    None
}

/// A line without its comment: everything before the first `#` outside a
/// quoted string.
pub open spec fn without_comment(s: Seq<char>) -> Seq<char> {
    match first_unquoted(s, '#', 0, false, false) {
        Some(k) => s.take(k),
        None => s,
    }
}

// ------------------------------------------------------------------------
// Splitting at a character
// ------------------------------------------------------------------------

/// The pieces of `s[i..]` between occurrences of `c` (empty pieces included).
pub open spec fn split_char_from(s: Seq<char>, c: char, i: int) -> Seq<Seq<char>>
    decreases s.len() + 1 - i,
{
    if i < 0 || i > s.len() {
        seq![]
    } else {
        match first_occurrence(s, seq![c], i) {
            Some(k) => {
                proof {
                    lemma_first_occurrence(s, seq![c], i);
                }
                seq![s.subrange(i, k)] + split_char_from(s, c, k + 1)
            },
            None => seq![s.subrange(i, s.len() as int)],
        }
    }
}

/// Each piece trimmed.
pub open spec fn trim_all(ps: Seq<Seq<char>>) -> Seq<Seq<char>> {
    ps.map_values(|p: Seq<char>| trim(p))
}

/// The pieces of `s` between occurrences of `c`, each trimmed.
pub open spec fn trimmed_pieces(s: Seq<char>, c: char) -> Seq<Seq<char>> {
    trim_all(split_char_from(s, c, 0))
}

/// The trimmed pieces of `s` between occurrences of `c`.
fn trimmed_pieces_exec(s: &Vec<char>, c: char) -> (r: Vec<String>)
    ensures
        r.deep_view() == trimmed_pieces(s@, c),
{
    let sep = vec![c];
    assert(sep@ =~= seq![c]);
    let ghost total = trim_all(split_char_from(s@, c, 0));
    let mut out: Vec<String> = Vec::new();
    let mut i: usize = 0;
    assert(out.deep_view() + trim_all(split_char_from(s@, c, 0)) =~= total);
    loop
        invariant
            i <= s@.len(),
            sep@ == seq![c],
            total == trimmed_pieces(s@, c),
            out.deep_view() + trim_all(split_char_from(s@, c, i as int)) == total,
        decreases s@.len() - i,
    {
        match find_from(s, &sep, i) {
            Some(k) => {
                proof {
                    lemma_first_occurrence(s@, seq![c], i as int);
                }
                let piece = slice_chars(s, i, k);
                let t = trim_chars(&piece);
                let ghost o0 = out.deep_view();
                out.push(string_of(&t));
                let ghost rest = trim_all(split_char_from(s@, c, k + 1));
                assert(trim_all(split_char_from(s@, c, i as int)) =~= seq![trim(s@.subrange(i as int, k as int))] + rest);
                assert(out.deep_view() =~= o0.push(t@));
                assert(out.deep_view() + rest =~= o0 + (seq![trim(s@.subrange(i as int, k as int))] + rest));
                i = k + 1;
            },
            None => {
                let piece = slice_chars(s, i, s.len());
                let t = trim_chars(&piece);
                let ghost o0 = out.deep_view();
                out.push(string_of(&t));
                assert(trim_all(split_char_from(s@, c, i as int)) =~= seq![trim(s@.subrange(i as int, s@.len() as int))]);
                assert(out.deep_view() =~= o0 + seq![t@]);
                return out;
            },
        }
    }
}

// ------------------------------------------------------------------------
// Numbers
// ------------------------------------------------------------------------

/// The text after an optional leading sign, and whether the sign was `-`.
pub open spec fn unsigned_part(s: Seq<char>) -> (bool, Seq<char>) {
    if s.len() > 0 && s[0] == '+' {
        (false, s.drop_first())
    } else if s.len() > 0 && s[0] == '-' {
        (true, s.drop_first())
    } else {
        (false, s)
    }
}

/// What `str::parse::<i64>` accepts: an optional sign, then at least one
/// digit, with a value in the range of `i64`.
pub open spec fn parse_i64(s: Seq<char>) -> Option<int> {
    let (neg, d) = unsigned_part(s);
    if d.len() > 0 && all_digits(d) {
        let v = digits_value(d);
        if neg && v <= 0x8000_0000_0000_0000 {
            Some(-(v as int))
        } else if !neg && v <= 0x7fff_ffff_ffff_ffff {
            Some(v as int)
        } else {
            None
        }
    } else {
        None
    }
}

/// Parse a decimal `i64` as `str::parse` does.
pub fn parse_i64_exec(s: &Vec<char>) -> (r: Option<i64>)
    ensures
        match (r, parse_i64(s@)) {
            (Some(a), Some(b)) => a as int == b,
            (None, None) => true,
            _ => false,
        },
{
    let neg = s.len() > 0 && s[0] == '-';
    let start: usize = if s.len() > 0 && (s[0] == '+' || s[0] == '-') { 1 } else { 0 };
    let ghost d = unsigned_part(s@).1;
    assert(d =~= s@.skip(start as int));
    if start >= s.len() {
        return None;
    }
    let limit: u64 = if neg { 0x8000_0000_0000_0000 } else { 0x7fff_ffff_ffff_ffff };
    let mut v: u64 = 0;
    let mut i: usize = start;
    while i < s.len()
        invariant
            start <= i <= s@.len(),
            start < s@.len(),
            d == s@.skip(start as int),
            d == unsigned_part(s@).1,
            neg == unsigned_part(s@).0,
            limit == if neg { 0x8000_0000_0000_0000u64 } else { 0x7fff_ffff_ffff_ffffu64 },
            all_digits(s@.subrange(start as int, i as int)),
            v == digits_value(s@.subrange(start as int, i as int)),
            v <= limit,
        decreases s@.len() - i,
    {
        let c = s[i];
        assert(s@.subrange(start as int, i + 1).drop_last() =~= s@.subrange(start as int, i as int));
        if c < '0' || c > '9' {
            assert(d[i - start] == c);
            assert(!all_digits(d));
            return None;
        }
        let digit = (c as u32 - '0' as u32) as u64;
        if v > (limit - digit) / 10 {
            proof {
                assert(v * 10 + digit > limit) by (nonlinear_arith)
                    requires
                        v > (limit - digit) / 10,
                        digit <= 9,
                        limit >= 9,
                ;
                lemma_digits_grow(d, (i - start + 1) as int);
                assert(d.take((i - start + 1) as int) =~= s@.subrange(start as int, i + 1));
            }
            return None;
        }
        proof {
            assert(v * 10 + digit <= limit) by (nonlinear_arith)
                requires
                    v <= (limit - digit) / 10,
                    digit <= 9,
                    limit >= 9,
            ;
        }
        v = v * 10 + digit;
        i = i + 1;
    }
    assert(s@.subrange(start as int, s@.len() as int) =~= d);
    if neg {
        if v == 0x8000_0000_0000_0000 {
            Some(i64::MIN)
        } else {
            Some(-(v as i64))
        }
    } else {
        Some(v as i64)
    }
}




/// The first position of `c` or `d` in `s`, from `i` on.
pub open spec fn first_of2(s: Seq<char>, c: char, d: char, i: int) -> Option<int>
    decreases s.len() - i,
{
    if i < 0 || i >= s.len() {
        None
    } else if s[i] == c || s[i] == d {
        Some(i)
    } else {
        first_of2(s, c, d, i + 1)
    }
}

/// Digits with at most one `.`, and at least one digit.
pub open spec fn decimal_mantissa(m: Seq<char>) -> bool {
    match first_of2(m, '.', '.', 0) {
        Some(p) => all_digits(m.take(p)) && all_digits(m.skip(p + 1)) && m.len() >= 2,
        None => m.len() > 0 && all_digits(m),
    }
}

/// An exponent's digits, after an optional sign.
pub open spec fn exponent_digits(e: Seq<char>) -> bool {
    let d = unsigned_part(e).1;
    d.len() > 0 && all_digits(d)
}

/// ASCII-lowercased text.
pub open spec fn lower_ascii(s: Seq<char>) -> Seq<char> {
    s.map_values(|c: char| crate::text::ascii_lower(c))
}

/// The grammar of floating-point literals that `str::parse::<f64>`
/// documents: an optional sign, then `inf`, `infinity` or `nan` in any
/// case, or digits with an optional `.` (at least one digit) and an optional
/// exponent `e`/`E`, optional sign, digits.
pub open spec fn float_literal(s: Seq<char>) -> bool {
    let t = unsigned_part(s).1;
    let l = lower_ascii(t);
    ||| l == "inf"@
    ||| l == "infinity"@
    ||| l == "nan"@
    ||| match first_of2(t, 'e', 'E', 0) {
        Some(k) => decimal_mantissa(t.take(k)) && exponent_digits(t.skip(k + 1)),
        None => decimal_mantissa(t),
    }
}

fn all_digits_in(s: &Vec<char>, lo: usize, hi: usize) -> (r: bool)
    requires
        lo <= hi <= s@.len(),
    ensures
        r == all_digits(s@.subrange(lo as int, hi as int)),
{
    let mut i = lo;
    while i < hi
        invariant
            lo <= i <= hi,
            hi <= s@.len(),
            all_digits(s@.subrange(lo as int, i as int)),
        decreases hi - i,
    {
        if s[i] < '0' || s[i] > '9' {
            assert(s@.subrange(lo as int, hi as int)[i - lo] == s@[i as int]);
            return false;
        }
        assert(s@.subrange(lo as int, i + 1).drop_last() =~= s@.subrange(lo as int, i as int));
        i = i + 1;
    }
    true
}

fn first_of2_exec(s: &Vec<char>, c: char, d: char, lo: usize, hi: usize) -> (r: Option<usize>)
    requires
        lo <= hi <= s@.len(),
    ensures
        match (r, first_of2(s@.subrange(lo as int, hi as int), c, d, 0)) {
            (Some(a), Some(b)) => a - lo == b && lo <= a < hi,
            (None, None) => true,
            _ => false,
        },
{
    let ghost t = s@.subrange(lo as int, hi as int);
    let mut i = lo;
    while i < hi
        invariant
            lo <= i <= hi,
            hi <= s@.len(),
            t == s@.subrange(lo as int, hi as int),
            first_of2(t, c, d, 0) == first_of2(t, c, d, i - lo),
        decreases hi - i,
    {
        assert(t[i - lo] == s@[i as int]);
        if s[i] == c || s[i] == d {
            return Some(i);
        }
        assert(first_of2(t, c, d, i - lo) == first_of2(t, c, d, i - lo + 1));
        i = i + 1;
    }
    None
}

fn decimal_mantissa_exec(s: &Vec<char>, lo: usize, hi: usize) -> (r: bool)
    requires
        lo <= hi <= s@.len(),
    ensures
        r == decimal_mantissa(s@.subrange(lo as int, hi as int)),
{
    let ghost m = s@.subrange(lo as int, hi as int);
    match first_of2_exec(s, '.', '.', lo, hi) {
        Some(p) => {
            assert(m.take(p - lo) =~= s@.subrange(lo as int, p as int));
            assert(m.skip(p - lo + 1) =~= s@.subrange(p + 1, hi as int));
            all_digits_in(s, lo, p) && all_digits_in(s, p + 1, hi) && hi - lo >= 2
        },
        None => hi > lo && all_digits_in(s, lo, hi),
    }
}

fn lower_equals(s: &Vec<char>, lo: usize, word: &str) -> (r: bool)
    requires
        lo <= s@.len(),
    ensures
        r == (lower_ascii(s@.skip(lo as int)) == word@),
{
    let w = chars_of(word);
    if s.len() - lo != w.len() {
        assert(lower_ascii(s@.skip(lo as int)).len() != word@.len());
        return false;
    }
    let mut j: usize = lo;
    while j < s.len()
        invariant
            lo <= j <= s@.len(),
            w@ == word@,
            s@.len() - lo == w@.len(),
            forall|k: int| 0 <= k < j - lo ==> crate::text::ascii_lower(#[trigger] s@[lo + k]) == w@[k],
        decreases s@.len() - j,
    {
        let c = s[j];
        let lc = if 'A' <= c && c <= 'Z' { ((c as u32) + 32) as u8 as char } else { c };
        assert(lc == crate::text::ascii_lower(c));
        if lc != w[j - lo] {
            assert(lower_ascii(s@.skip(lo as int))[j - lo] != word@[j - lo]);
            return false;
        }
        assert(s@[lo + (j - lo)] == c);
        j = j + 1;
    }
    assert forall|k: int| 0 <= k < word@.len() implies lower_ascii(s@.skip(lo as int))[k] == word@[k] by {
        assert(s@.skip(lo as int)[k] == s@[lo + k]);
    }
    assert(lower_ascii(s@.skip(lo as int)) =~= word@);
    true
}

/// Whether text is a floating-point literal `str::parse::<f64>` accepts.
pub fn float_literal_exec(s: &Vec<char>) -> (r: bool)
    ensures
        r == float_literal(s@),
{
    let start: usize = if s.len() > 0 && (s[0] == '+' || s[0] == '-') { 1 } else { 0 };
    let ghost t = unsigned_part(s@).1;
    assert(t =~= s@.skip(start as int));
    proof {
        reveal_strlit("inf");
        reveal_strlit("infinity");
        reveal_strlit("nan");
    }
    if lower_equals(s, start, "inf") || lower_equals(s, start, "infinity") || lower_equals(s, start, "nan") {
        return true;
    }
    assert(s@.subrange(start as int, s@.len() as int) =~= t);
    match first_of2_exec(s, 'e', 'E', start, s.len()) {
        Some(k) => {
            assert(t.take(k - start) =~= s@.subrange(start as int, k as int));
            let mant = decimal_mantissa_exec(s, start, k);
            let es = if k + 1 < s.len() && (s[k + 1] == '+' || s[k + 1] == '-') { k + 2 } else { k + 1 };
            let ghost e = t.skip(k - start + 1);
            assert(e =~= s@.skip(k + 1));
            assert(unsigned_part(e).1 =~= s@.subrange(es as int, s@.len() as int));
            let exp = es < s.len() && all_digits_in(s, es, s.len());
            mant && exp
        },
        None => decimal_mantissa_exec(s, start, s.len()),
    }
}

// ------------------------------------------------------------------------
// Values
// ------------------------------------------------------------------------

/// `entries` with `key` set to `v`: in place of the first entry under `key`
/// when there is one, else appended.
pub open spec fn table_insert(entries: Seq<(Seq<char>, TomlView)>, key: Seq<char>, v: TomlView) -> Seq<(Seq<char>, TomlView)> {
    match key_slot(entries, key) {
        Some(i) => entries.update(i, (key, v)),
        None => entries.push((key, v)),
    }
}

/// Entry `i` is the first one under `key`.
pub open spec fn first_key(entries: Seq<(Seq<char>, TomlView)>, key: Seq<char>, i: int) -> bool {
    &&& 0 <= i < entries.len()
    &&& entries[i].0 == key
    &&& forall|q: int| 0 <= q < i ==> entries[q].0 != key
}

/// The index of the first entry under `key`, if any.
pub open spec fn key_slot(entries: Seq<(Seq<char>, TomlView)>, key: Seq<char>) -> Option<int> {
    if exists|i: int| #[trigger] first_key(entries, key, i) {
        Some(choose|i: int| #[trigger] first_key(entries, key, i))
    } else {
        None
    }
}

/// The value that text `s` (trimmed) denotes on line `n`, or the error.
pub open spec fn value_of(s: Seq<char>, n: nat) -> Result<TomlView, Seq<char>>
    decreases s.len(), 1nat,
{
    let t = trim(s);
    proof {
        lemma_trim_len(s);
    }
    if t.len() == 0 {
        Err(at_line("empty value"@, n))
    } else if t == "true"@ {
        Ok(TomlView::Bool(true))
    } else if t == "false"@ {
        Ok(TomlView::Bool(false))
    } else if t[0] == '"' {
        match basic_string(t, n) {
            Ok(x) => Ok(TomlView::Str(x)),
            Err(e) => Err(e),
        }
    } else if t[0] == '[' {
        if t.last() != ']' || t.len() < 2 {
            Err(at_line("malformed array"@, n))
        } else {
            let inner = trim(t.subrange(1, t.len() - 1));
            if inner.len() == 0 {
                Ok(TomlView::Array(seq![]))
            } else {
                match items_of(top_level_parts(inner, ','), n, (t.len() - 1) as nat) {
                    Ok(vs) => Ok(TomlView::Array(vs)),
                    Err(e) => Err(e),
                }
            }
        }
    } else if t[0] == '{' {
        if t.last() != '}' || t.len() < 2 {
            Err(at_line("malformed inline table"@, n))
        } else {
            let inner = trim(t.subrange(1, t.len() - 1));
            if inner.len() == 0 {
                Ok(TomlView::Table(seq![]))
            } else {
                match entries_of(top_level_parts(inner, ','), n, (t.len() - 1) as nat, seq![]) {
                    Ok(es) => Ok(TomlView::Table(es)),
                    Err(e) => Err(e),
                }
            }
        }
    } else {
        match parse_i64(t) {
            Some(v) => Ok(TomlView::Int(v)),
            None => if float_literal(t) {
                Ok(TomlView::Float(t))
            } else {
                Err(at_line("cannot parse value '"@ + t + "'"@, n))
            },
        }
    }
}

/// The values of the non-blank parts of an array, in order; every part is
/// shorter than `bound`.
pub open spec fn items_of(parts: Seq<Seq<char>>, n: nat, bound: nat) -> Result<Seq<TomlView>, Seq<char>>
    decreases bound, parts.len(),
{
    if parts.len() == 0 {
        Ok(seq![])
    } else {
        let p = trim(parts[0]);
        if p.len() == 0 {
            items_of(parts.drop_first(), n, bound)
        } else if p.len() >= bound {
            Err(seq![])
        } else {
            match value_of(p, n) {
                Err(e) => Err(e),
                Ok(v) => match items_of(parts.drop_first(), n, bound) {
                    Ok(vs) => Ok(seq![v] + vs),
                    Err(e) => Err(e),
                },
            }
        }
    }
}

/// The entries of the non-blank parts of an inline table added to `acc`, in
/// order; every part is shorter than `bound`.
pub open spec fn entries_of(parts: Seq<Seq<char>>, n: nat, bound: nat, acc: Seq<(Seq<char>, TomlView)>) -> Result<Seq<(Seq<char>, TomlView)>, Seq<char>>
    decreases bound, parts.len(),
{
    if parts.len() == 0 {
        Ok(acc)
    } else {
        let p = trim(parts[0]);
        if p.len() == 0 {
            entries_of(parts.drop_first(), n, bound, acc)
        } else {
            match first_unquoted(p, '=', 0, false, false) {
                None => Err(at_line("missing '=' in inline table entry '"@ + p + "'"@, n)),
                Some(k) => {
                    let key = trim(p.take(k));
                    let val = trim(p.skip(k + 1));
                    if val.len() >= bound {
                        Err(seq![])
                    } else {
                        match value_of(val, n) {
                            Err(e) => Err(e),
                            Ok(v) => entries_of(parts.drop_first(), n, bound, table_insert(acc, key, v)),
                        }
                    }
                },
            }
        }
    }
}

/// Trimming never lengthens text.
pub proof fn lemma_trim_len(s: Seq<char>)
    ensures
        trim(s).len() <= s.len(),
        exists|a: int, b: int| 0 <= a <= b <= s.len() && trim(s) == s.subrange(a, b),
{
    crate::text::lemma_trim_start(s);
    let k = choose|k: int| 0 <= k <= s.len() && crate::text::trim_start(s) == s.skip(k);
    lemma_trim_end_prefix_of(crate::text::trim_start(s));
    let j = choose|j: int| 0 <= j <= crate::text::trim_start(s).len() && trim(s) == crate::text::trim_start(s).take(j);
    assert(trim(s) =~= s.subrange(k, k + j));
}

proof fn lemma_trim_end_prefix_of(s: Seq<char>)
    ensures
        exists|j: int| 0 <= j <= s.len() && crate::text::trim_end(s) == s.take(j),
    decreases s.len(),
{
    if s.len() > 0 && crate::text::is_ws(s.last()) {
        lemma_trim_end_prefix_of(s.drop_last());
        let j = choose|j: int| 0 <= j <= s.drop_last().len() && crate::text::trim_end(s.drop_last()) == s.drop_last().take(j);
        assert(s.drop_last().take(j) =~= s.take(j));
    } else {
        assert(s.take(s.len() as int) =~= s);
    }
}

/// Every part of a top-level split is no longer than the text.
pub proof fn lemma_parts_short(s: Seq<char>, delim: char)
    ensures
        forall|i: int| 0 <= i < top_level_parts(s, delim).len() ==> (#[trigger] top_level_parts(s, delim)[i]).len() <= s.len(),
{
    lemma_scan_short(s, delim);
}

proof fn lemma_scan_short(s: Seq<char>, delim: char)
    ensures
        split_scan(s, delim).current.len() <= s.len(),
        forall|i: int| 0 <= i < split_scan(s, delim).parts.len() ==> (#[trigger] split_scan(s, delim).parts[i]).len() <= s.len(),
    decreases s.len(),
{
    if s.len() > 0 {
        lemma_scan_short(s.drop_last(), delim);
    }
}

/// The plain data of a list of values, element by element.
pub proof fn lemma_values_view(s: Seq<TomlValue>)
    ensures
        values_view(s).len() == s.len(),
        forall|i: int| 0 <= i < s.len() ==> #[trigger] values_view(s)[i] == toml_view(s[i]),
    decreases s.len(),
{
    if s.len() > 0 {
        lemma_values_view(s.subrange(0, s.len() - 1));
    }
}

/// The plain data of a list of entries, element by element.
pub proof fn lemma_entries_view(s: Seq<(String, TomlValue)>)
    ensures
        entries_view(s).len() == s.len(),
        forall|i: int| 0 <= i < s.len() ==> #[trigger] entries_view(s)[i] == (s[i].0@, toml_view(s[i].1)),
    decreases s.len(),
{
    if s.len() > 0 {
        lemma_entries_view(s.subrange(0, s.len() - 1));
    }
}

/// The first entry under `key` is the one `key_slot` names.
proof fn lemma_key_slot(e: Seq<(Seq<char>, TomlView)>, key: Seq<char>, i: int)
    requires
        first_key(e, key, i),
    ensures
        key_slot(e, key) == Some(i),
{
    let c = choose|c: int| #[trigger] first_key(e, key, c);
    assert(first_key(e, key, c));
    if c < i {
        assert(e[c].0 != key);
    } else if i < c {
        assert(e[i].0 != key);
    }
}

/// No entry under `key`: `key_slot` names none.
proof fn lemma_key_slot_none(e: Seq<(Seq<char>, TomlView)>, key: Seq<char>)
    requires
        forall|i: int| 0 <= i < e.len() ==> e[i].0 != key,
    ensures
        key_slot(e, key) is None,
{
    if exists|i: int| #[trigger] first_key(e, key, i) {
        let c = choose|c: int| #[trigger] first_key(e, key, c);
        assert(e[c].0 == key);
    }
}

/// `Ok(pre + rest)` for a successful rest.
pub open spec fn prefixed<T>(pre: Seq<T>, r: Result<Seq<T>, Seq<char>>) -> Result<Seq<T>, Seq<char>> {
    match r {
        Ok(rest) => Ok(pre + rest),
        Err(e) => Err(e),
    }
}

/// Whether a parse result matches its specification.
pub open spec fn value_matches(r: Result<TomlValue, RecordError>, s: Result<TomlView, Seq<char>>) -> bool {
    match (r, s) {
        (Ok(v), Ok(w)) => toml_view(v) == w,
        (Err(RecordError::ParseError(m)), Err(e)) => m@ == e,
        _ => false,
    }
}

/// Parse the TOML value that text `s` (trimmed) denotes; errors name line
/// `line_no + 1`.
pub fn parse_value(s: &Vec<char>, line_no: usize) -> (r: Result<TomlValue, RecordError>)
    requires
        line_no < usize::MAX,
        s@.len() <= i32::MAX,
    ensures
        value_matches(r, value_of(s@, line_no as nat)),
    decreases s@.len(), 1nat,
{
    let t = trim_chars(s);
    proof {
        lemma_trim_len(s@);
        reveal_strlit("true");
        reveal_strlit("false");
    }
    if t.len() == 0 {
        return Err(RecordError::ParseError(at_line_exec("empty value", line_no)));
    }
    if seq_eq(&t, &chars_of("true")) {
        return Ok(TomlValue::Bool(true));
    }
    if seq_eq(&t, &chars_of("false")) {
        return Ok(TomlValue::Bool(false));
    }
    let n = t.len();
    if t[0] == '"' {
        let text = string_of(&t);
        return match parse_basic_string(text.as_str(), line_no) {
            Ok(x) => Ok(TomlValue::Str(x)),
            Err(e) => Err(e),
        };
    }
    if t[0] == '[' || t[0] == '{' {
        let close = if t[0] == '[' { ']' } else { '}' };
        if t[n - 1] != close || n < 2 {
            if t[0] == '[' {
                return Err(RecordError::ParseError(at_line_exec("malformed array", line_no)));
            } else {
                return Err(RecordError::ParseError(at_line_exec("malformed inline table", line_no)));
            }
        }
        let body = slice_chars(&t, 1, n - 1);
        let inner = trim_chars(&body);
        proof {
            lemma_trim_len(body@);
        }
        if inner.len() == 0 {
            if t[0] == '[' {
                return Ok(TomlValue::Array(Vec::new()));
            } else {
                let e: Vec<(String, TomlValue)> = Vec::new();
                proof {
                    lemma_entries_view(e@);
                }
                assert(entries_view(e@) =~= Seq::<(Seq<char>, TomlView)>::empty());
                return Ok(TomlValue::Table(e));
            }
        }
        let inner_text = string_of(&inner);
        let parts = split_top_level(inner_text.as_str(), ',');
        proof {
            lemma_parts_short(inner@, ',');
            assert forall|i: int| 0 <= i < parts@.len() implies (#[trigger] parts@[i])@.len() < n - 1 by {
                assert(parts.deep_view()[i] == parts@[i]@);
            }
        }
        if t[0] == '[' {
            return match parse_items(&parts, line_no, n - 1) {
                Ok(vs) => Ok(TomlValue::Array(vs)),
                Err(e) => Err(e),
            };
        } else {
            return match parse_entries(&parts, line_no, n - 1) {
                Ok(es) => Ok(TomlValue::Table(es)),
                Err(e) => Err(e),
            };
        }
    }
    match parse_i64_exec(&t) {
        Some(v) => Ok(TomlValue::Int(v)),
        None => {
            if float_literal_exec(&t) {
                Ok(TomlValue::Float(string_of(&t)))
            } else {
                let mut m = own("cannot parse value '");
                push_str(&mut m, string_of(&t).as_str());
                push_str(&mut m, "'");
                Err(RecordError::ParseError(at_line_exec(m.as_str(), line_no)))
            }
        },
    }
}

/// The values of the non-blank parts of an array.
fn parse_items(parts: &Vec<String>, line_no: usize, bound: usize) -> (r: Result<Vec<TomlValue>, RecordError>)
    requires
        line_no < usize::MAX,
        bound <= i32::MAX,
        forall|i: int| 0 <= i < parts@.len() ==> (#[trigger] parts@[i])@.len() < bound,
    ensures
        match (r, items_of(parts.deep_view(), line_no as nat, bound as nat)) {
            (Ok(vs), Ok(w)) => values_view(vs@) == w,
            (Err(RecordError::ParseError(m)), Err(e)) => m@ == e,
            _ => false,
        },
    decreases bound, 0nat,
{
    let ghost pv = parts.deep_view();
    let ghost n = line_no as nat;
    let ghost total = items_of(pv, n, bound as nat);
    let mut out: Vec<TomlValue> = Vec::new();
    proof {
        lemma_values_view(out@);
    }
    assert(pv.skip(0) =~= pv);
    assert(values_view(out@) =~= Seq::<TomlView>::empty());
    assert(prefixed(values_view(out@), items_of(pv.skip(0), n, bound as nat)) =~= total) by {
        match items_of(pv, n, bound as nat) {
            Ok(x) => {
                assert(Seq::<TomlView>::empty() + x =~= x);
            },
            Err(e) => {},
        }
    }
    let mut i: usize = 0;
    while i < parts.len()
        invariant
            i <= parts@.len(),
            pv == parts.deep_view(),
            pv.len() == parts@.len(),
            n == line_no as nat,
            line_no < usize::MAX,
            bound <= i32::MAX,
            forall|k: int| 0 <= k < parts@.len() ==> (#[trigger] parts@[k])@.len() < bound,
            total == items_of(pv, n, bound as nat),
            prefixed(values_view(out@), items_of(pv.skip(i as int), n, bound as nat)) == total,
        decreases parts@.len() - i,
    {
        assert(pv[i as int] == parts@[i as int]@);
        assert(pv.skip(i as int)[0] == pv[i as int]);
        assert(pv.skip(i as int).drop_first() =~= pv.skip(i + 1));
        let cs = chars_of(parts[i].as_str());
        let p = trim_chars(&cs);
        proof {
            lemma_trim_len(cs@);
        }
        if p.len() > 0 {
            let r = parse_value(&p, line_no);
            match r {
                Ok(v) => {
                    let ghost o0 = out@;
                    out.push(v);
                    proof {
                        lemma_values_view(o0);
                        lemma_values_view(out@);
                        assert(values_view(out@) =~= values_view(o0).push(toml_view(v)));
                        match items_of(pv.skip(i + 1), n, bound as nat) {
                            Ok(rest) => {
                                assert(values_view(o0) + (seq![toml_view(v)] + rest) =~= values_view(out@) + rest);
                            },
                            Err(e) => {},
                        }
                    }
                },
                Err(e) => {
                    return Err(e);
                },
            }
        }
        i = i + 1;
    }
    assert(pv.skip(i as int) =~= Seq::<Seq<char>>::empty());
    assert(values_view(out@) + Seq::<TomlView>::empty() =~= values_view(out@));
    Ok(out)
}

/// The entries of the non-blank parts of an inline table.
fn parse_entries(parts: &Vec<String>, line_no: usize, bound: usize) -> (r: Result<Vec<(String, TomlValue)>, RecordError>)
    requires
        line_no < usize::MAX,
        bound <= i32::MAX,
        forall|i: int| 0 <= i < parts@.len() ==> (#[trigger] parts@[i])@.len() < bound,
    ensures
        match (r, entries_of(parts.deep_view(), line_no as nat, bound as nat, seq![])) {
            (Ok(es), Ok(w)) => entries_view(es@) == w,
            (Err(RecordError::ParseError(m)), Err(e)) => m@ == e,
            _ => false,
        },
    decreases bound, 0nat,
{
    let ghost pv = parts.deep_view();
    let ghost n = line_no as nat;
    let ghost total = entries_of(pv, n, bound as nat, seq![]);
    let mut out: Vec<(String, TomlValue)> = Vec::new();
    proof {
        lemma_entries_view(out@);
    }
    assert(pv.skip(0) =~= pv);
    assert(entries_view(out@) =~= Seq::<(Seq<char>, TomlView)>::empty());
    let mut i: usize = 0;
    while i < parts.len()
        invariant
            i <= parts@.len(),
            pv == parts.deep_view(),
            pv.len() == parts@.len(),
            n == line_no as nat,
            line_no < usize::MAX,
            bound <= i32::MAX,
            forall|k: int| 0 <= k < parts@.len() ==> (#[trigger] parts@[k])@.len() < bound,
            total == entries_of(pv, n, bound as nat, seq![]),
            entries_of(pv.skip(i as int), n, bound as nat, entries_view(out@)) == total,
        decreases parts@.len() - i,
    {
        assert(pv[i as int] == parts@[i as int]@);
        assert(pv.skip(i as int)[0] == pv[i as int]);
        assert(pv.skip(i as int).drop_first() =~= pv.skip(i + 1));
        let cs = chars_of(parts[i].as_str());
        let p = trim_chars(&cs);
        proof {
            lemma_trim_len(cs@);
        }
        if p.len() > 0 {
            match first_unquoted_exec(&p, '=') {
                None => {
                    let mut m = own("missing '=' in inline table entry '");
                    push_str(&mut m, string_of(&p).as_str());
                    push_str(&mut m, "'");
                    return Err(RecordError::ParseError(at_line_exec(m.as_str(), line_no)));
                },
                Some(k) => {
                    proof {
                        lemma_first_unquoted(p@, '=', 0, false, false);
                    }
                    let key_part = slice_chars(&p, 0, k);
                    let key = trim_chars(&key_part);
                    let val_part = slice_chars(&p, k + 1, p.len());
                    let val = trim_chars(&val_part);
                    assert(key_part@ =~= p@.take(k as int));
                    assert(val_part@ =~= p@.skip(k + 1));
                    proof {
                        lemma_trim_len(val_part@);
                    }
                    match parse_value(&val, line_no) {
                        Err(e) => {
                            return Err(e);
                        },
                        Ok(v) => {
                            let ghost e0 = entries_view(out@);
                            let ghost vv = toml_view(v);
                            let key_s = string_of(&key);
                            let mut j: usize = 0;
                            let mut found = false;
                            proof {
                                lemma_entries_view(out@);
                            }
                            while !found && j < out.len()
                                invariant
                                    j <= out@.len(),
                                    key_s@ == key@,
                                    e0 == entries_view(out@),
                                    e0.len() == out@.len(),
                                    forall|q: int| 0 <= q < out@.len() ==> #[trigger] e0[q] == (out@[q].0@, toml_view(out@[q].1)),
                                    found ==> j < out@.len() && out@[j as int].0@ == key@,
                                    forall|q: int| 0 <= q < j ==> out@[q].0@ != key@,
                                decreases out@.len() - j + if found { 0int } else { 1int },
                            {
                                if crate::text::str_eq(out[j].0.as_str(), key_s.as_str()) {
                                    found = true;
                                } else {
                                    j = j + 1;
                                }
                            }
                            if found {
                                let (old_key, _) = out.remove(j);
                                out.insert(j, (old_key, v));
                                proof {
                                    lemma_entries_view(out@);
                                    lemma_key_slot(e0, key@, j as int);
                                    assert(entries_view(out@) =~= e0.update(j as int, (key@, vv)));
                                }
                            } else {
                                let ghost o0 = out@;
                                out.push((key_s, v));
                                proof {
                                    lemma_entries_view(out@);
                                    lemma_key_slot_none(e0, key@);
                                    assert(entries_view(out@) =~= e0.push((key@, vv)));
                                }
                            }
                        },
                    }
                },
            }
        }
        i = i + 1;
    }
    assert(pv.skip(i as int) =~= Seq::<Seq<char>>::empty());
    Ok(out)
}

/// Where the first unquoted `target` lies.
proof fn lemma_first_unquoted(s: Seq<char>, target: char, i: int, in_string: bool, prev_escape: bool)
    requires
        0 <= i,
    ensures
        first_unquoted(s, target, i, in_string, prev_escape) matches Some(k) ==> i <= k < s.len() && s[k] == target,
    decreases s.len() - i,
{
    if 0 <= i < s.len() {
        let in1 = quote_after(in_string, prev_escape, s[i]);
        if !(s[i] == target && !in1) {
            lemma_first_unquoted(s, target, i + 1, in1, escape_after(prev_escape, s[i]));
        }
    }
}

// ------------------------------------------------------------------------
// Lines
// ------------------------------------------------------------------------

/// One meaningful line of a record file.
#[derive(Debug)]
pub enum TomlLine {
    /// A table header `[a.b]`: its dotted path, each segment trimmed.
    Header(Vec<String>),
    /// An assignment `key = value`, the key trimmed.
    Assign(String, TomlValue),
}

/// A line as plain data.
pub enum LineView {
    Header(Seq<Seq<char>>),
    Assign(Seq<char>, TomlView),
}

/// The plain data of a line.
pub open spec fn line_view(l: TomlLine) -> LineView {
    match l {
        TomlLine::Header(p) => LineView::Header(p.deep_view()),
        TomlLine::Assign(k, v) => LineView::Assign(k@, toml_view(v)),
    }
}

/// What line `n` (0-based) says: nothing for a blank or comment-only line,
/// a table header, an assignment, or the syntax error.
pub open spec fn line_of(raw: Seq<char>, n: nat) -> Result<Option<LineView>, Seq<char>> {
    let l = trim(without_comment(raw));
    if l.len() == 0 {
        Ok(None)
    } else if l[0] == '[' && !(l.len() >= 2 && l[1] == '[') {
        let h = trim(strip_trailing(l.drop_first(), ']'));
        if h.len() == 0 {
            Err(at_line("empty table header"@, n))
        } else {
            Ok(Some(LineView::Header(trimmed_pieces(h, '.'))))
        }
    } else {
        match first_unquoted(l, '=', 0, false, false) {
            Some(k) => match value_of(l.skip(k + 1), n) {
                Ok(v) => Ok(Some(LineView::Assign(trim(l.take(k)), v))),
                Err(e) => Err(e),
            },
            None => Err("unrecognized syntax at line "@ + decimal(n + 1) + ": "@ + l),
        }
    }
}

/// Whether a line read matches its specification.
pub open spec fn line_matches(r: Result<Option<TomlLine>, RecordError>, s: Result<Option<LineView>, Seq<char>>) -> bool {
    match (r, s) {
        (Ok(None), Ok(None)) => true,
        (Ok(Some(a)), Ok(Some(b))) => line_view(a) == b,
        (Err(RecordError::ParseError(m)), Err(e)) => m@ == e,
        _ => false,
    }
}

/// Read line `line_no` (0-based) of a record file.
pub fn read_line(raw: &Vec<char>, line_no: usize) -> (r: Result<Option<TomlLine>, RecordError>)
    requires
        line_no < usize::MAX,
        raw@.len() <= i32::MAX,
    ensures
        line_matches(r, line_of(raw@, line_no as nat)),
{
    proof {
        lemma_first_unquoted(raw@, '#', 0, false, false);
    }
    let c = match first_unquoted_exec(raw, '#') {
        Some(k) => slice_chars(raw, 0, k),
        None => slice_chars(raw, 0, raw.len()),
    };
    assert(c@ =~= without_comment(raw@));
    let l = trim_chars(&c);
    proof {
        lemma_trim_len(c@);
    }
    if l.len() == 0 {
        return Ok(None);
    }
    if l[0] == '[' && !(l.len() >= 2 && l[1] == '[') {
        let rest = slice_chars(&l, 1, l.len());
        assert(rest@ =~= l@.drop_first());
        let stripped = strip_trailing_exec(&rest, ']');
        let h = trim_chars(&stripped);
        if h.len() == 0 {
            return Err(RecordError::ParseError(at_line_exec("empty table header", line_no)));
        }
        return Ok(Some(TomlLine::Header(trimmed_pieces_exec(&h, '.'))));
    }
    match first_unquoted_exec(&l, '=') {
        Some(k) => {
            proof {
                lemma_first_unquoted(l@, '=', 0, false, false);
            }
            let key_part = slice_chars(&l, 0, k);
            let key = trim_chars(&key_part);
            let val = slice_chars(&l, k + 1, l.len());
            assert(key_part@ =~= l@.take(k as int));
            assert(val@ =~= l@.skip(k + 1));
            match parse_value(&val, line_no) {
                Ok(v) => Ok(Some(TomlLine::Assign(string_of(&key), v))),
                Err(e) => Err(e),
            }
        },
        None => {
            let mut m = own("unrecognized syntax at line ");
            let d = usize_to_decimal(line_no + 1);
            push_str(&mut m, d.as_str());
            push_str(&mut m, ": ");
            let text = string_of(&l);
            push_str(&mut m, text.as_str());
            Err(RecordError::ParseError(m))
        },
    }
}

/// No piece between newlines is longer than the whole text.
proof fn lemma_split_nl_short(s: Seq<char>, i: int)
    ensures
        forall|k: int| 0 <= k < split_nl_from(s, i).len() ==> (#[trigger] split_nl_from(s, i)[k]).len() <= s.len(),
    decreases s.len() + 1 - i,
{
    if 0 <= i <= s.len() {
        lemma_first_occurrence(s, seq!['\n'], i);
        match first_occurrence(s, seq!['\n'], i) {
            Some(k) => {
                lemma_split_nl_short(s, k + 1);
                assert forall|j: int| 0 <= j < split_nl_from(s, i).len() implies (#[trigger] split_nl_from(s, i)[j]).len() <= s.len() by {
                    if j > 0 {
                        assert(split_nl_from(s, i)[j] == split_nl_from(s, k + 1)[j - 1]);
                    }
                }
            },
            None => {},
        }
    }
}

/// No line is longer than the whole text.
proof fn lemma_lines_short(s: Seq<char>)
    ensures
        forall|k: int| 0 <= k < lines(s).len() ==> (#[trigger] lines(s)[k]).len() <= s.len(),
{
    lemma_split_nl_short(s, 0);
    let p = split_nl_from(s, 0);
    assert forall|k: int| 0 <= k < lines(s).len() implies (#[trigger] lines(s)[k]).len() <= s.len() by {
        assert(p[k].len() <= s.len());
    }
}

// ------------------------------------------------------------------------
// Tables
// ------------------------------------------------------------------------

/// `t` with a table at every step of `path`: a missing key gets an empty
/// table; a key whose value is not a table ends the walk there.
pub open spec fn ensure_path(t: Seq<(Seq<char>, TomlView)>, path: Seq<Seq<char>>) -> Seq<(Seq<char>, TomlView)>
    decreases path.len(),
{
    if path.len() == 0 {
        t
    } else {
        match key_slot(t, path[0]) {
            None => t.push((path[0], TomlView::Table(ensure_path(seq![], path.drop_first())))),
            Some(i) => match t[i].1 {
                TomlView::Table(inner) => t.update(i, (path[0], TomlView::Table(ensure_path(inner, path.drop_first())))),
                _ => t,
            },
        }
    }
}

/// `t` with `key = v` set in the table at `path`, or `None` when some step
/// of `path` is missing or is not a table.
pub open spec fn insert_at(t: Seq<(Seq<char>, TomlView)>, path: Seq<Seq<char>>, key: Seq<char>, v: TomlView) -> Option<Seq<(Seq<char>, TomlView)>>
    decreases path.len(),
{
    if path.len() == 0 {
        Some(table_insert(t, key, v))
    } else {
        match key_slot(t, path[0]) {
            None => None,
            Some(i) => match t[i].1 {
                TomlView::Table(inner) => match insert_at(inner, path.drop_first(), key, v) {
                    Some(n) => Some(t.update(i, (path[0], TomlView::Table(n)))),
                    None => None,
                },
                _ => None,
            },
        }
    }
}

/// The text that names a table path in a message.
pub uninterp spec fn debug_list(items: Seq<Seq<char>>) -> Seq<char>;

/// The message for an assignment on line `n` (0-based) under a path with no table.
pub open spec fn no_table_message(path: Seq<Seq<char>>, n: nat) -> Seq<char> {
    "cannot find table for path "@ + debug_list(path) + " at line "@ + decimal(n + 1)
}

/// The root table built from lines `ls[i..]`, starting from `root` with
/// `cur` as the current table path, or the first error.
pub open spec fn tables_from(ls: Seq<Seq<char>>, i: nat, root: Seq<(Seq<char>, TomlView)>, cur: Seq<Seq<char>>) -> Result<Seq<(Seq<char>, TomlView)>, Seq<char>>
    decreases ls.len() - i,
{
    if i >= ls.len() {
        Ok(root)
    } else {
        match line_of(ls[i as int], i) {
            Err(e) => Err(e),
            Ok(None) => tables_from(ls, i + 1, root, cur),
            Ok(Some(LineView::Header(p))) => tables_from(ls, i + 1, ensure_path(root, p), p),
            Ok(Some(LineView::Assign(k, v))) => match insert_at(root, cur, k, v) {
                Some(r) => tables_from(ls, i + 1, r, cur),
                None => Err(no_table_message(cur, i)),
            },
        }
    }
}

/// The root table of a record file, or the first error.
pub open spec fn toml_tables_of(s: Seq<char>) -> Result<Seq<(Seq<char>, TomlView)>, Seq<char>> {
    tables_from(lines(s), 0, seq![], seq![])
}

/// Calls std's `Debug` formatting of a `Vec<String>` (`format!("{:?}", ..)`),
/// the form in which messages show a table path.  Trusted: the text is
/// `debug_list` of the strings, a function of them alone; nothing more of it
/// is stated.
#[verifier::external_body]
fn debug_path(path: &Vec<String>) -> (r: String)
    ensures
        r@ == debug_list(path.deep_view()),
{
    format!("{:?}", path)
}

/// The index of the first entry under `key`.
fn find_key(t: &Vec<(String, TomlValue)>, key: &str) -> (r: Option<usize>)
    ensures
        match r {
            Some(j) => first_key(entries_view(t@), key@, j as int),
            None => forall|i: int| 0 <= i < t@.len() ==> (#[trigger] entries_view(t@)[i]).0 != key@,
        },
{
    proof {
        lemma_entries_view(t@);
    }
    let mut j: usize = 0;
    while j < t.len()
        invariant
            j <= t@.len(),
            entries_view(t@).len() == t@.len(),
            forall|q: int| 0 <= q < t@.len() ==> #[trigger] entries_view(t@)[q] == (t@[q].0@, toml_view(t@[q].1)),
            forall|q: int| 0 <= q < j ==> (#[trigger] entries_view(t@)[q]).0 != key@,
        decreases t@.len() - j,
    {
        if crate::text::str_eq(t[j].0.as_str(), key) {
            return Some(j);
        }
        j = j + 1;
    }
    None
}

/// The plain data of a vector changed at one place.
proof fn lemma_entries_update(a: Seq<(String, TomlValue)>, b: Seq<(String, TomlValue)>, j: int, k: Seq<char>, v: TomlView)
    requires
        0 <= j < a.len(),
        b.len() == a.len(),
        forall|q: int| 0 <= q < a.len() && q != j ==> b[q] == a[q],
        b[j].0@ == k,
        toml_view(b[j].1) == v,
    ensures
        entries_view(b) == entries_view(a).update(j, (k, v)),
{
    lemma_entries_view(a);
    lemma_entries_view(b);
    assert(entries_view(b) =~= entries_view(a).update(j, (k, v)));
}

/// Make every table along `path[from..]` present in `t`.
fn ensure_path_exec(t: &mut Vec<(String, TomlValue)>, path: &Vec<String>, from: usize)
    requires
        from <= path@.len(),
    ensures
        entries_view(final(t)@) == ensure_path(entries_view(old(t)@), path.deep_view().skip(from as int)),
    decreases path@.len() - from,
{
    let ghost pv = path.deep_view().skip(from as int);
    if from == path.len() {
        assert(pv.len() == 0);
        return;
    }
    assert(pv[0] == path@[from as int]@);
    assert(pv.drop_first() =~= path.deep_view().skip(from + 1));
    let ghost e0 = entries_view(t@);
    match find_key(t, path[from].as_str()) {
        None => {
            proof {
                lemma_entries_view(t@);
                lemma_key_slot_none(e0, pv[0]);
            }
            let mut inner: Vec<(String, TomlValue)> = Vec::new();
            proof {
                lemma_entries_view(inner@);
                assert(entries_view(inner@) =~= Seq::<(Seq<char>, TomlView)>::empty());
            }
            ensure_path_exec(&mut inner, path, from + 1);
            let seg = own(path[from].as_str());
            let ghost t0 = t@;
            t.push((seg, TomlValue::Table(inner)));
            proof {
                lemma_entries_view(t0);
                lemma_entries_view(t@);
                assert(entries_view(t@) =~= e0.push((pv[0], toml_view(t@[t0.len() as int].1))));
            }
        },
        Some(j) => {
            proof {
                lemma_key_slot(e0, pv[0], j as int);
                lemma_entries_view(t@);
            }
            let ghost t0 = t@;
            let (k, v) = t.remove(j);
            match v {
                TomlValue::Table(mut inner) => {
                    assert(toml_view(t0[j as int].1) == TomlView::Table(entries_view(inner@)));
                    ensure_path_exec(&mut inner, path, from + 1);
                    t.insert(j, (k, TomlValue::Table(inner)));
                    proof {
                        lemma_entries_update(t0, t@, j as int, pv[0], toml_view(t@[j as int].1));
                    }
                },
                other => {
                    t.insert(j, (k, other));
                    proof {
                        assert(t@ =~= t0);
                    }
                },
            }
        },
    }
}

/// Set `key = v` in the table at `path[from..]` of `t`; `false` when there
/// is no table there.
fn insert_at_exec(t: &mut Vec<(String, TomlValue)>, path: &Vec<String>, from: usize, key: String, v: TomlValue) -> (ok: bool)
    requires
        from <= path@.len(),
    ensures
        match insert_at(entries_view(old(t)@), path.deep_view().skip(from as int), key@, toml_view(v)) {
            Some(n) => ok && entries_view(final(t)@) == n,
            None => !ok,
        },
    decreases path@.len() - from,
{
    let ghost pv = path.deep_view().skip(from as int);
    let ghost e0 = entries_view(t@);
    let ghost vv = toml_view(v);
    let ghost kv = key@;
    if from == path.len() {
        assert(pv.len() == 0);
        proof {
            lemma_entries_view(t@);
        }
        match find_key(t, key.as_str()) {
            Some(j) => {
                proof {
                    lemma_key_slot(e0, kv, j as int);
                }
                let ghost t0 = t@;
                let (k, _) = t.remove(j);
                t.insert(j, (k, v));
                proof {
                    lemma_entries_update(t0, t@, j as int, kv, vv);
                }
            },
            None => {
                proof {
                    lemma_key_slot_none(e0, kv);
                }
                let ghost t0 = t@;
                t.push((key, v));
                proof {
                    lemma_entries_view(t@);
                    assert(entries_view(t@) =~= e0.push((kv, vv)));
                }
            },
        }
        return true;
    }
    assert(pv[0] == path@[from as int]@);
    assert(pv.drop_first() =~= path.deep_view().skip(from + 1));
    match find_key(t, path[from].as_str()) {
        None => {
            proof {
                lemma_entries_view(t@);
                lemma_key_slot_none(e0, pv[0]);
            }
            false
        },
        Some(j) => {
            proof {
                lemma_key_slot(e0, pv[0], j as int);
                lemma_entries_view(t@);
            }
            let ghost t0 = t@;
            let (k, x) = t.remove(j);
            match x {
                TomlValue::Table(mut inner) => {
                    assert(toml_view(t0[j as int].1) == TomlView::Table(entries_view(inner@)));
                    let ok = insert_at_exec(&mut inner, path, from + 1, key, v);
                    t.insert(j, (k, TomlValue::Table(inner)));
                    proof {
                        if ok {
                            lemma_entries_update(t0, t@, j as int, pv[0], toml_view(t@[j as int].1));
                        }
                    }
                    ok
                },
                other => {
                    t.insert(j, (k, other));
                    false
                },
            }
        },
    }
}

/// Parse a record file into its root table, entries in order of first
/// appearance; the first error, syntax or a missing table, ends the parse.
pub fn parse_toml_tables(input: &str) -> (r: Result<Vec<(String, TomlValue)>, RecordError>)
    requires
        input@.len() <= i32::MAX,
    ensures
        match (r, toml_tables_of(input@)) {
            (Ok(t), Ok(w)) => entries_view(t@) == w,
            (Err(RecordError::ParseError(m)), Err(e)) => m@ == e,
            _ => false,
        },
{
    let cs = chars_of(input);
    let ls = lines_exec(&cs);
    let ghost lv = lines(input@);
    proof {
        lemma_lines_short(input@);
    }
    let ghost total = tables_from(lv, 0, seq![], seq![]);
    let mut root: Vec<(String, TomlValue)> = Vec::new();
    let mut cur: Vec<String> = Vec::new();
    proof {
        lemma_entries_view(root@);
        assert(entries_view(root@) =~= Seq::<(Seq<char>, TomlView)>::empty());
        assert(cur.deep_view() =~= Seq::<Seq<char>>::empty());
    }
    let mut i: usize = 0;
    while i < ls.len()
        invariant
            i <= ls@.len(),
            lv == lines(input@),
            ls@.len() == lv.len(),
            forall|k: int| 0 <= k < ls@.len() ==> (#[trigger] ls@[k])@ == lv[k],
            forall|k: int| 0 <= k < lv.len() ==> (#[trigger] lv[k]).len() <= input@.len(),
            input@.len() <= i32::MAX,
            total == tables_from(lv, 0, seq![], seq![]),
            tables_from(lv, i as nat, entries_view(root@), cur.deep_view()) == total,
        decreases ls@.len() - i,
    {
        assert(ls@[i as int]@ == lv[i as int]);
        assert(cur.deep_view().skip(0) =~= cur.deep_view());
        match read_line(&ls[i], i) {
            Err(e) => {
                return Err(e);
            },
            Ok(None) => {},
            Ok(Some(TomlLine::Header(p))) => {
                assert(p.deep_view().skip(0) =~= p.deep_view());
                ensure_path_exec(&mut root, &p, 0);
                cur = p;
            },
            Ok(Some(TomlLine::Assign(k, v))) => {
                let ok = insert_at_exec(&mut root, &cur, 0, k, v);
                if !ok {
                    let mut m = own("cannot find table for path ");
                    let d = debug_path(&cur);
                    push_str(&mut m, d.as_str());
                    push_str(&mut m, " at line ");
                    let n = usize_to_decimal(i + 1);
                    push_str(&mut m, n.as_str());
                    return Err(RecordError::ParseError(m));
                }
            },
        }
        i = i + 1;
    }
    Ok(root)
}

// ------------------------------------------------------------------------
// Written lines read back
// ------------------------------------------------------------------------

/// A key that reads back as written: not empty, not starting with `[`, no
/// whitespace at its ends, and none of `"`, `\`, `#` or `=` in it.
pub open spec fn plain_key(k: Seq<char>) -> bool {
    &&& k.len() > 0
    &&& k[0] != '['
    &&& !is_ws(k[0])
    &&& !is_ws(k.last())
    &&& forall|i: int| 0 <= i < k.len() ==> k[i] != '"' && k[i] != '\\' && k[i] != '#' && k[i] != '='
}

/// Outside strings, characters other than a quote, a backslash and the
/// target pass the scan unchanged.
proof fn lemma_scan_plain(s: Seq<char>, t: char, i: int, j: int)
    requires
        0 <= i <= j <= s.len(),
        forall|q: int| i <= q < j ==> s[q] != '"' && s[q] != '\\' && s[q] != t,
    ensures
        first_unquoted(s, t, i, false, false) == first_unquoted(s, t, j, false, false),
    decreases j - i,
{
    if i < j {
        lemma_scan_plain(s, t, i + 1, j);
    }
}

/// Inside a string, an escaped text passes the scan and leaves it inside
/// the string, with no pending escape.
proof fn lemma_scan_escaped(s: Seq<char>, t: char, i: int, x: Seq<char>)
    requires
        0 <= i,
        i + toml_escaped(x).len() <= s.len(),
        s.subrange(i, i + toml_escaped(x).len()) == toml_escaped(x),
    ensures
        first_unquoted(s, t, i, true, false) == first_unquoted(s, t, i + toml_escaped(x).len(), true, false),
    decreases x.len(),
{
    if x.len() > 0 {
        let e0 = toml_escaped(x.drop_last());
        let ec = toml_escape_char(x.last());
        let e = toml_escaped(x);
        assert(e == e0 + ec);
        assert forall|k: int| 0 <= k < e0.len() implies s.subrange(i, i + e0.len())[k] == e0[k] by {
            assert(s.subrange(i, i + e.len())[k] == e[k]);
        }
        assert(s.subrange(i, i + e0.len()) =~= e0);
        lemma_scan_escaped(s, t, i, x.drop_last());
        let p = i + e0.len();
        assert(s[p] == s.subrange(i, i + e.len())[e0.len() as int]);
        assert(s[p] == e[e0.len() as int]);
        if ec.len() == 2 {
            assert(s[p + 1] == s.subrange(i, i + e.len())[e0.len() + 1int]);
            assert(s[p + 1] == e[e0.len() + 1int]);
            assert(first_unquoted(s, t, p + 1, true, true) == first_unquoted(s, t, p + 2, true, false));
        }
    }
}

/// A line written as `key = "value"` (the value escaped) reads back as the
/// assignment of that very text to that key.
pub proof fn law_string_line_roundtrip(key: Seq<char>, value: Seq<char>, n: nat)
    requires
        plain_key(key),
    ensures
        line_of(key + " = "@ + toml_quoted(value), n) == Ok::<Option<LineView>, Seq<char>>(
            Some(LineView::Assign(key, TomlView::Str(value))),
        ),
{
    reveal_strlit(" = ");
    reveal_strlit("true");
    reveal_strlit("false");
    let e = toml_escaped(value);
    let q = toml_quoted(value);
    let l = key + " = "@ + q;
    let kl = key.len() as int;
    assert(" = "@ =~= seq![' ', '=', ' ']);
    assert(q =~= seq!['"'] + e + seq!['"']);
    assert(l[kl] == ' ' && l[kl + 1] == '=' && l[kl + 2] == ' ' && l[kl + 3] == '"');
    assert(l.last() == '"');
    assert(l.len() == kl + 4 + e.len() + 1);
    assert(l.subrange(kl + 4, kl + 4 + e.len()) =~= e);
    // no comment
    assert forall|q2: int| 0 <= q2 < kl implies l[q2] != '"' && l[q2] != '\\' && l[q2] != '#' by {
        assert(l[q2] == key[q2]);
    }
    lemma_scan_plain(l, '#', 0, kl + 3);
    lemma_scan_escaped(l, '#', kl + 4, value);
    assert(first_unquoted(l, '#', kl + 4 + e.len(), true, false) == first_unquoted(l, '#', kl + 5 + e.len(), false, false));
    assert(without_comment(l) == l);
    // nothing to trim
    assert(l[0] == key[0]);
    assert(trim_start(l) == l);
    assert(trim_end(l) == l);
    assert(trim(without_comment(l)) == l);
    // the `=`
    assert forall|q2: int| 0 <= q2 < kl + 1 implies l[q2] != '"' && l[q2] != '\\' && l[q2] != '=' by {
        if q2 < kl {
            assert(l[q2] == key[q2]);
        }
    }
    lemma_scan_plain(l, '=', 0, kl + 1);
    assert(first_unquoted(l, '=', 0, false, false) == Some(kl + 1));
    // the key
    let kp = l.take(kl + 1);
    assert(kp =~= key.push(' '));
    assert(is_ws(' '));
    assert(kp.drop_last() =~= key);
    assert(trim_start(kp) == kp);
    assert(trim_end(kp) == trim_end(key));
    assert(trim_end(key) == key);
    // the value
    let vp = l.skip(kl + 2);
    assert(vp =~= seq![' '] + q);
    assert(vp.drop_first() =~= q);
    assert(trim_start(q) == q);
    assert(trim_start(vp) == q);
    assert(trim_end(q) == q);
    assert(trim(vp) == q);
    assert(q != "true"@) by {
        assert("true"@[0] == 't');
    }
    assert(q != "false"@) by {
        assert("false"@[0] == 'f');
    }
    law_basic_string_roundtrip(value, n);
}

/// The split state after scanning `t` from state `st`.
pub open spec fn scan_from(st: SplitState, t: Seq<char>, delim: char) -> SplitState
    decreases t.len(),
{
    if t.len() == 0 {
        st
    } else {
        split_step(scan_from(st, t.drop_last(), delim), t.last(), delim)
    }
}

/// The state before any text.
pub open spec fn scan_start() -> SplitState {
    SplitState { parts: seq![], current: seq![], depth: 0, in_string: false, prev_escape: false }
}

/// Scanning text is scanning from the start state.
proof fn lemma_scan_start(s: Seq<char>, delim: char)
    ensures
        split_scan(s, delim) == scan_from(scan_start(), s, delim),
    decreases s.len(),
{
    if s.len() > 0 {
        lemma_scan_start(s.drop_last(), delim);
    }
}

/// Scanning two texts in turn.
proof fn lemma_scan_concat(st: SplitState, a: Seq<char>, b: Seq<char>, delim: char)
    ensures
        scan_from(st, a + b, delim) == scan_from(scan_from(st, a, delim), b, delim),
    decreases b.len(),
{
    if b.len() == 0 {
        assert(a + b =~= a);
    } else {
        assert((a + b).drop_last() =~= a + b.drop_last());
        assert((a + b).last() == b.last());
        lemma_scan_concat(st, a, b.drop_last(), delim);
    }
}

/// Scanning one character.
proof fn lemma_scan_one(st: SplitState, c: char, delim: char)
    ensures
        scan_from(st, seq![c], delim) == split_step(st, c, delim),
{
    assert(seq![c].drop_last() =~= Seq::<char>::empty());
    assert(scan_from(st, Seq::<char>::empty(), delim) == st);
}

/// Scanning two characters.
proof fn lemma_scan_two(st: SplitState, c: char, d: char, delim: char)
    ensures
        scan_from(st, seq![c, d], delim) == split_step(split_step(st, c, delim), d, delim),
{
    assert(seq![c, d].drop_last() =~= seq![c]);
    lemma_scan_one(st, c, delim);
}

/// Inside a string, escaped text is added to the current part and leaves
/// the state inside the string with no pending escape.
proof fn lemma_split_escaped(st: SplitState, x: Seq<char>, delim: char)
    requires
        st.in_string,
        !st.prev_escape,
    ensures
        scan_from(st, toml_escaped(x), delim) == (SplitState { current: st.current + toml_escaped(x), ..st }),
    decreases x.len(),
{
    if x.len() == 0 {
        assert(st.current + toml_escaped(x) =~= st.current);
    } else {
        let e0 = toml_escaped(x.drop_last());
        let ec = toml_escape_char(x.last());
        assert(toml_escaped(x) == e0 + ec);
        lemma_scan_concat(st, e0, ec, delim);
        lemma_split_escaped(st, x.drop_last(), delim);
        let mid = SplitState { current: st.current + e0, ..st };
        let c = x.last();
        if c == '"' || c == '\\' || c == '\n' || c == '\r' || c == '\t' {
            assert(ec.len() == 2 && ec[0] == '\\');
            assert(ec =~= seq![ec[0], ec[1]]);
            lemma_scan_two(mid, ec[0], ec[1], delim);
            let m1 = split_step(mid, ec[0], delim);
            assert(m1 == SplitState { current: mid.current.push(ec[0]), prev_escape: true, ..mid });
            assert(split_step(m1, ec[1], delim) == SplitState { current: m1.current.push(ec[1]), prev_escape: false, ..mid });
            assert(st.current + e0 + ec =~= (st.current + e0).push(ec[0]).push(ec[1]));
        } else {
            assert(ec =~= seq![c]);
            lemma_scan_one(mid, c, delim);
            assert(split_step(mid, c, delim) == SplitState { current: mid.current.push(c), ..mid });
            assert(st.current + e0 + ec =~= (st.current + e0).push(c));
        }
        assert(st.current + toml_escaped(x) =~= st.current + e0 + ec);
    }
}

/// Outside strings, a quoted text is added to the current part.
proof fn lemma_split_quoted(st: SplitState, x: Seq<char>, delim: char)
    requires
        !st.in_string,
        !st.prev_escape,
        delim != '"',
    ensures
        scan_from(st, toml_quoted(x), delim) == (SplitState { current: st.current + toml_quoted(x), ..st }),
{
    let e = toml_escaped(x);
    lemma_scan_concat(st, seq!['"'], e, delim);
    lemma_scan_concat(st, seq!['"'] + e, seq!['"'], delim);
    lemma_scan_one(st, '"', delim);
    let s1 = scan_from(st, seq!['"'], delim);
    assert(s1 == SplitState { current: st.current.push('"'), in_string: true, prev_escape: false, ..st });
    lemma_split_escaped(s1, x, delim);
    let s2 = scan_from(s1, e, delim);
    lemma_scan_one(s2, '"', delim);
    assert(toml_quoted(x) == seq!['"'] + e + seq!['"']);
    assert(st.current + toml_quoted(x) =~= (st.current.push('"') + e).push('"'));
}

/// The parts of a list of quoted texts joined by `, `: the first quoted
/// text, then each next one after a space.
pub open spec fn array_parts(xs: Seq<Seq<char>>) -> Seq<Seq<char>> {
    Seq::new(xs.len(), |i: int| if i == 0 {
        toml_quoted(xs[0])
    } else {
        seq![' '] + toml_quoted(xs[i])
    })
}

/// Quoted texts joined by `, `.
pub open spec fn quoted_list(xs: Seq<Seq<char>>) -> Seq<char> {
    join_with(xs.map_values(|x: Seq<char>| toml_quoted(x)), ", "@)
}

/// Scanning quoted texts joined by `, ` ends outside strings at depth zero,
/// with all parts but the last done.
proof fn lemma_split_list(xs: Seq<Seq<char>>)
    requires
        xs.len() > 0,
    ensures
        scan_from(scan_start(), quoted_list(xs), ',') == (SplitState {
            parts: array_parts(xs).drop_last(),
            current: array_parts(xs).last(),
            depth: 0,
            in_string: false,
            prev_escape: false,
        }),
    decreases xs.len(),
{
    reveal_strlit(", ");
    let qs = xs.map_values(|x: Seq<char>| toml_quoted(x));
    if xs.len() == 1 {
        assert(quoted_list(xs) == qs[0]);
        lemma_split_quoted(scan_start(), xs[0], ',');
        assert(seq![] + toml_quoted(xs[0]) =~= toml_quoted(xs[0]));
        assert(array_parts(xs).drop_last() =~= Seq::<Seq<char>>::empty());
    } else {
        let xs0 = xs.drop_last();
        lemma_split_list(xs0);
        let qs0 = xs0.map_values(|x: Seq<char>| toml_quoted(x));
        assert(qs.drop_last() =~= qs0);
        assert(quoted_list(xs) == quoted_list(xs0) + ", "@ + toml_quoted(xs.last()));
        lemma_scan_concat(scan_start(), quoted_list(xs0) + ", "@, toml_quoted(xs.last()), ',');
        lemma_scan_concat(scan_start(), quoted_list(xs0), ", "@, ',');
        let st0 = scan_from(scan_start(), quoted_list(xs0), ',');
        assert(", "@ =~= seq![',', ' ']);
        lemma_scan_two(st0, ',', ' ', ',');
        let st1 = scan_from(st0, ", "@, ',');
        assert(st1 == SplitState { parts: st0.parts.push(st0.current), current: seq![' '], depth: 0, in_string: false, prev_escape: false });
        lemma_split_quoted(st1, xs.last(), ',');
        assert(array_parts(xs).drop_last() =~= array_parts(xs0).drop_last().push(array_parts(xs0).last()));
        assert(array_parts(xs).last() =~= seq![' '] + toml_quoted(xs.last()));
    }
}

/// Text that starts and ends with a non-space is its own trim.
proof fn lemma_trim_fixed(q: Seq<char>)
    requires
        q.len() > 0,
        !is_ws(q[0]),
        !is_ws(q.last()),
    ensures
        trim(q) == q,
{
    assert(trim_start(q) == q);
    assert(trim_end(q) == q);
}

/// A space before such text is trimmed away.
proof fn lemma_trim_space_front(q: Seq<char>)
    requires
        q.len() > 0,
        !is_ws(q[0]),
        !is_ws(q.last()),
    ensures
        trim(seq![' '] + q) == q,
{
    let s = seq![' '] + q;
    assert(is_ws(' '));
    assert(s.drop_first() =~= q);
    assert(trim_start(q) == q);
    assert(trim_start(s) == q);
    assert(trim_end(q) == q);
}

/// A quoted text starts and ends with a quote, and is its own trim.
proof fn lemma_quoted_shape(x: Seq<char>)
    ensures
        toml_quoted(x).len() >= 2,
        toml_quoted(x)[0] == '"',
        toml_quoted(x).last() == '"',
        trim(toml_quoted(x)) == toml_quoted(x),
{
    let q = toml_quoted(x);
    assert(q == seq!['"'] + toml_escaped(x) + seq!['"']);
    assert(q[0] == '"');
    assert(q.last() == '"');
    assert(!is_ws('"'));
    lemma_trim_fixed(q);
}

/// A non-empty list of quoted texts starts and ends with a quote, and no
/// part of it is longer than the list.
proof fn lemma_list_shape(xs: Seq<Seq<char>>)
    requires
        xs.len() > 0,
    ensures
        quoted_list(xs).len() >= 2,
        quoted_list(xs)[0] == '"',
        quoted_list(xs).last() == '"',
        forall|i: int| 0 <= i < xs.len() ==> (#[trigger] array_parts(xs)[i]).len() <= quoted_list(xs).len(),
    decreases xs.len(),
{
    reveal_strlit(", ");
    let qs = xs.map_values(|x: Seq<char>| toml_quoted(x));
    lemma_quoted_shape(xs.last());
    if xs.len() == 1 {
        assert(quoted_list(xs) == qs[0]);
        lemma_quoted_shape(xs[0]);
    } else {
        let xs0 = xs.drop_last();
        lemma_list_shape(xs0);
        let qs0 = xs0.map_values(|x: Seq<char>| toml_quoted(x));
        assert(qs.drop_last() =~= qs0);
        let l = quoted_list(xs);
        assert(l == quoted_list(xs0) + ", "@ + toml_quoted(xs.last()));
        assert(l[0] == quoted_list(xs0)[0]);
        assert forall|i: int| 0 <= i < xs.len() implies (#[trigger] array_parts(xs)[i]).len() <= l.len() by {
            if i < xs.len() - 1 {
                assert(array_parts(xs)[i] == array_parts(xs0)[i]);
            }
        }
    }
}

/// The array items of quoted parts, each trimming to a quoted text, are
/// those texts.
proof fn lemma_items_quoted(parts: Seq<Seq<char>>, xs: Seq<Seq<char>>, n: nat, bound: nat)
    requires
        parts.len() == xs.len(),
        forall|i: int| 0 <= i < parts.len() ==> trim(#[trigger] parts[i]) == toml_quoted(xs[i]) && parts[i].len() < bound,
    ensures
        items_of(parts, n, bound) == Ok::<Seq<TomlView>, Seq<char>>(xs.map_values(|x: Seq<char>| TomlView::Str(x))),
    decreases parts.len(),
{
    reveal_strlit("true");
    reveal_strlit("false");
    if parts.len() == 0 {
        assert(xs.map_values(|x: Seq<char>| TomlView::Str(x)) =~= Seq::<TomlView>::empty());
    } else {
        lemma_items_quoted(parts.drop_first(), xs.drop_first(), n, bound);
        let p = trim(parts[0]);
        assert(p == toml_quoted(xs[0]));
        lemma_quoted_shape(xs[0]);
        lemma_trim_len(parts[0]);
        assert(p != "true"@) by {
            assert("true"@[0] == 't');
        }
        assert(p != "false"@) by {
            assert("false"@[0] == 'f');
        }
        law_basic_string_roundtrip(xs[0], n);
        assert(value_of(p, n) == Ok::<TomlView, Seq<char>>(TomlView::Str(xs[0])));
        assert(xs.map_values(|x: Seq<char>| TomlView::Str(x)) =~= seq![TomlView::Str(xs[0])] + xs.drop_first().map_values(
            |x: Seq<char>| TomlView::Str(x),
        ));
    }
}

/// An array of quoted texts reads back as those texts.
proof fn lemma_array_value(xs: Seq<Seq<char>>, n: nat)
    ensures
        value_of("["@ + quoted_list(xs) + "]"@, n) == Ok::<TomlView, Seq<char>>(
            TomlView::Array(xs.map_values(|x: Seq<char>| TomlView::Str(x))),
        ),
{
    reveal_strlit("[");
    reveal_strlit("]");
    reveal_strlit("true");
    reveal_strlit("false");
    let l = quoted_list(xs);
    let t = "["@ + l + "]"@;
    assert(t[0] == '[');
    assert(t.last() == ']');
    assert(!is_ws('[') && !is_ws(']'));
    lemma_trim_fixed(t);
    assert(t != "true"@) by {
        assert("true"@[0] == 't');
    }
    assert(t != "false"@) by {
        assert("false"@[0] == 'f');
    }
    assert(t.subrange(1, t.len() - 1) =~= l);
    if xs.len() == 0 {
        assert(l.len() == 0);
        assert(trim(l) =~= l);
        assert(xs.map_values(|x: Seq<char>| TomlView::Str(x)) =~= Seq::<TomlView>::empty());
    } else {
        lemma_list_shape(xs);
        assert(!is_ws('"'));
        lemma_trim_fixed(l);
        lemma_scan_start(l, ',');
        lemma_split_list(xs);
        let ap = array_parts(xs);
        assert(ap.drop_last().push(ap.last()) =~= ap);
        assert(top_level_parts(l, ',') == ap);
        assert forall|i: int| 0 <= i < ap.len() implies trim(#[trigger] ap[i]) == toml_quoted(xs[i]) && ap[i].len() < (t.len() - 1) as nat by {
            lemma_quoted_shape(xs[i]);
            if i > 0 {
                lemma_trim_space_front(toml_quoted(xs[i]));
            }
        }
        lemma_items_quoted(ap, xs, n, (t.len() - 1) as nat);
    }
}

/// A quoted text passes the comment and `=` scan, which ends outside the
/// string.
proof fn lemma_scan_quoted(s: Seq<char>, t: char, i: int, x: Seq<char>)
    requires
        0 <= i,
        i + toml_quoted(x).len() <= s.len(),
        s.subrange(i, i + toml_quoted(x).len()) == toml_quoted(x),
        t != '"',
    ensures
        first_unquoted(s, t, i, false, false) == first_unquoted(s, t, i + toml_quoted(x).len(), false, false),
{
    let e = toml_escaped(x);
    let q = toml_quoted(x);
    assert(q == seq!['"'] + e + seq!['"']);
    assert(s[i] == s.subrange(i, i + q.len())[0]);
    assert(s[i] == '"');
    assert(s.subrange(i + 1, i + 1 + e.len()) =~= e) by {
        assert forall|k: int| 0 <= k < e.len() implies s.subrange(i + 1, i + 1 + e.len())[k] == e[k] by {
            assert(s.subrange(i, i + q.len())[k + 1] == q[k + 1]);
        }
    }
    lemma_scan_escaped(s, t, i + 1, x);
    let j = i + 1 + e.len();
    assert(s[j] == s.subrange(i, i + q.len())[q.len() - 1]);
    assert(s[j] == '"');
}

/// Quoted texts joined by `, ` pass the comment and `=` scan.
proof fn lemma_scan_list(s: Seq<char>, t: char, i: int, xs: Seq<Seq<char>>)
    requires
        0 <= i,
        i + quoted_list(xs).len() <= s.len(),
        s.subrange(i, i + quoted_list(xs).len()) == quoted_list(xs),
        t != '"',
        t != '\\',
        t != ',',
        t != ' ',
    ensures
        first_unquoted(s, t, i, false, false) == first_unquoted(s, t, i + quoted_list(xs).len(), false, false),
    decreases xs.len(),
{
    reveal_strlit(", ");
    let qs = xs.map_values(|x: Seq<char>| toml_quoted(x));
    if xs.len() == 1 {
        assert(quoted_list(xs) == qs[0]);
        lemma_scan_quoted(s, t, i, xs[0]);
    } else if xs.len() > 1 {
        let xs0 = xs.drop_last();
        let qs0 = xs0.map_values(|x: Seq<char>| toml_quoted(x));
        assert(qs.drop_last() =~= qs0);
        let l = quoted_list(xs);
        let l0 = quoted_list(xs0);
        let q = toml_quoted(xs.last());
        assert(l == l0 + ", "@ + q);
        assert(", "@ =~= seq![',', ' ']);
        let sub = s.subrange(i, i + l.len());
        assert(s.subrange(i, i + l0.len()) =~= l0) by {
            assert forall|k: int| 0 <= k < l0.len() implies s.subrange(i, i + l0.len())[k] == l0[k] by {
                assert(sub[k] == l[k]);
            }
        }
        lemma_scan_list(s, t, i, xs0);
        let j = i + l0.len();
        assert(s[j] == sub[l0.len() as int]);
        assert(s[j + 1] == sub[l0.len() + 1int]);
        lemma_scan_plain(s, t, j, j + 2);
        assert(s.subrange(j + 2, j + 2 + q.len()) =~= q) by {
            assert forall|k: int| 0 <= k < q.len() implies s.subrange(j + 2, j + 2 + q.len())[k] == q[k] by {
                assert(sub[l0.len() + 2 + k] == l[l0.len() + 2 + k]);
            }
        }
        lemma_scan_quoted(s, t, j + 2, xs.last());
    }
}

/// A line written as `key = ["a", "b", ...]` (each item quoted and
/// escaped) reads back as the assignment of the array of those texts.
pub proof fn law_array_line_roundtrip(key: Seq<char>, xs: Seq<Seq<char>>, n: nat)
    requires
        plain_key(key),
    ensures
        line_of(key + " = ["@ + quoted_list(xs) + "]"@, n) == Ok::<Option<LineView>, Seq<char>>(
            Some(LineView::Assign(key, TomlView::Array(xs.map_values(|x: Seq<char>| TomlView::Str(x))))),
        ),
{
    reveal_strlit(" = [");
    reveal_strlit("]");
    reveal_strlit("[");
    let lst = quoted_list(xs);
    let l = key + " = ["@ + lst + "]"@;
    let kl = key.len() as int;
    assert(" = ["@ =~= seq![' ', '=', ' ', '[']);
    assert(l[kl] == ' ' && l[kl + 1] == '=' && l[kl + 2] == ' ' && l[kl + 3] == '[');
    assert(l.last() == ']');
    assert(l.len() == kl + 4 + lst.len() + 1);
    assert(l.subrange(kl + 4, kl + 4 + lst.len()) =~= lst);
    // no comment
    assert forall|q2: int| 0 <= q2 < kl implies l[q2] != '"' && l[q2] != '\\' && l[q2] != '#' by {
        assert(l[q2] == key[q2]);
    }
    lemma_scan_plain(l, '#', 0, kl + 4);
    lemma_scan_list(l, '#', kl + 4, xs);
    assert(first_unquoted(l, '#', kl + 4 + lst.len(), false, false) == first_unquoted(l, '#', kl + 5 + lst.len(), false, false));
    assert(without_comment(l) == l);
    // nothing to trim
    assert(l[0] == key[0]);
    assert(!is_ws(']'));
    lemma_trim_fixed(l);
    // the `=`
    assert forall|q2: int| 0 <= q2 < kl + 1 implies l[q2] != '"' && l[q2] != '\\' && l[q2] != '=' by {
        if q2 < kl {
            assert(l[q2] == key[q2]);
        }
    }
    lemma_scan_plain(l, '=', 0, kl + 1);
    assert(first_unquoted(l, '=', 0, false, false) == Some(kl + 1));
    // the key
    let kp = l.take(kl + 1);
    assert(kp =~= key.push(' '));
    assert(is_ws(' '));
    assert(kp.drop_last() =~= key);
    assert(trim_start(kp) == kp);
    assert(trim_end(kp) == trim_end(key));
    assert(trim_end(key) == key);
    // the value
    let arr = "["@ + lst + "]"@;
    let vp = l.skip(kl + 2);
    assert(vp =~= seq![' '] + arr);
    assert(arr[0] == '[' && arr.last() == ']');
    assert(!is_ws('['));
    lemma_trim_space_front(arr);
    lemma_trim_fixed(arr);
    assert(value_of(vp, n) == value_of(arr, n));
    lemma_array_value(xs, n);
}

/// A table name that reads back as written: a plain key without `.`, `]`
/// or line break.
pub open spec fn plain_name(n: Seq<char>) -> bool {
    &&& plain_key(n)
    &&& forall|i: int| 0 <= i < n.len() ==> n[i] != '.' && n[i] != ']' && n[i] != '\n'
}

/// The lines of a section as written: the `[name]` header, then one
/// `key = "value"` line per key.
pub open spec fn section_lines(name: Seq<char>, keys: Seq<Seq<char>>, values: Seq<Seq<char>>) -> Seq<Seq<char>> {
    seq!["["@ + name + "]"@] + Seq::new(keys.len(), |i: int| keys[i] + " = "@ + toml_quoted(values[i]))
}

/// The entries of a section as read: each key with its text.
pub open spec fn section_entries(keys: Seq<Seq<char>>, values: Seq<Seq<char>>) -> Seq<(Seq<char>, TomlView)> {
    Seq::new(keys.len(), |i: int| (keys[i], TomlView::Str(values[i])))
}

/// Escaped text holds no line break.
proof fn lemma_escaped_no_newline(x: Seq<char>)
    ensures
        no_newline(toml_escaped(x)),
    decreases x.len(),
{
    if x.len() > 0 {
        lemma_escaped_no_newline(x.drop_last());
        let e0 = toml_escaped(x.drop_last());
        let ec = toml_escape_char(x.last());
        assert(toml_escaped(x) == e0 + ec);
        assert forall|i: int| 0 <= i < toml_escaped(x).len() implies toml_escaped(x)[i] != '\n' by {
            if i >= e0.len() {
                assert(toml_escaped(x)[i] == ec[i - e0.len()]);
            }
        }
    }
}

/// The header line of a section reads back as that one-step path.
proof fn lemma_header_line(name: Seq<char>, n: nat)
    requires
        plain_name(name),
    ensures
        line_of("["@ + name + "]"@, n) == Ok::<Option<LineView>, Seq<char>>(Some(LineView::Header(seq![name]))),
{
    reveal_strlit("[");
    reveal_strlit("]");
    let l = "["@ + name + "]"@;
    assert(l[0] == '[');
    assert(l.last() == ']');
    assert(l[1] == name[0]);
    assert forall|q: int| 0 <= q < l.len() implies l[q] != '"' && l[q] != '\\' && l[q] != '#' by {
        if 0 < q < l.len() - 1 {
            assert(l[q] == name[q - 1]);
        }
    }
    lemma_scan_plain(l, '#', 0, l.len() as int);
    assert(without_comment(l) == l);
    assert(!is_ws('[') && !is_ws(']'));
    lemma_trim_fixed(l);
    let rest = l.drop_first();
    assert(rest =~= name.push(']'));
    assert(rest.drop_last() =~= name);
    assert(strip_trailing(name, ']') == name);
    assert(strip_trailing(rest, ']') == name);
    lemma_trim_fixed(name);
    lemma_first_occurrence(name, seq!['.'], 0);
    if first_occurrence(name, seq!['.'], 0) is Some {
        let k = first_occurrence(name, seq!['.'], 0)->0;
        assert(name.subrange(k, k + 1)[0] == name[k]);
    }
    assert(name.subrange(0, name.len() as int) =~= name);
    assert(split_char_from(name, '.', 0) =~= seq![name]);
    assert(trimmed_pieces(name, '.') =~= seq![name]);
}

/// The assignment lines of a section fill its table, one key after another.
proof fn lemma_section_assigns(name: Seq<char>, keys: Seq<Seq<char>>, values: Seq<Seq<char>>, j: int)
    requires
        plain_name(name),
        keys.len() == values.len(),
        forall|i: int| 0 <= i < keys.len() ==> plain_key(#[trigger] keys[i]),
        forall|i: int, k: int| 0 <= i < k < keys.len() ==> keys[i] != keys[k],
        0 <= j <= keys.len(),
    ensures
        tables_from(
            section_lines(name, keys, values),
            (j + 1) as nat,
            seq![(name, TomlView::Table(section_entries(keys, values).take(j)))],
            seq![name],
        ) == Ok::<Seq<(Seq<char>, TomlView)>, Seq<char>>(seq![(name, TomlView::Table(section_entries(keys, values)))]),
    decreases keys.len() - j,
{
    let ls = section_lines(name, keys, values);
    let es = section_entries(keys, values);
    let root = seq![(name, TomlView::Table(es.take(j)))];
    if j == keys.len() {
        assert(es.take(j) =~= es);
    } else {
        assert(ls[j + 1] == keys[j] + " = "@ + toml_quoted(values[j]));
        law_string_line_roundtrip(keys[j], values[j], (j + 1) as nat);
        let path = seq![name];
        assert(path.drop_first() =~= Seq::<Seq<char>>::empty());
        lemma_key_slot(root, name, 0);
        let inner = es.take(j);
        assert forall|i: int| 0 <= i < inner.len() implies inner[i].0 != keys[j] by {
            assert(inner[i].0 == keys[i]);
        }
        lemma_key_slot_none(inner, keys[j]);
        assert(table_insert(inner, keys[j], TomlView::Str(values[j])) =~= es.take(j + 1));
        assert(insert_at(inner, path.drop_first(), keys[j], TomlView::Str(values[j])) == Some(es.take(j + 1)));
        let root2 = seq![(name, TomlView::Table(es.take(j + 1)))];
        assert(insert_at(root, path, keys[j], TomlView::Str(values[j])) == Some(root2)) by {
            assert(root.update(0, (name, TomlView::Table(es.take(j + 1)))) =~= root2);
        }
        lemma_section_assigns(name, keys, values, j + 1);
    }
}

/// A section written as a `[name]` header and `key = "value"` lines, with
/// distinct plain keys, reads back as a root holding that one table, whose
/// entries are the keys with their texts, in the order written.
pub proof fn law_section_roundtrip(name: Seq<char>, keys: Seq<Seq<char>>, values: Seq<Seq<char>>)
    requires
        plain_name(name),
        keys.len() == values.len(),
        forall|i: int| 0 <= i < keys.len() ==> plain_key(#[trigger] keys[i]) && no_newline(keys[i]),
        forall|i: int, k: int| 0 <= i < k < keys.len() ==> keys[i] != keys[k],
    ensures
        toml_tables_of(joined(section_lines(name, keys, values))) == Ok::<Seq<(Seq<char>, TomlView)>, Seq<char>>(
            seq![(name, TomlView::Table(section_entries(keys, values)))],
        ),
{
    reveal_strlit("[");
    reveal_strlit("]");
    reveal_strlit(" = ");
    let ls = section_lines(name, keys, values);
    assert forall|j: int| 0 <= j < ls.len() implies no_newline(#[trigger] ls[j]) && (ls[j].len() > 0 ==> ls[j].last() != '\r') by {
        if j == 0 {
            let h = "["@ + name + "]"@;
            assert(ls[0] == h);
            assert forall|q: int| 0 <= q < h.len() implies h[q] != '\n' by {
                if 0 < q < h.len() - 1 {
                    assert(h[q] == name[q - 1]);
                }
            }
            assert(h.last() == ']');
        } else {
            let k = keys[j - 1];
            let q = toml_quoted(values[j - 1]);
            let l = k + " = "@ + q;
            assert(ls[j] == l);
            lemma_escaped_no_newline(values[j - 1]);
            assert(q == seq!['"'] + toml_escaped(values[j - 1]) + seq!['"']);
            assert(" = "@ =~= seq![' ', '=', ' ']);
            assert forall|p: int| 0 <= p < l.len() implies l[p] != '\n' by {
                if p < k.len() {
                    assert(l[p] == k[p]);
                } else if p >= k.len() + 3 {
                    assert(l[p] == q[p - k.len() - 3]);
                    if 1 <= p - k.len() - 3 < q.len() - 1 {
                        assert(q[p - k.len() - 3] == toml_escaped(values[j - 1])[p - k.len() - 4]);
                    }
                }
            }
            assert(l.last() == '"');
        }
    }
    lemma_lines_joined(ls);
    lemma_header_line(name, 0);
    let es = section_entries(keys, values);
    assert(ensure_path(seq![], seq![name]) == seq![(name, TomlView::Table(es.take(0)))]) by {
        lemma_key_slot_none(seq![], name);
        assert(seq![name].drop_first() =~= Seq::<Seq<char>>::empty());
        assert(seq![name][0] == name);
        assert(ensure_path(Seq::<(Seq<char>, TomlView)>::empty(), Seq::<Seq<char>>::empty()) == Seq::<(Seq<char>, TomlView)>::empty());
        assert(es.take(0) =~= Seq::<(Seq<char>, TomlView)>::empty());
        assert(Seq::<(Seq<char>, TomlView)>::empty().push((name, TomlView::Table(seq![]))) =~= seq![(name, TomlView::Table(es.take(0)))]);
    }
    lemma_section_assigns(name, keys, values, 0);
}

} // verus!
