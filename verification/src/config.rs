//! Project configuration parsed from `.sysml/config.toml`.
//!
//! A hand-written parser for the limited TOML format the configuration uses:
//! `[section]` headers, `key = "string"` pairs, inline string arrays, `#`
//! comments and blank lines. Paths are kept as strings.
use vstd::prelude::*;
use crate::text::{
    chars_of, decimal, first_occurrence, lemma_first_occurrence, own, push_char, push_seq,
    push_str, seq_eq, slice_chars, starts_with, string_of, str_eq, trim, trim_chars,
    usize_to_decimal, find_from, index_of, index_of_exec, ends_with, is_ws, trim_start, trim_end,
    occurs_at,
};

verus! {

/// An I/O error (`std::io::Error`), carried as an opaque value.
#[verifier::external_type_specification]
#[verifier::external_body]
pub struct ExIoError(std::io::Error);

/// The display text of an I/O error (`std::io::Error` formatted with `Display`).
#[verifier::external_body]
fn io_error_text(e: &std::io::Error) -> String {
    format!("{e}")
}

/// Errors that can occur when loading a project configuration.
#[derive(Debug)]
pub enum ConfigError {
    /// I/O error reading the config file.
    Io(std::io::Error),
    /// Parse error in the TOML content.
    Parse(String),
}

impl ConfigError {
    /// The error message: `config I/O error: ...` or `config parse error: ...`.
    pub fn to_string(&self) -> (r: String)
        ensures
            match self {
                ConfigError::Io(_) => starts_with(r@, "config I/O error: "@),
                ConfigError::Parse(m) => r@ == "config parse error: "@ + m@,
            },
    {
        match self {
            ConfigError::Io(e) => {
                let mut s = own("config I/O error: ");
                let t = io_error_text(e);
                push_str(&mut s, t.as_str());
                proof {
                    reveal_strlit("config I/O error: ");
                    assert(s@.take("config I/O error: "@.len() as int) =~= "config I/O error: "@);
                }
                s
            },
            ConfigError::Parse(m) => {
                let mut s = own("config parse error: ");
                push_str(&mut s, m.as_str());
                s
            },
        }
    }

    /// The underlying I/O error, if any.
    pub fn source(&self) -> (r: Option<&std::io::Error>)
        ensures
            r is Some <==> self is Io,
            match *self {
                ConfigError::Io(e) => r matches Some(x) && *x == e,
                ConfigError::Parse(_) => r is None,
            },
    {
        match self {
            ConfigError::Io(e) => Some(e),
            ConfigError::Parse(_) => None,
        }
    }
}

/// Top-level project configuration.
#[derive(Debug, Clone, PartialEq)]
pub struct ProjectConfig {
    pub project: ProjectSection,
    pub defaults: DefaultsSection,
}

/// The `[project]` section.
#[derive(Debug, Clone, PartialEq)]
pub struct ProjectSection {
    /// Human-readable project name.
    pub name: String,
    /// Root directory for model files, relative to the project root.
    pub model_root: String,
    /// Additional directories to search for library models.
    pub library_paths: Vec<String>,
}

/// The `[defaults]` section.
#[derive(Debug, Clone, PartialEq)]
pub struct DefaultsSection {
    /// Default author name for generated elements.
    pub author: String,
    /// Default output directory for reports and exports.
    pub output_dir: String,
    /// Default output format (e.g. "text", "json").
    pub format: String,
}

/// A configuration as plain text values: name, model root, library paths,
/// author, output directory, format.
pub type CfgView = (Seq<char>, Seq<char>, Seq<Seq<char>>, Seq<char>, Seq<char>, Seq<char>);

/// The texts of a list of strings.
pub open spec fn strs(v: Seq<String>) -> Seq<Seq<char>> {
    Seq::new(v.len(), |i: int| v[i]@)
}

/// The view of a configuration.
pub open spec fn cfg_view(c: ProjectConfig) -> CfgView {
    (
        c.project.name@,
        c.project.model_root@,
        strs(c.project.library_paths@),
        c.defaults.author@,
        c.defaults.output_dir@,
        c.defaults.format@,
    )
}

/// The default configuration: model root `.`, output directory `records/`,
/// format `text`, everything else empty.
pub open spec fn default_cfg() -> CfgView {
    (seq![], "."@, seq![], seq![], "records/"@, "text"@)
}

/// Default model root.
pub fn default_model_root() -> (r: String)
    ensures
        r@ == "."@,
{
    own(".")
}

/// Default output directory.
pub fn default_output_dir() -> (r: String)
    ensures
        r@ == "records/"@,
{
    own("records/")
}

/// Default output format.
pub fn default_format() -> (r: String)
    ensures
        r@ == "text"@,
{
    own("text")
}

impl Default for ProjectSection {
    fn default() -> (r: Self)
        ensures
            r.name@ == Seq::<char>::empty(),
            r.model_root@ == "."@,
            r.library_paths@.len() == 0,
    {
        ProjectSection {
            name: String::new(),
            model_root: default_model_root(),
            library_paths: Vec::new(),
        }
    }
}

impl Default for DefaultsSection {
    fn default() -> (r: Self)
        ensures
            r.author@ == Seq::<char>::empty(),
            r.output_dir@ == "records/"@,
            r.format@ == "text"@,
    {
        DefaultsSection {
            author: String::new(),
            output_dir: default_output_dir(),
            format: default_format(),
        }
    }
}

impl Default for ProjectConfig {
    fn default() -> (r: Self)
        ensures
            cfg_view(r) == default_cfg(),
    {
        let r = ProjectConfig { project: ProjectSection::default(), defaults: DefaultsSection::default() };
        assert(strs(r.project.library_paths@) =~= Seq::<Seq<char>>::empty());
        r
    }
}

// ----------------------------------------------------------------------
// Lines
// ----------------------------------------------------------------------

/// The pieces of `s[i..]` between newlines (a last empty piece included).
pub open spec fn split_nl_from(s: Seq<char>, i: int) -> Seq<Seq<char>>
    decreases s.len() + 1 - i,
{
    if i < 0 || i > s.len() {
        seq![]
    } else {
        match first_occurrence(s, seq!['\n'], i) {
            Some(k) => {
                proof {
                    lemma_first_occurrence(s, seq!['\n'], i);
                }
                seq![s.subrange(i, k)] + split_nl_from(s, k + 1)
            },
            None => seq![s.subrange(i, s.len() as int)],
        }
    }
}

/// A line that ended with a newline loses one trailing carriage return.
pub open spec fn strip_cr(l: Seq<char>) -> Seq<char> {
    if l.len() > 0 && l.last() == '\r' {
        l.drop_last()
    } else {
        l
    }
}

/// The lines of `s` as `str::lines` yields them: split at `\n`, a trailing
/// `\r` removed from lines that ended with `\n`, no final empty line.
pub open spec fn lines(s: Seq<char>) -> Seq<Seq<char>> {
    let p = split_nl_from(s, 0);
    let n = if p.len() > 0 && p.last().len() == 0 {
        p.len() - 1
    } else {
        p.len() as int
    };
    Seq::new(n as nat, |i: int| if i < p.len() - 1 { strip_cr(p[i]) } else { p[i] })
}

/// The pieces of `s` between newlines.
fn split_nl_exec(s: &Vec<char>) -> (r: Vec<Vec<char>>)
    ensures
        r@.len() == split_nl_from(s@, 0).len(),
        forall|i: int| 0 <= i < r@.len() ==> (#[trigger] r@[i])@ == split_nl_from(s@, 0)[i],
{
    let nl: Vec<char> = vec!['\n'];
    assert(nl@ =~= seq!['\n']);
    let mut out: Vec<Vec<char>> = Vec::new();
    let ghost mut acc: Seq<Seq<char>> = seq![];
    let mut i: usize = 0;
    loop
        invariant
            i <= s.len(),
            nl@ == seq!['\n'],
            out@.len() == acc.len(),
            forall|k: int| 0 <= k < out@.len() ==> (#[trigger] out@[k])@ == acc[k],
            split_nl_from(s@, 0) == acc + split_nl_from(s@, i as int),
        decreases s.len() - i,
    {
        proof {
            lemma_first_occurrence(s@, seq!['\n'], i as int);
        }
        match find_from(s, &nl, i) {
            Some(k) => {
                let piece = slice_chars(s, i, k);
                out.push(piece);
                proof {
                    acc = acc.push(piece@);
                    assert(split_nl_from(s@, 0) =~= acc + split_nl_from(s@, k + 1));
                }
                i = k + 1;
            },
            None => {
                let piece = slice_chars(s, i, s.len());
                out.push(piece);
                proof {
                    acc = acc.push(piece@);
                    assert(split_nl_from(s@, 0) =~= acc);
                }
                return out;
            },
        }
    }
}

/// The lines of `s`, as `str::lines` yields them.
pub fn lines_exec(s: &Vec<char>) -> (r: Vec<Vec<char>>)
    ensures
        r@.len() == lines(s@).len(),
        forall|i: int| 0 <= i < r@.len() ==> (#[trigger] r@[i])@ == lines(s@)[i],
{
    let p = split_nl_exec(s);
    let ghost ps = split_nl_from(s@, 0);
    let n = if p.len() > 0 && p[p.len() - 1].len() == 0 {
        p.len() - 1
    } else {
        p.len()
    };
    let mut out: Vec<Vec<char>> = Vec::new();
    let mut i: usize = 0;
    while i < n
        invariant
            n <= p@.len(),
            ps == split_nl_from(s@, 0),
            p@.len() == ps.len(),
            forall|k: int| 0 <= k < p@.len() ==> (#[trigger] p@[k])@ == ps[k],
            n == lines(s@).len(),
            i <= n,
            out@.len() == i,
            forall|k: int| 0 <= k < i ==> (#[trigger] out@[k])@ == lines(s@)[k],
        decreases n - i,
    {
        let l = &p[i];
        if i + 1 < p.len() && l.len() > 0 && l[l.len() - 1] == '\r' {
            out.push(slice_chars(l, 0, l.len() - 1));
            assert(out@[i as int]@ =~= strip_cr(ps[i as int]));
        } else {
            out.push(slice_chars(l, 0, l.len()));
            assert(out@[i as int]@ =~= ps[i as int]);
            assert(strip_cr(ps[i as int]) == ps[i as int] || !((i as int) < ps.len() - 1));
            assert(out@[i as int]@ =~= lines(s@)[i as int]);
        }
        i = i + 1;
    }
    out
}

// ----------------------------------------------------------------------
// Comments, keys and values
// ----------------------------------------------------------------------

/// The part of a line before a `#` comment, scanning with quote and escape state.
pub open spec fn uncommented(s: Seq<char>, in_string: bool, escaped: bool) -> Seq<char>
    decreases s.len(),
{
    if s.len() == 0 {
        seq![]
    } else {
        let c = s[0];
        let rest = s.drop_first();
        if escaped {
            seq![c] + uncommented(rest, in_string, false)
        } else if c == '\\' && in_string {
            seq![c] + uncommented(rest, in_string, true)
        } else if c == '"' {
            seq![c] + uncommented(rest, !in_string, false)
        } else if c == '#' && !in_string {
            seq![]
        } else {
            seq![c] + uncommented(rest, in_string, false)
        }
    }
}

/// Strip a trailing `# comment` from a line, respecting quoted strings.
fn strip_comment_chars(line: &Vec<char>) -> (r: Vec<char>)
    ensures
        r@ == uncommented(line@, false, false),
{
    let mut in_string = false;
    let mut escaped = false;
    let mut i: usize = 0;
    assert(line@.skip(0) =~= line@);
    while i < line.len()
        invariant
            i <= line.len(),
            uncommented(line@, false, false) == line@.take(i as int) + uncommented(
                line@.skip(i as int),
                in_string,
                escaped,
            ),
        decreases line.len() - i,
    {
        let c = line[i];
        assert(line@.skip(i as int).drop_first() =~= line@.skip(i + 1));
        assert(line@.take(i + 1) =~= line@.take(i as int) + seq![c]);
        if escaped {
            escaped = false;
        } else if c == '\\' && in_string {
            escaped = true;
        } else if c == '"' {
            in_string = !in_string;
        } else if c == '#' && !in_string {
            assert(line@.take(i as int) + Seq::<char>::empty() =~= line@.take(i as int));
            return slice_chars(line, 0, i);
        }
        i = i + 1;
    }
    assert(line@.take(i as int) + Seq::<char>::empty() =~= line@);
    slice_chars(line, 0, line.len())
}

/// A `key = value` line split at the first `=`, both sides trimmed; `None`
/// without `=` or with an empty key.
pub open spec fn key_value(line: Seq<char>) -> Option<(Seq<char>, Seq<char>)> {
    match index_of(line, '=') {
        Some(k) => {
            let key = trim(line.take(k));
            if key.len() == 0 {
                None
            } else {
                Some((key, trim(line.skip(k + 1))))
            }
        },
        None => None,
    }
}

/// Split `key = value` with trimmed whitespace.
pub fn parse_key_value(line: &Vec<char>) -> (r: Option<(Vec<char>, Vec<char>)>)
    ensures
        match (r, key_value(line@)) {
            (Some((a, b)), Some((x, y))) => a@ == x && b@ == y,
            (None, None) => true,
            _ => false,
        },
{
    match index_of_exec(line, '=') {
        Some(k) => {
            let left = slice_chars(line, 0, k);
            assert(left@ =~= line@.take(k as int));
            let key = trim_chars(&left);
            if key.len() == 0 {
                return None;
            }
            let right = slice_chars(line, k + 1, line.len());
            assert(right@ =~= line@.skip(k + 1));
            let value = trim_chars(&right);
            Some((key, value))
        },
        None => None,
    }
}

/// Prepends `p` to a successful result.
pub open spec fn prepend(p: Seq<char>, r: Result<Seq<char>, Seq<char>>) -> Result<
    Seq<char>,
    Seq<char>,
> {
    match r {
        Ok(x) => Ok(p + x),
        Err(e) => Err(e),
    }
}

/// What an escape sequence `\d` stands for.
pub open spec fn unescape(d: char) -> Seq<char> {
    if d == 'n' {
        seq!['\n']
    } else if d == 't' {
        seq!['\t']
    } else if d == '\\' {
        seq!['\\']
    } else if d == '"' {
        seq!['"']
    } else {
        seq!['\\', d]
    }
}

/// The contents of a quoted string up to its closing quote, with `\n`, `\t`,
/// `\\` and `\"` unescaped (other escapes kept as written).
pub open spec fn string_body(s: Seq<char>) -> Result<Seq<char>, Seq<char>>
    decreases s.len(),
{
    if s.len() == 0 {
        Err("unterminated string"@)
    } else if s[0] == '"' {
        Ok(seq![])
    } else if s[0] == '\\' {
        if s.len() < 2 {
            Err("unterminated escape in string"@)
        } else {
            prepend(unescape(s[1]), string_body(s.skip(2)))
        }
    } else {
        prepend(seq![s[0]], string_body(s.drop_first()))
    }
}

/// A TOML string value: `"..."` with escapes resolved.
pub open spec fn string_value(value: Seq<char>) -> Result<Seq<char>, Seq<char>> {
    let v = trim(value);
    if !starts_with(v, "\""@) {
        Err("expected quoted string, got: "@ + v)
    } else {
        string_body(v.skip(1))
    }
}

/// Parse a TOML string value: `"..."` with escape handling.
pub fn parse_string_value(value: &Vec<char>) -> (r: Result<String, String>)
    ensures
        match (r, string_value(value@)) {
            (Ok(a), Ok(b)) => a@ == b,
            (Err(a), Err(b)) => a@ == b,
            _ => false,
        },
{
    let v = trim_chars(value);
    if v.len() == 0 || v[0] != '"' {
        proof {
            reveal_strlit("\"");
            if starts_with(v@, "\""@) {
                assert(v@.take(1)[0] == '"');
            }
        }
        let mut e = own("expected quoted string, got: ");
        push_seq(&mut e, &v);
        return Err(e);
    }
    proof {
        reveal_strlit("\"");
        assert(v@.take(1) =~= "\""@);
    }
    let mut out = String::new();
    let mut i: usize = 1;
    assert(out@ + Seq::<char>::empty() =~= out@);
    while i < v.len()
        invariant
            1 <= i <= v.len(),
            v@ == trim(value@),
            starts_with(v@, "\""@),
            string_body(v@.skip(1)) == prepend(out@, string_body(v@.skip(i as int))),
        decreases v.len() + 1 - i,
    {
        let c = v[i];
        assert(v@.skip(i as int)[0] == c);
        if c == '"' {
            assert(string_body(v@.skip(i as int)) == Ok::<Seq<char>, Seq<char>>(Seq::<char>::empty()));
            assert(out@ + Seq::<char>::empty() =~= out@);
            assert(string_body(v@.skip(1)) == Ok::<Seq<char>, Seq<char>>(out@));
            assert(string_value(value@) == string_body(v@.skip(1)));
            return Ok(out);
        }
        if c == '\\' {
            if i + 1 >= v.len() {
                assert(v@.skip(i as int).len() < 2);
                return Err(own("unterminated escape in string"));
            }
            let d = v[i + 1];
            assert(v@.skip(i as int)[1] == d);
            let ghost before = out@;
            if d == 'n' {
                push_char(&mut out, '\n');
            } else if d == 't' {
                push_char(&mut out, '\t');
            } else if d == '\\' {
                push_char(&mut out, '\\');
            } else if d == '"' {
                push_char(&mut out, '"');
            } else {
                push_char(&mut out, '\\');
                push_char(&mut out, d);
            }
            assert(v@.skip(i as int).skip(2) =~= v@.skip(i + 2));
            assert(out@ =~= before + unescape(d));
            proof {
                let tail = string_body(v@.skip(i + 2));
                match tail {
                    Ok(x) => assert(before + (unescape(d) + x) =~= out@ + x),
                    Err(_) => {},
                }
            }
            i = i + 2;
        } else {
            let ghost before = out@;
            push_char(&mut out, c);
            assert(v@.skip(i as int).drop_first() =~= v@.skip(i + 1));
            proof {
                match string_body(v@.skip(i + 1)) {
                    Ok(x) => assert(before + (seq![c] + x) =~= out@ + x),
                    Err(_) => {},
                }
            }
            i = i + 1;
        }
    }
    assert(v@.skip(i as int).len() == 0);
    Err(own("unterminated string"))
}

/// Appends a successful list result to `items`.
pub open spec fn prepend_items(items: Seq<Seq<char>>, r: Result<Seq<Seq<char>>, Seq<char>>) -> Result<
    Seq<Seq<char>>,
    Seq<char>,
> {
    match r {
        Ok(x) => Ok(items + x),
        Err(e) => Err(e),
    }
}

/// The items of an array body, split on commas outside quoted strings; each
/// non-empty trimmed piece is parsed as a string value.
pub open spec fn array_items(s: Seq<char>, cur: Seq<char>, in_string: bool, escaped: bool) -> Result<
    Seq<Seq<char>>,
    Seq<char>,
>
    decreases s.len(),
{
    if s.len() == 0 {
        let t = trim(cur);
        if t.len() == 0 {
            Ok(seq![])
        } else {
            match string_value(t) {
                Ok(x) => Ok(seq![x]),
                Err(e) => Err(e),
            }
        }
    } else {
        let c = s[0];
        let rest = s.drop_first();
        if escaped {
            array_items(rest, cur.push(c), in_string, false)
        } else if c == '\\' && in_string {
            array_items(rest, cur.push(c), in_string, true)
        } else if c == '"' {
            array_items(rest, cur.push(c), !in_string, false)
        } else if c == ',' && !in_string {
            let t = trim(cur);
            if t.len() == 0 {
                array_items(rest, seq![], in_string, false)
            } else {
                match string_value(t) {
                    Ok(x) => prepend_items(seq![x], array_items(rest, seq![], in_string, false)),
                    Err(e) => Err(e),
                }
            }
        } else {
            array_items(rest, cur.push(c), in_string, false)
        }
    }
}

/// An inline TOML array of strings: `["a", "b"]`.
pub open spec fn string_array(value: Seq<char>) -> Result<Seq<Seq<char>>, Seq<char>> {
    let v = trim(value);
    if !(starts_with(v, "["@) && ends_with(v, "]"@)) {
        Err("expected array [...], got: "@ + v)
    } else {
        let inner = trim(v.subrange(1, v.len() - 1));
        if inner.len() == 0 {
            Ok(seq![])
        } else {
            array_items(inner, seq![], false, false)
        }
    }
}

/// Parse an inline TOML array of strings: `["a", "b", "c"]`.
fn parse_string_array_chars(value: &Vec<char>) -> (r: Result<Vec<String>, String>)
    ensures
        match (r, string_array(value@)) {
            (Ok(a), Ok(b)) => strs(a@) == b,
            (Err(a), Err(b)) => a@ == b,
            _ => false,
        },
{
    proof {
        reveal_strlit("[");
        reveal_strlit("]");
    }
    let v = trim_chars(value);
    if !(v.len() > 0 && v[0] == '[' && v[v.len() - 1] == ']') {
        proof {
            if starts_with(v@, "["@) && ends_with(v@, "]"@) {
                assert(v@.take(1)[0] == '[');
                assert(v@.skip(v@.len() - 1)[0] == ']');
            }
        }
        let mut e = own("expected array [...], got: ");
        push_seq(&mut e, &v);
        return Err(e);
    }
    assert(v@.take(1) =~= "["@);
    assert(v@.skip(v@.len() - 1) =~= "]"@);
    if v.len() < 2 {
        assert(v@[0] == '[' && v@[v@.len() - 1] == ']');
        assert(false);
        return Err(String::new());
    }
    let mid = slice_chars(&v, 1, v.len() - 1);
    let inner = trim_chars(&mid);
    assert(mid@ =~= v@.subrange(1, v@.len() - 1));
    if inner.len() == 0 {
        let r: Vec<String> = Vec::new();
        assert(strs(r@) =~= Seq::<Seq<char>>::empty());
        return Ok(r);
    }
    let mut items: Vec<String> = Vec::new();
    let mut cur: Vec<char> = Vec::new();
    let mut in_string = false;
    let mut escaped = false;
    let mut i: usize = 0;
    assert(inner@.skip(0) =~= inner@);
    assert(strs(items@) =~= Seq::<Seq<char>>::empty());
    while i < inner.len()
        invariant
            i <= inner.len(),
            string_array(value@) == array_items(inner@, seq![], false, false),
            array_items(inner@, seq![], false, false) == prepend_items(
                strs(items@),
                array_items(inner@.skip(i as int), cur@, in_string, escaped),
            ),
        decreases inner.len() - i,
    {
        let c = inner[i];
        assert(inner@.skip(i as int).drop_first() =~= inner@.skip(i + 1));
        assert(inner@.skip(i as int)[0] == c);
        if escaped {
            cur.push(c);
            escaped = false;
        } else if c == '\\' && in_string {
            cur.push(c);
            escaped = true;
        } else if c == '"' {
            in_string = !in_string;
            cur.push(c);
        } else if c == ',' && !in_string {
            let t = trim_chars(&cur);
            if t.len() > 0 {
                match parse_string_value(&t) {
                    Ok(x) => {
                        let ghost before = strs(items@);
                        items.push(x);
                        proof {
                            assert(strs(items@) =~= before.push(x@));
                            match array_items(inner@.skip(i + 1), seq![], in_string, false) {
                                Ok(y) => assert(before + (seq![x@] + y) =~= strs(items@) + y),
                                Err(_) => {},
                            }
                        }
                    },
                    Err(e) => {
                        return Err(e);
                    },
                }
            }
            cur = Vec::new();
        } else {
            cur.push(c);
        }
        i = i + 1;
    }
    let t = trim_chars(&cur);
    if t.len() == 0 {
        assert(strs(items@) + Seq::<Seq<char>>::empty() =~= strs(items@));
        return Ok(items);
    }
    match parse_string_value(&t) {
        Ok(x) => {
            let ghost before = strs(items@);
            items.push(x);
            assert(strs(items@) =~= before + seq![x@]);
            Ok(items)
        },
        Err(e) => Err(e),
    }
}

// ----------------------------------------------------------------------
// Sections and the whole file
// ----------------------------------------------------------------------

/// The section that keys belong to.
#[derive(Debug, Clone, Copy, PartialEq, Eq, Structural)]
pub enum Section {
    Project,
    Defaults,
}

/// An error message for 1-based line `n`.
pub open spec fn line_error(n: nat, msg: Seq<char>) -> Seq<char> {
    "line "@ + decimal(n) + ": "@ + msg
}

/// The name of a section as written in its header.
pub open spec fn section_name(sec: Section) -> Seq<char> {
    match sec {
        Section::Project => "project"@,
        Section::Defaults => "defaults"@,
    }
}

/// A line's effect given the parser state, or the error it raises.
pub type StepResult = Result<(CfgView, Option<Section>), Seq<char>>;

/// Store value `v` under key `k` of section `sec` in `cfg`.
pub open spec fn assign(n: nat, sec: Section, k: Seq<char>, v: Seq<char>, cfg: CfgView) -> StepResult {
    let s = Some(sec);
    if sec == Section::Project && k == "name"@ {
        match string_value(v) {
            Ok(x) => Ok(((x, cfg.1, cfg.2, cfg.3, cfg.4, cfg.5), s)),
            Err(e) => Err(line_error(n, e)),
        }
    } else if sec == Section::Project && k == "model_root"@ {
        match string_value(v) {
            Ok(x) => Ok(((cfg.0, x, cfg.2, cfg.3, cfg.4, cfg.5), s)),
            Err(e) => Err(line_error(n, e)),
        }
    } else if sec == Section::Project && k == "library_paths"@ {
        match string_array(v) {
            Ok(x) => Ok(((cfg.0, cfg.1, x, cfg.3, cfg.4, cfg.5), s)),
            Err(e) => Err(line_error(n, e)),
        }
    } else if sec == Section::Defaults && k == "author"@ {
        match string_value(v) {
            Ok(x) => Ok(((cfg.0, cfg.1, cfg.2, x, cfg.4, cfg.5), s)),
            Err(e) => Err(line_error(n, e)),
        }
    } else if sec == Section::Defaults && k == "output_dir"@ {
        match string_value(v) {
            Ok(x) => Ok(((cfg.0, cfg.1, cfg.2, cfg.3, x, cfg.5), s)),
            Err(e) => Err(line_error(n, e)),
        }
    } else if sec == Section::Defaults && k == "format"@ {
        match string_value(v) {
            Ok(x) => Ok(((cfg.0, cfg.1, cfg.2, cfg.3, cfg.4, x), s)),
            Err(e) => Err(line_error(n, e)),
        }
    } else {
        Err(line_error(n, "unknown key `"@ + k + "` in ["@ + section_name(sec) + "]"@))
    }
}

/// The effect of raw line number `n` (1-based).
pub open spec fn step(raw: Seq<char>, n: nat, cfg: CfgView, sec: Option<Section>) -> StepResult {
    let l = trim(uncommented(raw, false, false));
    if l.len() == 0 {
        Ok((cfg, sec))
    } else if starts_with(l, "["@) {
        if !ends_with(l, "]"@) {
            Err(line_error(n, "unclosed section header"@))
        } else {
            let name = trim(l.subrange(1, l.len() - 1));
            if name == "project"@ {
                Ok((cfg, Some(Section::Project)))
            } else if name == "defaults"@ {
                Ok((cfg, Some(Section::Defaults)))
            } else {
                Err(line_error(n, "unknown section ["@ + name + "]"@))
            }
        }
    } else {
        match key_value(l) {
            None => Err(line_error(n, "expected `key = value`"@)),
            Some((k, v)) => match sec {
                None => Err(line_error(n, "key `"@ + k + "` appears before any section header"@)),
                Some(sc) => assign(n, sc, k, v, cfg),
            },
        }
    }
}

/// The configuration that lines `i..` produce from state (`cfg`, `sec`).
pub open spec fn parse_lines(ls: Seq<Seq<char>>, i: int, cfg: CfgView, sec: Option<Section>) -> Result<
    CfgView,
    Seq<char>,
>
    decreases ls.len() - i,
{
    if i < 0 || i >= ls.len() {
        Ok(cfg)
    } else {
        match step(ls[i], (i + 1) as nat, cfg, sec) {
            Ok((c2, s2)) => parse_lines(ls, i + 1, c2, s2),
            Err(e) => Err(e),
        }
    }
}

/// The configuration a TOML text describes, or the parse error message.
pub open spec fn parse_config(s: Seq<char>) -> Result<CfgView, Seq<char>> {
    parse_lines(lines(s), 0, default_cfg(), None)
}

/// The message `line {n}: {msg}`.
fn line_error_exec(n: usize, msg: &str) -> (r: String)
    ensures
        r@ == line_error(n as nat, msg@),
{
    let mut s = own("line ");
    let d = usize_to_decimal(n);
    push_str(&mut s, d.as_str());
    push_str(&mut s, ": ");
    push_str(&mut s, msg);
    s
}

/// Applies one line to the parser state.
fn apply_line(raw: &Vec<char>, n: usize, config: &mut ProjectConfig, sec: &mut Option<Section>) -> (r: Result<(), String>)
    ensures
        match (r, step(raw@, n as nat, cfg_view(*old(config)), *old(sec))) {
            (Ok(()), Ok((c, s))) => cfg_view(*final(config)) == c && *final(sec) == s,
            (Err(a), Err(b)) => a@ == b,
            _ => false,
        },
{
    proof {
        reveal_strlit("[");
        reveal_strlit("]");
    }
    let stripped = strip_comment_chars(raw);
    let line = trim_chars(&stripped);
    if line.len() == 0 {
        return Ok(());
    }
    if line[0] == '[' {
        assert(line@.take(1) =~= "["@);
        if line[line.len() - 1] != ']' {
            proof {
                if ends_with(line@, "]"@) {
                    assert(line@.skip(line@.len() - 1)[0] == ']');
                }
            }
            return Err(line_error_exec(n, "unclosed section header"));
        }
        assert(line@.skip(line@.len() - 1) =~= "]"@);
        if line.len() < 2 {
            assert(line@[0] == '[');
            return Err(String::new());
        }
        let mid = slice_chars(&line, 1, line.len() - 1);
        let name = trim_chars(&mid);
        let ns = string_of(&name);
        if str_eq(ns.as_str(), "project") {
            *sec = Some(Section::Project);
            return Ok(());
        } else if str_eq(ns.as_str(), "defaults") {
            *sec = Some(Section::Defaults);
            return Ok(());
        } else {
            let mut m = own("unknown section [");
            push_str(&mut m, ns.as_str());
            push_str(&mut m, "]");
            return Err(line_error_exec(n, m.as_str()));
        }
    }
    proof {
        if starts_with(line@, "["@) {
            assert(line@.take(1)[0] == '[');
        }
    }
    let kv = parse_key_value(&line);
    match kv {
        None => Err(line_error_exec(n, "expected `key = value`")),
        Some((k, v)) => {
            let ks = string_of(&k);
            match *sec {
                None => {
                    let mut m = own("key `");
                    push_str(&mut m, ks.as_str());
                    push_str(&mut m, "` appears before any section header");
                    Err(line_error_exec(n, m.as_str()))
                },
                Some(sc) => assign_exec(n, sc, ks.as_str(), &v, config),
            }
        },
    }
}

/// Stores a value in the configuration.
fn assign_exec(n: usize, sc: Section, k: &str, v: &Vec<char>, config: &mut ProjectConfig) -> (r: Result<(), String>)
    ensures
        match (r, assign(n as nat, sc, k@, v@, cfg_view(*old(config)))) {
            (Ok(()), Ok((c, _))) => cfg_view(*final(config)) == c,
            (Err(a), Err(b)) => a@ == b,
            _ => false,
        },
{
    if sc == Section::Project && str_eq(k, "name") {
        match parse_string_value(v) {
            Ok(x) => {
                config.project.name = x;
                Ok(())
            },
            Err(e) => Err(line_error_exec(n, e.as_str())),
        }
    } else if sc == Section::Project && str_eq(k, "model_root") {
        match parse_string_value(v) {
            Ok(x) => {
                config.project.model_root = x;
                Ok(())
            },
            Err(e) => Err(line_error_exec(n, e.as_str())),
        }
    } else if sc == Section::Project && str_eq(k, "library_paths") {
        match parse_string_array_chars(v) {
            Ok(x) => {
                config.project.library_paths = x;
                Ok(())
            },
            Err(e) => Err(line_error_exec(n, e.as_str())),
        }
    } else if sc == Section::Defaults && str_eq(k, "author") {
        match parse_string_value(v) {
            Ok(x) => {
                config.defaults.author = x;
                Ok(())
            },
            Err(e) => Err(line_error_exec(n, e.as_str())),
        }
    } else if sc == Section::Defaults && str_eq(k, "output_dir") {
        match parse_string_value(v) {
            Ok(x) => {
                config.defaults.output_dir = x;
                Ok(())
            },
            Err(e) => Err(line_error_exec(n, e.as_str())),
        }
    } else if sc == Section::Defaults && str_eq(k, "format") {
        match parse_string_value(v) {
            Ok(x) => {
                config.defaults.format = x;
                Ok(())
            },
            Err(e) => Err(line_error_exec(n, e.as_str())),
        }
    } else {
        let mut m = own("unknown key `");
        push_str(&mut m, k);
        push_str(&mut m, "` in [");
        match sc {
            Section::Project => push_str(&mut m, "project"),
            Section::Defaults => push_str(&mut m, "defaults"),
        }
        push_str(&mut m, "]");
        Err(line_error_exec(n, m.as_str()))
    }
}

/// Parse the limited TOML configuration format.
pub fn parse_toml_config(input: &str) -> (r: Result<ProjectConfig, ConfigError>)
    ensures
        match (r, parse_config(input@)) {
            (Ok(c), Ok(v)) => cfg_view(c) == v,
            (Err(ConfigError::Parse(m)), Err(e)) => m@ == e,
            _ => false,
        },
{
    let cs = chars_of(input);
    let ls = lines_exec(&cs);
    let mut config = ProjectConfig::default();
    let mut sec: Option<Section> = None;
    let mut i: usize = 0;
    while i < ls.len()
        invariant
            i <= ls@.len(),
            ls@.len() == lines(cs@).len(),
            cs@ == input@,
            forall|k: int| 0 <= k < ls@.len() ==> (#[trigger] ls@[k])@ == lines(cs@)[k],
            parse_config(input@) == parse_lines(lines(cs@), i as int, cfg_view(config), sec),
        decreases ls@.len() - i,
    {
        let r = apply_line(&ls[i], i + 1, &mut config, &mut sec);
        match r {
            Ok(()) => {},
            Err(e) => {
                return Err(ConfigError::Parse(e));
            },
        }
        i = i + 1;
    }
    Ok(config)
}

impl ProjectConfig {
    /// Parse a configuration from TOML text.
    pub fn from_toml_str(input: &str) -> (r: Result<Self, ConfigError>)
        ensures
            match (r, parse_config(input@)) {
                (Ok(c), Ok(v)) => cfg_view(c) == v,
                (Err(ConfigError::Parse(m)), Err(e)) => m@ == e,
                _ => false,
            },
    {
        parse_toml_config(input)
    }
}

// ----------------------------------------------------------------------
// Serialization
// ----------------------------------------------------------------------

/// A character as it appears inside a TOML basic string.
pub open spec fn escape_char(c: char) -> Seq<char> {
    if c == '\\' {
        seq!['\\', '\\']
    } else if c == '"' {
        seq!['\\', '"']
    } else {
        seq![c]
    }
}

/// The escaped body of a TOML basic string.
pub open spec fn escaped(s: Seq<char>) -> Seq<char>
    decreases s.len(),
{
    if s.len() == 0 {
        seq![]
    } else {
        escaped(s.drop_last()) + escape_char(s.last())
    }
}

/// A TOML-quoted string value.
pub open spec fn quoted(s: Seq<char>) -> Seq<char> {
    seq!['"'] + escaped(s) + seq!['"']
}

/// Produce a TOML-quoted string value.
pub fn quote_toml_string(s: &str) -> (r: String)
    ensures
        r@ == quoted(s@),
{
    let cs = chars_of(s);
    let mut out = String::new();
    push_char(&mut out, '"');
    let mut i: usize = 0;
    while i < cs.len()
        invariant
            i <= cs.len(),
            out@ == seq!['"'] + escaped(cs@.take(i as int)),
        decreases cs.len() - i,
    {
        let c = cs[i];
        if c == '\\' {
            push_char(&mut out, '\\');
            push_char(&mut out, '\\');
        } else if c == '"' {
            push_char(&mut out, '\\');
            push_char(&mut out, '"');
        } else {
            push_char(&mut out, c);
        }
        assert(cs@.take(i + 1).drop_last() =~= cs@.take(i as int));
        assert(out@ =~= seq!['"'] + escaped(cs@.take(i + 1)));
        i = i + 1;
    }
    assert(cs@.take(cs.len() as int) =~= cs@);
    push_char(&mut out, '"');
    assert(out@ =~= quoted(s@));
    out
}

/// Quoted items joined by `, `.
pub open spec fn quoted_list(items: Seq<Seq<char>>) -> Seq<char>
    decreases items.len(),
{
    if items.len() == 0 {
        seq![]
    } else if items.len() == 1 {
        quoted(items[0])
    } else {
        quoted_list(items.drop_last()) + ", "@ + quoted(items.last())
    }
}

/// The TOML text of a configuration.
pub open spec fn toml_text(c: CfgView) -> Seq<char> {
    "[project]\n"@ + "name"@ + " = "@ + quoted(c.0) + "\n"@ + "model_root"@ + " = "@ + quoted(c.1)
        + "\n"@ + "library_paths = ["@ + quoted_list(c.2) + "]\n"@ + "\n"@ + "[defaults]\n"@
        + "author"@ + " = "@ + quoted(c.3) + "\n"@ + "output_dir"@ + " = "@ + quoted(c.4) + "\n"@
        + "format"@ + " = "@ + quoted(c.5) + "\n"@
}

/// Appends `key = "value"` and a newline.
fn push_kv(out: &mut String, key: &str, value: &str)
    ensures
        final(out)@ == old(out)@ + key@ + " = "@ + quoted(value@) + "\n"@,
{
    push_str(out, key);
    push_str(out, " = ");
    let q = quote_toml_string(value);
    push_str(out, q.as_str());
    push_str(out, "\n");
}

/// Quoted items joined by `, `.
fn quoted_list_exec(libs: &Vec<String>) -> (r: String)
    ensures
        r@ == quoted_list(strs(libs@)),
{
    let mut out = String::new();
    let mut i: usize = 0;
    while i < libs.len()
        invariant
            i <= libs@.len(),
            out@ == quoted_list(strs(libs@).take(i as int)),
        decreases libs@.len() - i,
    {
        if i > 0 {
            push_str(&mut out, ", ");
        }
        let q = quote_toml_string(libs[i].as_str());
        push_str(&mut out, q.as_str());
        assert(strs(libs@).take(i + 1).drop_last() =~= strs(libs@).take(i as int));
        i = i + 1;
    }
    assert(strs(libs@).take(i as int) =~= strs(libs@));
    out
}

impl ProjectConfig {
    /// Serialize the configuration back to TOML text.
    pub fn to_toml_string(&self) -> (r: String)
        ensures
            r@ == toml_text(cfg_view(*self)),
    {
        let mut out = own("[project]\n");
        push_kv(&mut out, "name", self.project.name.as_str());
        push_kv(&mut out, "model_root", self.project.model_root.as_str());
        push_str(&mut out, "library_paths = [");
        let list = quoted_list_exec(&self.project.library_paths);
        push_str(&mut out, list.as_str());
        push_str(&mut out, "]\n");
        push_str(&mut out, "\n");
        push_str(&mut out, "[defaults]\n");
        push_kv(&mut out, "author", self.defaults.author.as_str());
        push_kv(&mut out, "output_dir", self.defaults.output_dir.as_str());
        push_kv(&mut out, "format", self.defaults.format.as_str());
        assert(out@ =~= toml_text(cfg_view(*self)));
        out
    }
}

/// Strip a trailing `# comment` from a line, respecting quoted strings.
pub fn strip_comment(line: &str) -> (r: String)
    ensures
        r@ == uncommented(line@, false, false),
{
    let cs = chars_of(line);
    let r = strip_comment_chars(&cs);
    string_of(&r)
}

/// Parse an inline TOML array of strings: `["a", "b", "c"]`.
pub fn parse_string_array(value: &str) -> (r: Result<Vec<String>, String>)
    ensures
        match (r, string_array(value@)) {
            (Ok(a), Ok(b)) => strs(a@) == b,
            (Err(a), Err(b)) => a@ == b,
            _ => false,
        },
{
    let cs = chars_of(value);
    parse_string_array_chars(&cs)
}


// ----------------------------------------------------------------------
// Reading back what was written
// ----------------------------------------------------------------------

/// Escaping works character by character from the front as well.
proof fn lemma_escaped_cons(c: char, s: Seq<char>)
    ensures
        escaped(seq![c] + s) == escape_char(c) + escaped(s),
    decreases s.len(),
{
    if s.len() == 0 {
        assert(seq![c] + s =~= seq![c]);
        assert(seq![c].drop_last() =~= Seq::<char>::empty());
        assert(escaped(Seq::<char>::empty()) =~= Seq::<char>::empty());
        assert(escaped(seq![c]) =~= escaped(seq![c].drop_last()) + escape_char(c));
        assert(escaped(seq![c]) =~= escape_char(c));
    } else {
        let t = seq![c] + s;
        assert(t.drop_last() =~= seq![c] + s.drop_last());
        lemma_escaped_cons(c, s.drop_last());
        assert(escaped(s) == escaped(s.drop_last()) + escape_char(s.last()));
        assert(escaped(t) =~= escape_char(c) + escaped(s));
    }
}

/// An escaped body followed by the closing quote reads back as the original text.
proof fn lemma_string_body_escaped(x: Seq<char>, r: Seq<char>)
    ensures
        string_body(escaped(x) + seq!['"'] + r) == Ok::<Seq<char>, Seq<char>>(x),
    decreases x.len(),
{
    let s = escaped(x) + seq!['"'] + r;
    if x.len() == 0 {
        assert(escaped(x) =~= Seq::<char>::empty());
        assert(s[0] == '"');
        assert(x =~= Seq::<char>::empty());
    } else {
        let c = x[0];
        let y = x.drop_first();
        assert(x =~= seq![c] + y);
        lemma_escaped_cons(c, y);
        lemma_string_body_escaped(y, r);
        let tail = escaped(y) + seq!['"'] + r;
        if c == '\\' || c == '"' {
            assert(s =~= seq!['\\', c] + tail);
            assert(s.skip(2) =~= tail);
            assert(unescape(c) =~= seq![c]);
        } else {
            assert(s =~= seq![c] + tail);
            assert(s.drop_first() =~= tail);
        }
        assert(seq![c] + y =~= x);
    }
}

/// A quoted string is read back as its original text.
proof fn lemma_string_value_quoted(x: Seq<char>)
    ensures
        string_value(quoted(x)) == Ok::<Seq<char>, Seq<char>>(x),
        trim(quoted(x)) == quoted(x),
{
    let q = quoted(x);
    lemma_trim_fixed(q);
    lemma_string_body_escaped(x, seq![]);
    assert(q.skip(1) =~= escaped(x) + seq!['"'] + Seq::<char>::empty());
    assert(q.take(1) =~= "\""@) by {
        reveal_strlit("\"");
    }
}

/// Text that starts and ends with non-whitespace is its own trim.
proof fn lemma_trim_fixed(s: Seq<char>)
    requires
        s.len() > 0,
        !is_ws(s[0]),
        !is_ws(s.last()),
    ensures
        trim(s) == s,
{
    assert(trim_start(s) == s);
    assert(trim_end(s) == s);
}

/// No character of `p` is a quote, a backslash or a `#`.
pub open spec fn plain(p: Seq<char>) -> bool {
    forall|i: int| 0 <= i < p.len() ==> p[i] != '"' && p[i] != '\\' && p[i] != '#'
}

/// Plain text outside strings passes the comment scan unchanged.
proof fn lemma_uncommented_plain(p: Seq<char>, r: Seq<char>)
    requires
        plain(p),
    ensures
        uncommented(p + r, false, false) == p + uncommented(r, false, false),
    decreases p.len(),
{
    if p.len() > 0 {
        let s = p + r;
        assert(s.drop_first() =~= p.drop_first() + r);
        lemma_uncommented_plain(p.drop_first(), r);
        assert(s[0] == p[0]);
        assert(p =~= seq![p[0]] + p.drop_first());
    } else {
        assert(p + r =~= r);
    }
}

/// An escaped body and its closing quote pass the comment scan unchanged.
proof fn lemma_uncommented_escaped(x: Seq<char>, r: Seq<char>)
    ensures
        uncommented(escaped(x) + seq!['"'] + r, true, false) == escaped(x) + seq!['"']
            + uncommented(r, false, false),
    decreases x.len(),
{
    let s = escaped(x) + seq!['"'] + r;
    if x.len() == 0 {
        assert(escaped(x) =~= Seq::<char>::empty());
        assert(s =~= seq!['"'] + r);
        assert(s.drop_first() =~= r);
        assert(escaped(x) + seq!['"'] + uncommented(r, false, false) =~= seq!['"'] + uncommented(r, false, false));
    } else {
        let c = x[0];
        let y = x.drop_first();
        assert(x =~= seq![c] + y);
        lemma_escaped_cons(c, y);
        lemma_uncommented_escaped(y, r);
        let tail = escaped(y) + seq!['"'] + r;
        let out_tail = escaped(y) + seq!['"'] + uncommented(r, false, false);
        if c == '\\' || c == '"' {
            assert(s =~= seq!['\\', c] + tail);
            assert(s.drop_first() =~= seq![c] + tail);
            assert((seq![c] + tail).drop_first() =~= tail);
            assert(uncommented(seq![c] + tail, true, true) == seq![c] + uncommented(tail, true, false));
            assert(escaped(x) + seq!['"'] + uncommented(r, false, false) =~= seq!['\\', c] + out_tail);
        } else {
            assert(s =~= seq![c] + tail);
            assert(s.drop_first() =~= tail);
            assert(escaped(x) + seq!['"'] + uncommented(r, false, false) =~= seq![c] + out_tail);
        }
    }
}

/// A quoted string passes the comment scan unchanged.
proof fn lemma_uncommented_quoted(x: Seq<char>, r: Seq<char>)
    ensures
        uncommented(quoted(x) + r, false, false) == quoted(x) + uncommented(r, false, false),
{
    let s = quoted(x) + r;
    assert(s.drop_first() =~= escaped(x) + seq!['"'] + r);
    lemma_uncommented_escaped(x, r);
    assert(quoted(x) + uncommented(r, false, false) =~= seq!['"'] + (escaped(x) + seq!['"']
        + uncommented(r, false, false)));
}

/// Quoted items after the first, each preceded by `, `.
pub open spec fn quoted_tail(xs: Seq<Seq<char>>) -> Seq<char>
    decreases xs.len(),
{
    if xs.len() == 0 {
        seq![]
    } else {
        seq![',', ' '] + quoted(xs[0]) + quoted_tail(xs.drop_first())
    }
}

proof fn lemma_quoted_tail_push(ys: Seq<Seq<char>>, y: Seq<char>)
    ensures
        quoted_tail(ys.push(y)) == quoted_tail(ys) + seq![',', ' '] + quoted(y),
    decreases ys.len(),
{
    if ys.len() == 0 {
        assert(ys.push(y).drop_first() =~= Seq::<Seq<char>>::empty());
        assert(quoted_tail(Seq::<Seq<char>>::empty()) =~= Seq::<char>::empty());
        assert(quoted_tail(ys.push(y)) =~= quoted_tail(ys) + seq![',', ' '] + quoted(y));
    } else {
        assert(ys.push(y).drop_first() =~= ys.drop_first().push(y));
        lemma_quoted_tail_push(ys.drop_first(), y);
        assert(quoted_tail(ys.push(y)) =~= quoted_tail(ys) + seq![',', ' '] + quoted(y));
    }
}

/// The list written from the front: the first item, then the rest.
proof fn lemma_quoted_list_front(xs: Seq<Seq<char>>)
    requires
        xs.len() >= 1,
    ensures
        quoted_list(xs) == quoted(xs[0]) + quoted_tail(xs.drop_first()),
    decreases xs.len(),
{
    reveal_strlit(", ");
    if xs.len() == 1 {
        assert(xs.drop_first() =~= Seq::<Seq<char>>::empty());
        assert(quoted(xs[0]) + quoted_tail(xs.drop_first()) =~= quoted(xs[0]));
    } else {
        let init = xs.drop_last();
        lemma_quoted_list_front(init);
        assert(xs.drop_first() =~= init.drop_first().push(xs.last()));
        lemma_quoted_tail_push(init.drop_first(), xs.last());
        assert(", "@ =~= seq![',', ' ']);
        assert(quoted_list(xs) =~= quoted(xs[0]) + quoted_tail(xs.drop_first()));
    }
}

proof fn lemma_uncommented_tail(ys: Seq<Seq<char>>, r: Seq<char>)
    ensures
        uncommented(quoted_tail(ys) + r, false, false) == quoted_tail(ys) + uncommented(r, false, false),
    decreases ys.len(),
{
    if ys.len() == 0 {
        assert(quoted_tail(ys) + r =~= r);
        assert(quoted_tail(ys) + uncommented(r, false, false) =~= uncommented(r, false, false));
    } else {
        let rest = quoted_tail(ys.drop_first()) + r;
        lemma_uncommented_tail(ys.drop_first(), r);
        lemma_uncommented_quoted(ys[0], rest);
        lemma_uncommented_plain(seq![',', ' '], quoted(ys[0]) + rest);
        assert(quoted_tail(ys) + r =~= seq![',', ' '] + (quoted(ys[0]) + rest));
        assert(quoted_tail(ys) + uncommented(r, false, false) =~= seq![',', ' '] + (quoted(ys[0])
            + (quoted_tail(ys.drop_first()) + uncommented(r, false, false))));
    }
}

/// A list of quoted items passes the comment scan unchanged.
proof fn lemma_uncommented_list(xs: Seq<Seq<char>>, r: Seq<char>)
    ensures
        uncommented(quoted_list(xs) + r, false, false) == quoted_list(xs) + uncommented(r, false, false),
{
    if xs.len() == 0 {
        assert(quoted_list(xs) + r =~= r);
        assert(quoted_list(xs) + uncommented(r, false, false) =~= uncommented(r, false, false));
    } else {
        lemma_quoted_list_front(xs);
        let rest = quoted_tail(xs.drop_first()) + r;
        lemma_uncommented_tail(xs.drop_first(), r);
        lemma_uncommented_quoted(xs[0], rest);
        assert(quoted_list(xs) + r =~= quoted(xs[0]) + rest);
        assert(quoted_list(xs) + uncommented(r, false, false) =~= quoted(xs[0]) + (quoted_tail(
            xs.drop_first(),
        ) + uncommented(r, false, false)));
    }
}

proof fn lemma_array_escaped(x: Seq<char>, r: Seq<char>, cur: Seq<char>)
    ensures
        array_items(escaped(x) + seq!['"'] + r, cur, true, false) == array_items(
            r,
            cur + escaped(x) + seq!['"'],
            false,
            false,
        ),
    decreases x.len(),
{
    let s = escaped(x) + seq!['"'] + r;
    if x.len() == 0 {
        assert(escaped(x) =~= Seq::<char>::empty());
        assert(s =~= seq!['"'] + r);
        assert(s.drop_first() =~= r);
        assert(cur + escaped(x) + seq!['"'] =~= cur.push('"'));
    } else {
        let c = x[0];
        let y = x.drop_first();
        assert(x =~= seq![c] + y);
        lemma_escaped_cons(c, y);
        let tail = escaped(y) + seq!['"'] + r;
        if c == '\\' || c == '"' {
            assert(s =~= seq!['\\', c] + tail);
            assert(s.drop_first() =~= seq![c] + tail);
            assert((seq![c] + tail).drop_first() =~= tail);
            assert(array_items(seq![c] + tail, cur.push('\\'), true, true) == array_items(
                tail,
                cur.push('\\').push(c),
                true,
                false,
            ));
            lemma_array_escaped(y, r, cur.push('\\').push(c));
            assert(cur.push('\\').push(c) + escaped(y) + seq!['"'] =~= cur + escaped(x) + seq!['"']);
        } else {
            assert(s =~= seq![c] + tail);
            assert(s.drop_first() =~= tail);
            lemma_array_escaped(y, r, cur.push(c));
            assert(cur.push(c) + escaped(y) + seq!['"'] =~= cur + escaped(x) + seq!['"']);
        }
    }
}

proof fn lemma_array_quoted(x: Seq<char>, r: Seq<char>, cur: Seq<char>)
    ensures
        array_items(quoted(x) + r, cur, false, false) == array_items(r, cur + quoted(x), false, false),
{
    let s = quoted(x) + r;
    assert(s.drop_first() =~= escaped(x) + seq!['"'] + r);
    lemma_array_escaped(x, r, cur.push('"'));
    assert(cur.push('"') + escaped(x) + seq!['"'] =~= cur + quoted(x));
}

/// A space before a non-blank text is trimmed away.
proof fn lemma_trim_space(q: Seq<char>)
    requires
        q.len() > 0,
        !is_ws(q[0]),
        !is_ws(q.last()),
    ensures
        trim(seq![' '] + q) == q,
{
    let s = seq![' '] + q;
    assert(is_ws(' '));
    assert(s.drop_first() =~= q);
    assert(trim_start(q) == q);
    assert(trim_start(s) == q);
    assert(trim_end(q) == q);
}

proof fn lemma_array_tail(ys: Seq<Seq<char>>, cur: Seq<char>, y: Seq<char>)
    requires
        trim(cur).len() > 0,
        string_value(trim(cur)) == Ok::<Seq<char>, Seq<char>>(y),
    ensures
        array_items(quoted_tail(ys), cur, false, false) == Ok::<Seq<Seq<char>>, Seq<char>>(
            seq![y] + ys,
        ),
    decreases ys.len(),
{
    if ys.len() == 0 {
        assert(quoted_tail(ys).len() == 0);
        assert(seq![y] + ys =~= seq![y]);
    } else {
        let x = ys[0];
        let rest = ys.drop_first();
        let s = quoted_tail(ys);
        assert(s =~= seq![',', ' '] + (quoted(x) + quoted_tail(rest)));
        assert(s.drop_first() =~= seq![' '] + (quoted(x) + quoted_tail(rest)));
        assert((seq![' '] + (quoted(x) + quoted_tail(rest))).drop_first() =~= quoted(x) + quoted_tail(rest));
        assert(Seq::<char>::empty().push(' ') =~= seq![' ']);
        lemma_array_quoted(x, quoted_tail(rest), seq![' ']);
        lemma_trim_space(quoted(x));
        lemma_string_value_quoted(x);
        lemma_array_tail(rest, seq![' '] + quoted(x), x);
        assert(array_items(s.drop_first(), seq![], false, false) == Ok::<Seq<Seq<char>>, Seq<char>>(
            seq![x] + rest,
        ));
        assert(seq![y] + (seq![x] + rest) =~= seq![y] + ys);
    }
}

/// The items of a written list read back as the list.
proof fn lemma_array_list(xs: Seq<Seq<char>>)
    requires
        xs.len() >= 1,
    ensures
        array_items(quoted_list(xs), seq![], false, false) == Ok::<Seq<Seq<char>>, Seq<char>>(xs),
{
    lemma_quoted_list_front(xs);
    lemma_array_quoted(xs[0], quoted_tail(xs.drop_first()), seq![]);
    assert(Seq::<char>::empty() + quoted(xs[0]) =~= quoted(xs[0]));
    lemma_string_value_quoted(xs[0]);
    lemma_array_tail(xs.drop_first(), quoted(xs[0]), xs[0]);
    assert(seq![xs[0]] + xs.drop_first() =~= xs);
}

/// A `key = value` line, with a plain key and a value the comment scan
/// keeps, assigns that value.
#[verifier::rlimit(40)]
proof fn lemma_key_line(k: Seq<char>, v: Seq<char>, n: nat, cfg: CfgView, sc: Section)
    requires
        plain(k),
        k.len() > 0,
        k[0] != '[',
        !is_ws(k[0]),
        !is_ws(k.last()),
        forall|i: int| 0 <= i < k.len() ==> k[i] != '=',
        uncommented(v, false, false) == v,
        v.len() > 0,
        !is_ws(v[0]),
        !is_ws(v.last()),
    ensures
        step(k + " = "@ + v, n, cfg, Some(sc)) == assign(n, sc, k, v, cfg),
{
    reveal_strlit(" = ");
    reveal_strlit("[");
    let eq = " = "@;
    let l = k + eq + v;
    assert(plain(k + eq));
    lemma_uncommented_plain(k + eq, v);
    assert(l == (k + eq) + v);
    lemma_trim_fixed(l);
    let u = trim(uncommented(l, false, false));
    assert(u == l);
    assert(!starts_with(l, "["@)) by {
        assert(l.take(1)[0] == k[0]);
    }
    let e: int = (k.len() + 1) as int;
    assert(l[e] == '=');
    assert(forall|j: int| 0 <= j < e ==> l[j] != '=');
    let i0 = index_of(l, '=');
    assert(i0 == Some(e)) by {
        let w = choose|i: int| 0 <= i < l.len() && l[i] == '=' && forall|j: int| 0 <= j < i ==> l[j] != '=';
        assert(0 <= e < l.len() && l[e] == '=' && forall|j: int| 0 <= j < e ==> l[j] != '=');
        assert(w == e);
    }
    assert(l.take(e) =~= k + seq![' ']);
    assert(trim_start(k + seq![' ']) == k + seq![' ']);
    assert((k + seq![' ']).drop_last() =~= k);
    assert(is_ws(' '));
    assert(trim_end(k) == k);
    assert(trim_end(k + seq![' ']) == k);
    assert(l.skip(e + 1) =~= seq![' '] + v);
    lemma_trim_space(v);
    assert(key_value(l) == Some((k, v)));
}

/// A section header line selects its section.
proof fn lemma_header_line(h: Seq<char>, name: Seq<char>, n: nat, cfg: CfgView, sec: Option<Section>)
    requires
        h == seq!['['] + name + seq![']'],
        plain(name),
        name.len() > 0,
        !is_ws(name[0]),
        !is_ws(name.last()),
    ensures
        step(h, n, cfg, sec) == (if name == "project"@ {
            Ok::<(CfgView, Option<Section>), Seq<char>>((cfg, Some(Section::Project)))
        } else if name == "defaults"@ {
            Ok((cfg, Some(Section::Defaults)))
        } else {
            Err(line_error(n, "unknown section ["@ + name + "]"@))
        }),
{
    reveal_strlit("[");
    reveal_strlit("]");
    assert(plain(h));
    lemma_uncommented_plain(h, seq![]);
    assert(h + Seq::<char>::empty() =~= h);
    assert(uncommented(Seq::<char>::empty(), false, false) =~= Seq::<char>::empty());
    lemma_trim_fixed(h);
    assert(h.take(1) =~= "["@);
    assert(h.skip(h.len() - 1) =~= "]"@);
    assert(h.subrange(1, h.len() - 1) =~= name);
    lemma_trim_fixed(name);
}

/// No newline in `s`.
pub open spec fn no_newline(s: Seq<char>) -> bool {
    forall|i: int| 0 <= i < s.len() ==> s[i] != '\n'
}

proof fn lemma_escaped_no_newline(x: Seq<char>)
    requires
        no_newline(x),
    ensures
        no_newline(escaped(x)),
    decreases x.len(),
{
    if x.len() > 0 {
        lemma_escaped_no_newline(x.drop_last());
    }
}

proof fn lemma_list_no_newline(xs: Seq<Seq<char>>)
    requires
        forall|i: int| 0 <= i < xs.len() ==> no_newline(#[trigger] xs[i]),
    ensures
        no_newline(quoted_list(xs)),
    decreases xs.len(),
{
    reveal_strlit(", ");
    if xs.len() > 0 {
        lemma_escaped_no_newline(xs.last());
        if xs.len() > 1 {
            lemma_list_no_newline(xs.drop_last());
        } else {
            lemma_escaped_no_newline(xs[0]);
        }
    }
}

/// Lines joined, each followed by a newline.
pub open spec fn joined(ls: Seq<Seq<char>>) -> Seq<char>
    decreases ls.len(),
{
    if ls.len() == 0 {
        seq![]
    } else {
        ls[0] + seq!['\n'] + joined(ls.drop_first())
    }
}

proof fn lemma_first_newline(s: Seq<char>, i: int, k: int)
    requires
        0 <= i <= k < s.len(),
        s[k] == '\n',
        forall|j: int| i <= j < k ==> s[j] != '\n',
    ensures
        first_occurrence(s, seq!['\n'], i) == Some(k),
    decreases k - i,
{
    if i == k {
        assert(s.subrange(i, i + 1) =~= seq!['\n']);
    } else {
        assert(s.subrange(i, i + 1)[0] == s[i]);
        assert(!occurs_at(s, seq!['\n'], i));
        lemma_first_newline(s, i + 1, k);
    }
}

proof fn lemma_split_joined(s: Seq<char>, i: int, ls: Seq<Seq<char>>)
    requires
        0 <= i <= s.len(),
        s.skip(i) == joined(ls),
        forall|j: int| 0 <= j < ls.len() ==> no_newline(#[trigger] ls[j]),
    ensures
        split_nl_from(s, i) == ls + seq![Seq::<char>::empty()],
    decreases ls.len(),
{
    if ls.len() == 0 {
        assert(s.skip(i).len() == 0);
        assert(first_occurrence(s, seq!['\n'], i) is None);
        assert(s.subrange(i, s.len() as int) =~= Seq::<char>::empty());
        assert(ls + seq![Seq::<char>::empty()] =~= seq![Seq::<char>::empty()]);
    } else {
        let l = ls[0];
        let k = i + l.len();
        assert(s.skip(i) =~= l + seq!['\n'] + joined(ls.drop_first()));
        assert(s[k] == s.skip(i)[l.len() as int]);
        assert forall|j: int| i <= j < k implies s[j] != '\n' by {
            assert(s[j] == s.skip(i)[j - i]);
            assert(s.skip(i)[j - i] == l[j - i]);
        }
        lemma_first_newline(s, i, k);
        assert(s.subrange(i, k) =~= l);
        let t = s.skip(i);
        assert(t.skip(l.len() as int + 1) =~= joined(ls.drop_first()));
        assert(s.skip(k + 1) =~= t.skip(l.len() as int + 1));
        assert forall|j: int| 0 <= j < ls.drop_first().len() implies no_newline(#[trigger] ls.drop_first()[j]) by {
            assert(ls.drop_first()[j] == ls[j + 1]);
        }
        lemma_split_joined(s, k + 1, ls.drop_first());
        assert(ls + seq![Seq::<char>::empty()] =~= seq![l] + (ls.drop_first() + seq![Seq::<char>::empty()]));
    }
}

/// Joined lines, none of them holding a newline or ending in a carriage
/// return, split back into the same lines.
pub(crate) proof fn lemma_lines_joined(ls: Seq<Seq<char>>)
    requires
        forall|j: int| 0 <= j < ls.len() ==> no_newline(#[trigger] ls[j]),
        forall|j: int| 0 <= j < ls.len() && ls[j].len() > 0 ==> (#[trigger] ls[j]).last() != '\r',
    ensures
        lines(joined(ls)) == ls,
{
    let s = joined(ls);
    assert(s.skip(0) =~= s);
    lemma_split_joined(s, 0, ls);
    let p = split_nl_from(s, 0);
    assert(p.len() == ls.len() + 1);
    assert(p.last().len() == 0);
    assert forall|i: int| 0 <= i < ls.len() implies #[trigger] lines(s)[i] == ls[i] by {
        assert(p[i] == ls[i]);
    }
    assert(lines(s) =~= ls);
}

/// The lines of the TOML text of a configuration.
pub open spec fn toml_lines(c: CfgView) -> Seq<Seq<char>> {
    seq![
        "[project]"@,
        "name"@ + " = "@ + quoted(c.0),
        "model_root"@ + " = "@ + quoted(c.1),
        "library_paths"@ + " = "@ + ("["@ + quoted_list(c.2) + "]"@),
        seq![],
        "[defaults]"@,
        "author"@ + " = "@ + quoted(c.3),
        "output_dir"@ + " = "@ + quoted(c.4),
        "format"@ + " = "@ + quoted(c.5),
    ]
}

/// No text of the configuration holds a newline.
pub open spec fn cfg_single_line(c: CfgView) -> bool {
    &&& no_newline(c.0)
    &&& no_newline(c.1)
    &&& forall|i: int| 0 <= i < c.2.len() ==> no_newline(#[trigger] c.2[i])
    &&& no_newline(c.3)
    &&& no_newline(c.4)
    &&& no_newline(c.5)
}

proof fn lemma_quoted_shape(x: Seq<char>)
    ensures
        quoted(x).len() >= 2,
        quoted(x)[0] == '"',
        quoted(x).last() == '"',
        uncommented(quoted(x), false, false) == quoted(x),
        no_newline(x) ==> no_newline(quoted(x)),
{
    lemma_uncommented_quoted(x, seq![]);
    assert(quoted(x) + Seq::<char>::empty() =~= quoted(x));
    assert(uncommented(Seq::<char>::empty(), false, false) =~= Seq::<char>::empty());
    if no_newline(x) {
        lemma_escaped_no_newline(x);
    }
}

/// The `library_paths` line reads back as the list it was written from.
proof fn lemma_library_line(xs: Seq<Seq<char>>, n: nat, cfg: CfgView)
    ensures
        step("library_paths"@ + " = "@ + ("["@ + quoted_list(xs) + "]"@), n, cfg, Some(Section::Project))
            == Ok::<(CfgView, Option<Section>), Seq<char>>(
            ((cfg.0, cfg.1, xs, cfg.3, cfg.4, cfg.5), Some(Section::Project)),
        ),
{
    reveal_strlit("library_paths");
    reveal_strlit("[");
    reveal_strlit("]");
    reveal_strlit("name");
    reveal_strlit("model_root");
    let ql = quoted_list(xs);
    let v = "["@ + ql + "]"@;
    lemma_uncommented_plain("]"@, seq![]);
    assert("]"@ + Seq::<char>::empty() =~= "]"@);
    assert(uncommented(Seq::<char>::empty(), false, false) =~= Seq::<char>::empty());
    lemma_uncommented_list(xs, "]"@);
    lemma_uncommented_plain("["@, ql + "]"@);
    assert(v =~= "["@ + (ql + "]"@));
    assert(uncommented(v, false, false) == v);
    lemma_key_line("library_paths"@, v, n, cfg, Section::Project);
    lemma_trim_fixed(v);
    assert(v.take(1) =~= "["@);
    assert(v.skip(v.len() - 1) =~= "]"@);
    assert(v.subrange(1, v.len() - 1) =~= ql);
    if xs.len() == 0 {
        assert(ql.len() == 0);
        assert(xs =~= Seq::<Seq<char>>::empty());
    } else {
        lemma_quoted_list_front(xs);
        lemma_quoted_shape(xs[0]);
        lemma_quoted_shape(xs.last());
        assert(ql[0] == '"');
        assert(ql.last() == '"');
        lemma_trim_fixed(ql);
        lemma_array_list(xs);
    }
}

/// A `key = "text"` line reads back as its text.
proof fn lemma_string_line(k: Seq<char>, x: Seq<char>, n: nat, cfg: CfgView, sc: Section)
    requires
        plain(k),
        k.len() > 0,
        k[0] != '[',
        !is_ws(k[0]),
        !is_ws(k.last()),
        forall|i: int| 0 <= i < k.len() ==> k[i] != '=',
    ensures
        step(k + " = "@ + quoted(x), n, cfg, Some(sc)) == assign(n, sc, k, quoted(x), cfg),
        string_value(quoted(x)) == Ok::<Seq<char>, Seq<char>>(x),
{
    lemma_quoted_shape(x);
    lemma_key_line(k, quoted(x), n, cfg, sc);
    lemma_string_value_quoted(x);
}

proof fn lemma_joined_push(ls: Seq<Seq<char>>, l: Seq<char>)
    ensures
        joined(ls.push(l)) == joined(ls) + l + seq!['\n'],
    decreases ls.len(),
{
    if ls.len() == 0 {
        assert(ls.push(l).drop_first() =~= Seq::<Seq<char>>::empty());
        assert(joined(Seq::<Seq<char>>::empty()) =~= Seq::<char>::empty());
        assert(joined(ls.push(l)) =~= joined(ls) + l + seq!['\n']);
    } else {
        assert(ls.push(l).drop_first() =~= ls.drop_first().push(l));
        lemma_joined_push(ls.drop_first(), l);
        assert(joined(ls.push(l)) =~= joined(ls) + l + seq!['\n']);
    }
}

proof fn lemma_joined_prefix(ls: Seq<Seq<char>>, k: int, prev: Seq<char>, next: Seq<char>)
    requires
        0 < k <= ls.len(),
        prev == joined(ls.take(k - 1)),
        next == prev + ls[k - 1] + seq!['\n'],
    ensures
        next == joined(ls.take(k)),
{
    assert(ls.take(k) =~= ls.take(k - 1).push(ls[k - 1]));
    lemma_joined_push(ls.take(k - 1), ls[k - 1]);
}

#[verifier::spinoff_prover]
proof fn lemma_text_joined(v: CfgView)
    ensures
        toml_text(v) == joined(toml_lines(v)),
{
    reveal_strlit("[project]\n");
    reveal_strlit("[project]");
    reveal_strlit("[defaults]\n");
    reveal_strlit("[defaults]");
    reveal_strlit("library_paths");
    reveal_strlit("library_paths = [");
    reveal_strlit(" = ");
    reveal_strlit("\n");
    reveal_strlit("]\n");
    reveal_strlit("[");
    reveal_strlit("]");
    let ls = toml_lines(v);
    let p0 = Seq::<char>::empty();
    assert(ls.take(0) =~= Seq::<Seq<char>>::empty());
    let p1 = "[project]\n"@;
    assert(p1 =~= p0 + ls[0] + seq!['\n']);
    lemma_joined_prefix(ls, 1, p0, p1);
    let p2 = p1 + "name"@ + " = "@ + quoted(v.0) + "\n"@;
    assert(p2 =~= p1 + ls[1] + seq!['\n']);
    lemma_joined_prefix(ls, 2, p1, p2);
    let p3 = p2 + "model_root"@ + " = "@ + quoted(v.1) + "\n"@;
    assert(p3 =~= p2 + ls[2] + seq!['\n']);
    lemma_joined_prefix(ls, 3, p2, p3);
    let p4 = p3 + "library_paths = ["@ + quoted_list(v.2) + "]\n"@;
    assert(p4 =~= p3 + ls[3] + seq!['\n']);
    lemma_joined_prefix(ls, 4, p3, p4);
    let p5 = p4 + "\n"@;
    assert(p5 =~= p4 + ls[4] + seq!['\n']);
    lemma_joined_prefix(ls, 5, p4, p5);
    let p6 = p5 + "[defaults]\n"@;
    assert(p6 =~= p5 + ls[5] + seq!['\n']);
    lemma_joined_prefix(ls, 6, p5, p6);
    let p7 = p6 + "author"@ + " = "@ + quoted(v.3) + "\n"@;
    assert(p7 =~= p6 + ls[6] + seq!['\n']);
    lemma_joined_prefix(ls, 7, p6, p7);
    let p8 = p7 + "output_dir"@ + " = "@ + quoted(v.4) + "\n"@;
    assert(p8 =~= p7 + ls[7] + seq!['\n']);
    lemma_joined_prefix(ls, 8, p7, p8);
    let p9 = p8 + "format"@ + " = "@ + quoted(v.5) + "\n"@;
    assert(p9 =~= p8 + ls[8] + seq!['\n']);
    lemma_joined_prefix(ls, 9, p8, p9);
    assert(ls.take(9) =~= ls);
}

proof fn lemma_text_lines(v: CfgView)
    requires
        cfg_single_line(v),
    ensures
        lines(toml_text(v)) == toml_lines(v),
{
    reveal_strlit("[project]");
    reveal_strlit("[defaults]");
    reveal_strlit("name");
    reveal_strlit("model_root");
    reveal_strlit("library_paths");
    reveal_strlit("author");
    reveal_strlit("output_dir");
    reveal_strlit("format");
    reveal_strlit(" = ");
    reveal_strlit("[");
    reveal_strlit("]");
    let ls = toml_lines(v);
    lemma_text_joined(v);
    lemma_quoted_shape(v.0);
    lemma_quoted_shape(v.1);
    lemma_quoted_shape(v.3);
    lemma_quoted_shape(v.4);
    lemma_quoted_shape(v.5);
    lemma_list_no_newline(v.2);
    assert forall|j: int| 0 <= j < ls.len() implies no_newline(#[trigger] ls[j]) by {
        if j == 3 {
            assert(no_newline(quoted_list(v.2)));
        }
    }
    assert forall|j: int| 0 <= j < ls.len() && ls[j].len() > 0 implies (#[trigger] ls[j]).last() != '\r' by {
        if j == 3 {
            assert(ls[j].last() == ']');
        }
    }
    lemma_lines_joined(ls);
}

#[verifier::rlimit(40)]
proof fn lemma_parse_project_lines(v: CfgView)
    ensures
        parse_lines(toml_lines(v), 0, default_cfg(), None) == parse_lines(
            toml_lines(v),
            4,
            (v.0, v.1, v.2, default_cfg().3, default_cfg().4, default_cfg().5),
            Some(Section::Project),
        ),
{
    reveal_strlit("[project]");
    reveal_strlit("name");
    reveal_strlit("model_root");
    reveal_strlit("project");
    let t = toml_lines(v);
    let d = default_cfg();
    let c1 = (v.0, d.1, d.2, d.3, d.4, d.5);
    let c2 = (v.0, v.1, d.2, d.3, d.4, d.5);
    let c3 = (v.0, v.1, v.2, d.3, d.4, d.5);
    let p = Some(Section::Project);
    assert(t[0] =~= seq!['['] + "project"@ + seq![']']);
    lemma_header_line(t[0], "project"@, 1, d, None);
    lemma_string_line("name"@, v.0, 2, d, Section::Project);
    lemma_string_line("model_root"@, v.1, 3, c1, Section::Project);
    lemma_library_line(v.2, 4, c2);
    assert(parse_lines(t, 3, c2, p) == parse_lines(t, 4, c3, p));
    assert(parse_lines(t, 2, c1, p) == parse_lines(t, 3, c2, p));
    assert(parse_lines(t, 1, d, p) == parse_lines(t, 2, c1, p));
    assert(parse_lines(t, 0, d, None) == parse_lines(t, 1, d, p));
}

#[verifier::rlimit(40)]
proof fn lemma_parse_defaults_lines(v: CfgView)
    ensures
        parse_lines(
            toml_lines(v),
            4,
            (v.0, v.1, v.2, default_cfg().3, default_cfg().4, default_cfg().5),
            Some(Section::Project),
        ) == Ok::<CfgView, Seq<char>>(v),
{
    reveal_strlit("[defaults]");
    reveal_strlit("author");
    reveal_strlit("output_dir");
    reveal_strlit("format");
    reveal_strlit("project");
    reveal_strlit("defaults");
    let t = toml_lines(v);
    let d = default_cfg();
    let c3 = (v.0, v.1, v.2, d.3, d.4, d.5);
    let c6 = (v.0, v.1, v.2, v.3, d.4, d.5);
    let c7 = (v.0, v.1, v.2, v.3, v.4, d.5);
    let p = Some(Section::Project);
    let f = Some(Section::Defaults);
    assert(uncommented(Seq::<char>::empty(), false, false) =~= Seq::<char>::empty());
    assert(step(t[4], 5, c3, p) == Ok::<(CfgView, Option<Section>), Seq<char>>((c3, p)));
    assert(t[5] =~= seq!['['] + "defaults"@ + seq![']']);
    lemma_header_line(t[5], "defaults"@, 6, c3, p);
    lemma_string_line("author"@, v.3, 7, c3, Section::Defaults);
    lemma_string_line("output_dir"@, v.4, 8, c6, Section::Defaults);
    lemma_string_line("format"@, v.5, 9, c7, Section::Defaults);
    assert(parse_lines(t, 9, v, f) == Ok::<CfgView, Seq<char>>(v));
    assert(parse_lines(t, 8, c7, f) == parse_lines(t, 9, v, f));
    assert(parse_lines(t, 7, c6, f) == parse_lines(t, 8, c7, f));
    assert(parse_lines(t, 6, c3, f) == parse_lines(t, 7, c6, f));
    assert(parse_lines(t, 5, c3, p) == parse_lines(t, 6, c3, f));
    assert(parse_lines(t, 4, c3, p) == parse_lines(t, 5, c3, p));
}

/// Writing a configuration as TOML and reading the text back gives the same
/// configuration, as long as none of its texts holds a newline: the text
/// `ProjectConfig::to_toml_string` writes is `toml_text` of the
/// configuration, and `ProjectConfig::from_toml_str` on it gives back a
/// configuration whose view is the one `parse_config` yields, so the same.
pub proof fn law_toml_roundtrip(c: ProjectConfig)
    requires
        cfg_single_line(cfg_view(c)),
    ensures
        parse_config(toml_text(cfg_view(c))) == Ok::<CfgView, Seq<char>>(cfg_view(c)),
{
    lemma_text_lines(cfg_view(c));
    lemma_parse_project_lines(cfg_view(c));
    lemma_parse_defaults_lines(cfg_view(c));
}

} // verus!
