//! Byte-position text edits for surgical modification of SysML v2 source.
//!
//! Positions are byte offsets into the UTF-8 encoding of the source text.
use vstd::prelude::*;
use vstd::utf8::{encode_utf8, is_char_boundary};
use crate::model::{first_def_index, Definition, Model, Usage};
use crate::config::{lines, lines_exec};
use crate::qualified_name::join_with;
use crate::text::{
    chars_of, decimal, own, push_char, push_seq, push_spaces, push_str, spaces, str_eq, trim,
    trim_chars, usize_to_decimal,
};

verus! {

/// A single text edit: the bytes `start_byte..end_byte` replaced by `new_text`.
#[derive(Debug, Clone)]
pub struct TextEdit {
    /// Start byte offset in the original source.
    pub start_byte: usize,
    /// End byte offset (exclusive); equal to `start_byte` for an insertion.
    pub end_byte: usize,
    /// Replacement text.
    pub new_text: String,
}

/// A set of edits to apply together.
#[derive(Debug, Clone)]
pub struct EditPlan {
    pub edits: Vec<TextEdit>,
}

/// Error of an edit operation.
#[derive(Debug, Clone)]
pub struct EditError {
    pub message: String,
}

impl EditError {
    /// The error message.
    pub fn to_string(&self) -> (r: String)
        ensures
            r@ == self.message@,
    {
        self.message.clone()
    }
}

impl EditPlan {
    /// An empty plan.
    pub fn new() -> (r: Self)
        ensures
            r.edits@.len() == 0,
    {
        EditPlan { edits: Vec::new() }
    }

    /// Add an edit to the plan.
    pub fn add(&mut self, edit: TextEdit)
        ensures
            final(self).edits@ == old(self).edits@.push(edit),
    {
        self.edits.push(edit);
    }
}

impl Default for EditPlan {
    fn default() -> (r: Self)
        ensures
            r.edits@.len() == 0,
    {
        EditPlan { edits: Vec::new() }
    }
}

/// The UTF-8 bytes of a text.
pub open spec fn bytes_of(s: Seq<char>) -> Seq<u8> {
    encode_utf8(s)
}

/// Encoding distributes over concatenation.
pub proof fn lemma_encode_append(a: Seq<char>, b: Seq<char>)
    ensures
        encode_utf8(a + b) == encode_utf8(a) + encode_utf8(b),
    decreases a.len(),
{
    if a.len() > 0 {
        lemma_encode_append(a.drop_first(), b);
        assert((a + b).drop_first() =~= a.drop_first() + b);
        assert((a + b)[0] == a[0]);
    } else {
        assert(a + b =~= b);
    }
}

/// `x` placed among the edits `s` (sorted by descending start) after every
/// edit that starts at or after it: one step of a stable descending sort.
pub open spec fn insert_desc(s: Seq<TextEdit>, x: TextEdit) -> Seq<TextEdit>
    decreases s.len(),
{
    if s.len() == 0 {
        seq![x]
    } else if s[0].start_byte < x.start_byte {
        seq![x] + s
    } else {
        seq![s[0]] + insert_desc(s.drop_first(), x)
    }
}

/// The edits stably sorted by descending start byte.
pub open spec fn sort_desc(s: Seq<TextEdit>) -> Seq<TextEdit>
    decreases s.len(),
{
    if s.len() == 0 {
        seq![]
    } else {
        insert_desc(sort_desc(s.drop_last()), s.last())
    }
}

/// The first `i >= from` at which the edit after `i` ends past the start of edit `i`.
pub open spec fn first_overlap(s: Seq<TextEdit>, from: int) -> Option<int>
    decreases s.len() - from,
{
    if from < 0 || from + 1 >= s.len() {
        None
    } else if s[from + 1].end_byte > s[from].start_byte {
        Some(from)
    } else {
        first_overlap(s, from + 1)
    }
}

/// Where applying edits in order got to.
pub enum Applied {
    /// All edits applied; the resulting bytes.
    Done(Seq<u8>),
    /// An edit reached past the end of the text (its start, end, and the
    /// text length at that point).
    OutOfBounds(usize, usize, nat),
    /// An edit's range is reversed or cuts a character.
    Stuck,
}

/// Applying one edit to `b`.
pub open spec fn apply_one(b: Seq<u8>, e: TextEdit) -> Applied {
    if e.start_byte > b.len() || e.end_byte > b.len() {
        Applied::OutOfBounds(e.start_byte, e.end_byte, b.len())
    } else if e.start_byte > e.end_byte || !is_char_boundary(b, e.start_byte as int)
        || !is_char_boundary(b, e.end_byte as int) {
        Applied::Stuck
    } else {
        Applied::Done(
            b.subrange(0, e.start_byte as int) + bytes_of(e.new_text@) + b.subrange(
                e.end_byte as int,
                b.len() as int,
            ),
        )
    }
}

/// Applying edits in order, stopping at the first that cannot apply.
pub open spec fn apply_seq(b: Seq<u8>, es: Seq<TextEdit>) -> Applied
    decreases es.len(),
{
    if es.len() == 0 {
        Applied::Done(b)
    } else {
        match apply_seq(b, es.drop_last()) {
            Applied::Done(c) => apply_one(c, es.last()),
            other => other,
        }
    }
}

/// `[start, end)`.
pub open spec fn range_text(start: usize, end: usize) -> Seq<char> {
    "["@ + decimal(start as nat) + ", "@ + decimal(end as nat) + ")"@
}

/// The message for two overlapping edits.
pub open spec fn overlap_message(a: TextEdit, b: TextEdit) -> Seq<char> {
    "overlapping edits: "@ + range_text(a.start_byte, a.end_byte) + " and "@ + range_text(
        b.start_byte,
        b.end_byte,
    )
}

/// The message for an edit past the end of the text.
pub open spec fn out_of_bounds_message(start: usize, end: usize, len: nat) -> Seq<char> {
    "edit out of bounds: "@ + range_text(start, end) + " in source of "@ + decimal(len) + " bytes"@
}

/// What applying a plan to the bytes `b` gives: the edited bytes, or the
/// message of the error.  The edits are applied from the highest start
/// down, after checking that no two neighbours in that order overlap.
pub open spec fn plan_outcome(b: Seq<u8>, edits: Seq<TextEdit>) -> Result<Seq<u8>, Seq<char>> {
    let s = sort_desc(edits);
    match first_overlap(s, 0) {
        Some(i) => Err(overlap_message(s[i + 1], s[i])),
        None => match apply_seq(b, s) {
            Applied::Done(c) => Ok(c),
            Applied::OutOfBounds(x, y, n) => Err(out_of_bounds_message(x, y, n)),
            Applied::Stuck => Err(seq![]),
        },
    }
}

/// The plan can be carried out or rejected: no edit that is reached has a
/// reversed range or one that cuts a character in two.
pub open spec fn plan_applicable(b: Seq<u8>, edits: Seq<TextEdit>) -> bool {
    first_overlap(sort_desc(edits), 0) is None ==> !(apply_seq(b, sort_desc(edits)) is Stuck)
}

/// A copy of an edit.
fn copy_edit(e: &TextEdit) -> (r: TextEdit)
    ensures
        r == *e,
{
    TextEdit { start_byte: e.start_byte, end_byte: e.end_byte, new_text: e.new_text.clone() }
}

/// The edits stably sorted by descending start byte.
fn sorted_desc(edits: &Vec<TextEdit>) -> (r: Vec<TextEdit>)
    ensures
        r@ == sort_desc(edits@),
{
    let mut r: Vec<TextEdit> = Vec::new();
    let mut i: usize = 0;
    while i < edits.len()
        invariant
            i <= edits@.len(),
            r@ == sort_desc(edits@.take(i as int)),
        decreases edits@.len() - i,
    {
        assert(edits@.take(i + 1).drop_last() =~= edits@.take(i as int));
        let x = copy_edit(&edits[i]);
        let ghost s = r@;
        let mut p: usize = 0;
        assert(s.skip(0) =~= s);
        while p < r.len() && r[p].start_byte >= x.start_byte
            invariant
                p <= r@.len(),
                r@ == s,
                insert_desc(s, x) == s.take(p as int) + insert_desc(s.skip(p as int), x),
            decreases r@.len() - p,
        {
            assert(s.skip(p as int).drop_first() =~= s.skip(p + 1));
            assert(s.take(p + 1) =~= s.take(p as int) + seq![s[p as int]]);
            p = p + 1;
        }
        proof {
            if p < s.len() {
                assert(s.skip(p as int)[0] == s[p as int]);
            } else {
                assert(s.skip(p as int) =~= seq![]);
            }
        }
        r.insert(p, x);
        assert(r@ =~= s.take(p as int) + insert_desc(s.skip(p as int), x));
        i = i + 1;
    }
    assert(edits@.take(edits@.len() as int) =~= edits@);
    r
}

/// `[start, end)` appended to `out`.
fn push_range(out: &mut String, start: usize, end: usize)
    ensures
        final(out)@ == old(out)@ + range_text(start, end),
{
    push_str(out, "[");
    let a = usize_to_decimal(start);
    push_str(out, a.as_str());
    push_str(out, ", ");
    let b = usize_to_decimal(end);
    push_str(out, b.as_str());
    push_str(out, ")");
    assert(out@ =~= old(out)@ + range_text(start, end));
}

/// Apply a plan to source text.  The edits are applied from the highest
/// start byte down, so earlier positions stay valid; neighbouring edits in
/// that order must not overlap, and every edit must lie within the text.
pub fn apply_edits(source: &str, plan: &EditPlan) -> (r: Result<String, EditError>)
    requires
        plan_applicable(bytes_of(source@), plan.edits@),
    ensures
        match r {
            Ok(s) => plan_outcome(bytes_of(source@), plan.edits@) == Ok::<Seq<u8>, Seq<char>>(bytes_of(s@)),
            Err(e) => plan_outcome(bytes_of(source@), plan.edits@) == Err::<Seq<u8>, Seq<char>>(e.message@),
        },
{
    let edits = sorted_desc(&plan.edits);
    let ghost s = edits@;
    assert(first_overlap(s, 0) == first_overlap(s, 0));
    let mut k: usize = 0;
    while edits.len() > 0 && k < edits.len() - 1
        invariant
            s == edits@,
            s == sort_desc(plan.edits@),
            k <= edits@.len(),
            first_overlap(s, 0) == first_overlap(s, k as int),
        decreases edits@.len() - k,
    {
        if edits[k + 1].end_byte > edits[k].start_byte {
            let mut msg = own("overlapping edits: ");
            push_range(&mut msg, edits[k + 1].start_byte, edits[k + 1].end_byte);
            push_str(&mut msg, " and ");
            push_range(&mut msg, edits[k].start_byte, edits[k].end_byte);
            assert(msg@ =~= overlap_message(s[k + 1], s[k as int]));
            assert(first_overlap(s, k as int) == Some(k as int));
            assert(sort_desc(plan.edits@) == s);
            assert(plan_outcome(bytes_of(source@), plan.edits@) == Err::<Seq<u8>, Seq<char>>(msg@));
            return Err(EditError { message: msg });
        }
        k = k + 1;
    }
    assert(first_overlap(s, 0) is None);
    let ghost b0 = bytes_of(source@);
    let mut result = own(source);
    let mut i: usize = 0;
    while i < edits.len()
        invariant
            s == edits@,
            s == sort_desc(plan.edits@),
            i <= s.len(),
            b0 == bytes_of(source@),
            first_overlap(s, 0) is None,
            !(apply_seq(b0, s) is Stuck),
            apply_seq(b0, s.take(i as int)) == Applied::Done(bytes_of(result@)),
        decreases s.len() - i,
    {
        let ghost cur = bytes_of(result@);
        assert(s.take(i + 1).drop_last() =~= s.take(i as int));
        let e = &edits[i];
        let n = result.as_str().as_bytes().len();
        assert(n == cur.len());
        if e.start_byte > n || e.end_byte > n {
            let mut msg = own("edit out of bounds: ");
            push_range(&mut msg, e.start_byte, e.end_byte);
            push_str(&mut msg, " in source of ");
            let len_text = usize_to_decimal(n);
            push_str(&mut msg, len_text.as_str());
            push_str(&mut msg, " bytes");
            proof {
                lemma_apply_stops(b0, s, i as int + 1);
                assert(s.take(s.len() as int) =~= s);
            }
            assert(msg@ =~= out_of_bounds_message(e.start_byte, e.end_byte, n as nat));
            return Err(EditError { message: msg });
        }
        proof {
            lemma_apply_not_stuck_prefix(b0, s, i as int + 1);
        }
        let next = {
            let text = result.as_str();
            let (before, _) = text.split_at(e.start_byte);
            let (_, after) = text.split_at(e.end_byte);
            let mut next = own(before);
            push_str(&mut next, e.new_text.as_str());
            push_str(&mut next, after);
            proof {
                lemma_encode_append(before@, e.new_text@);
                lemma_encode_append(before@ + e.new_text@, after@);
            }
            next
        };
        result = next;
        i = i + 1;
    }
    assert(s.take(s.len() as int) =~= s);
    Ok(result)
}

/// Once applying stops at an edit, it stays stopped for the rest.
proof fn lemma_apply_stops(b: Seq<u8>, s: Seq<TextEdit>, i: int)
    requires
        0 <= i <= s.len(),
        !(apply_seq(b, s.take(i)) is Done),
    ensures
        apply_seq(b, s) == apply_seq(b, s.take(i)),
    decreases s.len() - i,
{
    if i < s.len() {
        assert(s.take(i + 1).drop_last() =~= s.take(i));
        lemma_apply_stops(b, s, i + 1);
    } else {
        assert(s.take(i) =~= s);
    }
}

/// If applying all edits does not get stuck, neither does applying a prefix.
proof fn lemma_apply_not_stuck_prefix(b: Seq<u8>, s: Seq<TextEdit>, i: int)
    requires
        0 <= i <= s.len(),
        !(apply_seq(b, s) is Stuck),
    ensures
        !(apply_seq(b, s.take(i)) is Stuck),
    decreases s.len() - i,
{
    if i < s.len() {
        lemma_apply_not_stuck_prefix(b, s, i + 1);
        assert(s.take(i + 1).drop_last() =~= s.take(i));
    } else {
        assert(s.take(i) =~= s);
    }
}

/// The edit that appends `text` at the end of `source`, after a blank line.
pub open spec fn top_level_text(source: Seq<char>, text: Seq<char>) -> Seq<char> {
    (if source.len() > 0 && source.last() == '\n' {
        "\n"@
    } else {
        "\n\n"@
    }) + text + "\n"@
}

/// An edit that appends `text` at the end of the file.
pub fn insert_top_level(source: &str, text: &str) -> (r: TextEdit)
    ensures
        r.start_byte == bytes_of(source@).len(),
        r.end_byte == bytes_of(source@).len(),
        r.new_text@ == top_level_text(source@, text@),
{
    let insert_pos = source.as_bytes().len();
    let cs = chars_of(source);
    let ends_nl = cs.len() > 0 && cs[cs.len() - 1] == '\n';
    let mut new_text = if ends_nl {
        own("\n")
    } else {
        own("\n\n")
    };
    push_str(&mut new_text, text);
    push_str(&mut new_text, "\n");
    TextEdit { start_byte: insert_pos, end_byte: insert_pos, new_text }
}

/// The start of the line holding byte `i`: back to just after a newline.
pub open spec fn scan_back(b: Seq<u8>, i: int) -> int
    decreases i,
{
    if i <= 0 || b[i - 1] == 10 {
        i
    } else {
        scan_back(b, i - 1)
    }
}

/// The first newline at or after byte `i` (or the end).
pub open spec fn scan_fwd(b: Seq<u8>, i: int) -> int
    decreases b.len() - i,
{
    if i >= b.len() || b[i] == 10 {
        i
    } else {
        scan_fwd(b, i + 1)
    }
}

/// The byte range `start..end` grown to whole lines, with the newline that
/// ends the last one.
pub open spec fn full_lines(b: Seq<u8>, start: int, end: int) -> (int, int) {
    let e = scan_fwd(b, end);
    (scan_back(b, start), if e < b.len() {
        e + 1
    } else {
        e
    })
}

/// Expand a byte range to whole lines, including the trailing newline.
fn expand_to_full_line(source: &str, start: usize, end: usize) -> (r: (usize, usize))
    requires
        start <= bytes_of(source@).len(),
    ensures
        r.0 as int == full_lines(bytes_of(source@), start as int, end as int).0,
        r.1 as int == full_lines(bytes_of(source@), start as int, end as int).1,
{
    let bytes = source.as_bytes();
    let ghost b = bytes_of(source@);
    let mut line_start = start;
    while line_start > 0 && bytes[line_start - 1] != 10u8
        invariant
            bytes@ == b,
            line_start <= b.len(),
            scan_back(b, start as int) == scan_back(b, line_start as int),
        decreases line_start,
    {
        line_start = line_start - 1;
    }
    let mut line_end = end;
    while line_end < bytes.len() && bytes[line_end] != 10u8
        invariant
            bytes@ == b,
            scan_fwd(b, end as int) == scan_fwd(b, line_end as int),
        decreases b.len() - line_end,
    {
        line_end = line_end + 1;
    }
    if line_end < bytes.len() {
        line_end = line_end + 1;
    }
    (line_start, line_end)
}

/// The index of the first usage named `name`, at or after `from`.
pub open spec fn first_usage_index(us: Seq<Usage>, name: Seq<char>, from: int) -> Option<int>
    decreases us.len() - from,
{
    if from < 0 || from >= us.len() {
        None
    } else if us[from].name@ == name {
        Some(from)
    } else {
        first_usage_index(us, name, from + 1)
    }
}

/// The span of the element `remove_element` removes: the first definition
/// of that name, else the first usage of it.
pub open spec fn removal_span(model: Model, name: Seq<char>) -> Option<crate::model::Span> {
    match first_def_index(model.definitions@, name, 0) {
        Some(i) => Some(model.definitions@[i].span),
        None => match first_usage_index(model.usages@, name, 0) {
            Some(j) => Some(model.usages@[j].span),
            None => None,
        },
    }
}

/// The error message for an element that cannot be found.
pub open spec fn not_found_message(name: Seq<char>) -> Seq<char> {
    "element `"@ + name + "` not found"@
}

/// An edit that removes the whole lines of the element named `name` (a
/// definition, else a usage).
pub fn remove_element(source: &str, model: &Model, element_name: &str) -> (r: Result<TextEdit, EditError>)
    requires
        removal_span(*model, element_name@) matches Some(sp) ==> sp.start_byte <= bytes_of(source@).len(),
    ensures
        match (r, removal_span(*model, element_name@)) {
            (Ok(e), Some(sp)) => {
                &&& e.start_byte as int == full_lines(bytes_of(source@), sp.start_byte as int, sp.end_byte as int).0
                &&& e.end_byte as int == full_lines(bytes_of(source@), sp.start_byte as int, sp.end_byte as int).1
                &&& e.new_text@ == Seq::<char>::empty()
            },
            (Err(e), None) => e.message@ == not_found_message(element_name@),
            _ => false,
        },
{
    match model.find_def(element_name) {
        Some(def) => {
            let (start, end) = expand_to_full_line(source, def.span.start_byte, def.span.end_byte);
            return Ok(TextEdit { start_byte: start, end_byte: end, new_text: String::new() });
        },
        None => {},
    }
    let mut j: usize = 0;
    while j < model.usages.len()
        invariant
            j <= model.usages@.len(),
            first_def_index(model.definitions@, element_name@, 0) is None,
            first_usage_index(model.usages@, element_name@, 0) == first_usage_index(
                model.usages@,
                element_name@,
                j as int,
            ),
            removal_span(*model, element_name@) matches Some(sp) ==> sp.start_byte <= bytes_of(source@).len(),
        decreases model.usages@.len() - j,
    {
        let u = &model.usages[j];
        if str_eq(u.name.as_str(), element_name) {
            let (start, end) = expand_to_full_line(source, u.span.start_byte, u.span.end_byte);
            return Ok(TextEdit { start_byte: start, end_byte: end, new_text: String::new() });
        }
        j = j + 1;
    }
    let mut msg = own("element `");
    push_str(&mut msg, element_name);
    push_str(&mut msg, "` not found");
    Err(EditError { message: msg })
}

/// An identifier byte: an ASCII letter, digit or underscore.
pub open spec fn is_ident_byte(b: u8) -> bool {
    (48 <= b <= 57) || (65 <= b <= 90) || (97 <= b <= 122) || b == 95
}

/// `o` occurs in `b` at `pos` as a whole word.
pub open spec fn whole_word_at(b: Seq<u8>, o: Seq<u8>, pos: int) -> bool {
    &&& pos + o.len() <= b.len()
    &&& b.subrange(pos, pos + o.len()) == o
    &&& (pos == 0 || !is_ident_byte(b[pos - 1]))
    &&& (pos + o.len() >= b.len() || !is_ident_byte(b[pos + o.len()]))
}

/// The positions at or after `pos` where `o` occurs in `b` as a whole word.
pub open spec fn word_positions(b: Seq<u8>, o: Seq<u8>, pos: int) -> Seq<int>
    decreases b.len() + 1 - pos,
{
    if pos < 0 || pos + o.len() > b.len() {
        seq![]
    } else {
        (if whole_word_at(b, o, pos) {
            seq![pos]
        } else {
            seq![]
        }) + word_positions(b, o, pos + 1)
    }
}

/// Whether `b` is an identifier byte.
fn is_ident_char(b: u8) -> (r: bool)
    ensures
        r == is_ident_byte(b),
{
    (48 <= b && b <= 57) || (65 <= b && b <= 90) || (97 <= b && b <= 122) || b == 95
}

/// Whether `o` occurs at `pos` in `b`.
fn bytes_at(b: &[u8], o: &[u8], pos: usize) -> (r: bool)
    requires
        pos + o@.len() <= b@.len(),
    ensures
        r == (b@.subrange(pos as int, pos + o@.len()) == o@),
{
    let mut k: usize = 0;
    while k < o.len()
        invariant
            k <= o@.len(),
            pos + o@.len() <= b@.len(),
            b@.len() == b.len(),
            forall|t: int| 0 <= t < k ==> b@[pos + t] == o@[t],
        decreases o@.len() - k,
    {
        if b[pos + k] != o[k] {
            assert(b@.subrange(pos as int, pos + o@.len())[k as int] != o@[k as int]);
            return false;
        }
        k = k + 1;
    }
    assert(b@.subrange(pos as int, pos + o@.len()) =~= o@);
    true
}

/// The message when a name does not occur.
pub open spec fn no_occurrence_message(name: Seq<char>) -> Seq<char> {
    "no occurrences of `"@ + name + "` found"@
}

/// Edits that rename every whole-word occurrence of `old_name` to
/// `new_name`, in source order; an error if there is none.
pub fn rename_element(source: &str, _model: &Model, old_name: &str, new_name: &str) -> (r: Result<EditPlan, EditError>)
    requires
        bytes_of(source@).len() < usize::MAX,
    ensures
        match r {
            Ok(plan) => {
                let ps = word_positions(bytes_of(source@), bytes_of(old_name@), 0);
                &&& ps.len() > 0
                &&& plan.edits@.len() == ps.len()
                &&& forall|i: int| 0 <= i < ps.len() ==> {
                    &&& (#[trigger] plan.edits@[i]).start_byte == ps[i]
                    &&& plan.edits@[i].end_byte == ps[i] + bytes_of(old_name@).len()
                    &&& plan.edits@[i].new_text@ == new_name@
                }
            },
            Err(e) => word_positions(bytes_of(source@), bytes_of(old_name@), 0).len() == 0
                && e.message@ == no_occurrence_message(old_name@),
        },
{
    let mut plan = EditPlan::new();
    let bytes = source.as_bytes();
    let old_bytes = old_name.as_bytes();
    let ghost b = bytes@;
    let ghost o = old_bytes@;
    let ghost all = word_positions(b, o, 0);
    let n = old_bytes.len();
    let len = bytes.len();
    let mut pos: usize = 0;
    while n <= len && pos <= len - n
        invariant
            b == bytes@,
            o == old_bytes@,
            n == o.len(),
            len == b.len(),
            len < usize::MAX,
            all == word_positions(b, o, 0),
            pos <= len + 1,
            n <= len ==> pos <= len - n + 1,
            all == plan.edits@.map_values(|e: TextEdit| e.start_byte as int) + word_positions(b, o, pos as int),
            forall|i: int| 0 <= i < plan.edits@.len() ==> {
                &&& (#[trigger] plan.edits@[i]).end_byte == plan.edits@[i].start_byte + n
                &&& plan.edits@[i].new_text@ == new_name@
            },
        decreases len + 1 - pos,
    {
        let ghost pre = plan.edits@.map_values(|e: TextEdit| e.start_byte as int);
        if bytes_at(bytes, old_bytes, pos) {
            let before_ok = pos == 0 || !is_ident_char(bytes[pos - 1]);
            let after_ok = pos + n >= len || !is_ident_char(bytes[pos + n]);
            if before_ok && after_ok {
                plan.add(TextEdit { start_byte: pos, end_byte: pos + n, new_text: own(new_name) });
                assert(plan.edits@.map_values(|e: TextEdit| e.start_byte as int) =~= pre.push(pos as int));
                assert(seq![pos as int] + word_positions(b, o, pos + 1) =~= seq![pos as int] + word_positions(b, o, pos + 1));
                assert(pre + word_positions(b, o, pos as int) =~= pre.push(pos as int) + word_positions(b, o, pos + 1));
            } else {
                assert(word_positions(b, o, pos as int) =~= word_positions(b, o, pos + 1));
            }
        } else {
            assert(word_positions(b, o, pos as int) =~= word_positions(b, o, pos + 1));
        }
        pos = pos + 1;
    }
    assert(word_positions(b, o, pos as int) =~= seq![]);
    assert(all =~= plan.edits@.map_values(|e: TextEdit| e.start_byte as int));
    if plan.edits.len() == 0 {
        let mut msg = own("no occurrences of `");
        push_str(&mut msg, old_name);
        push_str(&mut msg, "` found");
        return Err(EditError { message: msg });
    }
    proof {
        assert forall|i: int| 0 <= i < all.len() implies (#[trigger] plan.edits@[i]).start_byte == all[i] by {
            assert(all[i] == plan.edits@.map_values(|e: TextEdit| e.start_byte as int)[i]);
        }
    }
    Ok(plan)
}

/// `n` tab characters.
pub open spec fn tabs(n: nat) -> Seq<char> {
    Seq::new(n, |i: int| '\t')
}

/// Some line of `source` starts with a tab.
pub open spec fn uses_tabs(source: Seq<char>) -> bool {
    exists|i: int| 0 <= i < lines(source).len() && lines(source)[i].len() > 0 && lines(source)[i][0] == '\t'
}

/// The indent for children of a definition that starts at (1-based) column
/// `col`: one level deeper, in tabs if the source uses tabs, else in spaces.
pub open spec fn child_indent(source: Seq<char>, col: usize) -> Seq<char> {
    let base: nat = if col >= 1 { (col - 1) as nat } else { 0 };
    if uses_tabs(source) {
        tabs(base / 4) + tabs(1)
    } else {
        spaces(base + 4)
    }
}

/// The indent string for children of a definition at the given column.
fn detect_indent(source: &str, parent_start_col: usize) -> (r: String)
    requires
        parent_start_col < usize::MAX - 3,
    ensures
        r@ == child_indent(source@, parent_start_col),
{
    let base = if parent_start_col >= 1 { parent_start_col - 1 } else { 0 };
    let cs = chars_of(source);
    let ls = lines_exec(&cs);
    let ghost lv = lines(source@);
    let mut tabbed = false;
    let mut i: usize = 0;
    while i < ls.len()
        invariant
            i <= ls@.len(),
            ls@.len() == lv.len(),
            forall|k: int| 0 <= k < ls@.len() ==> (#[trigger] ls@[k])@ == lv[k],
            tabbed == exists|k: int| 0 <= k < i && lv[k].len() > 0 && lv[k][0] == '\t',
        decreases ls@.len() - i,
    {
        if ls[i].len() > 0 && ls[i][0] == '\t' {
            tabbed = true;
        }
        i = i + 1;
    }
    let mut r = String::new();
    if tabbed {
        let n = base / 4 + 1;
        let mut k: usize = 0;
        while k < n
            invariant
                k <= n,
                r@ == tabs(k as nat),
            decreases n - k,
        {
            push_char(&mut r, '\t');
            k = k + 1;
            assert(r@ =~= tabs(k as nat));
        }
        assert(tabs(n as nat) =~= tabs((base / 4) as nat) + tabs(1));
    } else {
        push_spaces(&mut r, base + 4);
        assert(r@ =~= spaces((base + 4) as nat));
    }
    r
}

/// A member line indented, or emptied when blank.
pub open spec fn indent_line(indent: Seq<char>, l: Seq<char>) -> Seq<char> {
    if trim(l).len() == 0 {
        seq![]
    } else {
        indent + l
    }
}

/// The member text with each line indented (blank lines emptied).
pub open spec fn indented_member(text: Seq<char>, indent: Seq<char>) -> Seq<char> {
    join_with(lines(text).map_values(|l: Seq<char>| indent_line(indent, l)), "\n"@)
}

/// The definition `insert_member` inserts into.
pub open spec fn member_parent(model: Model, name: Seq<char>) -> Option<Definition> {
    match first_def_index(model.definitions@, name, 0) {
        Some(i) => Some(model.definitions@[i]),
        None => None,
    }
}

/// The text inserted before the closing brace at byte `close`.
pub open spec fn member_insert_text(b: Seq<u8>, close: int, indented: Seq<char>) -> Seq<char> {
    if close > 0 && b[close - 1] == 10 {
        indented + "\n"@
    } else {
        "\n"@ + indented + "\n"@
    }
}

/// The message for a definition that is not found.
pub open spec fn def_not_found_message(name: Seq<char>) -> Seq<char> {
    "definition `"@ + name + "` not found"@
}

/// The message for a definition without a body.
pub open spec fn no_body_message(name: Seq<char>) -> Seq<char> {
    "definition `"@ + name + "` has no body (no closing `}`)"@
}

/// An edit that inserts `member_text` inside the body of the definition
/// `parent_name`, before its closing brace, indented one level deeper than
/// the definition.
pub fn insert_member(source: &str, model: &Model, parent_name: &str, member_text: &str) -> (r: Result<TextEdit, EditError>)
    requires
        member_parent(*model, parent_name@) matches Some(d) ==> d.span.start_col < usize::MAX - 3,
        member_parent(*model, parent_name@) matches Some(d) ==> (d.body_end_byte matches Some(c)
            ==> c <= bytes_of(source@).len() && is_char_boundary(bytes_of(source@), c as int)),
    ensures
        match member_parent(*model, parent_name@) {
            None => r matches Err(e) && e.message@ == def_not_found_message(parent_name@),
            Some(d) => match d.body_end_byte {
                None => r matches Err(e) && e.message@ == no_body_message(parent_name@),
                Some(c) => r matches Ok(e) && e.start_byte == c && e.end_byte == c && e.new_text@
                    == member_insert_text(
                    bytes_of(source@),
                    c as int,
                    indented_member(member_text@, child_indent(source@, d.span.start_col)),
                ),
            },
        },
{
    let def = match model.find_def(parent_name) {
        Some(d) => d,
        None => {
            let mut msg = own("definition `");
            push_str(&mut msg, parent_name);
            push_str(&mut msg, "` not found");
            return Err(EditError { message: msg });
        },
    };
    let close_byte = match def.body_end_byte {
        Some(c) => c,
        None => {
            let mut msg = own("definition `");
            push_str(&mut msg, parent_name);
            push_str(&mut msg, "` has no body (no closing `}`)");
            return Err(EditError { message: msg });
        },
    };
    let indent = detect_indent(source, def.span.start_col);
    let cs = chars_of(member_text);
    let ls = lines_exec(&cs);
    let ghost lv = lines(member_text@);
    let ghost parts = lv.map_values(|l: Seq<char>| indent_line(indent@, l));
    let mut indented = String::new();
    let mut i: usize = 0;
    while i < ls.len()
        invariant
            i <= ls@.len(),
            ls@.len() == lv.len(),
            forall|k: int| 0 <= k < ls@.len() ==> (#[trigger] ls@[k])@ == lv[k],
            parts == lv.map_values(|l: Seq<char>| indent_line(indent@, l)),
            indented@ == join_with(parts.take(i as int), "\n"@),
        decreases ls@.len() - i,
    {
        let ghost before = indented@;
        if i > 0 {
            push_str(&mut indented, "\n");
        }
        let line = &ls[i];
        let t = trim_chars(line);
        if t.len() > 0 {
            push_str(&mut indented, indent.as_str());
            push_seq(&mut indented, line);
        }
        proof {
            assert(parts[i as int] == indent_line(indent@, lv[i as int]));
            if i == 0 {
                assert(parts.take(1) =~= seq![parts[0]]);
                assert(before =~= seq![]) by {
                    assert(parts.take(0) =~= seq![]);
                }
                assert(indented@ =~= parts[0]);
            } else {
                lemma_join_step_str(parts, "\n"@, i as int);
                assert(indented@ =~= before + "\n"@ + parts[i as int]);
            }
        }
        i = i + 1;
    }
    assert(parts.take(parts.len() as int) =~= parts);
    let bytes = source.as_bytes();
    let needs_newline = !(close_byte > 0 && bytes[close_byte - 1] == 10u8);
    let insert_text = if needs_newline {
        let mut t = own("\n");
        push_str(&mut t, indented.as_str());
        push_str(&mut t, "\n");
        t
    } else {
        let mut t = indented;
        push_str(&mut t, "\n");
        t
    };
    Ok(TextEdit { start_byte: close_byte, end_byte: close_byte, new_text: insert_text })
}

/// Joining one more piece adds the separator and the piece.
proof fn lemma_join_step_str(s: Seq<Seq<char>>, sep: Seq<char>, k: int)
    requires
        1 <= k < s.len(),
    ensures
        join_with(s.take(k + 1), sep) == join_with(s.take(k), sep) + sep + s[k],
{
    assert(s.take(k + 1).drop_last() =~= s.take(k));
}

/// The first offsets `(di, dj)`, not both zero and each at most 5, tried in
/// the order `(0,0), (0,1), .., (0,5), (1,0), ..`, at which line `i + di`
/// of `a` equals line `j + dj` of `b`; the search resumes at try `k`.
pub open spec fn find_sync(a: Seq<Seq<char>>, b: Seq<Seq<char>>, i: int, j: int, k: int) -> Option<(int, int)>
    decreases 36 - k,
{
    if k < 0 || k >= 36 {
        None
    } else {
        let di = k / 6;
        let dj = k % 6;
        if i + di < a.len() && j + dj < b.len() && a[i + di] == b[j + dj] && (di > 0 || dj > 0) {
            Some((di, dj))
        } else {
            find_sync(a, b, i, j, k + 1)
        }
    }
}

/// `@@ -i,n +j,m @@` and a newline.
pub open spec fn hunk_header(i: nat, n: nat, j: nat, m: nat) -> Seq<char> {
    "@@ -"@ + decimal(i) + ","@ + decimal(n) + " +"@ + decimal(j) + ","@ + decimal(m) + " @@\n"@
}

/// The lines, each behind `mark` and ended by a newline.
pub open spec fn marked_lines(ls: Seq<Seq<char>>, mark: Seq<char>) -> Seq<char> {
    crate::model::collect(ls, |l: Seq<char>| mark + l + "\n"@)
}

/// The hunks of the line diff of `a` and `b` from lines `i` and `j` on:
/// equal lines are skipped; at a difference the nearest resynchronisation
/// point within 5 lines on each side closes a hunk, and without one the
/// rest of both sides forms the last hunk.
pub open spec fn diff_hunks(a: Seq<Seq<char>>, b: Seq<Seq<char>>, i: int, j: int) -> Seq<char>
    decreases a.len() - i + b.len() - j,
{
    if i < 0 || j < 0 || i > a.len() || j > b.len() || (i == a.len() && j == b.len()) {
        seq![]
    } else if i < a.len() && j < b.len() && a[i] == b[j] {
        diff_hunks(a, b, i + 1, j + 1)
    } else {
        match find_sync(a, b, i, j, 0) {
            Some((di, dj)) => if 0 <= di && 0 <= dj && di + dj > 0 && i + di < a.len() && j + dj < b.len() {
                hunk_header((i + 1) as nat, di as nat, (j + 1) as nat, dj as nat) + marked_lines(
                    a.subrange(i, i + di),
                    "-"@,
                ) + marked_lines(b.subrange(j, j + dj), "+"@) + diff_hunks(a, b, i + di, j + dj)
            } else {
                seq![]
            },
            None => hunk_header((i + 1) as nat, (a.len() - i) as nat, (j + 1) as nat, (b.len() - j) as nat)
                + marked_lines(a.skip(i), "-"@) + marked_lines(b.skip(j), "+"@),
        }
    }
}

/// A found resynchronisation point is in range and moves forward.
proof fn lemma_find_sync(a: Seq<Seq<char>>, b: Seq<Seq<char>>, i: int, j: int, k: int)
    requires
        0 <= k <= 36,
    ensures
        find_sync(a, b, i, j, k) matches Some((di, dj)) ==> 0 <= di <= 5 && 0 <= dj <= 5 && di
            + dj > 0 && i + di < a.len() && j + dj < b.len() && a[i + di] == b[j + dj],
    decreases 36 - k,
{
    if k < 36 {
        lemma_find_sync(a, b, i, j, k + 1);
    }
}

/// The header of the line diff of `original` and `modified`, then its hunks.
pub open spec fn diff_text(original: Seq<char>, modified: Seq<char>, filename: Seq<char>) -> Seq<char> {
    "--- a/"@ + filename + "\n"@ + "+++ b/"@ + filename + "\n"@ + diff_hunks(
        lines(original),
        lines(modified),
        0,
        0,
    )
}

/// Appends `mark line \n` for lines `from..to`.
fn push_marked(out: &mut String, ls: &Vec<Vec<char>>, from: usize, to: usize, mark: &str)
    requires
        from <= to <= ls@.len(),
    ensures
        final(out)@ == old(out)@ + marked_lines(
            ls@.map_values(|l: Vec<char>| l@).subrange(from as int, to as int),
            mark@,
        ),
{
    let ghost lv = ls@.map_values(|l: Vec<char>| l@);
    let ghost f = |l: Seq<char>| mark@ + l + "\n"@;
    let mut k = from;
    while k < to
        invariant
            from <= k <= to <= ls@.len(),
            lv == ls@.map_values(|l: Vec<char>| l@),
            forall|x: Seq<char>| #[trigger] f(x) == mark@ + x + "\n"@,
            out@ == old(out)@ + crate::model::collect(lv.subrange(from as int, k as int), f),
        decreases to - k,
    {
        proof {
            crate::model::lemma_collect_take(lv.subrange(from as int, to as int), f, k - from);
            assert(lv.subrange(from as int, to as int).take(k - from) =~= lv.subrange(from as int, k as int));
            assert(lv.subrange(from as int, to as int).take(k - from + 1) =~= lv.subrange(from as int, k + 1));
        }
        push_str(out, mark);
        push_seq(out, &ls[k]);
        push_str(out, "\n");
        k = k + 1;
        assert(out@ =~= old(out)@ + crate::model::collect(lv.subrange(from as int, k as int), f));
    }
    proof {
        assert(f =~= |l: Seq<char>| mark@ + l + "\n"@);
    }
}

/// Appends a hunk header.
fn push_hunk_header(out: &mut String, i: usize, n: usize, j: usize, m: usize)
    ensures
        final(out)@ == old(out)@ + hunk_header(i as nat, n as nat, j as nat, m as nat),
{
    push_str(out, "@@ -");
    let t = usize_to_decimal(i);
    push_str(out, t.as_str());
    push_str(out, ",");
    let t = usize_to_decimal(n);
    push_str(out, t.as_str());
    push_str(out, " +");
    let t = usize_to_decimal(j);
    push_str(out, t.as_str());
    push_str(out, ",");
    let t = usize_to_decimal(m);
    push_str(out, t.as_str());
    push_str(out, " @@\n");
    assert(out@ =~= old(out)@ + hunk_header(i as nat, n as nat, j as nat, m as nat));
}

/// A unified-style line diff of `original` and `modified` (a simple
/// line-by-line comparison, not a minimal one).
pub fn diff(original: &str, modified: &str, filename: &str) -> (r: String)
    requires
        lines(original@).len() < usize::MAX,
        lines(modified@).len() < usize::MAX,
    ensures
        r@ == diff_text(original@, modified@, filename@),
{
    let mut output = own("--- a/");
    push_str(&mut output, filename);
    push_str(&mut output, "\n");
    push_str(&mut output, "+++ b/");
    push_str(&mut output, filename);
    push_str(&mut output, "\n");
    let oc = chars_of(original);
    let mc = chars_of(modified);
    let orig_lines = lines_exec(&oc);
    let mod_lines = lines_exec(&mc);
    let ghost a = orig_lines@.map_values(|l: Vec<char>| l@);
    let ghost b = mod_lines@.map_values(|l: Vec<char>| l@);
    assert(a =~= lines(original@));
    assert(b =~= lines(modified@));
    let ghost head = output@;
    let mut i: usize = 0;
    let mut j: usize = 0;
    while i < orig_lines.len() || j < mod_lines.len()
        invariant
            a == orig_lines@.map_values(|l: Vec<char>| l@),
            b == mod_lines@.map_values(|l: Vec<char>| l@),
            a.len() < usize::MAX,
            b.len() < usize::MAX,
            i <= a.len(),
            j <= b.len(),
            head + diff_hunks(a, b, 0, 0) == output@ + diff_hunks(a, b, i as int, j as int),
        decreases a.len() - i + b.len() - j,
    {
        if i < orig_lines.len() && j < mod_lines.len() && crate::text::seq_eq(&orig_lines[i], &mod_lines[j]) {
            i = i + 1;
            j = j + 1;
        } else {
            let start_i = i;
            let start_j = j;
            let mut found = false;
            let mut di: usize = 0;
            let mut found_di: usize = 0;
            let mut found_dj: usize = 0;
            proof {
                lemma_find_sync(a, b, i as int, j as int, 0);
            }
            while di <= 5 && !found
                invariant
                    a == orig_lines@.map_values(|l: Vec<char>| l@),
                    b == mod_lines@.map_values(|l: Vec<char>| l@),
                    i <= a.len(),
                    j <= b.len(),
                    di <= 6,
                    found ==> find_sync(a, b, i as int, j as int, 0) == Some((found_di as int, found_dj as int)),
                    !found ==> find_sync(a, b, i as int, j as int, 0) == find_sync(a, b, i as int, j as int, di * 6),
                decreases 6 - di + (if found { 0int } else { 1int }),
            {
                let mut dj: usize = 0;
                while dj <= 5 && !found
                    invariant
                        a == orig_lines@.map_values(|l: Vec<char>| l@),
                        b == mod_lines@.map_values(|l: Vec<char>| l@),
                        i <= a.len(),
                        j <= b.len(),
                        di <= 5,
                        dj <= 6,
                        found ==> find_sync(a, b, i as int, j as int, 0) == Some((found_di as int, found_dj as int)),
                        !found ==> find_sync(a, b, i as int, j as int, 0) == find_sync(a, b, i as int, j as int, di * 6 + dj),
                    decreases 6 - dj + (if found { 0int } else { 1int }),
                {
                    let hit = di < orig_lines.len() - i && dj < mod_lines.len() - j && crate::text::seq_eq(
                        &orig_lines[i + di],
                        &mod_lines[j + dj],
                    ) && (di > 0 || dj > 0);
                    proof {
                        let k = di * 6 + dj;
                        assert(k / 6 == di as int && k % 6 == dj as int) by (nonlinear_arith)
                            requires k == di * 6 + dj, dj <= 5;
                    }
                    if hit {
                        found = true;
                        found_di = di;
                        found_dj = dj;
                    } else {
                        dj = dj + 1;
                    }
                }
                if !found {
                    assert(di * 6 + 6 == (di + 1) * 6) by (nonlinear_arith);
                    di = di + 1;
                }
            }
            if found {
                proof {
                    lemma_find_sync(a, b, i as int, j as int, 0);
                }
                push_hunk_header(&mut output, start_i + 1, found_di, start_j + 1, found_dj);
                push_marked(&mut output, &orig_lines, start_i, i + found_di, "-");
                push_marked(&mut output, &mod_lines, start_j, j + found_dj, "+");
                i = i + found_di;
                j = j + found_dj;
            } else {
                assert(find_sync(a, b, i as int, j as int, 36) is None);
                push_hunk_header(&mut output, start_i + 1, orig_lines.len() - start_i, start_j + 1, mod_lines.len() - start_j);
                push_marked(&mut output, &orig_lines, start_i, orig_lines.len(), "-");
                push_marked(&mut output, &mod_lines, start_j, mod_lines.len(), "+");
                assert(a.subrange(i as int, a.len() as int) =~= a.skip(i as int));
                assert(b.subrange(j as int, b.len() as int) =~= b.skip(j as int));
                i = orig_lines.len();
                j = mod_lines.len();
            }
        }
    }
    assert(output@ =~= head + diff_hunks(a, b, 0, 0));
    output
}

} // verus!
