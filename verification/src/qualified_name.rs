//! Qualified names for SysML v2 model elements.
//!
//! A qualified name is a `::` separated path such as `Package::SubPackage::Element`.
//! It identifies an element within the namespace hierarchy of a model.
use vstd::prelude::*;
use crate::text::{
    chars_of, find_from, first_occurrence, lemma_first_occurrence, own, push_str, seq_eq,
    slice_chars, string_of, trim, trim_chars,
};

verus! {

/// The separator between segments.
pub open spec fn sep() -> Seq<char> {
    seq![':', ':']
}

/// The pieces of `s[i..]` between occurrences of `::`, scanning from the left
/// (the pieces that `str::split("::")` yields).
pub open spec fn split_from(s: Seq<char>, i: int) -> Seq<Seq<char>>
    decreases s.len() + 1 - i,
{
    if i < 0 || i > s.len() {
        seq![]
    } else {
        match first_occurrence(s, sep(), i) {
            Some(k) => {
                proof {
                    lemma_first_occurrence(s, sep(), i);
                }
                seq![s.subrange(i, k)] + split_from(s, k + 2)
            },
            None => seq![s.subrange(i, s.len() as int)],
        }
    }
}

/// Each piece trimmed, empty pieces dropped.
pub open spec fn clean(parts: Seq<Seq<char>>) -> Seq<Seq<char>>
    decreases parts.len(),
{
    if parts.len() == 0 {
        seq![]
    } else {
        let t = trim(parts[0]);
        (if t.len() > 0 {
            seq![t]
        } else {
            seq![]
        }) + clean(parts.drop_first())
    }
}

/// The segments that parsing `s` yields: split on `::`, trim, drop empty pieces.
pub open spec fn parse_segments(s: Seq<char>) -> Seq<Seq<char>> {
    clean(split_from(s, 0))
}

/// `segs` joined with `sep` between consecutive items.
pub open spec fn join_with(segs: Seq<Seq<char>>, sep: Seq<char>) -> Seq<char>
    decreases segs.len(),
{
    if segs.len() == 0 {
        seq![]
    } else if segs.len() == 1 {
        segs[0]
    } else {
        join_with(segs.drop_last(), sep) + sep + segs.last()
    }
}

/// `p` is a proper prefix of `q`: `q` names a (direct or transitive) descendant of `p`.
pub open spec fn is_descendant(q: Seq<Seq<char>>, p: Seq<Seq<char>>) -> bool {
    q.len() > p.len() && q.take(p.len() as int) == p
}

/// Whether the segments `q` match an import pattern given by its segments.
pub open spec fn matches_pattern(q: Seq<Seq<char>>, parts: Seq<Seq<char>>) -> bool {
    if parts.len() == 0 {
        false
    } else {
        let prefix = parts.drop_last();
        if parts.last() == seq!['*', '*'] {
            is_descendant(q, prefix)
        } else if parts.last() == seq!['*'] {
            q.len() == prefix.len() + 1 && q.take(prefix.len() as int) == prefix
        } else {
            q == parts
        }
    }
}

/// A qualified name consisting of one or more segments separated by `::`.
#[derive(Debug, Clone, Hash, PartialEq, Eq, PartialOrd, Ord)]
pub struct QualifiedName {
    segments: Vec<String>,
}

/// Error returned when parsing an empty or whitespace-only string into a
/// [`QualifiedName`].
#[derive(Debug, Clone, PartialEq, Eq, Structural)]
pub enum QualifiedNameError {
    /// The input string contained no valid segments.
    Empty,
}

impl QualifiedNameError {
    /// The error message.
    pub fn to_string(&self) -> (r: String)
        ensures
            r@ == "qualified name must have at least one segment"@,
    {
        own("qualified name must have at least one segment")
    }
}

/// A deep copy of a list of strings.
pub fn clone_strings(v: &Vec<String>) -> (r: Vec<String>)
    ensures
        r.deep_view() == v.deep_view(),
{
    let mut r: Vec<String> = Vec::new();
    let mut i: usize = 0;
    while i < v.len()
        invariant
            i <= v.len(),
            r.deep_view() == v.deep_view().take(i as int),
        decreases v.len() - i,
    {
        let ghost old_dv = r.deep_view();
        r.push(v[i].clone());
        assert(r.deep_view() =~= old_dv.push(v@[i as int]@));
        i = i + 1;
        assert(r.deep_view() =~= v.deep_view().take(i as int));
    }
    assert(v.deep_view().take(v.len() as int) =~= v.deep_view());
    r
}

/// Splits `s` on `::`, trims each piece and keeps the non-empty ones.
pub fn parse_segments_exec(s: &Vec<char>) -> (r: Vec<String>)
    ensures
        r.deep_view() == parse_segments(s@),
{
    let sepv: Vec<char> = vec![':', ':'];
    assert(sepv@ =~= sep());
    let mut out: Vec<String> = Vec::new();
    let mut i: usize = 0;
    assert(out.deep_view() + clean(split_from(s@, 0)) =~= parse_segments(s@));
    loop
        invariant
            i <= s.len(),
            sepv@ == sep(),
            parse_segments(s@) == out.deep_view() + clean(split_from(s@, i as int)),
        decreases s.len() - i,
    {
        proof {
            lemma_first_occurrence(s@, sep(), i as int);
        }
        let found = find_from(s, &sepv, i);
        let ghost parts = split_from(s@, i as int);
        let ghost old_out = out.deep_view();
        let end = match found {
            Some(k) => k,
            None => s.len(),
        };
        let piece = slice_chars(s, i, end);
        let t = trim_chars(&piece);
        assert(parts[0] == piece@);
        if t.len() > 0 {
            out.push(string_of(&t));
            assert(out.deep_view() =~= old_out.push(t@));
        }
        match found {
            Some(k) => {
                assert(parts.drop_first() =~= split_from(s@, k + 2));
                assert(parse_segments(s@) =~= out.deep_view() + clean(split_from(s@, k + 2)));
                i = k + 2;
            },
            None => {
                assert(parts.drop_first() =~= Seq::<Seq<char>>::empty());
                assert(clean(parts.drop_first()) =~= Seq::<Seq<char>>::empty());
                assert(parse_segments(s@) =~= out.deep_view());
                return out;
            },
        }
    }
}

impl View for QualifiedName {
    type V = Seq<Seq<char>>;

    closed spec fn view(&self) -> Seq<Seq<char>> {
        self.segments.deep_view()
    }
}

impl QualifiedName {
    /// Create a qualified name from a vector of segments (at least one).
    pub fn new(segments: Vec<String>) -> (r: Self)
        requires
            segments.len() > 0,
        ensures
            r@ == segments.deep_view(),
    {
        QualifiedName { segments }
    }

    /// Create a qualified name from a list of string segments (at least one).
    pub fn from_segments(segments: &[&str]) -> (r: Self)
        requires
            segments@.len() > 0,
        ensures
            r@ == segments@.map_values(|s: &str| s@),
    {
        let mut v: Vec<String> = Vec::new();
        let mut i: usize = 0;
        while i < segments.len()
            invariant
                i <= segments@.len(),
                v.deep_view() == segments@.map_values(|s: &str| s@).take(i as int),
            decreases segments@.len() - i,
        {
            let ghost old_dv = v.deep_view();
            v.push(own(segments[i]));
            assert(v.deep_view() =~= old_dv.push(segments@[i as int]@));
            i = i + 1;
            assert(v.deep_view() =~= segments@.map_values(|s: &str| s@).take(i as int));
        }
        assert(segments@.map_values(|s: &str| s@).take(i as int) =~= segments@.map_values(
            |s: &str| s@,
        ));
        QualifiedName { segments: v }
    }

    /// Parse a `::` separated string into a qualified name.
    ///
    /// Whitespace around each segment is trimmed and empty segments are
    /// ignored, so `"A::::B"` and `"::A"` degrade gracefully. The input must
    /// contain at least one non-empty segment.
    pub fn parse(input: &str) -> (r: Self)
        requires
            parse_segments(input@).len() > 0,
        ensures
            r@ == parse_segments(input@),
    {
        let cs = chars_of(input);
        let segs = parse_segments_exec(&cs);
        QualifiedName { segments: segs }
    }

    /// Parse a `::` separated string, failing on input with no segment.
    pub fn try_parse(input: &str) -> (r: Result<Self, QualifiedNameError>)
        ensures
            r matches Ok(q) ==> q@ == parse_segments(input@),
            r is Err <==> parse_segments(input@).len() == 0,
    {
        let cs = chars_of(input);
        let segs = parse_segments_exec(&cs);
        if segs.len() == 0 {
            Err(QualifiedNameError::Empty)
        } else {
            Ok(QualifiedName { segments: segs })
        }
    }

    /// The individual segments of this qualified name.
    pub fn segments(&self) -> (r: &[String])
        ensures
            r.deep_view() == self@,
    {
        self.segments.as_slice()
    }

    /// The number of segments.
    pub fn depth(&self) -> (r: usize)
        ensures
            r == self@.len(),
    {
        self.segments.len()
    }

    /// The final (leaf) segment, or `None` for a name without segments
    /// (which the public constructors never build).
    pub fn leaf(&self) -> (r: Option<&str>)
        ensures
            r is Some <==> self@.len() > 0,
            r matches Some(l) ==> l@ == self@.last(),
    {
        if self.segments.len() == 0 {
            return None;
        }
        Some(self.segments[self.segments.len() - 1].as_str())
    }

    /// The parent qualified name (everything but the last segment), or `None`
    /// for a single-segment name.
    pub fn parent(&self) -> (r: Option<QualifiedName>)
        ensures
            r is None <==> self@.len() <= 1,
            r matches Some(p) ==> p@ == self@.drop_last(),
    {
        if self.segments.len() <= 1 {
            return None;
        }
        let n = self.segments.len() - 1;
        let mut v: Vec<String> = Vec::new();
        let mut i: usize = 0;
        while i < n
            invariant
                n == self.segments.len() - 1,
                i <= n,
                v.deep_view() == self@.take(i as int),
            decreases n - i,
        {
            let ghost old_dv = v.deep_view();
            v.push(self.segments[i].clone());
            assert(v.deep_view() =~= old_dv.push(self@[i as int]));
            i = i + 1;
            assert(v.deep_view() =~= self@.take(i as int));
        }
        assert(self@.take(n as int) =~= self@.drop_last());
        Some(QualifiedName { segments: v })
    }

    /// Whether the first `n` segments equal the first `n` segments of `other`.
    fn prefix_eq(&self, other: &Vec<String>, n: usize) -> (r: bool)
        requires
            n <= self@.len(),
            n <= other@.len(),
        ensures
            r == (self@.take(n as int) == other.deep_view().take(n as int)),
    {
        let mut i: usize = 0;
        while i < n
            invariant
                n <= self@.len(),
                n <= other@.len(),
                i <= n,
                self@.take(i as int) == other.deep_view().take(i as int),
            decreases n - i,
        {
            if self.segments[i] != other[i] {
                assert(self@.take(n as int)[i as int] != other.deep_view().take(n as int)[i as int]);
                return false;
            }
            i = i + 1;
            assert(self@.take(i as int) =~= other.deep_view().take(i as int));
        }
        true
    }

    /// Whether this name is a direct or transitive child of `other`:
    /// `A::B::C` is a child of `A::B` and of `A`, but not of itself.
    pub fn is_child_of(&self, other: &QualifiedName) -> (r: bool)
        ensures
            r == is_descendant(self@, other@),
    {
        if self.segments.len() > other.segments.len() {
            assert(other@.take(other@.len() as int) =~= other@);
            self.prefix_eq(&other.segments, other.segments.len())
        } else {
            false
        }
    }

    /// Append a segment, returning a new qualified name.
    pub fn push(&self, segment: &str) -> (r: QualifiedName)
        ensures
            r@ == self@.push(segment@),
    {
        let mut segments = clone_strings(&self.segments);
        segments.push(own(segment));
        assert(segments.deep_view() =~= self@.push(segment@));
        QualifiedName { segments }
    }

    /// Concatenate two qualified names, returning a new one.
    pub fn join(&self, other: &QualifiedName) -> (r: QualifiedName)
        ensures
            r@ == self@ + other@,
    {
        let mut segments = clone_strings(&self.segments);
        let mut i: usize = 0;
        while i < other.segments.len()
            invariant
                i <= other@.len(),
                segments.deep_view() == self@ + other@.take(i as int),
            decreases other@.len() - i,
        {
            let ghost old_dv = segments.deep_view();
            segments.push(other.segments[i].clone());
            assert(segments.deep_view() =~= old_dv.push(other@[i as int]));
            i = i + 1;
            assert(segments.deep_view() =~= self@ + other@.take(i as int));
        }
        assert(other@.take(other@.len() as int) =~= other@);
        QualifiedName { segments }
    }

    /// The segments joined with `sep`.
    fn joined(&self, sep: &str) -> (r: String)
        ensures
            r@ == join_with(self@, sep@),
    {
        join_strings(&self.segments, sep)
    }

    /// The `::` separated form, e.g. `Vehicle::Chassis::Wheel`.
    pub fn to_string(&self) -> (r: String)
        ensures
            r@ == join_with(self@, sep()),
    {
        proof {
            reveal_strlit("::");
            assert("::"@ =~= sep());
        }
        self.joined("::")
    }

    /// A path-safe form where `::` is replaced by `__`.
    pub fn to_path_safe(&self) -> (r: String)
        ensures
            r@ == join_with(self@, seq!['_', '_']),
    {
        proof {
            reveal_strlit("__");
            assert("__"@ =~= seq!['_', '_']);
        }
        self.joined("__")
    }

    /// Match against an import pattern with wildcard support.
    ///
    /// - `Package::*` matches any direct child of `Package`.
    /// - `Package::**` matches any descendant of `Package`.
    /// - A pattern without wildcards matches only the exact name.
    pub fn matches_wildcard(&self, pattern: &str) -> (r: bool)
        ensures
            r == matches_pattern(self@, parse_segments(pattern@)),
    {
        let cs = chars_of(pattern);
        let parts = parse_segments_exec(&cs);
        let n = parts.len();
        if n == 0 {
            return false;
        }
        let ghost ps = parts.deep_view();
        let ghost prefix = ps.drop_last();
        let last = chars_of(parts[n - 1].as_str());
        let star2: Vec<char> = vec!['*', '*'];
        let star1: Vec<char> = vec!['*'];
        assert(ps.last() == last@);
        assert(star2@ =~= seq!['*', '*']);
        assert(star1@ =~= seq!['*']);
        if seq_eq(&last, &star2) {
            if self.segments.len() > n - 1 {
                let r = self.prefix_eq(&parts, n - 1);
                assert(parts.deep_view().take(n - 1) =~= prefix);
                r
            } else {
                false
            }
        } else if seq_eq(&last, &star1) {
            if self.segments.len() == n {
                let r = self.prefix_eq(&parts, n - 1);
                assert(parts.deep_view().take(n - 1) =~= prefix);
                r
            } else {
                false
            }
        } else {
            if self.segments.len() == n {
                let r = self.prefix_eq(&parts, n);
                assert(self@.take(n as int) =~= self@);
                assert(parts.deep_view().take(n as int) =~= ps);
                r
            } else {
                false
            }
        }
    }
}

/// Appending a segment yields a child whose parent is the original name.
pub proof fn law_push_then_parent(q: Seq<Seq<char>>, segment: Seq<char>)
    ensures
        q.push(segment).drop_last() == q,
        is_descendant(q.push(segment), q),
{
    assert(q.push(segment).drop_last() =~= q);
    assert(q.push(segment).take(q.len() as int) =~= q);
}

/// No name is its own child.
pub proof fn law_child_irreflexive(q: Seq<Seq<char>>)
    ensures
        !is_descendant(q, q),
{
}

/// Descent is transitive: a child of a child is a child.
pub proof fn law_child_transitive(a: Seq<Seq<char>>, b: Seq<Seq<char>>, c: Seq<Seq<char>>)
    requires
        is_descendant(a, b),
        is_descendant(b, c),
    ensures
        is_descendant(a, c),
{
    assert(a.take(c.len() as int) =~= b.take(c.len() as int));
}

/// A name is a child of its parent.
pub proof fn law_parent_is_ancestor(q: Seq<Seq<char>>)
    requires
        q.len() > 1,
    ensures
        is_descendant(q, q.drop_last()),
{
    assert(q.take(q.len() - 1) =~= q.drop_last());
}

/// Joining concatenates segments: the result is a child of the first name
/// (when the second is non-empty) and has the summed depth.
pub proof fn law_join(a: Seq<Seq<char>>, b: Seq<Seq<char>>)
    ensures
        (a + b).len() == a.len() + b.len(),
        b.len() > 0 ==> is_descendant(a + b, a),
{
    assert((a + b).take(a.len() as int) =~= a);
}

/// A `P::**` pattern matches exactly the descendants of `P`, and a `P::*`
/// pattern exactly the direct children.
pub proof fn law_wildcards(q: Seq<Seq<char>>, prefix: Seq<Seq<char>>)
    ensures
        matches_pattern(q, prefix.push(seq!['*', '*'])) == is_descendant(q, prefix),
        matches_pattern(q, prefix.push(seq!['*'])) == (is_descendant(q, prefix) && q.len()
            == prefix.len() + 1),
{
    assert(prefix.push(seq!['*', '*']).drop_last() =~= prefix);
    assert(prefix.push(seq!['*']).drop_last() =~= prefix);
    assert(seq!['*', '*'] != seq!['*']) by {
        assert(seq!['*', '*'].len() != seq!['*'].len());
    }
}

impl core::str::FromStr for QualifiedName {
    type Err = QualifiedNameError;

    fn from_str(s: &str) -> (r: Result<Self, Self::Err>)
        ensures
            r matches Ok(q) ==> q@ == parse_segments(s@),
            r is Err <==> parse_segments(s@).len() == 0,
    {
        Self::try_parse(s)
    }
}

/// Joining one more part extends the joined text by the separator and the part.
pub proof fn lemma_join_step(s: Seq<Seq<char>>, sep: Seq<char>, k: int)
    requires
        1 <= k < s.len(),
    ensures
        join_with(s.take(k + 1), sep) == join_with(s.take(k), sep) + sep + s[k],
{
    assert(s.take(k + 1).drop_last() =~= s.take(k));
}

/// The strings of `parts` joined by `sep`.
pub fn join_strings(parts: &Vec<String>, sep: &str) -> (r: String)
    ensures
        r@ == join_with(parts.deep_view(), sep@),
{
    let ghost dv = parts.deep_view();
    let mut out = String::new();
    let mut i: usize = 0;
    while i < parts.len()
        invariant
            i <= parts@.len(),
            dv == parts.deep_view(),
            dv.len() == parts@.len(),
            out@ == join_with(dv.take(i as int), sep@),
        decreases parts@.len() - i,
    {
        if i > 0 {
            push_str(&mut out, sep);
        }
        push_str(&mut out, parts[i].as_str());
        assert(dv[i as int] == parts@[i as int]@);
        i = i + 1;
        assert(dv.take(i as int).drop_last() =~= dv.take(i - 1));
    }
    assert(dv.take(dv.len() as int) =~= dv);
    out
}


/// A segment that prints and parses back as itself: not empty, its own
/// trim, and without `:`.
pub open spec fn plain_segment(x: Seq<char>) -> bool {
    &&& x.len() > 0
    &&& trim(x) == x
    &&& forall|i: int| 0 <= i < x.len() ==> x[i] != ':'
}

/// Joining from the front: the first segment, the separator, the rest.
proof fn lemma_join_front(q: Seq<Seq<char>>, sp: Seq<char>)
    requires
        q.len() >= 2,
    ensures
        join_with(q, sp) == q[0] + sp + join_with(q.drop_first(), sp),
    decreases q.len(),
{
    if q.len() == 2 {
        assert(q.drop_last() =~= seq![q[0]]);
        assert(q.drop_first() =~= seq![q[1]]);
        assert(join_with(q.drop_last(), sp) == q[0]);
        assert(join_with(q.drop_first(), sp) == q[1]);
    } else {
        lemma_join_front(q.drop_last(), sp);
        assert(q.drop_last().drop_first() =~= q.drop_first().drop_last());
        assert(q.drop_first().last() == q.last());
        assert(q.drop_last()[0] == q[0]);
        assert(join_with(q.drop_first(), sp) == join_with(q.drop_first().drop_last(), sp) + sp + q.drop_first().last());
        assert(q[0] + sp + join_with(q.drop_first().drop_last(), sp) + sp + q.last() =~= q[0] + sp + (join_with(
            q.drop_first().drop_last(),
            sp,
        ) + sp + q.last()));
    }
}

/// The first `::` from `i` on is at `k` when none starts before.
proof fn lemma_first_sep(s: Seq<char>, i: int, k: int)
    requires
        0 <= i <= k,
        k + 2 <= s.len(),
        s[k] == ':' && s[k + 1] == ':',
        forall|j: int| i <= j < k ==> s[j] != ':',
    ensures
        first_occurrence(s, sep(), i) == Some(k),
    decreases k - i,
{
    if i == k {
        assert(s.subrange(k, k + 2) =~= sep());
    } else {
        assert(s.subrange(i, i + 2)[0] == s[i]);
        assert(!crate::text::occurs_at(s, sep(), i));
        lemma_first_sep(s, i + 1, k);
    }
}

/// Segments joined by `::` split back into those segments.
proof fn lemma_split_joined(s: Seq<char>, i: int, q: Seq<Seq<char>>)
    requires
        0 <= i <= s.len(),
        q.len() > 0,
        s.skip(i) == join_with(q, sep()),
        forall|k: int| 0 <= k < q.len() ==> plain_segment(#[trigger] q[k]),
    ensures
        split_from(s, i) == q,
    decreases q.len(),
{
    if q.len() == 1 {
        assert(join_with(q, sep()) == q[0]);
        lemma_first_occurrence(s, sep(), i);
        if first_occurrence(s, sep(), i) is Some {
            let k = first_occurrence(s, sep(), i)->0;
            assert(s.subrange(k, k + 2)[0] == s[k]);
            assert(s[k] == s.skip(i)[k - i]);
            assert(plain_segment(q[0]));
        }
        assert(s.subrange(i, s.len() as int) =~= q[0]);
        assert(q =~= seq![q[0]]);
    } else {
        lemma_join_front(q, sep());
        let x = q[0];
        assert(plain_segment(x));
        let k = i + x.len();
        assert(s.skip(i) =~= x + sep() + join_with(q.drop_first(), sep()));
        assert(s[k] == s.skip(i)[x.len() as int]);
        assert(s[k + 1] == s.skip(i)[x.len() + 1int]);
        assert forall|j: int| i <= j < k implies s[j] != ':' by {
            assert(s[j] == s.skip(i)[j - i]);
            assert(s.skip(i)[j - i] == x[j - i]);
        }
        lemma_first_sep(s, i, k);
        assert(s.subrange(i, k) =~= x);
        assert(s.skip(k + 2) =~= s.skip(i).skip(x.len() + 2int));
        assert((x + sep() + join_with(q.drop_first(), sep())).skip(x.len() + 2int) =~= join_with(q.drop_first(), sep()));
        assert(s.skip(k + 2) =~= join_with(q.drop_first(), sep()));
        assert forall|m: int| 0 <= m < q.drop_first().len() implies plain_segment(#[trigger] q.drop_first()[m]) by {
            assert(q.drop_first()[m] == q[m + 1]);
        }
        lemma_split_joined(s, k + 2, q.drop_first());
        assert(q =~= seq![x] + q.drop_first());
    }
}

/// Plain segments pass cleaning unchanged.
proof fn lemma_clean_plain(q: Seq<Seq<char>>)
    requires
        forall|k: int| 0 <= k < q.len() ==> plain_segment(#[trigger] q[k]),
    ensures
        clean(q) == q,
    decreases q.len(),
{
    if q.len() > 0 {
        assert(plain_segment(q[0]));
        assert forall|m: int| 0 <= m < q.drop_first().len() implies plain_segment(#[trigger] q.drop_first()[m]) by {
            assert(q.drop_first()[m] == q[m + 1]);
        }
        lemma_clean_plain(q.drop_first());
        assert(q =~= seq![q[0]] + q.drop_first());
    }
}

/// A name of plain segments, printed with `::`, parses back to itself.
pub proof fn law_print_parse(q: Seq<Seq<char>>)
    requires
        q.len() > 0,
        forall|k: int| 0 <= k < q.len() ==> plain_segment(#[trigger] q[k]),
    ensures
        parse_segments(join_with(q, sep())) == q,
{
    let s = join_with(q, sep());
    assert(s.skip(0) =~= s);
    lemma_split_joined(s, 0, q);
    lemma_clean_plain(q);
}

} // verus!
