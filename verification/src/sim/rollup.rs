//! Roll-up aggregation methods and part quantities.
//!
//! The numeric roll-up itself works on floating-point values and lives with
//! the application; the choice of method, and how many instances a part
//! usage stands for, are decided here.
use vstd::prelude::*;
use crate::text::ascii_lower;
use crate::text::all_ascii;
use crate::model::{Multiplicity, Usage};
use crate::text::{all_digits, chars_of, digits_value, lemma_digits_grow, lowercase_of, str_eq, to_lowercase};

verus! {

/// How child values are aggregated in a roll-up.
#[derive(Debug, Clone, Copy, PartialEq, Eq, Structural)]
pub enum AggregationMethod {
    /// Sum of child value times quantity.
    Sum,
    /// Root of the sum of squares of child value times quantity.
    Rss,
    /// Product of child values.
    Product,
    /// Minimum over the children.
    Min,
    /// Maximum over the children.
    Max,
}

/// The method a lower-cased name selects (`prod` for `product`).
pub open spec fn aggregation_named(s: Seq<char>) -> Option<AggregationMethod> {
    if s == "sum"@ {
        Some(AggregationMethod::Sum)
    } else if s == "rss"@ {
        Some(AggregationMethod::Rss)
    } else if s == "product"@ || s == "prod"@ {
        Some(AggregationMethod::Product)
    } else if s == "min"@ {
        Some(AggregationMethod::Min)
    } else if s == "max"@ {
        Some(AggregationMethod::Max)
    } else {
        None
    }
}

/// The name of a method.
pub open spec fn aggregation_label(m: AggregationMethod) -> Seq<char> {
    match m {
        AggregationMethod::Sum => "sum"@,
        AggregationMethod::Rss => "rss"@,
        AggregationMethod::Product => "product"@,
        AggregationMethod::Min => "min"@,
        AggregationMethod::Max => "max"@,
    }
}

impl AggregationMethod {
    /// Parse a method name, ignoring case.
    pub fn from_str(s: &str) -> (r: Option<Self>)
        ensures
            r == aggregation_named(lowercase_of(s@)),
            all_ascii(s@) ==> r == aggregation_named(Seq::new(s@.len(), |i: int| ascii_lower(s@[i]))),
    {
        let lowered = to_lowercase(s);
        let t = lowered.as_str();
        if str_eq(t, "sum") {
            Some(AggregationMethod::Sum)
        } else if str_eq(t, "rss") {
            Some(AggregationMethod::Rss)
        } else if str_eq(t, "product") || str_eq(t, "prod") {
            Some(AggregationMethod::Product)
        } else if str_eq(t, "min") {
            Some(AggregationMethod::Min)
        } else if str_eq(t, "max") {
            Some(AggregationMethod::Max)
        } else {
            None
        }
    }

    /// The name of this method.
    pub fn label(&self) -> (r: &'static str)
        ensures
            r@ == aggregation_label(*self),
    {
        match self {
            AggregationMethod::Sum => "sum",
            AggregationMethod::Rss => "rss",
            AggregationMethod::Product => "product",
            AggregationMethod::Min => "min",
            AggregationMethod::Max => "max",
        }
    }
}

/// Naming a method and parsing the name gives the method back.
pub proof fn law_aggregation_label_roundtrip(m: AggregationMethod)
    ensures
        aggregation_named(aggregation_label(m)) == Some(m),
{
    reveal_strlit("sum");
    reveal_strlit("rss");
    reveal_strlit("product");
    reveal_strlit("prod");
    reveal_strlit("min");
    reveal_strlit("max");
    match m {
        AggregationMethod::Sum => {},
        AggregationMethod::Rss => {
            assert("rss"@[0] != "sum"@[0]);
        },
        AggregationMethod::Product => {
            assert("product"@.len() != "sum"@.len());
        },
        AggregationMethod::Min => {
            assert("min"@[0] != "sum"@[0]);
            assert("min"@[0] != "rss"@[0]);
        },
        AggregationMethod::Max => {
            assert("max"@[0] != "sum"@[0]);
            assert("max"@[0] != "rss"@[0]);
            assert("max"@[1] != "min"@[1]);
        },
    }
}



/// What `str::parse::<u32>` accepts: an optional `+`, then at least one
/// digit, with a value that fits in `u32`.
pub open spec fn parse_u32(s: Seq<char>) -> Option<u32> {
    let d = if s.len() > 0 && s[0] == '+' {
        s.drop_first()
    } else {
        s
    };
    if d.len() > 0 && all_digits(d) && digits_value(d) <= u32::MAX {
        Some(digits_value(d) as u32)
    } else {
        None
    }
}

/// Parse a decimal `u32` as `str::parse` does.
pub fn parse_u32_exec(s: &str) -> (r: Option<u32>)
    ensures
        r == parse_u32(s@),
{
    let cs = chars_of(s);
    let start: usize = if cs.len() > 0 && cs[0] == '+' { 1 } else { 0 };
    let ghost d = if s@.len() > 0 && s@[0] == '+' { s@.drop_first() } else { s@ };
    assert(d =~= cs@.skip(start as int));
    if start >= cs.len() {
        return None;
    }
    let mut v: u64 = 0;
    let mut i: usize = start;
    while i < cs.len()
        invariant
            start <= i <= cs@.len(),
            d == cs@.skip(start as int),
            cs@ == s@,
            d == (if s@.len() > 0 && s@[0] == '+' { s@.drop_first() } else { s@ }),
            d.len() > 0,
            all_digits(cs@.subrange(start as int, i as int)),
            v == digits_value(cs@.subrange(start as int, i as int)),
            v <= u32::MAX,
        decreases cs@.len() - i,
    {
        let c = cs[i];
        assert(cs@.subrange(start as int, i + 1).drop_last() =~= cs@.subrange(start as int, i as int));
        if c < '0' || c > '9' {
            assert(d[i - start] == c);
            assert(!all_digits(d));
            return None;
        }
        let digit = (c as u32 - '0' as u32) as u64;
        let next = v * 10 + digit;
        if next > 0xffff_ffff {
            proof {
                lemma_digits_grow(d, (i - start + 1) as int);
                assert(d.take((i - start + 1) as int) =~= cs@.subrange(start as int, i + 1));
                assert(digits_value(cs@.subrange(start as int, i + 1)) > u32::MAX);
            }
            return None;
        }
        v = next;
        i = i + 1;
    }
    assert(cs@.subrange(start as int, cs@.len() as int) =~= d);
    Some(v as u32)
}


/// The text of an optional string.
pub open spec fn opt_chars(o: Option<String>) -> Option<Seq<char>> {
    match o {
        Some(s) => Some(s@),
        None => None,
    }
}

/// How many instances a usage stands for: an exact multiplicity `[n]` (as
/// lower bound, or as upper bound alone) gives `n`, a range its numeric
/// lower bound, anything else 1.
pub open spec fn quantity_of(m: Option<Multiplicity>) -> u32 {
    match m {
        Some(mult) => {
            let lo = match opt_chars(mult.lower) {
                Some(l) => parse_u32(l),
                None => None,
            };
            let hi = match opt_chars(mult.upper) {
                Some(u) => parse_u32(u),
                None => None,
            };
            if lo is Some && mult.upper is None {
                lo.unwrap()
            } else if mult.lower is None && hi is Some {
                hi.unwrap()
            } else if lo is Some {
                lo.unwrap()
            } else {
                1
            }
        },
        None => 1,
    }
}

/// The quantity of a usage from its multiplicity (1 by default).
pub fn quantity_from_multiplicity(usage: &Usage) -> (r: u32)
    ensures
        r == quantity_of(usage.multiplicity),
{
    match &usage.multiplicity {
        Some(mult) => {
            let lo = match &mult.lower {
                Some(l) => parse_u32_exec(l.as_str()),
                None => None,
            };
            if let Some(n) = lo {
                if mult.upper.is_none() {
                    return n;
                }
            }
            if mult.lower.is_none() {
                if let Some(u) = &mult.upper {
                    if let Some(n) = parse_u32_exec(u.as_str()) {
                        return n;
                    }
                }
            }
            match lo {
                Some(n) => n,
                None => 1,
            }
        },
        None => 1,
    }
}

/// A multiplicity whose lower bound is a decimal number stands for that many
/// instances, whatever its upper bound: a range counts its lower bound.
pub proof fn law_quantity_is_lower_bound(m: Multiplicity, n: u32)
    requires
        m.lower matches Some(l) && parse_u32(l@) == Some(n),
    ensures
        quantity_of(Some(m)) == n,
{
}

/// A multiplicity with only an upper bound, a decimal number, stands for
/// that many instances.
pub proof fn law_quantity_upper_only(m: Multiplicity, n: u32)
    requires
        m.lower is None,
        m.upper matches Some(u) && parse_u32(u@) == Some(n),
    ensures
        quantity_of(Some(m)) == n,
{
}

/// A usage counts once when its multiplicity has no decimal bound to count.
pub proof fn law_quantity_default(m: Option<Multiplicity>)
    requires
        m matches Some(x) ==> (x.lower matches Some(l) ==> parse_u32(l@) is None) && (x.lower is None ==> (x.upper matches Some(u) ==> parse_u32(u@) is None)),
    ensures
        quantity_of(m) == 1,
{
}

} // verus!
