//! The filter transform: a `field=value` expression, typed by the
//! lexical shape of its right-hand side, keeps exactly the records whose
//! field holds an equal value of the corresponding kind. A type
//! mismatch is a non-match, never an error; malformed expressions are
//! rejected when the filter is parsed, before any record is touched.

use vstd::prelude::*;

verus! {

use vstd::string::StrSliceExecFns;
use vstd::string::StringExecFns;
use crate::Error;
use crate::text::all_digits;
use crate::text::dec_val;
use crate::text::find_char;
use crate::text::is_digit_char;
use crate::text::lemma_find_char_at;
use crate::text::parse_u64;
use crate::text::split_char;
use crate::text::split_seq;
use crate::text::str_eq_str;
use crate::text::strs_view;
use crate::value::Value;
use crate::value::ValueView;
use crate::value::f64_bits_of;
use crate::value::obj_get;
use crate::value::obj_view;
use crate::value::records_view;
use crate::value::spec_key_of_bits;
use crate::value::entries_get;

/// The typed right-hand side of a filter expression.
#[derive(Debug)]
pub enum Primitive {
    Bool(bool),
    String(String),
    Integer(u64),
    /// A fractional literal, kept as the order key of its
    /// floating-point value.
    Float(u64),
}

#[verifier::ext_equal]
pub enum PrimitiveView {
    Bool(bool),
    String(Seq<char>),
    Integer(u64),
    Float(u64),
}

impl View for Primitive {
    type V = PrimitiveView;

    open spec fn view(&self) -> PrimitiveView {
        match self {
            Primitive::Bool(b) => PrimitiveView::Bool(*b),
            Primitive::String(s) => PrimitiveView::String(s@),
            Primitive::Integer(n) => PrimitiveView::Integer(*n),
            Primitive::Float(k) => PrimitiveView::Float(*k),
        }
    }
}

pub open spec fn count_char(s: Seq<char>, c: char) -> int
    decreases s.len(),
{
    if s.len() == 0 {
        0
    } else {
        count_char(s.drop_last(), c) + if s.last() == c {
            1int
        } else {
            0int
        }
    }
}

pub open spec fn has_digit(s: Seq<char>) -> bool {
    exists|i: int| 0 <= i < s.len() && is_digit_char(s[i])
}

/// Every character is an ASCII digit or a dot.
pub open spec fn digits_and_dots(s: Seq<char>) -> bool {
    forall|i: int| 0 <= i < s.len() ==> is_digit_char(s[i]) || s[i] == '.'
}

/// Leading zeroes removed.
pub open spec fn strip_zeros(s: Seq<char>) -> Seq<char>
    decreases s.len(),
{
    if s.len() > 0 && s[0] == '0' {
        strip_zeros(s.skip(1))
    } else {
        s
    }
}

/// A fractional literal rewritten in the shape JSON demands: leading
/// zeroes dropped, and both sides of the dot made non-empty.
pub open spec fn canonical_float(s: Seq<char>) -> Seq<char> {
    let d = find_char(s, '.');
    let ip = strip_zeros(s.take(d));
    let fp = s.skip(d + 1);
    (if ip.len() == 0 {
        "0"@
    } else {
        ip
    }) + "."@ + (if fp.len() == 0 {
        "0"@
    } else {
        fp
    })
}

/// How the right-hand side of a filter expression is read, by its
/// lexical shape alone: `true`/`false` are booleans; digits are an
/// integer; digits with one dot are a fractional number; anything else
/// is literal text. An integer too large for `u64`, a fractional
/// literal with no digits, and one that JSON cannot represent are
/// rejected.
pub open spec fn classify_spec(s: Seq<char>) -> Result<PrimitiveView, Error> {
    if s == "true"@ {
        Ok(PrimitiveView::Bool(true))
    } else if s == "false"@ {
        Ok(PrimitiveView::Bool(false))
    } else if s.len() == 0 {
        Err(Error::InvalidFilterExpression)
    } else if digits_and_dots(s) && count_char(s, '.') == 0 {
        if dec_val(s) <= u64::MAX {
            Ok(PrimitiveView::Integer(dec_val(s) as u64))
        } else {
            Err(Error::InvalidFilterExpression)
        }
    } else if digits_and_dots(s) && count_char(s, '.') == 1 {
        if !has_digit(s) {
            Err(Error::InvalidFilterExpression)
        } else {
            match f64_bits_of(canonical_float(s)) {
                Some(bits) => Ok(PrimitiveView::Float(spec_key_of_bits(bits))),
                None => Err(Error::InvalidFilterExpression),
            }
        }
    } else {
        Ok(PrimitiveView::String(s))
    }
}

/// Whether a record matches `field = p`: it must be an object, hold the
/// field, and hold a value of the literal's own kind that is equal to
/// it. Everything else is a non-match.
pub open spec fn matches_spec(v: ValueView, field: Seq<char>, p: PrimitiveView) -> bool {
    match v {
        ValueView::Object(o) => match obj_get(o, field) {
            Some(inner) => match inner {
                ValueView::Bool(a) => p matches PrimitiveView::Bool(b) && a == b,
                ValueView::String(a) => p matches PrimitiveView::String(b) && a == b,
                ValueView::Number(n) => (p matches PrimitiveView::Integer(u) && n.int_val
                    == Some(u)) || (p matches PrimitiveView::Float(k) && n.is_float && n.key
                    == k),
                _ => false,
            },
            None => false,
        },
        _ => false,
    }
}

/// What parsing an optional filter expression yields.
pub open spec fn parse_filter_spec(expr: Option<Seq<char>>) -> Result<
    Option<(Seq<char>, PrimitiveView)>,
    Error,
> {
    match expr {
        None => Ok(None),
        Some(s) => {
            let parts = split_seq(s, '=');
            if parts.len() != 2 || parts[0].len() == 0 || parts[1].len() == 0 {
                Err(Error::InvalidFilterExpression)
            } else {
                match classify_spec(parts[1]) {
                    Ok(p) => Ok(Some((parts[0], p))),
                    Err(e) => Err(e),
                }
            }
        }
    }
}

/// The records that survive the filter, in their original order.
pub open spec fn filter_spec(
    records: Seq<ValueView>,
    expr: Option<(Seq<char>, PrimitiveView)>,
) -> Seq<ValueView> {
    match expr {
        None => records,
        Some((field, p)) => records.filter(|v: ValueView| matches_spec(v, field, p)),
    }
}

proof fn lemma_strip_zeros_at(s: Seq<char>, z: int)
    requires
        0 <= z <= s.len(),
        forall|j: int| 0 <= j < z ==> s[j] == '0',
        z < s.len() ==> s[z] != '0',
    ensures
        strip_zeros(s) == s.skip(z),
    decreases z,
{
    if z == 0 {
        if s.len() > 0 && s[0] == '0' {
            assert(false);
        }
        assert(s.skip(0) =~= s);
    } else {
        assert(s[0] == '0');
        assert forall|j: int| 0 <= j < z - 1 implies s.skip(1)[j] == '0' by {
            assert(s.skip(1)[j] == s[j + 1]);
        }
        if z - 1 < s.skip(1).len() {
            assert(s.skip(1)[z - 1] == s[z]);
        }
        lemma_strip_zeros_at(s.skip(1), z - 1);
        assert(s.skip(1).skip(z - 1) =~= s.skip(z));
    }
}

impl Primitive {
    /// Reads the right-hand side of a filter expression by its lexical
    /// shape.
    #[verifier::loop_isolation(false)]
    pub fn parse(expr: &str) -> (r: Result<Primitive, Error>)
        ensures
            match r {
                Ok(p) => classify_spec(expr@) == Ok::<PrimitiveView, Error>(p@),
                Err(e) => classify_spec(expr@) == Err::<PrimitiveView, Error>(e),
            },
    {
        if str_eq_str(expr, "true") {
            return Ok(Primitive::Bool(true));
        }
        if str_eq_str(expr, "false") {
            return Ok(Primitive::Bool(false));
        }
        let len = expr.unicode_len();
        if len == 0 {
            return Err(Error::InvalidFilterExpression);
        }
        let mut dots: usize = 0;
        let mut digit_seen = false;
        let mut i: usize = 0;
        while i < len
            invariant
                i <= len,
                len == expr@.len(),
                dots == count_char(expr@.take(i as int), '.'),
                dots <= i,
                digit_seen == has_digit(expr@.take(i as int)),
                forall|j: int| 0 <= j < i ==> is_digit_char(expr@[j]) || expr@[j] == '.',
            decreases len - i,
        {
            let c = expr.get_char(i);
            proof {
                assert(expr@.take(i as int + 1).drop_last() =~= expr@.take(i as int));
                assert(expr@.take(i as int + 1).last() == expr@[i as int]);
            }
            proof {
                lemma_has_digit_take(expr@, i as int);
            }
            if c == '.' {
                dots += 1;
            } else if '0' <= c && c <= '9' {
                digit_seen = true;
            } else {
                proof {
                    assert(!(is_digit_char(expr@[i as int]) || expr@[i as int] == '.'));
                }
                return Ok(Primitive::String(String::from_str(expr)));
            }
            i += 1;
        }
        proof {
            assert(expr@.take(len as int) =~= expr@);
        }
        if dots == 0 {
            proof {
                lemma_count_char_zero(expr@, '.');
                assert forall|t: int| 0 <= t < expr@.len() implies is_digit_char(
                    expr@[t],
                ) by {
                    if expr@[t] == '.' {
                        assert(expr@.contains('.'));
                    }
                }
                assert(all_digits(expr@));
            }
            match parse_u64(expr) {
                Some(n) => Ok(Primitive::Integer(n)),
                None => Err(Error::InvalidFilterExpression),
            }
        } else if dots == 1 {
            if !digit_seen {
                return Err(Error::InvalidFilterExpression);
            }
            let mut d: usize = 0;
            while d < len && expr.get_char(d) != '.'
                invariant
                    d <= len,
                    forall|j: int| 0 <= j < d ==> expr@[j] != '.',
                decreases len - d,
            {
                d += 1;
            }
            proof {
                lemma_find_char_at(expr@, '.', d as int);
                lemma_count_char_zero(expr@, '.');
                if d == len {
                    assert(!expr@.contains('.'));
                    assert(false);
                }
            }
            let ip = expr.substring_char(0, d);
            let fp = expr.substring_char(d + 1, len);
            let mut z: usize = 0;
            let iplen = ip.unicode_len();
            while z < iplen && ip.get_char(z) == '0'
                invariant
                    z <= iplen,
                    iplen == ip@.len(),
                    forall|j: int| 0 <= j < z ==> ip@[j] == '0',
                decreases iplen - z,
            {
                z += 1;
            }
            proof {
                lemma_strip_zeros_at(ip@, z as int);
            }
            let ips = ip.substring_char(z, iplen);
            let mut canon = if ips.unicode_len() == 0 {
                String::from_str("0")
            } else {
                String::from_str(ips)
            };
            canon.append(".");
            if fp.unicode_len() == 0 {
                canon.append("0");
            } else {
                canon.append(fp);
            }
            proof {
                assert(canon@ == canonical_float(expr@));
            }
            match crate::value::float_key_of_text(canon.as_str()) {
                Some(k) => Ok(Primitive::Float(k)),
                None => Err(Error::InvalidFilterExpression),
            }
        } else {
            proof {
                lemma_count_char_ge(expr@, '.');
            }
            Ok(Primitive::String(String::from_str(expr)))
        }
    }
}

proof fn lemma_has_digit_take(s: Seq<char>, i: int)
    requires
        0 <= i < s.len(),
    ensures
        has_digit(s.take(i + 1)) == (has_digit(s.take(i)) || is_digit_char(s[i])),
{
    if has_digit(s.take(i + 1)) {
        let w = choose|w: int|
            0 <= w < s.take(i + 1).len() && is_digit_char(#[trigger] s.take(i + 1)[w]);
        if w < i {
            assert(s.take(i)[w] == s.take(i + 1)[w]);
            assert(has_digit(s.take(i)));
        } else {
            assert(s.take(i + 1)[w] == s[i]);
        }
    }
    if has_digit(s.take(i)) {
        let w = choose|w: int| 0 <= w < s.take(i).len() && is_digit_char(#[trigger] s.take(i)[w]);
        assert(s.take(i + 1)[w] == s.take(i)[w]);
        assert(has_digit(s.take(i + 1)));
    }
    if is_digit_char(s[i]) {
        assert(s.take(i + 1)[i] == s[i]);
        assert(has_digit(s.take(i + 1)));
    }
}

/// A prefix with no occurrence of `c` contributes no count.
proof fn lemma_count_char_zero(s: Seq<char>, c: char)
    ensures
        count_char(s, c) == 0 ==> !s.contains(c),
        !s.contains(c) ==> count_char(s, c) == 0,
        count_char(s, c) >= 0,
    decreases s.len(),
{
    if s.len() > 0 {
        lemma_count_char_zero(s.drop_last(), c);
        assert forall|j: int| 0 <= j < s.len() && s[j] == c implies s.contains(c) by {}
        if s.contains(c) {
            let w = choose|w: int| 0 <= w < s.len() && s[w] == c;
            if w < s.len() - 1 {
                assert(s.drop_last()[w] == c);
                assert(s.drop_last().contains(c));
            }
        }
        if s.drop_last().contains(c) {
            let w = choose|w: int| 0 <= w < s.drop_last().len() && s.drop_last()[w] == c;
            assert(s[w] == c);
        }
    }
}

proof fn lemma_count_char_ge(s: Seq<char>, c: char)
    ensures
        count_char(s, c) >= 0,
    decreases s.len(),
{
    if s.len() > 0 {
        lemma_count_char_ge(s.drop_last(), c);
    }
}

/// A filter literal matches only a field value of its own kind: a
/// boolean literal a boolean, a text literal a string, an integer
/// literal an unsigned-integer number, and a fractional literal a
/// fractional number. A field of any other kind never matches.
pub proof fn lemma_match_same_kind(v: ValueView, field: Seq<char>, p: PrimitiveView)
    requires
        matches_spec(v, field, p),
    ensures
        v is Object,
        obj_get(v->Object_0, field) matches Some(x) && (match p {
            PrimitiveView::Bool(b) => x matches ValueView::Bool(a) && a == b,
            PrimitiveView::String(t) => x matches ValueView::String(a) && a == t,
            PrimitiveView::Integer(u) => x matches ValueView::Number(n) && n.int_val
                == Some(u),
            PrimitiveView::Float(k) => x matches ValueView::Number(n) && n.is_float && n.key
                == k,
        }),
{
}

/// An integer literal never matches a number that is not an unsigned
/// integer, and a fractional literal never matches a number that is
/// not fractional.
pub proof fn lemma_number_type_mismatch(v: ValueView, field: Seq<char>, u: u64, k: u64)
    requires
        v matches ValueView::Object(o),
        obj_get(v->Object_0, field) matches Some(x) && x matches ValueView::Number(n),
    ensures
        obj_get(v->Object_0, field)->Some_0->Number_0.int_val is None ==> !matches_spec(
            v,
            field,
            PrimitiveView::Integer(u),
        ),
        !obj_get(v->Object_0, field)->Some_0->Number_0.is_float ==> !matches_spec(
            v,
            field,
            PrimitiveView::Float(k),
        ),
{
}

/// The filter stage: `None` is the identity transform.
#[derive(Debug)]
pub struct Filter {
    pub filter_expr: Option<(String, Primitive)>,
}

impl Filter {
    pub open spec fn filter_view(&self) -> Option<(Seq<char>, PrimitiveView)> {
        match self.filter_expr {
            None => None,
            Some((f, p)) => Some((f@, p@)),
        }
    }

    /// Parses an optional `field=value` expression: exactly one `=`,
    /// both sides non-empty, the right-hand side readable by its shape.
    pub fn parse(expr: &Option<String>) -> (r: Result<Filter, Error>)
        ensures
            match r {
                Ok(f) => match expr {
                    Some(s) => parse_filter_spec(Some(s@)) == Ok::<
                        Option<(Seq<char>, PrimitiveView)>,
                        Error,
                    >(f.filter_view()),
                    None => f.filter_view() is None,
                },
                Err(e) => expr matches Some(s) && parse_filter_spec(Some(s@)) == Err::<
                    Option<(Seq<char>, PrimitiveView)>,
                    Error,
                >(e),
            },
    {
        match expr {
            None => Ok(Filter { filter_expr: None }),
            Some(s) => {
                let parts = split_char(s.as_str(), '=');
                proof {
                    assert(strs_view(parts@) == split_seq(s@, '='));
                    assert(strs_view(parts@).len() == parts@.len());
                }
                if parts.len() != 2 {
                    return Err(Error::InvalidFilterExpression);
                }
                proof {
                    assert(parts@[0]@ == strs_view(parts@)[0]);
                    assert(parts@[1]@ == strs_view(parts@)[1]);
                }
                if parts[0].as_str().unicode_len() == 0 || parts[1].as_str().unicode_len()
                    == 0 {
                    return Err(Error::InvalidFilterExpression);
                }
                match Primitive::parse(parts[1].as_str()) {
                    Ok(p) => Ok(
                        Filter { filter_expr: Some((parts[0].clone(), p)) },
                    ),
                    Err(e) => Err(e),
                }
            }
        }
    }

    /// Keeps exactly the records that match the expression, in order;
    /// with no expression, returns the collection unchanged.
    #[verifier::loop_isolation(false)]
    pub fn apply(&self, values: Vec<Value>) -> (r: Vec<Value>)
        ensures
            records_view(r@) == filter_spec(records_view(values@), self.filter_view()),
    {
        match &self.filter_expr {
            None => values,
            Some(fe) => {
                let ghost recs = records_view(values@);
                let ghost field = fe.0@;
                let ghost p = fe.1@;
                let ghost pred = |v: ValueView| matches_spec(v, field, p);
                let mut out: Vec<Value> = Vec::new();
                let mut k: usize = 0;
                proof {
                    reveal(Seq::filter);
                    assert(records_view(out@) =~= recs.take(0).filter(pred));
                }
                while k < values.len()
                    invariant
                        k <= values.len(),
                        records_view(out@) == recs.take(k as int).filter(pred),
                    decreases values.len() - k,
                {
                    proof {
                        reveal(Seq::filter);
                        assert(recs.take(k as int + 1).drop_last() =~= recs.take(k as int));
                        assert(recs.take(k as int + 1).last() == values@[k as int]@);
                    }
                    if matches(&values[k], fe) {
                        out.push(values[k].deep_copy());
                        proof {
                            assert(records_view(out@) =~= recs.take(k as int + 1).filter(
                                pred,
                            ));
                        }
                    } else {
                        proof {
                            assert(records_view(out@) =~= recs.take(k as int + 1).filter(
                                pred,
                            ));
                        }
                    }
                    k += 1;
                }
                proof {
                    assert(recs.take(values@.len() as int) =~= recs);
                }
                out
            }
        }
    }
}

/// Whether one record matches the parsed filter expression.
pub fn matches(value: &Value, filter_expr: &(String, Primitive)) -> (r: bool)
    ensures
        r == matches_spec(value@, filter_expr.0@, filter_expr.1@),
{
    match value {
        Value::Object(entries) => {
            proof {
                assert(value@->Object_0 =~= obj_view(entries@));
            }
            match entries_get(entries, filter_expr.0.as_str()) {
                Some(inner) => match (inner, &filter_expr.1) {
                    (Value::Bool(a), Primitive::Bool(b)) => *a == *b,
                    (Value::String(a), Primitive::String(b)) => str_eq_str(
                        a.as_str(),
                        b.as_str(),
                    ),
                    (Value::Number(n), Primitive::Integer(u)) => match n.int_val {
                        Some(x) => x == *u,
                        None => false,
                    },
                    (Value::Number(n), Primitive::Float(k)) => n.is_float && n.key == *k,
                    _ => false,
                },
                None => false,
            }
        }
        _ => false,
    }
}

impl crate::action::Action for Filter {
    fn apply(&self, values: Vec<Value>) -> Result<Vec<Value>, Error> {
        Ok(Filter::apply(self, values))
    }
}

} // verus!
