//! The tree of JSON-like values that the pipeline transforms: null,
//! booleans, numbers, strings, ordered arrays, and ordered-insertion
//! objects with string keys.
//!
//! A number is modelled by the plain values the pipeline reads of it: its
//! rendered text, its value as an unsigned integer when it is one, whether
//! it is a fractional (floating-point) number, and an order key that
//! ranks numbers as their floating-point values do.

use vstd::prelude::*;

verus! {

use vstd::string::StrSliceExecFns;
use vstd::string::StringExecFns;
use crate::text::u64_dec;
use crate::text::u64_string;
use crate::text::str_eq_str;

broadcast use vstd::std_specs::vec::group_vec_axioms;

/// The bit pattern of the floating-point value that the decimal text
/// parses to, or `None` when the text is not a valid JSON number.
pub uninterp spec fn f64_bits_of(s: Seq<char>) -> Option<u64>;

/// Relies on `serde_json::Number`'s `FromStr`, `as_f64` and the standard
/// `f64::to_bits`: together they map decimal text to the bit pattern of
/// the floating-point value it denotes, a function of the text alone.
#[verifier::external_body]
fn f64_bits_of_text(s: &str) -> (r: Option<u64>)
    ensures
        r == f64_bits_of(s@),
{
    match s.parse::<serde_json::Number>() {
        Ok(n) => match n.as_f64() {
            Some(f) => Some(f.to_bits()),
            None => None,
        },
        Err(_) => None,
    }
}

/// Maps a floating-point bit pattern to a key whose unsigned order is the
/// order of the floating-point values (negative zero keyed as zero).
pub open spec fn spec_key_of_bits(bits: u64) -> u64 {
    if bits == 0x8000_0000_0000_0000 {
        0x8000_0000_0000_0000
    } else if bits >= 0x8000_0000_0000_0000 {
        !bits
    } else {
        bits | 0x8000_0000_0000_0000
    }
}

pub fn key_of_bits(bits: u64) -> (r: u64)
    ensures
        r == spec_key_of_bits(bits),
{
    if bits == 0x8000_0000_0000_0000 {
        0x8000_0000_0000_0000
    } else if bits >= 0x8000_0000_0000_0000 {
        !bits
    } else {
        bits | 0x8000_0000_0000_0000
    }
}

/// The order key of the number that the decimal text denotes; zero when
/// the text does not denote one.
pub open spec fn spec_key_of_text(s: Seq<char>) -> u64 {
    match f64_bits_of(s) {
        Some(bits) => spec_key_of_bits(bits),
        None => 0,
    }
}

/// The order key of the number that the decimal text denotes, or
/// `None` when it does not denote one.
pub fn float_key_of_text(s: &str) -> (r: Option<u64>)
    ensures
        match r {
            Some(k) => f64_bits_of(s@) matches Some(bits) && k == spec_key_of_bits(bits),
            None => f64_bits_of(s@) is None,
        },
{
    match f64_bits_of_text(s) {
        Some(bits) => Some(key_of_bits(bits)),
        None => None,
    }
}

#[derive(Debug)]
pub struct Number {
    /// The rendered form of the number, shown in cells.
    pub text: String,
    /// Its value when it is an unsigned integer, as `u64`.
    pub int_val: Option<u64>,
    /// Whether the number is fractional (a floating-point number).
    pub is_float: bool,
    /// Total-order key: numbers compare as their floating-point values do.
    pub key: u64,
}

#[verifier::ext_equal]
pub struct NumberView {
    pub text: Seq<char>,
    pub int_val: Option<u64>,
    pub is_float: bool,
    pub key: u64,
}

impl View for Number {
    type V = NumberView;

    open spec fn view(&self) -> NumberView {
        NumberView {
            text: self.text@,
            int_val: self.int_val,
            is_float: self.is_float,
            key: self.key,
        }
    }
}

impl Number {
    /// The number `n`, as a JSON integer.
    pub fn from_u64(n: u64) -> (r: Number)
        ensures
            r@.text == u64_dec(n as int),
            r@.int_val == Some(n),
            !r@.is_float,
            r@.key == spec_key_of_text(u64_dec(n as int)),
    {
        let text = u64_string(n);
        let key = match f64_bits_of_text(text.as_str()) {
            Some(bits) => key_of_bits(bits),
            None => 0,
        };
        Number { text, int_val: Some(n), is_float: false, key }
    }

    /// A fractional number written as decimal text, e.g. `1.5`. Returns
    /// `None` when the text is not a valid JSON number.
    pub fn from_float_text(s: &str) -> (r: Option<Number>)
        ensures
            match r {
                Some(n) => f64_bits_of(s@) is Some && n@.text == s@ && n@.int_val is None
                    && n@.is_float && n@.key == spec_key_of_text(s@),
                None => f64_bits_of(s@) is None,
            },
    {
        match f64_bits_of_text(s) {
            Some(bits) => Some(
                Number {
                    text: String::from_str(s),
                    int_val: None,
                    is_float: true,
                    key: key_of_bits(bits),
                },
            ),
            None => None,
        }
    }

    /// A number described field by field, for callers that hold one in an
    /// already-parsed form; the order key is computed from `text`.
    pub fn from_parts(text: &str, int_val: Option<u64>, is_float: bool) -> (r: Number)
        ensures
            r@.text == text@,
            r@.int_val == int_val,
            r@.is_float == is_float,
            r@.key == spec_key_of_text(text@),
    {
        let key = match f64_bits_of_text(text) {
            Some(bits) => key_of_bits(bits),
            None => 0,
        };
        Number { text: String::from_str(text), int_val, is_float, key }
    }

    pub fn deep_copy(&self) -> (r: Number)
        ensures
            r@ == self@,
    {
        Number {
            text: self.text.clone(),
            int_val: match self.int_val {
                Some(n) => Some(n),
                None => None,
            },
            is_float: self.is_float,
            key: self.key,
        }
    }
}

#[derive(Debug)]
pub enum Value {
    Null,
    Bool(bool),
    Number(Number),
    String(String),
    Array(Vec<Value>),
    Object(Vec<(String, Value)>),
}

#[verifier::ext_equal]
pub enum ValueView {
    Null,
    Bool(bool),
    Number(NumberView),
    String(Seq<char>),
    Array(Seq<ValueView>),
    Object(Seq<(Seq<char>, ValueView)>),
}

pub open spec fn value_view(v: Value) -> ValueView
    decreases v,
{
    match v {
        Value::Null => ValueView::Null,
        Value::Bool(b) => ValueView::Bool(b),
        Value::Number(n) => ValueView::Number(n@),
        Value::String(s) => ValueView::String(s@),
        Value::Array(a) => ValueView::Array(
            Seq::new(
                a@.len(),
                |i: int|
                    if 0 <= i < a@.len() {
                        value_view(a@[i])
                    } else {
                        ValueView::Null
                    },
            ),
        ),
        Value::Object(o) => ValueView::Object(
            Seq::new(
                o@.len(),
                |i: int|
                    if 0 <= i < o@.len() {
                        (o@[i].0@, value_view(o@[i].1))
                    } else {
                        (Seq::empty(), ValueView::Null)
                    },
            ),
        ),
    }
}

impl View for Value {
    type V = ValueView;

    open spec fn view(&self) -> ValueView {
        value_view(*self)
    }
}

/// The views of a sequence of records.
pub open spec fn records_view(v: Seq<Value>) -> Seq<ValueView> {
    v.map_values(|x: Value| x@)
}

/// The view of an object's entry list.
pub open spec fn obj_view(o: Seq<(String, Value)>) -> Seq<(Seq<char>, ValueView)> {
    Seq::new(o.len(), |i: int| (o[i].0@, o[i].1@))
}

/// Index of the first entry bound to `key`, or the length if none is.
pub open spec fn obj_index_of(o: Seq<(Seq<char>, ValueView)>, key: Seq<char>) -> int
    decreases o.len(),
{
    if o.len() == 0 {
        0
    } else if o[0].0 == key {
        0
    } else {
        1 + obj_index_of(o.skip(1), key)
    }
}

pub open spec fn obj_contains(o: Seq<(Seq<char>, ValueView)>, key: Seq<char>) -> bool {
    exists|i: int| 0 <= i < o.len() && o[i].0 == key
}

/// The value bound to `key`, or `None`; with duplicate keys, the first
/// binding wins.
pub open spec fn obj_get(o: Seq<(Seq<char>, ValueView)>, key: Seq<char>) -> Option<ValueView>
    decreases o.len(),
{
    if o.len() == 0 {
        None
    } else if o[0].0 == key {
        Some(o[0].1)
    } else {
        obj_get(o.skip(1), key)
    }
}

/// Binds `key` to `val`: replaces the first binding of `key` in place, or
/// appends a new entry at the end.
pub open spec fn obj_insert(
    o: Seq<(Seq<char>, ValueView)>,
    key: Seq<char>,
    val: ValueView,
) -> Seq<(Seq<char>, ValueView)>
    decreases o.len(),
{
    if o.len() == 0 {
        seq![(key, val)]
    } else if o[0].0 == key {
        seq![(key, val)] + o.skip(1)
    } else {
        seq![o[0]] + obj_insert(o.skip(1), key, val)
    }
}

/// Removes the first binding of `key`, keeping the order of the rest.
pub open spec fn obj_remove(
    o: Seq<(Seq<char>, ValueView)>,
    key: Seq<char>,
) -> Seq<(Seq<char>, ValueView)>
    decreases o.len(),
{
    if o.len() == 0 {
        o
    } else if o[0].0 == key {
        o.skip(1)
    } else {
        seq![o[0]] + obj_remove(o.skip(1), key)
    }
}

/// Keys are bound at most once.
pub open spec fn unique_keys(o: Seq<(Seq<char>, ValueView)>) -> bool {
    forall|i: int, j: int| 0 <= i < j < o.len() ==> o[i].0 != o[j].0
}

/// Object keys are unique within one object, recursively.
pub open spec fn wf_value(v: ValueView) -> bool
    decreases v,
{
    match v {
        ValueView::Array(a) => forall|i: int| 0 <= i < a.len() ==> wf_value(#[trigger] a[i]),
        ValueView::Object(o) => (forall|i: int|
            0 <= i < o.len() ==> wf_value(#[trigger] o[i].1)) && unique_keys(o),
        _ => true,
    }
}

/// Binding a key keeps keys unique: the first old binding is replaced in
/// place, or a key not yet bound is appended.
pub proof fn lemma_obj_insert_unique(
    o: Seq<(Seq<char>, ValueView)>,
    key: Seq<char>,
    val: ValueView,
)
    requires
        unique_keys(o),
    ensures
        unique_keys(obj_insert(o, key, val)),
{
    lemma_obj_index_of_props(o, key);
    lemma_obj_insert_at(o, key, val);
    let ip = obj_index_of(o, key);
    let out = obj_insert(o, key, val);
    if ip < o.len() {
        assert forall|i: int, j: int| 0 <= i < j < out.len() implies out[i].0 != out[j].0 by {
            if i == ip {
                if o[j].0 == key {
                    assert(o[ip].0 == o[j].0);
                }
            } else if j == ip {
                if o[i].0 == key {
                    assert(o[i].0 == o[ip].0);
                }
            }
        }
    } else {
        assert forall|i: int, j: int| 0 <= i < j < out.len() implies out[i].0 != out[j].0 by {
            if j == o.len() {
                assert(o[i].0 != key);
            }
        }
    }
}

/// Some entry of `o` binds the value `x`.
pub open spec fn value_in(o: Seq<(Seq<char>, ValueView)>, x: ValueView) -> bool {
    exists|i: int| 0 <= i < o.len() && o[i].1 == x
}

/// Binding one key adds no values beyond the new one.
pub proof fn lemma_obj_insert_values(
    o: Seq<(Seq<char>, ValueView)>,
    key: Seq<char>,
    val: ValueView,
)
    ensures
        forall|t: int|
            0 <= t < obj_insert(o, key, val).len() ==> #[trigger] obj_insert(o, key, val)[t].1
                == val || value_in(o, obj_insert(o, key, val)[t].1),
{
    lemma_obj_index_of_props(o, key);
    lemma_obj_insert_at(o, key, val);
    let out = obj_insert(o, key, val);
    assert forall|t: int| 0 <= t < out.len() implies out[t].1 == val || value_in(
        o,
        out[t].1,
    ) by {
        let ip = obj_index_of(o, key);
        if ip < o.len() {
            if t != ip {
                assert(out[t] == o[t]);
                assert(value_in(o, o[t].1));
            }
        } else {
            if t < o.len() {
                assert(out[t] == o[t]);
                assert(value_in(o, o[t].1));
            }
        }
    }
}

/// Removing a binding keeps only values that were bound before.
pub proof fn lemma_obj_remove_values(o: Seq<(Seq<char>, ValueView)>, key: Seq<char>)
    ensures
        forall|t: int|
            0 <= t < obj_remove(o, key).len() ==> value_in(
                o,
                #[trigger] obj_remove(o, key)[t].1,
            ),
{
    lemma_obj_index_of_props(o, key);
    lemma_obj_remove_at(o, key);
    let out = obj_remove(o, key);
    let ip = obj_index_of(o, key);
    assert forall|t: int| 0 <= t < out.len() implies value_in(o, out[t].1) by {
        if ip < o.len() {
            let u: int = if t < ip {
                t
            } else {
                t + 1
            };
            assert(out[t] == o[u]);
            assert(value_in(o, o[u].1));
        } else {
            assert(value_in(o, o[t].1));
        }
    }
}

/// Removing a binding keeps keys unique.
pub proof fn lemma_obj_remove_unique(o: Seq<(Seq<char>, ValueView)>, key: Seq<char>)
    requires
        unique_keys(o),
    ensures
        unique_keys(obj_remove(o, key)),
{
    lemma_obj_index_of_props(o, key);
    lemma_obj_remove_at(o, key);
    let ip = obj_index_of(o, key);
    if ip < o.len() {
        let out = obj_remove(o, key);
        assert forall|i: int, j: int| 0 <= i < j < out.len() implies out[i].0 != out[j].0 by {
            let oi: int = if i < ip {
                i
            } else {
                i + 1
            };
            let oj: int = if j < ip {
                j
            } else {
                j + 1
            };
            assert(out[i] == o[oi] && out[j] == o[oj]);
        }
    }
}

impl Value {
    pub fn is_object(&self) -> (r: bool)
        ensures
            r == (self@ is Object),
    {
        matches!(self, Value::Object(_))
    }

    #[verifier::loop_isolation(false)]
    pub fn deep_copy(&self) -> (r: Value)
        ensures
            r@ == self@,
        decreases self,
    {
        match self {
            Value::Null => Value::Null,
            Value::Bool(b) => Value::Bool(*b),
            Value::Number(n) => Value::Number(n.deep_copy()),
            Value::String(s) => Value::String(s.clone()),
            Value::Array(a) => {
                let mut out: Vec<Value> = Vec::new();
                let mut i: usize = 0;
                while i < a.len()
                    invariant
                        i <= a.len(),
                        out.len() == i,
                        forall|j: int| 0 <= j < i ==> out[j]@ == a[j]@,
                    decreases a.len() - i,
                {
                    proof {
                        let sv = *self;
                        assert(decreases_to!(sv => sv->Array_0));
                        assert(decreases_to!(sv->Array_0 => sv->Array_0@));
                        assert(decreases_to!(sv->Array_0@ => sv->Array_0@[i as int]));
                        assert(decreases_to!(*self => a@[i as int]));
                    }
                    out.push(a[i].deep_copy());
                    i += 1;
                }
                let ghost outv = out@;
                proof {
                    assert forall|j: int| 0 <= j < outv.len() implies value_view(outv[j])
                        == value_view(a@[j]) by {
                        assert(out[j]@ == a[j]@);
                    }
                }
                let r = Value::Array(out);
                proof {
                    assert(r@->Array_0 =~= self@->Array_0);
                    assert(r@ == self@);
                }
                r
            }
            Value::Object(o) => {
                let mut out: Vec<(String, Value)> = Vec::new();
                let mut i: usize = 0;
                while i < o.len()
                    invariant
                        i <= o.len(),
                        out.len() == i,
                        forall|j: int|
                            0 <= j < i ==> out[j].0@ == o[j].0@ && out[j].1@ == o[j].1@,
                    decreases o.len() - i,
                {
                    proof {
                        let sv = *self;
                        assert(decreases_to!(sv => sv->Object_0));
                        assert(decreases_to!(sv->Object_0 => sv->Object_0@));
                        assert(decreases_to!(sv->Object_0@ => sv->Object_0@[i as int]));
                        assert(decreases_to!(sv->Object_0@[i as int] => sv->Object_0@[i as int].1));
                        assert(decreases_to!(*self => o@[i as int].1));
                    }
                    out.push((o[i].0.clone(), o[i].1.deep_copy()));
                    i += 1;
                }
                let ghost outv = out@;
                proof {
                    assert forall|j: int| 0 <= j < outv.len() implies outv[j].0@ == o@[j].0@
                        && value_view(outv[j].1) == value_view(o@[j].1) by {
                        assert(out[j].0@ == o[j].0@ && out[j].1@ == o[j].1@);
                    }
                }
                let r = Value::Object(out);
                proof {
                    assert(r@->Object_0 =~= self@->Object_0);
                    assert(r@ == self@);
                }
                r
            }
        }
    }

    /// An object built from its entries, in order.
    pub fn object(entries: Vec<(String, Value)>) -> (r: Value)
        ensures
            r@ == ValueView::Object(obj_view(entries@)),
    {
        let ghost e = entries@;
        let r = Value::Object(entries);
        proof {
            assert(r@ is Object);
            assert(r@->Object_0.len() == e.len());
            assert(forall|i: int| 0 <= i < e.len() ==> r@->Object_0[i] == obj_view(e)[i]);
            assert(r@->Object_0 =~~= obj_view(e));
            assert(r@ == ValueView::Object(obj_view(e)));
        }
        r
    }
}

/// First index bound to `key` in the entry list, or its length.
pub fn entries_index_of(o: &Vec<(String, Value)>, key: &str) -> (r: usize)
    ensures
        r == obj_index_of(obj_view(o@), key@),
        r <= o.len(),
{
    let mut i: usize = 0;
    while i < o.len()
        invariant
            i <= o.len(),
            forall|j: int| 0 <= j < i ==> obj_view(o@)[j].0 != key@,
        decreases o.len() - i,
    {
        if str_eq_str(o[i].0.as_str(), key) {
            proof {
                lemma_obj_index_of_at(obj_view(o@), key@, i as int);
            }
            return i;
        }
        i += 1;
    }
    proof {
        lemma_obj_index_of_at(obj_view(o@), key@, o.len() as int);
    }
    o.len()
}

pub proof fn lemma_obj_index_of_at(o: Seq<(Seq<char>, ValueView)>, key: Seq<char>, i: int)
    requires
        0 <= i <= o.len(),
        forall|j: int| 0 <= j < i ==> o[j].0 != key,
        i < o.len() ==> o[i].0 == key,
    ensures
        obj_index_of(o, key) == i,
    decreases i,
{
    if o.len() == 0 {
    } else if i == 0 {
        if o[0].0 != key {
            assert(false);
        }
    } else {
        assert forall|j: int| 0 <= j < i - 1 implies o.skip(1)[j].0 != key by {
            assert(o.skip(1)[j] == o[j + 1]);
        }
        if i - 1 < o.skip(1).len() {
            assert(o.skip(1)[i - 1] == o[i]);
        }
        lemma_obj_index_of_at(o.skip(1), key, i - 1);
    }
}

/// `obj_index_of` characterizes `obj_contains` and `obj_get`.
pub proof fn lemma_obj_index_of_props(o: Seq<(Seq<char>, ValueView)>, key: Seq<char>)
    ensures
        0 <= obj_index_of(o, key) <= o.len(),
        obj_contains(o, key) <==> obj_index_of(o, key) < o.len(),
        obj_index_of(o, key) < o.len() ==> o[obj_index_of(o, key)].0 == key && obj_get(o, key)
            == Some(o[obj_index_of(o, key)].1),
        forall|j: int| 0 <= j < obj_index_of(o, key) ==> o[j].0 != key,
        !obj_contains(o, key) ==> obj_get(o, key) is None,
    decreases o.len(),
{
    if o.len() == 0 {
    } else if o[0].0 == key {
    } else {
        lemma_obj_index_of_props(o.skip(1), key);
        let i = obj_index_of(o, key);
        assert(i == 1 + obj_index_of(o.skip(1), key));
        if i < o.len() {
            assert(o.skip(1)[i - 1] == o[i]);
        }
        assert forall|j: int| 0 <= j < i implies o[j].0 != key by {
            if j > 0 {
                assert(o.skip(1)[j - 1] == o[j]);
            }
        }
        if obj_contains(o, key) {
            let w = choose|w: int| 0 <= w < o.len() && o[w].0 == key;
            assert(o.skip(1)[w - 1] == o[w]);
            assert(obj_contains(o.skip(1), key));
        }
        if obj_contains(o.skip(1), key) {
            let w = choose|w: int| 0 <= w < o.skip(1).len() && o.skip(1)[w].0 == key;
            assert(o[w + 1] == o.skip(1)[w]);
            assert(obj_contains(o, key));
        }
    }
}

/// Looks `key` up in an entry list.
pub fn entries_get<'a>(o: &'a Vec<(String, Value)>, key: &str) -> (r: Option<&'a Value>)
    ensures
        match r {
            Some(v) => obj_get(obj_view(o@), key@) == Some(v@),
            None => obj_get(obj_view(o@), key@) is None,
        },
{
    proof {
        lemma_obj_index_of_props(obj_view(o@), key@);
    }
    let i = entries_index_of(o, key);
    if i < o.len() {
        Some(&o[i].1)
    } else {
        None
    }
}

pub proof fn lemma_obj_insert_at(
    o: Seq<(Seq<char>, ValueView)>,
    key: Seq<char>,
    val: ValueView,
)
    ensures
        obj_insert(o, key, val) == if obj_index_of(o, key) < o.len() {
            o.update(obj_index_of(o, key), (key, val))
        } else {
            o.push((key, val))
        },
    decreases o.len(),
{
    lemma_obj_index_of_props(o, key);
    if o.len() == 0 {
        assert(obj_insert(o, key, val) =~= o.push((key, val)));
    } else if o[0].0 == key {
        assert(obj_insert(o, key, val) =~= o.update(0, (key, val)));
    } else {
        lemma_obj_insert_at(o.skip(1), key, val);
        lemma_obj_index_of_props(o.skip(1), key);
        let i = obj_index_of(o, key);
        assert(i == 1 + obj_index_of(o.skip(1), key));
        if i < o.len() {
            assert(obj_insert(o, key, val) =~= o.update(i, (key, val)));
        } else {
            assert(obj_insert(o, key, val) =~= o.push((key, val)));
        }
    }
}

/// Binds `key` to `val` in the entry list: replaces in place or appends.
pub fn entries_insert(o: &mut Vec<(String, Value)>, key: String, val: Value)
    ensures
        obj_view(final(o)@) == obj_insert(obj_view(old(o)@), key@, val@),
{
    proof {
        lemma_obj_insert_at(obj_view(o@), key@, val@);
        lemma_obj_index_of_props(obj_view(o@), key@);
    }
    let i = entries_index_of(o, key.as_str());
    if i < o.len() {
        o.set(i, (key, val));
        proof {
            assert(obj_view(o@) =~= obj_view(old(o)@).update(
                obj_index_of(obj_view(old(o)@), key@),
                (key@, val@),
            ));
        }
    } else {
        o.push((key, val));
        proof {
            assert(obj_view(o@) =~= obj_view(old(o)@).push((key@, val@)));
        }
    }
}

pub proof fn lemma_obj_remove_at(o: Seq<(Seq<char>, ValueView)>, key: Seq<char>)
    ensures
        obj_remove(o, key) == if obj_index_of(o, key) < o.len() {
            o.remove(obj_index_of(o, key))
        } else {
            o
        },
    decreases o.len(),
{
    lemma_obj_index_of_props(o, key);
    if o.len() == 0 {
    } else if o[0].0 == key {
        assert(obj_remove(o, key) =~= o.remove(0));
    } else {
        lemma_obj_remove_at(o.skip(1), key);
        lemma_obj_index_of_props(o.skip(1), key);
        let i = obj_index_of(o, key);
        assert(i == 1 + obj_index_of(o.skip(1), key));
        if i < o.len() {
            assert(obj_remove(o, key) =~= o.remove(i));
        } else {
            assert(obj_remove(o, key) =~= o);
        }
    }
}

/// Removes the first binding of `key` from the entry list and returns its
/// value, when one was there.
pub fn entries_remove(o: &mut Vec<(String, Value)>, key: &str) -> (r: Option<Value>)
    ensures
        obj_view(final(o)@) == obj_remove(obj_view(old(o)@), key@),
        match r {
            Some(v) => obj_get(obj_view(old(o)@), key@) == Some(v@),
            None => obj_get(obj_view(old(o)@), key@) is None,
        },
{
    proof {
        lemma_obj_remove_at(obj_view(o@), key@);
        lemma_obj_index_of_props(obj_view(o@), key@);
    }
    let i = entries_index_of(o, key);
    if i < o.len() {
        let (_, v) = o.remove(i);
        proof {
            assert(obj_view(o@) =~= obj_view(old(o)@).remove(
                obj_index_of(obj_view(old(o)@), key@),
            ));
        }
        Some(v)
    } else {
        None
    }
}

} // verus!
