//! The sort transform: a stable sort of the records by one field's
//! value, under a total preorder across the value kinds: strings order
//! before numbers, numbers before booleans, booleans before null;
//! within a kind, values order naturally. Arrays, objects and records
//! that are not objects compare equal to everything, and a record
//! missing the field sorts after every record that has it.

use vstd::prelude::*;

verus! {

use vstd::string::StrSliceExecFns;
use crate::value::Value;
use crate::value::ValueView;
use crate::value::obj_contains;
use crate::value::obj_get;
use crate::value::obj_view;
use crate::value::records_view;
use crate::value::entries_get;
use crate::value::lemma_obj_index_of_props;
use crate::Error;

/// Lexicographic three-way comparison by code point.
pub open spec fn str_cmp(a: Seq<char>, b: Seq<char>) -> int
    decreases a.len(),
{
    if a.len() == 0 && b.len() == 0 {
        0
    } else if a.len() == 0 {
        -1
    } else if b.len() == 0 {
        1
    } else if a[0] < b[0] {
        -1
    } else if b[0] < a[0] {
        1
    } else {
        str_cmp(a.skip(1), b.skip(1))
    }
}

/// Three-way comparison of two field values. Arrays and objects are
/// un-orderable: they compare equal to everything.
pub open spec fn val_cmp(a: ValueView, b: ValueView) -> int {
    match (a, b) {
        (ValueView::Array(_), _) => 0,
        (ValueView::Object(_), _) => 0,
        (_, ValueView::Array(_)) => 0,
        (_, ValueView::Object(_)) => 0,
        (ValueView::String(x), ValueView::String(y)) => str_cmp(x, y),
        (ValueView::Number(x), ValueView::Number(y)) => if x.key < y.key {
            -1
        } else if y.key < x.key {
            1
        } else {
            0
        },
        (ValueView::Bool(x), ValueView::Bool(y)) => if x == y {
            0
        } else if !x {
            -1
        } else {
            1
        },
        (ValueView::Null, ValueView::Null) => 0,
        _ => if kind_rank(a) < kind_rank(b) {
            -1
        } else {
            1
        },
    }
}

/// The rank of a kind: when kinds differ, null orders after booleans,
/// booleans after numbers, numbers after strings.
pub open spec fn kind_rank(v: ValueView) -> int {
    match v {
        ValueView::String(_) => 0,
        ValueView::Number(_) => 1,
        ValueView::Bool(_) => 2,
        ValueView::Null => 3,
        _ => 4,
    }
}

/// Three-way comparison of two records by `field`: present orders
/// before missing; two records that both miss it, and records that are
/// not objects, compare equal.
pub open spec fn record_cmp(field: Seq<char>, a: ValueView, b: ValueView) -> int {
    match (a, b) {
        (ValueView::Object(ao), ValueView::Object(bo)) => match (
            obj_get(ao, field),
            obj_get(bo, field),
        ) {
            (Some(x), Some(y)) => val_cmp(x, y),
            (Some(_), None) => -1,
            (None, Some(_)) => 1,
            (None, None) => 0,
        },
        _ => 0,
    }
}

/// Stable insertion: `x` goes before the first element strictly greater
/// than it, hence after every element it ties with.
pub open spec fn insert_sorted(x: ValueView, s: Seq<ValueView>, field: Seq<char>) -> Seq<
    ValueView,
>
    decreases s.len(),
{
    if s.len() == 0 {
        seq![x]
    } else if record_cmp(field, s[0], x) == 1 {
        seq![x] + s
    } else {
        seq![s[0]] + insert_sorted(x, s.skip(1), field)
    }
}

/// The stable sort, defined by inserting each record in turn.
pub open spec fn sort_spec(s: Seq<ValueView>, field: Seq<char>) -> Seq<ValueView>
    decreases s.len(),
{
    if s.len() == 0 {
        Seq::empty()
    } else {
        insert_sorted(s.last(), sort_spec(s.drop_last(), field), field)
    }
}

/// What the stage does: nothing without a configured field.
pub open spec fn sort_apply_spec(s: Seq<ValueView>, field: Option<Seq<char>>) -> Seq<
    ValueView,
> {
    match field {
        None => s,
        Some(f) => sort_spec(s, f),
    }
}

/// Where `x` lands: the index of the first element strictly greater.
pub open spec fn insert_point(x: ValueView, s: Seq<ValueView>, field: Seq<char>) -> int
    decreases s.len(),
{
    if s.len() == 0 {
        0
    } else if record_cmp(field, s[0], x) == 1 {
        0
    } else {
        1 + insert_point(x, s.skip(1), field)
    }
}

pub proof fn lemma_insert_point_props(x: ValueView, s: Seq<ValueView>, field: Seq<char>)
    ensures
        0 <= insert_point(x, s, field) <= s.len(),
        forall|k: int|
            0 <= k < insert_point(x, s, field) ==> record_cmp(field, #[trigger] s[k], x) != 1,
        insert_point(x, s, field) < s.len() ==> record_cmp(
            field,
            s[insert_point(x, s, field)],
            x,
        ) == 1,
    decreases s.len(),
{
    if s.len() == 0 {
    } else if record_cmp(field, s[0], x) == 1 {
    } else {
        lemma_insert_point_props(x, s.skip(1), field);
        let ip = insert_point(x, s, field);
        assert(ip == 1 + insert_point(x, s.skip(1), field));
        if ip < s.len() {
            assert(s.skip(1)[ip - 1] == s[ip]);
        }
        assert forall|k: int| 0 <= k < ip implies record_cmp(field, #[trigger] s[k], x)
            != 1 by {
            if k > 0 {
                assert(s.skip(1)[k - 1] == s[k]);
            }
        }
    }
}

/// Inserting at a position with the insert-point's properties yields
/// exactly the three-part split.
pub proof fn lemma_insert_sorted_split(
    x: ValueView,
    s: Seq<ValueView>,
    field: Seq<char>,
    m: int,
)
    requires
        0 <= m <= s.len(),
        forall|k: int| 0 <= k < m ==> record_cmp(field, #[trigger] s[k], x) != 1,
        m < s.len() ==> record_cmp(field, s[m], x) == 1,
    ensures
        insert_sorted(x, s, field) == s.take(m) + seq![x] + s.skip(m),
    decreases m,
{
    if s.len() == 0 {
        assert(insert_sorted(x, s, field) =~= s.take(m) + seq![x] + s.skip(m));
    } else if m == 0 {
        if record_cmp(field, s[0], x) == 1 {
            assert(insert_sorted(x, s, field) =~= s.take(0) + seq![x] + s.skip(0));
        } else {
            assert(false);
        }
    } else {
        assert(record_cmp(field, s[0], x) != 1);
        assert forall|k: int| 0 <= k < m - 1 implies record_cmp(
            field,
            #[trigger] s.skip(1)[k],
            x,
        ) != 1 by {
            assert(s.skip(1)[k] == s[k + 1]);
        }
        if m - 1 < s.skip(1).len() {
            assert(s.skip(1)[m - 1] == s[m]);
        }
        lemma_insert_sorted_split(x, s.skip(1), field, m - 1);
        assert(s.skip(1).take(m - 1) =~= s.take(m).skip(1));
        assert(s.skip(1).skip(m - 1) =~= s.skip(m));
        assert(insert_sorted(x, s, field) =~= s.take(m) + seq![x] + s.skip(m));
    }
}

#[derive(Debug)]
pub struct Sort {
    pub field: Option<String>,
}

impl Sort {
    pub open spec fn field_view(&self) -> Option<Seq<char>> {
        match self.field {
            None => None,
            Some(f) => Some(f@),
        }
    }

    /// Stable-sorts the records by the configured field, if any.
    #[verifier::loop_isolation(false)]
    pub fn apply(&self, values: Vec<Value>) -> (r: Vec<Value>)
        ensures
            records_view(r@) == sort_apply_spec(records_view(values@), self.field_view()),
    {
        match &self.field {
            None => values,
            Some(f) => {
                let ghost recs = records_view(values@);
                let ghost fv = f@;
                let mut out: Vec<Value> = Vec::new();
                let mut k: usize = 0;
                proof {
                    assert(recs.take(0) =~= Seq::<ValueView>::empty());
                }
                while k < values.len()
                    invariant
                        k <= values.len(),
                        records_view(out@) == sort_spec(recs.take(k as int), fv),
                    decreases values.len() - k,
                {
                    let ghost sorted = records_view(out@);
                    let x = values[k].deep_copy();
                    let mut j: usize = 0;
                    while j < out.len() && record_compare(f.as_str(), &out[j], &x) != 1
                        invariant
                            j <= out.len(),
                            forall|t: int|
                                0 <= t < j ==> record_cmp(fv, #[trigger] sorted[t], x@)
                                    != 1,
                        decreases out.len() - j,
                    {
                        j += 1;
                    }
                    proof {
                        lemma_insert_sorted_split(x@, sorted, fv, j as int);
                    }
                    out.insert(j, x);
                    proof {
                        assert(records_view(out@) =~= sorted.take(j as int) + seq![
                            values@[k as int]@,
                        ] + sorted.skip(j as int));
                        assert(recs.take(k as int + 1).drop_last() =~= recs.take(k as int));
                        assert(recs.take(k as int + 1).last() == values@[k as int]@);
                    }
                    k += 1;
                }
                proof {
                    assert(recs.take(values@.len() as int) =~= recs);
                }
                out
            }
        }
    }
}

/// Three-way comparison of two records by the field, as `record_cmp`.
pub fn record_compare(field: &str, a: &Value, b: &Value) -> (r: i8)
    ensures
        r as int == record_cmp(field@, a@, b@),
{
    match (a, b) {
        (Value::Object(ao), Value::Object(bo)) => {
            proof {
                assert(a@->Object_0 =~= obj_view(ao@));
                assert(b@->Object_0 =~= obj_view(bo@));
            }
            match (entries_get(ao, field), entries_get(bo, field)) {
                (Some(x), Some(y)) => compare(x, y),
                (Some(_), None) => -1,
                (None, Some(_)) => 1,
                (None, None) => 0,
            }
        }
        _ => 0,
    }
}

/// Three-way comparison of two field values, as `val_cmp`.
pub fn compare(a: &Value, b: &Value) -> (r: i8)
    ensures
        r as int == val_cmp(a@, b@),
{
    match (a, b) {
        (Value::Array(_), _) => 0,
        (Value::Object(_), _) => 0,
        (_, Value::Array(_)) => 0,
        (_, Value::Object(_)) => 0,
        (Value::String(x), Value::String(y)) => str_compare(x.as_str(), y.as_str()),
        (Value::Number(x), Value::Number(y)) => {
            if x.key < y.key {
                -1
            } else if y.key < x.key {
                1
            } else {
                0
            }
        }
        (Value::Bool(x), Value::Bool(y)) => {
            if *x == *y {
                0
            } else if !*x {
                -1
            } else {
                1
            }
        }
        (Value::Null, Value::Null) => 0,
        _ => {
            let ra = kind_rank_of(a);
            let rb = kind_rank_of(b);
            if ra < rb {
                -1
            } else {
                1
            }
        }
    }
}

fn kind_rank_of(v: &Value) -> (r: i8)
    requires
        !(v@ is Array),
        !(v@ is Object),
    ensures
        r as int == kind_rank(v@),
{
    match v {
        Value::String(_) => 0,
        Value::Number(_) => 1,
        Value::Bool(_) => 2,
        _ => 3,
    }
}

proof fn lemma_str_cmp_skip(a: Seq<char>, b: Seq<char>, i: int)
    requires
        0 <= i <= a.len(),
        i <= b.len(),
        forall|j: int| 0 <= j < i ==> a[j] == b[j],
    ensures
        str_cmp(a, b) == str_cmp(a.skip(i), b.skip(i)),
    decreases i,
{
    if i > 0 {
        assert(a[0] == b[0]);
        assert forall|j: int| 0 <= j < i - 1 implies a.skip(1)[j] == b.skip(1)[j] by {
            assert(a.skip(1)[j] == a[j + 1]);
            assert(b.skip(1)[j] == b[j + 1]);
        }
        lemma_str_cmp_skip(a.skip(1), b.skip(1), i - 1);
        assert(a.skip(1).skip(i - 1) =~= a.skip(i));
        assert(b.skip(1).skip(i - 1) =~= b.skip(i));
    } else {
        assert(a.skip(0) =~= a);
        assert(b.skip(0) =~= b);
    }
}

/// Lexicographic three-way comparison, as `str_cmp`.
#[verifier::loop_isolation(false)]
pub fn str_compare(a: &str, b: &str) -> (r: i8)
    ensures
        r as int == str_cmp(a@, b@),
{
    let la = a.unicode_len();
    let lb = b.unicode_len();
    let mut i: usize = 0;
    while i < la && i < lb
        invariant
            i <= la,
            i <= lb,
            forall|j: int| 0 <= j < i ==> a@[j] == b@[j],
        decreases la - i,
    {
        let ca = a.get_char(i);
        let cb = b.get_char(i);
        if ca < cb {
            proof {
                lemma_str_cmp_skip(a@, b@, i as int);
                assert(a@.skip(i as int)[0] == a@[i as int]);
                assert(b@.skip(i as int)[0] == b@[i as int]);
            }
            return -1;
        }
        if cb < ca {
            proof {
                lemma_str_cmp_skip(a@, b@, i as int);
                assert(a@.skip(i as int)[0] == a@[i as int]);
                assert(b@.skip(i as int)[0] == b@[i as int]);
            }
            return 1;
        }
        i += 1;
    }
    proof {
        lemma_str_cmp_skip(a@, b@, i as int);
    }
    if la == lb {
        0
    } else if la < lb {
        -1
    } else {
        1
    }
}

/// A record that is an object and holds the field.
pub open spec fn has_field(v: ValueView, field: Seq<char>) -> bool {
    v matches ValueView::Object(o) && obj_contains(o, field)
}

/// A record that is an object and misses the field.
pub open spec fn misses_field(v: ValueView, field: Seq<char>) -> bool {
    v matches ValueView::Object(o) && !obj_contains(o, field)
}

/// No record that misses the field stands before one that has it.
pub open spec fn missing_after_present(s: Seq<ValueView>, field: Seq<char>) -> bool {
    forall|i: int, j: int|
        0 <= i < j < s.len() ==> !(misses_field(#[trigger] s[i], field) && has_field(
            #[trigger] s[j],
            field,
        ))
}

/// A record that misses the field is never strictly greater than
/// anything, so insertion never passes it over such an element.
proof fn lemma_missing_never_greater(y: ValueView, x: ValueView, field: Seq<char>)
    requires
        misses_field(x, field),
    ensures
        record_cmp(field, y, x) != 1,
{
    if y is Object {
        lemma_obj_index_of_props(x->Object_0, field);
    }
}

/// Inserting into a collection that keeps missing records after present
/// ones preserves that shape.
proof fn lemma_insert_preserves_order(x: ValueView, s: Seq<ValueView>, field: Seq<char>)
    requires
        missing_after_present(s, field),
    ensures
        missing_after_present(insert_sorted(x, s, field), field),
{
    lemma_insert_point_props(x, s, field);
    let m = insert_point(x, s, field);
    lemma_insert_sorted_split(x, s, field, m);
    let out = insert_sorted(x, s, field);
    assert forall|i: int, j: int| 0 <= i < j < out.len() implies !(misses_field(
        #[trigger] out[i],
        field,
    ) && has_field(#[trigger] out[j], field)) by {
        if misses_field(out[i], field) && has_field(out[j], field) {
            if i < m && j < m {
                assert(out[i] == s[i] && out[j] == s[j]);
            } else if i < m && j == m {
                // out[j] is x itself: x has the field, yet everything
                // before the insert point compares not-greater with x,
                // while a missing record compares greater.
                assert(out[i] == s[i]);
                assert(record_cmp(field, s[i], x) != 1);
                lemma_obj_index_of_props(out[i]->Object_0, field);
                lemma_obj_index_of_props(x->Object_0, field);
            } else if i < m && j > m {
                assert(out[i] == s[i] && out[j] == s[j - 1]);
            } else if i == m {
                // out[i] is x itself: a missing x is appended at the
                // end, so nothing follows it.
                lemma_missing_never_greater_all(x, s, field);
                assert(m == s.len());
                assert(j >= out.len());
            } else {
                assert(out[i] == s[i - 1] && out[j] == s[j - 1]);
            }
        }
    }
}

/// When `x` misses the field, its insert point is the end.
proof fn lemma_missing_never_greater_all(x: ValueView, s: Seq<ValueView>, field: Seq<char>)
    requires
        misses_field(x, field),
    ensures
        insert_point(x, s, field) == s.len(),
    decreases s.len(),
{
    if s.len() > 0 {
        lemma_missing_never_greater(s[0], x, field);
        lemma_missing_never_greater_all(x, s.skip(1), field);
    }
}

/// The sorted collection keeps every record that misses the sort field
/// after every record that has it, whatever the input order.
pub proof fn lemma_sort_missing_after_present(s: Seq<ValueView>, field: Seq<char>)
    ensures
        missing_after_present(sort_spec(s, field), field),
    decreases s.len(),
{
    if s.len() > 0 {
        lemma_sort_missing_after_present(s.drop_last(), field);
        lemma_insert_preserves_order(s.last(), sort_spec(s.drop_last(), field), field);
    }
}

impl crate::action::Action for Sort {
    fn apply(&self, values: Vec<Value>) -> Result<Vec<Value>, Error> {
        Ok(Sort::apply(self, values))
    }
}

} // verus!
