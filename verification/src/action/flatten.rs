//! The flatten transform: for each requested field, an object nested one
//! level deep at that field is merged into its parent, each inner key
//! promoted under the compound name `field.innerKey`. A field whose
//! value is not an object, or which is absent, leaves the record as it
//! stands.

use vstd::prelude::*;

verus! {

use vstd::string::StrSliceExecFns;
use vstd::string::StringExecFns;
use crate::Error;
use crate::text::strs_view;
use crate::value::Value;
use crate::value::ValueView;
use crate::value::obj_get;
use crate::value::obj_insert;
use crate::value::obj_remove;
use crate::value::obj_view;
use crate::value::records_view;
use crate::value::entries_get;
use crate::value::entries_insert;
use crate::value::entries_remove;

/// The inner entries of a flattened field, renamed to `field.innerKey`.
pub open spec fn prefixed_entries(
    inner: Seq<(Seq<char>, ValueView)>,
    field: Seq<char>,
) -> Seq<(Seq<char>, ValueView)> {
    Seq::new(inner.len(), |i: int| (field + "."@ + inner[i].0, inner[i].1))
}

/// Binds every entry of `items` in turn, first to last.
pub open spec fn obj_insert_all(
    o: Seq<(Seq<char>, ValueView)>,
    items: Seq<(Seq<char>, ValueView)>,
) -> Seq<(Seq<char>, ValueView)>
    decreases items.len(),
{
    if items.len() == 0 {
        o
    } else {
        obj_insert_all(obj_insert(o, items[0].0, items[0].1), items.skip(1))
    }
}

/// One record with one field flattened: the field is removed and its
/// inner entries are bound under compound names. A record that is not an
/// object, a field that is absent, and a field whose value is not an
/// object are all left as they stand.
pub open spec fn flatten_record(v: ValueView, field: Seq<char>) -> ValueView {
    match v {
        ValueView::Object(o) => match obj_get(o, field) {
            Some(inner) => match inner {
                ValueView::Object(entries) => ValueView::Object(
                    obj_insert_all(obj_remove(o, field), prefixed_entries(entries, field)),
                ),
                _ => v,
            },
            None => v,
        },
        _ => v,
    }
}

pub open spec fn flatten_records_one(records: Seq<ValueView>, field: Seq<char>) -> Seq<
    ValueView,
> {
    records.map_values(|v: ValueView| flatten_record(v, field))
}

/// The whole transform: the fields are processed in order, each over the
/// whole collection.
pub open spec fn flatten_spec(records: Seq<ValueView>, fields: Seq<Seq<char>>) -> Seq<ValueView>
    decreases fields.len(),
{
    if fields.len() == 0 {
        records
    } else {
        flatten_spec(flatten_records_one(records, fields[0]), fields.skip(1))
    }
}

/// Flattens one field of one record.
#[verifier::loop_isolation(false)]
pub fn flatten_one(v: Value, field: &str) -> (r: Value)
    ensures
        r@ == flatten_record(v@, field@),
{
    let ghost v0 = v@;
    match v {
        Value::Object(mut entries) => {
            proof {
                assert(v0->Object_0 =~= obj_view(entries@));
            }
            let is_nested = match entries_get(&entries, field) {
                Some(x) => x.is_object(),
                None => false,
            };
            if !is_nested {
                let r = Value::object(entries);
                proof {
                    assert(r@ =~= flatten_record(v0, field@));
                }
                return r;
            }
            let removed = entries_remove(&mut entries, field);
            match removed {
                Some(Value::Object(inner)) => {
                    let ghost o_removed = obj_remove(v0->Object_0, field@);
                    let ghost pref = prefixed_entries(
                        obj_get(v0->Object_0, field@)->Some_0->Object_0,
                        field@,
                    );
                    proof {
                        assert(obj_get(v0->Object_0, field@)->Some_0->Object_0 =~= obj_view(
                            inner@,
                        ));
                        assert(obj_view(entries@) == o_removed);
                        assert(pref.skip(0) =~= pref);
                    }
                    let mut j: usize = 0;
                    while j < inner.len()
                        invariant
                            j <= inner.len(),
                            pref.len() == inner.len(),
                            forall|t: int|
                                0 <= t < inner.len() ==> pref[t] == (
                                    field@ + "."@ + #[trigger] inner@[t].0@,
                                    inner@[t].1@,
                                ),
                            obj_insert_all(o_removed, pref) == obj_insert_all(
                                obj_view(entries@),
                                pref.skip(j as int),
                            ),
                        decreases inner.len() - j,
                    {
                        let mut nk = String::from_str(field);
                        nk.append(".");
                        nk.append(inner[j].0.as_str());
                        let ghost before = obj_view(entries@);
                        proof {
                            assert(nk@ == pref[j as int].0);
                            assert(pref.skip(j as int)[0] == pref[j as int]);
                            assert(pref.skip(j as int).skip(1) =~= pref.skip(j as int + 1));
                        }
                        entries_insert(&mut entries, nk, inner[j].1.deep_copy());
                        j += 1;
                    }
                    proof {
                        assert(pref.skip(inner@.len() as int)
                            =~= Seq::<(Seq<char>, ValueView)>::empty());
                    }
                    let r = Value::object(entries);
                    proof {
                        assert(r@ =~= flatten_record(v0, field@));
                    }
                    r
                }
                _ => {
                    proof {
                        assert(false);
                    }
                    Value::Null
                }
            }
        }
        other => {
            proof {
                assert(other@ == flatten_record(v0, field@));
            }
            other
        }
    }
}

/// Binding every entry of a list in turn keeps keys unique.
pub proof fn lemma_obj_insert_all_unique(
    o: Seq<(Seq<char>, ValueView)>,
    items: Seq<(Seq<char>, ValueView)>,
)
    requires
        crate::value::unique_keys(o),
    ensures
        crate::value::unique_keys(obj_insert_all(o, items)),
    decreases items.len(),
{
    if items.len() > 0 {
        crate::value::lemma_obj_insert_unique(o, items[0].0, items[0].1);
        lemma_obj_insert_all_unique(obj_insert(o, items[0].0, items[0].1), items.skip(1));
    }
}

/// Binding every entry of a list adds no values beyond the list's own.
pub proof fn lemma_obj_insert_all_values(
    o: Seq<(Seq<char>, ValueView)>,
    items: Seq<(Seq<char>, ValueView)>,
)
    ensures
        forall|t: int|
            0 <= t < obj_insert_all(o, items).len() ==> crate::value::value_in(
                o,
                #[trigger] obj_insert_all(o, items)[t].1,
            ) || crate::value::value_in(items, obj_insert_all(o, items)[t].1),
    decreases items.len(),
{
    if items.len() > 0 {
        let o2 = obj_insert(o, items[0].0, items[0].1);
        crate::value::lemma_obj_insert_values(o, items[0].0, items[0].1);
        lemma_obj_insert_all_values(o2, items.skip(1));
        let out = obj_insert_all(o, items);
        assert forall|t: int| 0 <= t < out.len() implies crate::value::value_in(
            o,
            out[t].1,
        ) || crate::value::value_in(items, out[t].1) by {
            assert(out == obj_insert_all(o2, items.skip(1)));
            if crate::value::value_in(o2, out[t].1) {
                if out[t].1 == items[0].1 {
                    assert(crate::value::value_in(items, out[t].1));
                }
            } else {
                let w = choose|w: int|
                    0 <= w < items.skip(1).len() && items.skip(1)[w].1 == out[t].1;
                assert(items[w + 1] == items.skip(1)[w]);
                assert(crate::value::value_in(items, out[t].1));
            }
        }
    }
}

/// Flattening a well-formed record leaves it well formed: keys stay
/// unique, and every value the result binds is a value the record or
/// its flattened field already held.
pub proof fn lemma_flatten_record_wf(v: ValueView, field: Seq<char>)
    requires
        crate::value::wf_value(v),
    ensures
        crate::value::wf_value(flatten_record(v, field)),
{
    if v is Object {
        let o = v->Object_0;
        match obj_get(o, field) {
            Some(inner) => match inner {
                ValueView::Object(entries) => {
                    crate::value::lemma_obj_index_of_props(o, field);
                    crate::value::lemma_obj_remove_unique(o, field);
                    lemma_obj_insert_all_unique(
                        obj_remove(o, field),
                        prefixed_entries(entries, field),
                    );
                    crate::value::lemma_obj_remove_values(o, field);
                    lemma_obj_insert_all_values(
                        obj_remove(o, field),
                        prefixed_entries(entries, field),
                    );
                    let out = obj_insert_all(
                        obj_remove(o, field),
                        prefixed_entries(entries, field),
                    );
                    let ip = crate::value::obj_index_of(o, field);
                    assert(o[ip].1 == inner);
                    assert(crate::value::wf_value(inner));
                    assert forall|t: int| 0 <= t < out.len() implies crate::value::wf_value(
                        #[trigger] out[t].1,
                    ) by {
                        if crate::value::value_in(obj_remove(o, field), out[t].1) {
                            let w = choose|w: int|
                                0 <= w < obj_remove(o, field).len() && obj_remove(
                                    o,
                                    field,
                                )[w].1 == out[t].1;
                            let u = choose|u: int|
                                0 <= u < o.len() && o[u].1 == obj_remove(o, field)[w].1;
                            assert(crate::value::wf_value(o[u].1));
                        } else {
                            let w = choose|w: int|
                                0 <= w < prefixed_entries(entries, field).len()
                                    && prefixed_entries(entries, field)[w].1 == out[t].1;
                            assert(prefixed_entries(entries, field)[w].1 == entries[w].1);
                            assert(crate::value::wf_value(entries[w].1));
                        }
                    }
                }
                _ => {}
            },
            None => {}
        }
    }
}

/// Flattening keeps an object's keys unique: the flattened field leaves,
/// and each promoted entry replaces in place or lands on a fresh key.
pub proof fn lemma_flatten_record_unique(v: ValueView, field: Seq<char>)
    requires
        v matches ValueView::Object(o) && crate::value::unique_keys(o),
    ensures
        flatten_record(v, field) matches ValueView::Object(o2)
            && crate::value::unique_keys(o2),
{
    match obj_get(v->Object_0, field) {
        Some(inner) => match inner {
            ValueView::Object(entries) => {
                crate::value::lemma_obj_remove_unique(v->Object_0, field);
                lemma_obj_insert_all_unique(
                    obj_remove(v->Object_0, field),
                    prefixed_entries(entries, field),
                );
            }
            _ => {}
        },
        None => {}
    }
}

/// Flattening a field that no record holds changes nothing.
pub proof fn lemma_flatten_absent(records: Seq<ValueView>, field: Seq<char>)
    requires
        forall|i: int|
            0 <= i < records.len() ==> ((#[trigger] records[i]) matches ValueView::Object(o)
                ==> !crate::value::obj_contains(o, field)),
    ensures
        flatten_records_one(records, field) == records,
{
    assert forall|i: int| 0 <= i < records.len() implies flatten_record(
        #[trigger] records[i],
        field,
    ) == records[i] by {
        if records[i] is Object {
            crate::value::lemma_obj_index_of_props(records[i]->Object_0, field);
        }
    }
    assert(flatten_records_one(records, field) =~= records);
}

/// Flattening a field whose value is not a nested object leaves the
/// record exactly as it stands: its keys and their values round-trip.
pub proof fn lemma_flatten_scalar(v: ValueView, field: Seq<char>)
    requires
        v matches ValueView::Object(o),
        obj_get(v->Object_0, field) matches Some(x) && !(x is Object),
    ensures
        flatten_record(v, field) == v,
{
}

#[derive(Debug)]
pub struct Flatten {
    pub fields: Vec<String>,
}

impl Flatten {
    /// Flattens each configured field over the whole collection, in
    /// order. A field absent from every record changes nothing.
    #[verifier::loop_isolation(false)]
    pub fn apply(&self, values: Vec<Value>) -> (r: Vec<Value>)
        ensures
            records_view(r@) == flatten_spec(records_view(values@), strs_view(self.fields@)),
    {
        let ghost recs0 = records_view(values@);
        let ghost fs = strs_view(self.fields@);
        let mut cur = values;
        let mut i: usize = 0;
        proof {
            assert(fs.skip(0) =~= fs);
        }
        while i < self.fields.len()
            invariant
                i <= self.fields.len(),
                flatten_spec(recs0, fs) == flatten_spec(
                    records_view(cur@),
                    fs.skip(i as int),
                ),
            decreases self.fields.len() - i,
        {
            let ghost mid = records_view(cur@);
            proof {
                assert(fs.skip(i as int)[0] == fs[i as int]);
                assert(fs.skip(i as int).skip(1) =~= fs.skip(i as int + 1));
            }
            let mut next: Vec<Value> = Vec::new();
            let mut k: usize = 0;
            while k < cur.len()
                invariant
                    k <= cur.len(),
                    next.len() == k,
                    forall|t: int|
                        0 <= t < k ==> next@[t]@ == flatten_record(
                            #[trigger] cur@[t]@,
                            fs[i as int],
                        ),
                decreases cur.len() - k,
            {
                next.push(flatten_one(cur[k].deep_copy(), self.fields[i].as_str()));
                k += 1;
            }
            proof {
                assert(records_view(next@) =~= flatten_records_one(mid, fs[i as int]));
            }
            cur = next;
            i += 1;
        }
        proof {
            assert(fs.skip(self.fields@.len() as int) =~= Seq::<Seq<char>>::empty());
        }
        cur
    }
}

impl crate::action::Action for Flatten {
    fn apply(&self, values: Vec<Value>) -> Result<Vec<Value>, Error> {
        Ok(Flatten::apply(self, values))
    }
}

} // verus!
