//! The selection engine: walks each record along a parsed field path and
//! extracts the sub-value it names. An array must be indexed and an
//! object must be projected by name; the other pairing is a usage error.
//! Out-of-bounds indices and absent fields resolve to null; a scalar met
//! before the path ends is returned as it stands.

use vstd::prelude::*;

verus! {

use crate::Error;
use crate::args::SelectMode;
use crate::field_path::FieldPath;
use crate::field_path::Selector;
use crate::field_path::SelectorView;
use crate::field_path::parse_path_spec;
use crate::field_path::selectors_view;
use crate::value::Value;
use crate::value::ValueView;
use crate::value::obj_get;
use crate::value::obj_insert;
use crate::value::obj_view;
use crate::value::records_view;
use crate::value::entries_get;
use crate::value::entries_insert;

/// The value a selector chain names inside `v`, starting at `v` itself.
pub open spec fn resolve(v: ValueView, sels: Seq<SelectorView>) -> Result<ValueView, Error>
    decreases sels.len(),
{
    if sels.len() == 0 {
        Ok(v)
    } else {
        match v {
            ValueView::Array(a) => match sels[0] {
                SelectorView::IntoArray(i) => resolve(
                    if i < a.len() {
                        a[i as int]
                    } else {
                        ValueView::Null
                    },
                    sels.skip(1),
                ),
                SelectorView::Field(_) => Err(Error::ShapeMismatch),
            },
            ValueView::Object(o) => match sels[0] {
                SelectorView::Field(f) => resolve(
                    match obj_get(o, f) {
                        Some(x) => x,
                        None => ValueView::Null,
                    },
                    sels.skip(1),
                ),
                SelectorView::IntoArray(_) => Err(Error::ShapeMismatch),
            },
            _ => Ok(v),
        }
    }
}

/// Replace mode: each record becomes a one-entry object binding the
/// original path string to the resolved value.
pub open spec fn select_only_spec(
    records: Seq<ValueView>,
    path_str: Seq<char>,
    sels: Seq<SelectorView>,
) -> Result<Seq<ValueView>, Error>
    decreases records.len(),
{
    if records.len() == 0 {
        Ok(Seq::empty())
    } else {
        match resolve(records[0], sels) {
            Ok(v) => match select_only_spec(records.skip(1), path_str, sels) {
                Ok(rest) => Ok(seq![ValueView::Object(seq![(path_str, v)])] + rest),
                Err(e) => Err(e),
            },
            Err(e) => Err(e),
        }
    }
}

/// Append mode: the resolved value is inserted into the record itself
/// under the path string; every record must be an object.
pub open spec fn select_append_spec(
    records: Seq<ValueView>,
    path_str: Seq<char>,
    sels: Seq<SelectorView>,
) -> Result<Seq<ValueView>, Error>
    decreases records.len(),
{
    if records.len() == 0 {
        Ok(Seq::empty())
    } else {
        match resolve(records[0], sels) {
            Ok(v) => match records[0] {
                ValueView::Object(o) => match select_append_spec(
                    records.skip(1),
                    path_str,
                    sels,
                ) {
                    Ok(rest) => Ok(seq![ValueView::Object(obj_insert(o, path_str, v))] + rest),
                    Err(e) => Err(e),
                },
                _ => Err(Error::ShapeMismatch),
            },
            Err(e) => Err(e),
        }
    }
}

/// What selection does to the collection. An empty selector chain is the
/// identity in every mode; the reserved mode is rejected.
pub open spec fn select_spec(
    records: Seq<ValueView>,
    path_str: Seq<char>,
    sels: Seq<SelectorView>,
    mode: SelectMode,
) -> Result<Seq<ValueView>, Error> {
    if sels.len() == 0 {
        Ok(records)
    } else {
        match mode {
            SelectMode::Only => select_only_spec(records, path_str, sels),
            SelectMode::Append => select_append_spec(records, path_str, sels),
            SelectMode::Auto => Err(Error::UnsupportedSelectMode),
        }
    }
}

/// Resolves the selector chain from position `from` against `v`.
pub fn resolve_value(v: &Value, sels: &Vec<Selector>, from: usize) -> (r: Result<Value, Error>)
    requires
        from <= sels.len(),
    ensures
        match r {
            Ok(out) => resolve(v@, selectors_view(sels@).skip(from as int)) == Ok::<
                ValueView,
                Error,
            >(out@),
            Err(e) => resolve(v@, selectors_view(sels@).skip(from as int)) == Err::<
                ValueView,
                Error,
            >(e),
        },
    decreases sels.len() - from,
{
    let ghost chain = selectors_view(sels@).skip(from as int);
    if from == sels.len() {
        proof {
            assert(chain =~= Seq::<SelectorView>::empty());
        }
        return Ok(v.deep_copy());
    }
    proof {
        assert(chain[0] == sels@[from as int]@);
        assert(chain.skip(1) =~= selectors_view(sels@).skip(from as int + 1));
    }
    match v {
        Value::Array(a) => match &sels[from] {
            Selector::IntoArray(i) => {
                let next: Value = if *i < a.len() {
                    a[*i].deep_copy()
                } else {
                    Value::Null
                };
                resolve_value(&next, sels, from + 1)
            }
            Selector::Field(_) => Err(Error::ShapeMismatch),
        },
        Value::Object(o) => match &sels[from] {
            Selector::Field(f) => {
                proof {
                    assert(v@->Object_0 =~= obj_view(o@));
                }
                let next: Value = match entries_get(o, f.as_str()) {
                    Some(x) => x.deep_copy(),
                    None => Value::Null,
                };
                resolve_value(&next, sels, from + 1)
            }
            Selector::IntoArray(_) => Err(Error::ShapeMismatch),
        },
        _ => Ok(v.deep_copy()),
    }
}

/// Resolving a well-formed value yields a well-formed value: every
/// step returns a subtree of the record, or null.
pub proof fn lemma_resolve_wf(v: ValueView, sels: Seq<SelectorView>)
    requires
        crate::value::wf_value(v),
    ensures
        resolve(v, sels) matches Ok(x) ==> crate::value::wf_value(x),
    decreases sels.len(),
{
    if sels.len() == 0 {
    } else {
        match v {
            ValueView::Array(a) => match sels[0] {
                SelectorView::IntoArray(i) => {
                    let next = if i < a.len() {
                        a[i as int]
                    } else {
                        ValueView::Null
                    };
                    if i < a.len() {
                        assert(crate::value::wf_value(a[i as int]));
                    }
                    lemma_resolve_wf(next, sels.skip(1));
                }
                SelectorView::Field(_) => {}
            },
            ValueView::Object(o) => match sels[0] {
                SelectorView::Field(f) => {
                    crate::value::lemma_obj_index_of_props(o, f);
                    let next = match obj_get(o, f) {
                        Some(x) => x,
                        None => ValueView::Null,
                    };
                    if obj_get(o, f) is Some {
                        let ip = crate::value::obj_index_of(o, f);
                        assert(crate::value::wf_value(o[ip].1));
                    }
                    lemma_resolve_wf(next, sels.skip(1));
                }
                SelectorView::IntoArray(_) => {}
            },
            _ => {}
        }
    }
}

/// Selection keeps records well formed, in either mode: replace mode
/// builds one-entry objects around well-formed subtrees, and append
/// mode binds one more key in a well-formed object.
pub proof fn lemma_select_wf(
    records: Seq<ValueView>,
    path_str: Seq<char>,
    sels: Seq<SelectorView>,
    mode: crate::args::SelectMode,
)
    requires
        forall|i: int| 0 <= i < records.len() ==> crate::value::wf_value(#[trigger] records[i]),
    ensures
        select_spec(records, path_str, sels, mode) matches Ok(out) ==> forall|i: int|
            0 <= i < out.len() ==> crate::value::wf_value(#[trigger] out[i]),
{
    if sels.len() == 0 {
    } else {
        match mode {
            crate::args::SelectMode::Only => {
                lemma_select_only_wf(records, path_str, sels);
            }
            crate::args::SelectMode::Append => {
                lemma_select_append_wf(records, path_str, sels);
            }
            crate::args::SelectMode::Auto => {}
        }
    }
}

proof fn lemma_select_only_wf(
    records: Seq<ValueView>,
    path_str: Seq<char>,
    sels: Seq<SelectorView>,
)
    requires
        forall|i: int| 0 <= i < records.len() ==> crate::value::wf_value(#[trigger] records[i]),
    ensures
        select_only_spec(records, path_str, sels) matches Ok(out) ==> forall|i: int|
            0 <= i < out.len() ==> crate::value::wf_value(#[trigger] out[i]),
    decreases records.len(),
{
    if records.len() > 0 {
        if let Ok(v) = resolve(records[0], sels) {
            lemma_resolve_wf(records[0], sels);
            assert forall|i: int|
                0 <= i < records.skip(1).len() implies crate::value::wf_value(
                #[trigger] records.skip(1)[i],
            ) by {
                assert(records.skip(1)[i] == records[i + 1]);
            }
            lemma_select_only_wf(records.skip(1), path_str, sels);
            if let Ok(rest) = select_only_spec(records.skip(1), path_str, sels) {
                let head = ValueView::Object(seq![(path_str, v)]);
                assert(crate::value::wf_value(head));
                let out = seq![head] + rest;
                assert forall|i: int| 0 <= i < out.len() implies crate::value::wf_value(
                    #[trigger] out[i],
                ) by {
                    if i > 0 {
                        assert(out[i] == rest[i - 1]);
                    }
                }
            }
        }
    }
}

proof fn lemma_select_append_wf(
    records: Seq<ValueView>,
    path_str: Seq<char>,
    sels: Seq<SelectorView>,
)
    requires
        forall|i: int| 0 <= i < records.len() ==> crate::value::wf_value(#[trigger] records[i]),
    ensures
        select_append_spec(records, path_str, sels) matches Ok(out) ==> forall|i: int|
            0 <= i < out.len() ==> crate::value::wf_value(#[trigger] out[i]),
    decreases records.len(),
{
    if records.len() > 0 {
        if let Ok(v) = resolve(records[0], sels) {
            if let ValueView::Object(o) = records[0] {
                lemma_resolve_wf(records[0], sels);
                assert forall|i: int|
                    0 <= i < records.skip(1).len() implies crate::value::wf_value(
                    #[trigger] records.skip(1)[i],
                ) by {
                    assert(records.skip(1)[i] == records[i + 1]);
                }
                lemma_select_append_wf(records.skip(1), path_str, sels);
                if let Ok(rest) = select_append_spec(records.skip(1), path_str, sels) {
                    let o2 = obj_insert(o, path_str, v);
                    crate::value::lemma_obj_insert_unique(o, path_str, v);
                    crate::value::lemma_obj_insert_values(o, path_str, v);
                    assert forall|t: int| 0 <= t < o2.len() implies crate::value::wf_value(
                        #[trigger] o2[t].1,
                    ) by {
                        if o2[t].1 != v {
                            let u = choose|u: int| 0 <= u < o.len() && o[u].1 == o2[t].1;
                            assert(crate::value::wf_value(o[u].1));
                        }
                    }
                    let head = ValueView::Object(o2);
                    assert(crate::value::wf_value(head));
                    let out = seq![head] + rest;
                    assert forall|i: int| 0 <= i < out.len() implies crate::value::wf_value(
                        #[trigger] out[i],
                    ) by {
                        if i > 0 {
                            assert(out[i] == rest[i - 1]);
                        }
                    }
                }
            }
        }
    }
}

/// Resolving an empty selector chain is the identity on the record.
pub proof fn lemma_resolve_empty(r: ValueView)
    ensures
        resolve(r, Seq::empty()) == Ok::<ValueView, Error>(r),
{
}

/// Replace-mode selection over a single record yields a single
/// one-entry object binding the path string to the resolved value.
pub proof fn lemma_select_only_single(
    r: ValueView,
    path_str: Seq<char>,
    sels: Seq<SelectorView>,
)
    requires
        resolve(r, sels) is Ok,
    ensures
        select_only_spec(seq![r], path_str, sels) == Ok::<Seq<ValueView>, Error>(
            seq![ValueView::Object(seq![(path_str, resolve(r, sels)->Ok_0)])],
        ),
{
    let records = seq![r];
    assert(records[0] == r);
    assert(records.skip(1) =~= Seq::<ValueView>::empty());
    assert(select_only_spec(records.skip(1), path_str, sels) == Ok::<Seq<ValueView>, Error>(
        Seq::empty(),
    ));
    assert(seq![ValueView::Object(seq![(path_str, resolve(r, sels)->Ok_0)])] + Seq::empty()
        =~= seq![ValueView::Object(seq![(path_str, resolve(r, sels)->Ok_0)])]);
}

#[derive(Debug)]
pub struct Select {
    pub path: FieldPath,
    pub mode: SelectMode,
}

impl Select {
    /// Parses the path and fixes the mode. The reserved mode is rejected
    /// here, before any record is touched, unless the path selects
    /// nothing and selection is the identity in every mode.
    pub fn new(path_str: &str, mode: SelectMode) -> (r: Result<Select, Error>)
        ensures
            match r {
                Ok(s) => s.path.wf(path_str@) && s.mode == mode && (mode == SelectMode::Auto
                    ==> s.path.selectors@.len() == 0),
                Err(e) => parse_path_spec(path_str@) == Err::<Seq<SelectorView>, Error>(e) || (
                parse_path_spec(path_str@) matches Ok(sels) && sels.len() > 0 && mode
                    == SelectMode::Auto && e == Error::UnsupportedSelectMode),
            },
    {
        let path = match FieldPath::parse(path_str) {
            Ok(p) => p,
            Err(e) => {
                return Err(e);
            }
        };
        match mode {
            SelectMode::Auto => {
                if path.selectors.len() > 0 {
                    proof {
                        assert(selectors_view(path.selectors@).len()
                            == path.selectors@.len());
                    }
                    Err(Error::UnsupportedSelectMode)
                } else {
                    proof {
                        assert(selectors_view(path.selectors@).len()
                            == path.selectors@.len());
                    }
                    Ok(Select { path, mode })
                }
            }
            _ => Ok(Select { path, mode }),
        }
    }

    /// Applies selection to the whole collection; the first record whose
    /// shape disagrees with the path aborts the run.
    #[verifier::loop_isolation(false)]
    pub fn apply(&self, values: Vec<Value>) -> (r: Result<Vec<Value>, Error>)
        ensures
            match r {
                Ok(out) => select_spec(
                    records_view(values@),
                    self.path.path_str@,
                    selectors_view(self.path.selectors@),
                    self.mode,
                ) == Ok::<Seq<ValueView>, Error>(records_view(out@)),
                Err(e) => select_spec(
                    records_view(values@),
                    self.path.path_str@,
                    selectors_view(self.path.selectors@),
                    self.mode,
                ) == Err::<Seq<ValueView>, Error>(e),
            },
    {
        let ghost recs = records_view(values@);
        let ghost ps = self.path.path_str@;
        let ghost sels = selectors_view(self.path.selectors@);
        if self.path.selectors.len() == 0 {
            return Ok(values);
        }
        match self.mode {
            SelectMode::Auto => Err(Error::UnsupportedSelectMode),
            SelectMode::Only => {
                let mut out: Vec<Value> = Vec::new();
                let mut k: usize = 0;
                proof {
                    assert(recs.skip(0) =~= recs);
                    assert(records_view(out@) =~= Seq::<ValueView>::empty());
                    if let Ok(all) = select_only_spec(recs, ps, sels) {
                        assert(all =~= records_view(out@) + all);
                    }
                }
                while k < values.len()
                    invariant
                        k <= values.len(),
                        recs == records_view(values@),
                        select_only_spec(recs, ps, sels) matches Ok(all) ==> {
                            &&& select_only_spec(recs.skip(k as int), ps, sels) matches Ok(rest)
                            &&& all == records_view(out@) + rest
                        },
                        select_only_spec(recs, ps, sels) matches Err(e) ==> select_only_spec(
                            recs.skip(k as int),
                            ps,
                            sels,
                        ) == Err::<Seq<ValueView>, Error>(e),
                    decreases values.len() - k,
                {
                    let ghost pre = records_view(out@);
                    proof {
                        assert(recs.skip(k as int)[0] == values@[k as int]@);
                        assert(recs.skip(k as int).skip(1) =~= recs.skip(k as int + 1));
                    }
                    match resolve_value(&values[k], &self.path.selectors, 0) {
                        Ok(v) => {
                            proof {
                                assert(sels.skip(0) =~= sels);
                            }
                            let mut entries: Vec<(String, Value)> = Vec::new();
                            entries.push((self.path.path_str.clone(), v));
                            let ghost ev = obj_view(entries@);
                            let rec = Value::object(entries);
                            proof {
                                assert(ev =~= seq![
                                    (ps, resolve(recs.skip(k as int)[0], sels)->Ok_0),
                                ]);
                            }
                            out.push(rec);
                            proof {
                                assert(records_view(out@) =~= pre + seq![
                                    ValueView::Object(seq![(ps, resolve(recs.skip(k as int)[0], sels)->Ok_0)]),
                                ]);
                                if let Ok(all) = select_only_spec(recs, ps, sels) {
                                    if let Ok(r2) = select_only_spec(recs.skip(k as int + 1), ps, sels) {
                                        assert(all =~= records_view(out@) + r2);
                                    }
                                }
                            }
                            k += 1;
                        }
                        Err(e) => {
                            proof {
                                assert(sels.skip(0) =~= sels);
                            }
                            return Err(e);
                        }
                    }
                }
                proof {
                    assert(recs.skip(values@.len() as int) =~= Seq::<ValueView>::empty());
                    if let Ok(all) = select_only_spec(recs, ps, sels) {
                        assert(all =~= records_view(out@));
                    }
                }
                Ok(out)
            }
            SelectMode::Append => {
                let mut out: Vec<Value> = Vec::new();
                let mut k: usize = 0;
                proof {
                    assert(recs.skip(0) =~= recs);
                    assert(records_view(out@) =~= Seq::<ValueView>::empty());
                    if let Ok(all) = select_append_spec(recs, ps, sels) {
                        assert(all =~= records_view(out@) + all);
                    }
                }
                while k < values.len()
                    invariant
                        k <= values.len(),
                        recs == records_view(values@),
                        select_append_spec(recs, ps, sels) matches Ok(all) ==> {
                            &&& select_append_spec(recs.skip(k as int), ps, sels) matches Ok(rest)
                            &&& all == records_view(out@) + rest
                        },
                        select_append_spec(recs, ps, sels) matches Err(e) ==> select_append_spec(
                            recs.skip(k as int),
                            ps,
                            sels,
                        ) == Err::<Seq<ValueView>, Error>(e),
                    decreases values.len() - k,
                {
                    let ghost pre = records_view(out@);
                    proof {
                        assert(recs.skip(k as int)[0] == values@[k as int]@);
                        assert(recs.skip(k as int).skip(1) =~= recs.skip(k as int + 1));
                    }
                    match resolve_value(&values[k], &self.path.selectors, 0) {
                        Ok(v) => {
                            proof {
                                assert(sels.skip(0) =~= sels);
                            }
                            let copied = values[k].deep_copy();
                            match copied {
                                Value::Object(mut entries) => {
                                    proof {
                                        assert(values@[k as int]@->Object_0 =~= obj_view(
                                            entries@,
                                        ));
                                    }
                                    entries_insert(
                                        &mut entries,
                                        self.path.path_str.clone(),
                                        v,
                                    );
                                    let rec = Value::object(entries);
                                    out.push(rec);
                                    proof {
                                        assert(records_view(out@) =~= pre + seq![
                                            ValueView::Object(
                                                obj_insert(
                                                    values@[k as int]@->Object_0,
                                                    ps,
                                                    resolve(recs.skip(k as int)[0], sels)->Ok_0,
                                                ),
                                            ),
                                        ]);
                                        if let Ok(all) = select_append_spec(recs, ps, sels) {
                                            if let Ok(r2) = select_append_spec(
                                                recs.skip(k as int + 1),
                                                ps,
                                                sels,
                                            ) {
                                                assert(all =~= records_view(out@) + r2);
                                            }
                                        }
                                    }
                                    k += 1;
                                }
                                _ => {
                                    return Err(Error::ShapeMismatch);
                                }
                            }
                        }
                        Err(e) => {
                            proof {
                                assert(sels.skip(0) =~= sels);
                            }
                            return Err(e);
                        }
                    }
                }
                proof {
                    assert(recs.skip(values@.len() as int) =~= Seq::<ValueView>::empty());
                    if let Ok(all) = select_append_spec(recs, ps, sels) {
                        assert(all =~= records_view(out@));
                    }
                }
                Ok(out)
            }
        }
    }
}

impl crate::action::Action for Select {
    fn apply(&self, values: Vec<Value>) -> Result<Vec<Value>, Error> {
        Select::apply(self, values)
    }
}

} // verus!
