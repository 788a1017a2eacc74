use vstd::prelude::*;

verus! {

/// Mathematical model of a JSON document.
///
/// Numbers are carried as their canonical text, so that equality of two
/// numbers is equality of that text; the library never computes with them.
pub enum JsonSpec {
    Null,
    Bool(bool),
    Num(Seq<char>),
    Str(Seq<char>),
    Arr(Seq<JsonSpec>),
    Obj(Seq<(Seq<char>, JsonSpec)>),
}

/// A JSON document as the library holds it: the same shape as `JsonSpec`,
/// executable. An object keeps its members in written order; the structural
/// comparison does not depend on that order.
#[derive(Debug, PartialEq, Eq)]
pub enum JsonValue {
    Null,
    Bool(bool),
    Num(String),
    Str(String),
    Arr(Vec<JsonValue>),
    Obj(Vec<(String, JsonValue)>),
}

/// The models of the elements of an array.
pub open spec fn arr_model(a: Seq<JsonValue>) -> Seq<JsonSpec>
    decreases a,
{
    Seq::new(a.len(), |i: int| if 0 <= i < a.len() {
        jmodel(a[i])
    } else {
        JsonSpec::Null
    })
}

/// The models of the members of an object.
pub open spec fn obj_model(m: Seq<(String, JsonValue)>) -> Seq<(Seq<char>, JsonSpec)>
    decreases m,
{
    Seq::new(m.len(), |i: int| if 0 <= i < m.len() {
        (m[i].0@, jmodel(m[i].1))
    } else {
        (Seq::empty(), JsonSpec::Null)
    })
}

/// The model of an executable JSON value.
pub open spec fn jmodel(v: JsonValue) -> JsonSpec
    decreases v,
{
    match v {
        JsonValue::Null => JsonSpec::Null,
        JsonValue::Bool(b) => JsonSpec::Bool(b),
        JsonValue::Num(s) => JsonSpec::Num(s@),
        JsonValue::Str(s) => JsonSpec::Str(s@),
        JsonValue::Arr(a) => JsonSpec::Arr(arr_model(a@)),
        JsonValue::Obj(m) => JsonSpec::Obj(obj_model(m@)),
    }
}

impl View for JsonValue {
    type V = JsonSpec;

    open spec fn view(&self) -> JsonSpec {
        jmodel(*self)
    }
}

/// Some member of `m` carries the key `k`.
pub open spec fn obj_has(m: Seq<(Seq<char>, JsonSpec)>, k: Seq<char>) -> bool {
    exists|i: int| 0 <= i < m.len() && m[i].0 == k
}

/// The value of the first member of `m` whose key is `k` (only objects that
/// carry `k` matter).
pub open spec fn obj_lookup(m: Seq<(Seq<char>, JsonSpec)>, k: Seq<char>) -> JsonSpec
    decreases m.len(),
{
    if m.len() == 0 {
        JsonSpec::Null
    } else if m[0].0 == k {
        m[0].1
    } else {
        obj_lookup(m.drop_first(), k)
    }
}

/// The structural comparison: two documents are equivalent when they have
/// the same shape and scalar values, arrays matching element by element in
/// order, objects member by member regardless of member order.
pub open spec fn json_equiv(a: JsonSpec, b: JsonSpec) -> bool
    decreases a,
{
    match (a, b) {
        (JsonSpec::Null, JsonSpec::Null) => true,
        (JsonSpec::Bool(x), JsonSpec::Bool(y)) => x == y,
        (JsonSpec::Num(x), JsonSpec::Num(y)) => x == y,
        (JsonSpec::Str(x), JsonSpec::Str(y)) => x == y,
        (JsonSpec::Arr(x), JsonSpec::Arr(y)) => x.len() == y.len() && (forall|i: int|
            0 <= i < x.len() ==> json_equiv(#[trigger] x[i], y[i])),
        (JsonSpec::Obj(x), JsonSpec::Obj(y)) => (forall|j: int|
            0 <= j < y.len() ==> obj_has(x, (#[trigger] y[j]).0)) && (forall|i: int|
            0 <= i < x.len() ==> obj_has(y, (#[trigger] x[i]).0) && json_equiv(
                x[i].1,
                obj_lookup(y, x[i].0),
            )),
        _ => false,
    }
}

/// Well-formed: every object carries each key at most once, at every depth.
/// Documents read from JSON text are always well formed.
pub open spec fn json_wf(a: JsonSpec) -> bool
    decreases a,
{
    match a {
        JsonSpec::Arr(x) => forall|i: int| 0 <= i < x.len() ==> json_wf(#[trigger] x[i]),
        JsonSpec::Obj(x) => (forall|i: int, j: int|
            0 <= i < j < x.len() ==> (#[trigger] x[i]).0 != (#[trigger] x[j]).0) && (forall|i: int|
            0 <= i < x.len() ==> json_wf((#[trigger] x[i]).1)),
        _ => true,
    }
}

/// One step on a path into a JSON document, as contracts speak of it.
pub enum StepSpec {
    Key(Seq<char>),
    Index(int),
}

/// One step on a path into a JSON document: an object key or an array index.
#[derive(Debug, PartialEq, Eq)]
pub enum PathStep {
    Key(String),
    Index(usize),
}

impl View for PathStep {
    type V = StepSpec;

    open spec fn view(&self) -> StepSpec {
        match self {
            PathStep::Key(k) => StepSpec::Key(k@),
            PathStep::Index(i) => StepSpec::Index(*i as int),
        }
    }
}

impl DeepView for PathStep {
    type V = StepSpec;

    open spec fn deep_view(&self) -> StepSpec {
        self.view()
    }
}

/// The part of `v` that the path `p` points at, if any.
pub open spec fn json_at(v: JsonSpec, p: Seq<StepSpec>) -> Option<JsonSpec>
    decreases p.len(),
{
    if p.len() == 0 {
        Some(v)
    } else {
        match (p[0], v) {
            (StepSpec::Key(k), JsonSpec::Obj(m)) => if obj_has(m, k) {
                json_at(obj_lookup(m, k), p.drop_first())
            } else {
                Option::None
            },
            (StepSpec::Index(i), JsonSpec::Arr(a)) => if 0 <= i < a.len() {
                json_at(a[i], p.drop_first())
            } else {
                Option::None
            },
            _ => Option::None,
        }
    }
}

proof fn lemma_obj_lookup_at(m: Seq<(Seq<char>, JsonSpec)>, k: Seq<char>, i: int)
    requires
        0 <= i < m.len(),
        m[i].0 == k,
        forall|j: int| 0 <= j < i ==> (#[trigger] m[j]).0 != k,
    ensures
        obj_has(m, k),
        obj_lookup(m, k) == m[i].1,
    decreases i,
{
    if i == 0 {
    } else {
        lemma_obj_lookup_at(m.drop_first(), k, i - 1);
    }
}

fn obj_find(m: &Vec<(String, JsonValue)>, k: &String) -> (r: Option<usize>)
    ensures
        match r {
            Some(f) => f < m@.len() && obj_model(m@)[f as int].0 == k@ && (forall|j: int|
                0 <= j < f ==> (#[trigger] obj_model(m@)[j]).0 != k@) && obj_has(
                obj_model(m@),
                k@,
            ) && obj_lookup(obj_model(m@), k@) == obj_model(m@)[f as int].1,
            None => !obj_has(obj_model(m@), k@),
        },
{
    let n = m.len();
    let mut i: usize = 0;
    while i < n
        invariant
            i <= n,
            n == m@.len(),
            forall|j: int| 0 <= j < i ==> (#[trigger] obj_model(m@)[j]).0 != k@,
        decreases n - i,
    {
        if m[i].0 == *k {
            proof {
                lemma_obj_lookup_at(obj_model(m@), k@, i as int);
            }
            return Some(i);
        }
        i += 1;
    }
    None
}

fn mismatch_here<'a>(a: &'a JsonValue, b: &'a JsonValue) -> (r: Option<
    (Vec<PathStep>, &'a JsonValue, &'a JsonValue),
>)
    requires
        !json_equiv(jmodel(*a), jmodel(*b)),
    ensures
        r matches Some(d) && json_at(jmodel(*a), d.0.deep_view()) == Some(jmodel(*d.1))
            && json_at(jmodel(*b), d.0.deep_view()) == Some(jmodel(*d.2)) && !json_equiv(
            jmodel(*d.1),
            jmodel(*d.2),
        ),
{
    let p: Vec<PathStep> = Vec::new();
    proof {
        assert(p.deep_view() =~= Seq::<StepSpec>::empty());
    }
    Some((p, a, b))
}

/// Compare two documents structurally. `None` means they are equivalent;
/// otherwise the result carries a path and the two differing parts that it
/// points at in `a` and in `b`.
pub fn json_diff<'a>(a: &'a JsonValue, b: &'a JsonValue) -> (r: Option<
    (Vec<PathStep>, &'a JsonValue, &'a JsonValue),
>)
    ensures
        r is None <==> json_equiv(a@, b@),
        r matches Some(d) ==> json_at(a@, d.0.deep_view()) == Some(d.1@) && json_at(
            b@,
            d.0.deep_view(),
        ) == Some(d.2@) && !json_equiv(d.1@, d.2@),
    decreases a,
{
    match (a, b) {
        (JsonValue::Null, JsonValue::Null) => None,
        (JsonValue::Bool(x), JsonValue::Bool(y)) => {
            if x == y {
                None
            } else {
                mismatch_here(a, b)
            }
        },
        (JsonValue::Num(x), JsonValue::Num(y)) => {
            if *x == *y {
                None
            } else {
                mismatch_here(a, b)
            }
        },
        (JsonValue::Str(x), JsonValue::Str(y)) => {
            if *x == *y {
                None
            } else {
                mismatch_here(a, b)
            }
        },
        (JsonValue::Arr(x), JsonValue::Arr(y)) => {
            if x.len() != y.len() {
                return mismatch_here(a, b);
            }
            let n = x.len();
            let mut i: usize = 0;
            while i < n
                invariant
                    i <= n,
                    n == x@.len() == y@.len(),
                    *a == JsonValue::Arr(*x),
                    *b == JsonValue::Arr(*y),
                    forall|k: int|
                        0 <= k < i ==> json_equiv(#[trigger] arr_model(x@)[k], arr_model(y@)[k]),
                decreases n - i,
            {
                match json_diff(&x[i], &y[i]) {
                    Some((p0, dl, dr)) => {
                        let ghost rest = p0.deep_view();
                        let mut p = p0;
                        p.insert(0, PathStep::Index(i));
                        proof {
                            assert(p.deep_view() =~= seq![StepSpec::Index(i as int)] + rest);
                            assert((seq![StepSpec::Index(i as int)] + rest).drop_first()
                                =~= rest);
                        }
                        return Some((p, dl, dr));
                    },
                    None => {},
                }
                i += 1;
            }
            proof {
                assert(json_equiv(a@, b@)) by {
                    assert(a@ == JsonSpec::Arr(arr_model(x@)));
                    assert(b@ == JsonSpec::Arr(arr_model(y@)));
                    assert(arr_model(x@).len() == x@.len());
                    assert(arr_model(y@).len() == y@.len());
                }
            }
            None
        },
        (JsonValue::Obj(x), JsonValue::Obj(y)) => {
            let ny = y.len();
            let mut j: usize = 0;
            while j < ny
                invariant
                    j <= ny,
                    ny == y@.len(),
                    *a == JsonValue::Obj(*x),
                    *b == JsonValue::Obj(*y),
                    forall|t: int|
                        0 <= t < j ==> obj_has(obj_model(x@), (#[trigger] obj_model(y@)[t]).0),
                decreases ny - j,
            {
                match obj_find(x, &y[j].0) {
                    None => {
                        proof {
                            assert(obj_model(y@)[j as int].0 == y@[j as int].0@);
                            assert(!json_equiv(a@, b@)) by {
                                if json_equiv(a@, b@) {
                                    assert(obj_has(obj_model(x@), obj_model(y@)[j as int].0));
                                }
                            }
                        }
                        return mismatch_here(a, b);
                    },
                    Some(_) => {},
                }
                j += 1;
            }
            let nx = x.len();
            let mut i: usize = 0;
            while i < nx
                invariant
                    i <= nx,
                    nx == x@.len(),
                    *a == JsonValue::Obj(*x),
                    *b == JsonValue::Obj(*y),
                    forall|t: int|
                        0 <= t < y@.len() ==> obj_has(
                            obj_model(x@),
                            (#[trigger] obj_model(y@)[t]).0,
                        ),
                    forall|t: int|
                        0 <= t < i ==> obj_has(obj_model(y@), (#[trigger] obj_model(x@)[t]).0)
                            && json_equiv(
                            obj_model(x@)[t].1,
                            obj_lookup(obj_model(y@), obj_model(x@)[t].0),
                        ),
                decreases nx - i,
            {
                match obj_find(y, &x[i].0) {
                    None => {
                        proof {
                            assert(obj_model(x@)[i as int].0 == x@[i as int].0@);
                            assert(!json_equiv(a@, b@)) by {
                                if json_equiv(a@, b@) {
                                    assert(obj_has(obj_model(y@), obj_model(x@)[i as int].0));
                                }
                            }
                        }
                        return mismatch_here(a, b);
                    },
                    Some(fy) => {
                        match json_diff(&x[i].1, &y[fy].1) {
                            Some((p0, dl, dr)) => {
                                proof {
                                    assert(obj_model(x@)[i as int].0 == x@[i as int].0@);
                                    assert(obj_model(x@)[i as int].1 == jmodel(x@[i as int].1));
                                    assert(obj_model(y@)[fy as int].1 == jmodel(y@[fy as int].1));
                                    assert(!json_equiv(a@, b@)) by {
                                        if json_equiv(a@, b@) {
                                            assert(obj_has(
                                                obj_model(y@),
                                                obj_model(x@)[i as int].0,
                                            ));
                                            assert(json_equiv(
                                                obj_model(x@)[i as int].1,
                                                obj_lookup(obj_model(y@), obj_model(x@)[i as int].0),
                                            ));
                                        }
                                    }
                                }
                                match obj_find(x, &x[i].0) {
                                    Some(fx) if fx == i => {
                                        let ghost rest = p0.deep_view();
                                        let key = x[i].0.clone();
                                        let mut p = p0;
                                        p.insert(0, PathStep::Key(key));
                                        proof {
                                            assert(p.deep_view() =~= seq![StepSpec::Key(
                                                x@[i as int].0@,
                                            )] + rest);
                                            assert((seq![StepSpec::Key(x@[i as int].0@)]
                                                + rest).drop_first() =~= rest);
                                        }
                                        return Some((p, dl, dr));
                                    },
                                    _ => {
                                        return mismatch_here(a, b);
                                    },
                                }
                            },
                            None => {},
                        }
                    },
                }
                i += 1;
            }
            proof {
                assert(json_equiv(a@, b@)) by {
                    assert(a@ == JsonSpec::Obj(obj_model(x@)));
                    assert(b@ == JsonSpec::Obj(obj_model(y@)));
                    assert(obj_model(y@).len() == y@.len());
                    assert(obj_model(x@).len() == x@.len());
                }
            }
            None
        },
        _ => {
            proof {
                assert(!json_equiv(a@, b@));
            }
            mismatch_here(a, b)
        },
    }
}

/// What JSON text denotes: `None` where the text is not a JSON document.
pub uninterp spec fn json_of(s: Seq<char>) -> Option<JsonSpec>;

#[verifier::external_type_specification]
#[verifier::external_body]
pub struct ExSerdeValue(serde_json::Value);

/// Rebuilds a parsed document as the library's own value, variant by
/// variant; numbers keep serde_json's canonical text, through
/// serde_json::Number's Display.
#[verifier::external_body]
fn of_serde(v: serde_json::Value) -> JsonValue {
    match v {
        serde_json::Value::Null => JsonValue::Null,
        serde_json::Value::Bool(b) => JsonValue::Bool(b),
        serde_json::Value::Number(n) => JsonValue::Num(n.to_string()),
        serde_json::Value::String(s) => JsonValue::Str(s),
        serde_json::Value::Array(a) => JsonValue::Arr(a.into_iter().map(of_serde).collect()),
        serde_json::Value::Object(m) => JsonValue::Obj(
            m.into_iter().map(|p| (p.0, of_serde(p.1))).collect(),
        ),
    }
}

/// Relies on serde_json::from_str::<serde_json::Value>: the result depends
/// on the text alone, and an object never carries one key twice, so the
/// document is well formed.
#[verifier::external_body]
pub fn parse_json(s: &str) -> (r: Option<JsonValue>)
    ensures
        match r {
            Some(v) => json_of(s@) == Some(v@) && json_wf(v@),
            None => json_of(s@) is None,
        },
{
    match serde_json::from_str::<serde_json::Value>(s) {
        Ok(v) => Some(of_serde(v)),
        Err(_) => None,
    }
}

/// A document compares as equivalent to itself, whenever it is well formed.
pub proof fn lemma_json_equiv_refl(a: JsonSpec)
    requires
        json_wf(a),
    ensures
        json_equiv(a, a),
    decreases a,
{
    match a {
        JsonSpec::Arr(x) => {
            assert forall|i: int| 0 <= i < x.len() implies json_equiv(#[trigger] x[i], x[i]) by {
                lemma_json_equiv_refl(x[i]);
            }
        },
        JsonSpec::Obj(x) => {
            assert forall|i: int|
                0 <= i < x.len() implies obj_has(x, (#[trigger] x[i]).0) && json_equiv(
                x[i].1,
                obj_lookup(x, x[i].0),
            ) by {
                lemma_obj_lookup_at(x, x[i].0, i);
                lemma_json_equiv_refl(x[i].1);
            }
        },
        _ => {},
    }
}

proof fn lemma_obj_lookup_member(m: Seq<(Seq<char>, JsonSpec)>, k: Seq<char>)
    requires
        obj_has(m, k),
    ensures
        exists|f: int|
            0 <= f < m.len() && (#[trigger] m[f]).0 == k && m[f].1 == obj_lookup(m, k),
    decreases m.len(),
{
    if m.len() == 0 {
    } else if m[0].0 == k {
        assert(0 <= 0 < m.len() && m[0].0 == k && m[0].1 == obj_lookup(m, k));
    } else {
        let i = choose|i: int| 0 <= i < m.len() && (#[trigger] m[i]).0 == k;
        assert(m.drop_first()[i - 1] == m[i]);
        assert(obj_has(m.drop_first(), k));
        lemma_obj_lookup_member(m.drop_first(), k);
        let f = choose|f: int|
            0 <= f < m.drop_first().len() && (#[trigger] m.drop_first()[f]).0 == k
                && m.drop_first()[f].1 == obj_lookup(m.drop_first(), k);
        assert(m[f + 1] == m.drop_first()[f]);
        assert(0 <= f + 1 < m.len() && m[f + 1].0 == k && m[f + 1].1 == obj_lookup(m, k));
    }
}

/// The order of an object's members does not matter to the structural
/// comparison: an object is equivalent to any rearrangement of its members.
pub proof fn lemma_obj_member_order_irrelevant(a: JsonSpec, b: JsonSpec)
    requires
        json_wf(a),
        a is Obj,
        b is Obj,
        a matches JsonSpec::Obj(x) && b matches JsonSpec::Obj(y) && x.to_multiset()
            == y.to_multiset(),
    ensures
        json_equiv(a, b),
{
    broadcast use vstd::seq_lib::group_to_multiset_ensures;

    let x = a->Obj_0;
    let y = b->Obj_0;
    assert forall|j: int| 0 <= j < y.len() implies obj_has(x, (#[trigger] y[j]).0) by {
        assert(y.contains(y[j]));
        assert(y.to_multiset().count(y[j]) > 0);
        assert(x.to_multiset().count(y[j]) > 0);
        assert(x.contains(y[j]));
        let t = choose|t: int| 0 <= t < x.len() && x[t] == y[j];
        assert(x[t].0 == y[j].0);
    }
    assert forall|i: int|
        0 <= i < x.len() implies obj_has(y, (#[trigger] x[i]).0) && json_equiv(
        x[i].1,
        obj_lookup(y, x[i].0),
    ) by {
        assert(x.contains(x[i]));
        assert(x.to_multiset().count(x[i]) > 0);
        assert(y.to_multiset().count(x[i]) > 0);
        assert(y.contains(x[i]));
        let u = choose|u: int| 0 <= u < y.len() && y[u] == x[i];
        assert(y[u].0 == x[i].0);
        assert(obj_has(y, x[i].0));
        lemma_obj_lookup_member(y, x[i].0);
        let f = choose|f: int|
            0 <= f < y.len() && (#[trigger] y[f]).0 == x[i].0 && y[f].1 == obj_lookup(y, x[i].0);
        assert(y.contains(y[f]));
        assert(y.to_multiset().count(y[f]) > 0);
        assert(x.to_multiset().count(y[f]) > 0);
        assert(x.contains(y[f]));
        let t = choose|t: int| 0 <= t < x.len() && x[t] == y[f];
        assert(t == i) by {
            if t != i {
                assert(x[t] == y[f]);
                assert(x[t].0 == x[i].0);
                if t < i {
                    assert(x[t].0 != x[i].0);
                } else {
                    assert(x[i].0 != x[t].0);
                }
            }
        }
        assert(y[f].1 == x[i].1);
        assert(json_wf(x[i].1));
        lemma_json_equiv_refl(x[i].1);
    }
    assert(json_equiv(a, b));
}

/// Arrays that differ at some position are not equivalent: element order
/// within an array does matter.
pub proof fn lemma_arr_position_mismatch(x: Seq<JsonSpec>, y: Seq<JsonSpec>, i: int)
    requires
        0 <= i < x.len(),
        y.len() == x.len(),
        !json_equiv(x[i], y[i]),
    ensures
        !json_equiv(JsonSpec::Arr(x), JsonSpec::Arr(y)),
{
    if json_equiv(JsonSpec::Arr(x), JsonSpec::Arr(y)) {
        assert(json_equiv(x[i], y[i]));
    }
}

/// Swapping two inequivalent elements of an array yields an array that the
/// structural comparison reports as different.
pub proof fn lemma_arr_element_order_matters(x: Seq<JsonSpec>, i: int, j: int)
    requires
        0 <= i < j < x.len(),
        !json_equiv(x[i], x[j]),
    ensures
        !json_equiv(JsonSpec::Arr(x), JsonSpec::Arr(x.update(i, x[j]).update(j, x[i]))),
{
    let y = x.update(i, x[j]).update(j, x[i]);
    assert(y[i] == x[j]);
    lemma_arr_position_mismatch(x, y, i);
}

} // verus!
