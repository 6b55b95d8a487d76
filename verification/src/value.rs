//! The value model: a closed set of variants representing any parsed JSON
//! value, together with its mathematical model and the fallible narrowing
//! operations.

use vstd::prelude::*;

verus! {

/// The mathematical model of a parsed JSON value.
///
/// An object is modelled as a sequence of key/value pairs with pairwise
/// distinct keys, in first-insertion order (key order carries no meaning);
/// an array as an ordered sequence; a string as its decoded characters.
/// A number is modelled by the exact numeric literal consumed from the
/// input, so that no precision is lost in the tree itself.
#[verifier::ext_equal]
pub enum SpecValue {
    Object(Seq<(Seq<char>, SpecValue)>),
    Array(Seq<SpecValue>),
    Text(Seq<char>),
    Number(Seq<char>),
    True,
    False,
    Null,
}

/// A parsed JSON value. Once constructed, a tree is immutable.
///
/// `Number` owns the exact numeric literal consumed from the input
/// (for example `-12.5e3`); converting that literal to a machine
/// number is left to the caller, so the tree itself is lossless.
#[derive(Debug, PartialEq)]
pub enum JSONValue {
    Object(Vec<(String, JSONValue)>),
    Array(Vec<JSONValue>),
    String(String),
    Number(String),
    True,
    False,
    Null,
}

/// The model of a sequence of owned key/value pairs.
pub open spec fn pair_views(ps: Seq<(String, JSONValue)>) -> Seq<(Seq<char>, SpecValue)>
    decreases ps,
{
    if ps.len() == 0 {
        Seq::empty()
    } else {
        pair_views(ps.subrange(0, ps.len() - 1)).push(
            (ps[ps.len() - 1].0@, val_view(ps[ps.len() - 1].1)),
        )
    }
}

/// The model of a sequence of owned values.
pub open spec fn views_of(es: Seq<JSONValue>) -> Seq<SpecValue>
    decreases es,
{
    if es.len() == 0 {
        Seq::empty()
    } else {
        views_of(es.subrange(0, es.len() - 1)).push(val_view(es[es.len() - 1]))
    }
}

/// The model of an owned value tree.
pub open spec fn val_view(v: JSONValue) -> SpecValue
    decreases v,
{
    match v {
        JSONValue::Object(ps) => SpecValue::Object(pair_views(ps@)),
        JSONValue::Array(es) => SpecValue::Array(views_of(es@)),
        JSONValue::String(s) => SpecValue::Text(s@),
        JSONValue::Number(t) => SpecValue::Number(t@),
        JSONValue::True => SpecValue::True,
        JSONValue::False => SpecValue::False,
        JSONValue::Null => SpecValue::Null,
    }
}

impl View for JSONValue {
    type V = SpecValue;

    open spec fn view(&self) -> SpecValue {
        val_view(*self)
    }
}

/// `pair_views` maps the pairs one for one.
pub proof fn lemma_pair_views(ps: Seq<(String, JSONValue)>)
    ensures
        pair_views(ps).len() == ps.len(),
        forall|i: int|
            0 <= i < ps.len() ==> #[trigger] pair_views(ps)[i] == (ps[i].0@, val_view(ps[i].1)),
    decreases ps.len(),
{
    if ps.len() > 0 {
        lemma_pair_views(ps.subrange(0, ps.len() - 1));
    }
}

/// The keys of an object's pair sequence are pairwise distinct.
pub open spec fn unique_keys(ps: Seq<(Seq<char>, SpecValue)>) -> bool {
    forall|a: int, b: int|
        #![trigger ps[a], ps[b]]
        0 <= a < b < ps.len() ==> ps[a].0 != ps[b].0
}

/// Insertion into an object model: if the key is already present, the
/// value at its first (and, for a well-formed object, only) occurrence is
/// replaced in place; otherwise the pair is appended. Last write wins.
pub open spec fn spec_upsert(
    ps: Seq<(Seq<char>, SpecValue)>,
    k: Seq<char>,
    v: SpecValue,
) -> Seq<(Seq<char>, SpecValue)>
    decreases ps.len(),
{
    if ps.len() == 0 {
        seq![(k, v)]
    } else if ps[0].0 == k {
        seq![(k, v)] + ps.drop_first()
    } else {
        seq![ps[0]] + spec_upsert(ps.drop_first(), k, v)
    }
}

/// Lookup in an object model: the value at the first occurrence of the key.
pub open spec fn spec_assoc(ps: Seq<(Seq<char>, SpecValue)>, k: Seq<char>) -> Option<SpecValue>
    decreases ps.len(),
{
    if ps.len() == 0 {
        None
    } else if ps[0].0 == k {
        Some(ps[0].1)
    } else {
        spec_assoc(ps.drop_first(), k)
    }
}

/// Well-formedness of every value of a pair sequence.
pub open spec fn swf_pairs(ps: Seq<(Seq<char>, SpecValue)>) -> bool
    decreases ps,
{
    forall|j: int| 0 <= j < ps.len() ==> swf(#[trigger] ps[j].1)
}

/// Well-formedness of every element of a value sequence.
pub open spec fn swf_elems(es: Seq<SpecValue>) -> bool
    decreases es,
{
    forall|j: int| 0 <= j < es.len() ==> swf(#[trigger] es[j])
}

/// Well-formedness of a value model: every object in the tree has
/// pairwise distinct keys.
pub open spec fn swf(v: SpecValue) -> bool
    decreases v,
{
    match v {
        SpecValue::Object(ps) => unique_keys(ps) && swf_pairs(ps),
        SpecValue::Array(es) => swf_elems(es),
        _ => true,
    }
}

/// Appending a well-formed element keeps an array model well-formed.
pub proof fn lemma_swf_array_push(es: Seq<SpecValue>, v: SpecValue)
    requires
        swf(SpecValue::Array(es)),
        swf(v),
    ensures
        swf(SpecValue::Array(es.push(v))),
{
    let pushed = es.push(v);
    assert forall|l: int| 0 <= l < pushed.len() implies swf(#[trigger] pushed[l]) by {
        if l < es.len() {
            assert(pushed[l] == es[l]);
        } else {
            assert(pushed[l] == v);
        }
    }
}

/// When the key is absent, insertion appends the pair.
pub proof fn lemma_upsert_append(ps: Seq<(Seq<char>, SpecValue)>, k: Seq<char>, v: SpecValue)
    requires
        forall|l: int| 0 <= l < ps.len() ==> (#[trigger] ps[l]).0 != k,
    ensures
        spec_upsert(ps, k, v) == ps.push((k, v)),
    decreases ps.len(),
{
    if ps.len() == 0 {
        assert(spec_upsert(ps, k, v) =~= ps.push((k, v)));
    } else {
        lemma_upsert_append(ps.drop_first(), k, v);
        assert(spec_upsert(ps, k, v) =~= ps.push((k, v)));
    }
}

/// When the key is present and `j` is its first occurrence, insertion
/// replaces the value in place.
pub proof fn lemma_upsert_replace(ps: Seq<(Seq<char>, SpecValue)>, k: Seq<char>, v: SpecValue, j: int)
    requires
        0 <= j < ps.len(),
        ps[j].0 == k,
        forall|l: int| 0 <= l < j ==> (#[trigger] ps[l]).0 != k,
    ensures
        spec_upsert(ps, k, v) == ps.update(j, (k, v)),
    decreases ps.len(),
{
    if j == 0 {
        assert(spec_upsert(ps, k, v) =~= ps.update(j, (k, v)));
    } else {
        lemma_upsert_replace(ps.drop_first(), k, v, j - 1);
        assert(spec_upsert(ps, k, v) =~= ps.update(j, (k, v)));
    }
}

/// Insertion preserves the well-formedness of an object model, provided
/// the inserted value is itself well-formed.
pub proof fn lemma_upsert_wf(ps: Seq<(Seq<char>, SpecValue)>, k: Seq<char>, v: SpecValue)
    requires
        swf(SpecValue::Object(ps)),
        swf(v),
    ensures
        swf(SpecValue::Object(spec_upsert(ps, k, v))),
{
    if exists|j: int| 0 <= j < ps.len() && (#[trigger] ps[j]).0 == k {
        let j = choose|j: int| 0 <= j < ps.len() && (#[trigger] ps[j]).0 == k;
        assert(forall|l: int| 0 <= l < j ==> (#[trigger] ps[l]).0 != k) by {
            assert(forall|l: int| 0 <= l < j ==> ps[l].0 != ps[j].0);
        }
        lemma_upsert_replace(ps, k, v, j);
        let qs = ps.update(j, (k, v));
        assert(forall|a: int, b: int|
            #![trigger qs[a], qs[b]]
            0 <= a < b < qs.len() ==> qs[a].0 != qs[b].0) by {
            assert(forall|l: int| 0 <= l < qs.len() ==> qs[l].0 == ps[l].0);
        }
        assert(forall|l: int| 0 <= l < qs.len() ==> swf(#[trigger] qs[l].1));
    } else {
        lemma_upsert_append(ps, k, v);
        let qs = ps.push((k, v));
        assert(forall|a: int, b: int|
            #![trigger qs[a], qs[b]]
            0 <= a < b < qs.len() ==> qs[a].0 != qs[b].0);
        assert(forall|l: int| 0 <= l < qs.len() ==> swf(#[trigger] qs[l].1));
    }
}

/// Law: the last write to a key wins. After inserting the pair `(k, v)`
/// into an object model, looking `k` up yields `v`, whatever value any
/// earlier occurrence of `k` carried.
pub proof fn lemma_last_write_wins(ps: Seq<(Seq<char>, SpecValue)>, k: Seq<char>, v: SpecValue)
    ensures
        spec_assoc(spec_upsert(ps, k, v), k) == Some(v),
    decreases ps.len(),
{
    if ps.len() == 0 {
    } else if ps[0].0 == k {
        assert(spec_upsert(ps, k, v)[0] == (k, v));
    } else {
        lemma_last_write_wins(ps.drop_first(), k, v);
        let qs = seq![ps[0]] + spec_upsert(ps.drop_first(), k, v);
        assert(qs.drop_first() =~= spec_upsert(ps.drop_first(), k, v));
        assert(qs[0] == ps[0]);
    }
}

/// Law: inserting under one key leaves what every other key maps to
/// unchanged.
pub proof fn lemma_upsert_other_keys(
    ps: Seq<(Seq<char>, SpecValue)>,
    k: Seq<char>,
    v: SpecValue,
    k2: Seq<char>,
)
    requires
        k2 != k,
    ensures
        spec_assoc(spec_upsert(ps, k, v), k2) == spec_assoc(ps, k2),
    decreases ps.len(),
{
    if ps.len() == 0 {
        let qs = spec_upsert(ps, k, v);
        assert(qs[0] == (k, v));
        assert(qs.drop_first() =~= Seq::<(Seq<char>, SpecValue)>::empty());
        assert(spec_assoc(Seq::<(Seq<char>, SpecValue)>::empty(), k2) is None);
        assert(spec_assoc(qs, k2) == spec_assoc(ps, k2));
    } else if ps[0].0 == k {
        let qs = seq![(k, v)] + ps.drop_first();
        assert(qs[0] == (k, v));
        assert(qs.drop_first() =~= ps.drop_first());
        assert(spec_assoc(qs, k2) == spec_assoc(ps, k2));
    } else {
        lemma_upsert_other_keys(ps.drop_first(), k, v, k2);
        let qs = seq![ps[0]] + spec_upsert(ps.drop_first(), k, v);
        assert(qs[0] == ps[0]);
        assert(qs.drop_first() =~= spec_upsert(ps.drop_first(), k, v));
        assert(spec_assoc(qs, k2) == spec_assoc(ps, k2));
    }
}

impl JSONValue {
    /// Narrows to an object's key/value pairs; any other variant is a
    /// conversion error.
    pub fn try_object(self) -> (r: Result<Vec<(String, JSONValue)>, &'static str>)
        ensures
            r matches Ok(m) <==> self matches JSONValue::Object(m),
            r matches Ok(m) ==> self == JSONValue::Object(m),
            r is Err <==> !(self is Object),
    {
        match self {
            JSONValue::Object(m) => Ok(m),
            _ => Err("Invalid type conversion"),
        }
    }

    /// Narrows to an array's elements; any other variant is a conversion
    /// error.
    pub fn try_array(self) -> (r: Result<Vec<JSONValue>, &'static str>)
        ensures
            r matches Ok(a) <==> self matches JSONValue::Array(a),
            r matches Ok(a) ==> self == JSONValue::Array(a),
            r is Err <==> !(self is Array),
    {
        match self {
            JSONValue::Array(a) => Ok(a),
            _ => Err("Invalid type conversion"),
        }
    }

    /// Narrows to a string's decoded text; any other variant is a
    /// conversion error.
    pub fn try_string(self) -> (r: Result<String, &'static str>)
        ensures
            r matches Ok(s) <==> self matches JSONValue::String(s),
            r matches Ok(s) ==> self == JSONValue::String(s),
            r is Err <==> !(self is String),
    {
        match self {
            JSONValue::String(s) => Ok(s),
            _ => Err("Invalid type conversion"),
        }
    }

    /// Narrows to a number's consumed literal text; any other variant is
    /// a conversion error.
    pub fn try_number(self) -> (r: Result<String, &'static str>)
        ensures
            r matches Ok(t) <==> self matches JSONValue::Number(t),
            r matches Ok(t) ==> self == JSONValue::Number(t),
            r is Err <==> !(self is Number),
    {
        match self {
            JSONValue::Number(t) => Ok(t),
            _ => Err("Invalid type conversion"),
        }
    }

    /// Narrows to a boolean; any variant but `True` and `False` is a
    /// conversion error.
    pub fn try_bool(self) -> (r: Result<bool, &'static str>)
        ensures
            r == Ok::<bool, &'static str>(true) <==> self is True,
            r == Ok::<bool, &'static str>(false) <==> self is False,
            r is Err <==> (!(self is True) && !(self is False)),
    {
        match self {
            JSONValue::True => Ok(true),
            JSONValue::False => Ok(false),
            _ => Err("Invalid type conversion"),
        }
    }
}

/// Inserts a member into an object under construction: an existing key
/// has its value replaced in place, a new key is appended, so that the
/// last write to a key wins.
pub fn upsert_pair(pairs: &mut Vec<(String, JSONValue)>, k: String, v: JSONValue)
    ensures
        pair_views(final(pairs)@) == spec_upsert(pair_views(old(pairs)@), k@, val_view(v)),
{
    proof {
        lemma_pair_views(pairs@);
    }
    let ghost ps = pair_views(pairs@);
    let mut j: usize = 0;
    while j < pairs.len()
        invariant
            j <= pairs@.len(),
            pairs@ == old(pairs)@,
            ps == pair_views(pairs@),
            forall|l: int| 0 <= l < j ==> (#[trigger] ps[l]).0 != k@,
        decreases pairs@.len() - j,
    {
        proof {
            lemma_pair_views(pairs@);
        }
        if pairs[j].0 == k {
            proof {
                lemma_upsert_replace(ps, k@, val_view(v), j as int);
            }
            pairs.set(j, (k, v));
            proof {
                lemma_pair_views(pairs@);
                lemma_pair_views(old(pairs)@);
                assert(pair_views(pairs@) =~= spec_upsert(ps, k@, val_view(v)));
            }
            return ;
        }
        j = j + 1;
    }
    proof {
        lemma_pair_views(pairs@);
        assert(ps.len() == pairs@.len());
        lemma_upsert_append(ps, k@, val_view(v));
    }
    pairs.push((k, v));
    proof {
        let qs = pairs@;
        assert(qs.subrange(0, qs.len() - 1) =~= old(pairs)@);
        lemma_pair_views(qs);
        lemma_pair_views(old(pairs)@);
        assert(pair_views(pairs@) =~= spec_upsert(ps, k@, val_view(v)));
    }
}

} // verus!
