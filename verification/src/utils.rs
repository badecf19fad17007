//! Small shared helpers: the error taxonomy and string cleaning used by
//! the reassembler when it turns raw cell values into table text.

use vstd::prelude::*;
use vstd::string::StrSliceExecFns;
use vstd::string::StringExecFns;

use crate::json::JsonSpec;
use crate::json::JsonVal;
use crate::json::jv_view_entries;
use crate::json::jv_view_seq;
use crate::json::lemma_jv_view_entries;
use crate::json::lemma_jv_view_seq;
use crate::table::Table;

verus! {

/// Appending one character to a `String` puts exactly that character at
/// the end. Relies on `alloc::string::String::push`, documented to append
/// the given char to the end of the string.
pub assume_specification[ String::push ](s: &mut String, ch: char)
    ensures
        final(s)@ == old(s)@.push(ch),
;

/// What a logical request yields: a merged table, the raw per-chunk
/// payloads when the caller asked for them, or one typed error. There
/// is no partial result.
pub enum EkResults {
    DF(Table),
    Raw(Vec<JsonVal>),
    Error(EkError),
}

/// The error taxonomy threaded through every component.
#[derive(Debug, Clone, PartialEq, Eq)]
pub enum EkError {
    /// Dispatch produced zero usable chunks.
    NoData(String),
    /// No chunk yielded a header set.
    NoHeaders(String),
    /// Table construction or stacking failed on a shape mismatch.
    NoDataFrame(String),
    /// Credential rejected by the service.
    AuthError(String),
    /// Non-retriable transport failure.
    ConnectionError(String),
    /// Worker-pool creation or join failure.
    ThreadError(String),
    /// An unparseable date string.
    DateError(String),
    /// Other input validation failures, such as a missing required parameter.
    Error(String),
}

/// Characters kept by `clean_string`: everything but a double quote.
pub open spec fn keeps_char(c: char) -> bool {
    c != '"'
}

/// The view of a cleaned string: the input with every double quote removed.
pub open spec fn spec_clean(s: Seq<char>) -> Seq<char> {
    s.filter(|c: char| keeps_char(c))
}

/// Strip quoting artifacts from a raw cell value: every `"` is removed,
/// all other characters are kept in order.
pub fn clean_string(s: String) -> (r: String)
    ensures
        r@ == spec_clean(s@),
{
    let slice = s.as_str();
    let n = slice.unicode_len();
    let mut out = String::new();
    let mut i: usize = 0;
    while i < n
        invariant
            n == slice@.len(),
            slice@ == s@,
            i <= n,
            out@ == spec_clean(s@.take(i as int)),
        decreases n - i,
    {
        let c = slice.get_char(i);
        proof {
            broadcast use vstd::seq_lib::group_seq_properties;

            assert(s@.take(i + 1) == s@.take(i as int).push(s@[i as int]));
            s@.take(i as int).lemma_filter_push(s@[i as int], |c: char| keeps_char(c));
        }
        if c != '"' {
            out.push(c);
        }
        i = i + 1;
    }
    proof {
        assert(s@.take(n as int) == s@);
    }
    out
}

impl EkError {
    /// The message text of this error.
    pub open spec fn spec_message(self) -> Seq<char> {
        match self {
            EkError::NoData(e) => "No data returned: "@ + e@,
            EkError::NoHeaders(e) => "No headers returned: "@ + e@,
            EkError::NoDataFrame(e) => "No dataframe returned: "@ + e@,
            EkError::AuthError(e) => "Authentication error: "@ + e@,
            EkError::ConnectionError(e) => "Connection error: "@ + e@,
            EkError::ThreadError(e) => "Thread error: "@ + e@,
            EkError::DateError(e) => "Date error: "@ + e@,
            EkError::Error(e) => "Error: "@ + e@,
        }
    }

    /// One line describing the error, for the caller to print.
    pub fn message(&self) -> (r: String)
        ensures
            r@ == self.spec_message(),
    {
        match self {
            EkError::NoData(e) => String::from_str("No data returned: ").concat(e.as_str()),
            EkError::NoHeaders(e) => String::from_str("No headers returned: ").concat(e.as_str()),
            EkError::NoDataFrame(e) => String::from_str("No dataframe returned: ").concat(
                e.as_str(),
            ),
            EkError::AuthError(e) => String::from_str("Authentication error: ").concat(e.as_str()),
            EkError::ConnectionError(e) => String::from_str("Connection error: ").concat(
                e.as_str(),
            ),
            EkError::ThreadError(e) => String::from_str("Thread error: ").concat(e.as_str()),
            EkError::DateError(e) => String::from_str("Date error: ").concat(e.as_str()),
            EkError::Error(e) => String::from_str("Error: ").concat(e.as_str()),
        }
    }
}

/// First value under `key` in an association list.
pub open spec fn assoc_get<V>(es: Seq<(Seq<char>, V)>, key: Seq<char>) -> Option<V>
    decreases es.len(),
{
    if es.len() == 0 {
        Option::None
    } else if es[0].0 == key {
        Option::Some(es[0].1)
    } else {
        assoc_get(es.drop_first(), key)
    }
}

pub proof fn lemma_assoc_get_skip<V>(es: Seq<(Seq<char>, V)>, key: Seq<char>, j: int)
    requires
        0 <= j <= es.len(),
        forall|k: int| 0 <= k < j ==> es[k].0 != key,
    ensures
        assoc_get(es, key) == assoc_get(es.skip(j), key),
    decreases j,
{
    if j > 0 {
        lemma_assoc_get_skip(es, key, j - 1);
        assert(es.skip(j - 1).len() > 0);
        assert(es.skip(j - 1)[0] == es[j - 1]);
        assert(es.skip(j - 1).drop_first() =~= es.skip(j));
        assert(assoc_get(es.skip(j - 1), key) == assoc_get(es.skip(j - 1).drop_first(), key));
    } else {
        assert(es.skip(0) =~= es);
    }
}

/// The optional request parameters (start date, end date, frequency,
/// currency, ...), keyed by name. Entries keep their insertion order; a
/// lookup takes the first entry with the key.
#[derive(Debug, Clone)]
pub struct Params {
    pub entries: Vec<(String, String)>,
}

impl Params {
    /// The parameter mapping as sequences of characters.
    pub open spec fn view(self) -> Seq<(Seq<char>, Seq<char>)> {
        self.entries.deep_view()
    }

    /// An empty parameter mapping.
    pub fn new() -> (r: Params)
        ensures
            r@ =~= Seq::<(Seq<char>, Seq<char>)>::empty(),
    {
        Params { entries: Vec::new() }
    }

    /// Add one parameter at the end.
    pub fn push(&mut self, key: String, value: String)
        ensures
            final(self)@ =~= old(self)@.push((key@, value@)),
    {
        self.entries.push((key, value));
    }

    /// Value of the parameter `key`, if supplied.
    #[verifier::loop_isolation(false)]
    pub fn get<'a>(&'a self, key: &String) -> (r: Option<&'a String>)
        ensures
            match r {
                Option::Some(v) => assoc_get(self@, key@) == Option::Some(v@),
                Option::None => assoc_get(self@, key@) is None,
            },
    {
        let ghost ges = self@;
        let n = self.entries.len();
        let mut j: usize = 0;
        while j < n
            invariant
                j <= n,
                forall|k: int| 0 <= k < j ==> (#[trigger] ges[k]).0 != key@,
            decreases n - j,
        {
            if self.entries[j].0 == *key {
                proof {
                    lemma_assoc_get_skip(ges, key@, j as int);
                    assert(ges.skip(j as int)[0] == ges[j as int]);
                }
                return Option::Some(&self.entries[j].1);
            }
            j = j + 1;
        }
        proof {
            lemma_assoc_get_skip(ges, key@, n as int);
            assert(ges.skip(n as int).len() == 0);
        }
        Option::None
    }
}

/// Field specifications as the caller supplies them: bare field names,
/// or field names each with a parameter mapping.
#[derive(Debug, Clone)]
pub enum Fields {
    Params(Vec<(String, Vec<(String, String)>)>),
    NoParams(Vec<String>),
}

/// The JSON object for one bare field: `{"name": <f>}`.
pub open spec fn spec_field_obj(name: Seq<char>) -> JsonSpec {
    JsonSpec::Obj(seq![("name"@, JsonSpec::Str(name))])
}

/// Parameter pairs as JSON object entries, each value a string.
pub open spec fn spec_str_entries(pairs: Seq<(Seq<char>, Seq<char>)>) -> Seq<
    (Seq<char>, JsonSpec),
> {
    Seq::new(pairs.len(), |i: int| (pairs[i].0, JsonSpec::Str(pairs[i].1)))
}

/// The JSON object for one field with parameters:
/// `{"name": <f>, "parameters": {<k>: <v>, ...}}`.
pub open spec fn spec_field_obj_params(name: Seq<char>, pairs: Seq<(Seq<char>, Seq<char>)>) -> JsonSpec {
    JsonSpec::Obj(
        seq![
            ("name"@, JsonSpec::Str(name)),
            ("parameters"@, JsonSpec::Obj(spec_str_entries(pairs))),
        ],
    )
}

/// The JSON array of field objects sent in a datagrid request.
pub open spec fn spec_field_builder(fields: Fields) -> JsonSpec {
    match fields {
        Fields::NoParams(fs) => JsonSpec::Arr(
            Seq::new(fs.deep_view().len(), |i: int| spec_field_obj(fs.deep_view()[i])),
        ),
        Fields::Params(ps) => JsonSpec::Arr(
            Seq::new(
                ps.deep_view().len(),
                |i: int| spec_field_obj_params(ps.deep_view()[i].0, ps.deep_view()[i].1),
            ),
        ),
    }
}

/// Turn field specifications into the JSON array the service expects,
/// one object per field, in the order given.
#[verifier::loop_isolation(false)]
pub fn field_builder(fields: Fields) -> (r: JsonVal)
    ensures
        r@ == spec_field_builder(fields),
{
    proof {
        broadcast use lemma_jv_view_seq, lemma_jv_view_entries;

    }
    match &fields {
        Fields::NoParams(fs) => {
            let ghost gfs = fs.deep_view();
            let mut items: Vec<JsonVal> = Vec::new();
            let n = fs.len();
            let mut i: usize = 0;
            while i < n
                invariant
                    i <= n,
                    items@.len() == i,
                    forall|k: int| 0 <= k < i ==> (#[trigger] items@[k])@ == spec_field_obj(gfs[k]),
                decreases n - i,
            {
                let mut entries: Vec<(String, JsonVal)> = Vec::new();
                entries.push((String::from_str("name"), JsonVal::Str(fs[i].clone())));
                let obj = JsonVal::Obj(entries);
                proof {
                    assert(jv_view_entries(obj->Obj_0@) =~= seq![
                        ("name"@, JsonSpec::Str(gfs[i as int])),
                    ]);
                }
                items.push(obj);
                i = i + 1;
            }
            let r = JsonVal::Arr(items);
            proof {
                assert(jv_view_seq(r->Arr_0@) =~= Seq::new(
                    gfs.len(),
                    |i: int| spec_field_obj(gfs[i]),
                ));
            }
            r
        },
        Fields::Params(ps) => {
            let ghost gps = ps.deep_view();
            let mut items: Vec<JsonVal> = Vec::new();
            let n = ps.len();
            let mut i: usize = 0;
            while i < n
                invariant
                    i <= n,
                    items@.len() == i,
                    forall|k: int|
                        0 <= k < i ==> (#[trigger] items@[k])@ == spec_field_obj_params(
                            gps[k].0,
                            gps[k].1,
                        ),
                decreases n - i,
            {
                let pairs = &ps[i].1;
                let ghost gpairs = pairs.deep_view();
                let mut pentries: Vec<(String, JsonVal)> = Vec::new();
                let m = pairs.len();
                let mut j: usize = 0;
                while j < m
                    invariant
                        j <= m,
                        pentries@.len() == j,
                        forall|k: int|
                            0 <= k < j ==> #[trigger] pentries@[k].0@ == gpairs[k].0
                                && pentries@[k].1@ == JsonSpec::Str(gpairs[k].1),
                    decreases m - j,
                {
                    pentries.push((pairs[j].0.clone(), JsonVal::Str(pairs[j].1.clone())));
                    j = j + 1;
                }
                let pobj = JsonVal::Obj(pentries);
                proof {
                    assert(jv_view_entries(pobj->Obj_0@) =~= spec_str_entries(gpairs));
                }
                let mut entries: Vec<(String, JsonVal)> = Vec::new();
                entries.push((String::from_str("name"), JsonVal::Str(ps[i].0.clone())));
                entries.push((String::from_str("parameters"), pobj));
                let obj = JsonVal::Obj(entries);
                proof {
                    assert(jv_view_entries(obj->Obj_0@) =~= seq![
                        ("name"@, JsonSpec::Str(gps[i as int].0)),
                        ("parameters"@, JsonSpec::Obj(spec_str_entries(gps[i as int].1))),
                    ]);
                }
                items.push(obj);
                i = i + 1;
            }
            let r = JsonVal::Arr(items);
            proof {
                assert(jv_view_seq(r->Arr_0@) =~= Seq::new(
                    gps.len(),
                    |i: int| spec_field_obj_params(gps[i].0, gps[i].1),
                ));
            }
            r
        },
    }
}

/// Whether `x` occurs in `v`, by character content.
#[verifier::loop_isolation(false)]
pub fn vec_contains_string(v: &Vec<String>, x: &String) -> (r: bool)
    ensures
        r == v.deep_view().contains(x@),
{
    let n = v.len();
    let mut i: usize = 0;
    while i < n
        invariant
            i <= n,
            forall|k: int| 0 <= k < i ==> v.deep_view()[k] != x@,
        decreases n - i,
    {
        if v[i] == *x {
            proof {
                assert(v.deep_view()[i as int] == x@);
            }
            return true;
        }
        i = i + 1;
    }
    proof {
        assert(!v.deep_view().contains(x@)) by {
            if v.deep_view().contains(x@) {
                let w = choose|w: int| 0 <= w < v.deep_view().len() && v.deep_view()[w] == x@;
            }
        }
    }
    false
}

/// The names of `v1` that `v2` lacks, in order.
#[verifier::loop_isolation(false)]
pub fn missing_in_vec(v1: Vec<String>, v2: &Vec<String>) -> (r: Vec<String>)
    ensures
        r.deep_view() == v1.deep_view().filter(
            |x: Seq<char>| !v2.deep_view().contains(x),
        ),
{
    let ghost pred = |x: Seq<char>| !v2.deep_view().contains(x);
    let mut missing: Vec<String> = Vec::new();
    let n = v1.len();
    let mut i: usize = 0;
    while i < n
        invariant
            i <= n,
            missing.deep_view() =~= v1.deep_view().take(i as int).filter(pred),
        decreases n - i,
    {
        proof {
            assert(v1.deep_view().take(i + 1) =~= v1.deep_view().take(i as int).push(
                v1.deep_view()[i as int],
            ));
            v1.deep_view().take(i as int).lemma_filter_push(v1.deep_view()[i as int], pred);
        }
        if !vec_contains_string(v2, &v1[i]) {
            missing.push(v1[i].clone());
        }
        i = i + 1;
    }
    proof {
        assert(v1.deep_view().take(n as int) =~= v1.deep_view());
    }
    missing
}

} // verus!
