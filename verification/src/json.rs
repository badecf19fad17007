//! A plain model of the JSON payloads exchanged with the service.
//!
//! Numbers are carried as their literal text: the reassembler only ever
//! turns cells into text, so nothing in the core needs numeric JSON
//! values as machine numbers.

use vstd::prelude::*;
use vstd::string::StringExecFns;

use crate::utils::spec_clean;
use crate::utils::clean_string;

verus! {

/// Mathematical model of a JSON value, over sequences of characters.
pub enum JsonSpec {
    Null,
    Bool(bool),
    Num(Seq<char>),
    Str(Seq<char>),
    Arr(Seq<JsonSpec>),
    Obj(Seq<(Seq<char>, JsonSpec)>),
}

/// A JSON value as the executable code holds it. Object entries keep
/// their insertion order; a lookup takes the first entry with the key.
pub enum JsonVal {
    Null,
    Bool(bool),
    Num(String),
    Str(String),
    Arr(Vec<JsonVal>),
    Obj(Vec<(String, JsonVal)>),
}

pub open spec fn jv_view(v: JsonVal) -> JsonSpec
    decreases v,
{
    match v {
        JsonVal::Null => JsonSpec::Null,
        JsonVal::Bool(b) => JsonSpec::Bool(b),
        JsonVal::Num(s) => JsonSpec::Num(s@),
        JsonVal::Str(s) => JsonSpec::Str(s@),
        JsonVal::Arr(items) => JsonSpec::Arr(jv_view_seq(items@)),
        JsonVal::Obj(entries) => JsonSpec::Obj(jv_view_entries(entries@)),
    }
}

pub open spec fn jv_view_seq(s: Seq<JsonVal>) -> Seq<JsonSpec>
    decreases s,
{
    if s.len() == 0 {
        Seq::empty()
    } else {
        seq![jv_view(s[0])] + jv_view_seq(s.subrange(1, s.len() as int))
    }
}

pub open spec fn jv_view_entries(s: Seq<(String, JsonVal)>) -> Seq<(Seq<char>, JsonSpec)>
    decreases s,
{
    if s.len() == 0 {
        Seq::empty()
    } else {
        seq![(s[0].0@, jv_view(s[0].1))] + jv_view_entries(s.subrange(1, s.len() as int))
    }
}

/// The view of an array or object member list is member-wise.
pub broadcast proof fn lemma_jv_view_seq(s: Seq<JsonVal>)
    ensures
        (#[trigger] jv_view_seq(s)).len() == s.len(),
        forall|i: int| 0 <= i < s.len() ==> jv_view_seq(s)[i] == jv_view(s[i]),
    decreases s.len(),
{
    if s.len() > 0 {
        lemma_jv_view_seq(s.subrange(1, s.len() as int));
    }
}

pub broadcast proof fn lemma_jv_view_entries(s: Seq<(String, JsonVal)>)
    ensures
        (#[trigger] jv_view_entries(s)).len() == s.len(),
        forall|i: int|
            0 <= i < s.len() ==> jv_view_entries(s)[i] == (s[i].0@, jv_view(s[i].1)),
    decreases s.len(),
{
    if s.len() > 0 {
        lemma_jv_view_entries(s.subrange(1, s.len() as int));
    }
}

impl View for JsonVal {
    type V = JsonSpec;

    open spec fn view(&self) -> JsonSpec {
        jv_view(*self)
    }
}

/// First value under `key` in an entry list, if any.
pub open spec fn entries_get(es: Seq<(Seq<char>, JsonSpec)>, key: Seq<char>) -> Option<JsonSpec>
    decreases es.len(),
{
    if es.len() == 0 {
        Option::None
    } else if es[0].0 == key {
        Option::Some(es[0].1)
    } else {
        entries_get(es.drop_first(), key)
    }
}

/// Field lookup as the service payloads use it: only an object can hold
/// the key.
pub open spec fn obj_get(v: JsonSpec, key: Seq<char>) -> Option<JsonSpec> {
    match v {
        JsonSpec::Obj(es) => entries_get(es, key),
        _ => Option::None,
    }
}

/// Array indexing with the service's "absent is null" convention.
pub open spec fn arr_at(v: JsonSpec, i: int) -> JsonSpec {
    match v {
        JsonSpec::Arr(items) => if 0 <= i < items.len() {
            items[i]
        } else {
            JsonSpec::Null
        },
        _ => JsonSpec::Null,
    }
}

/// Field lookup with the same convention: a missing field reads as null.
pub open spec fn field_at(v: JsonSpec, key: Seq<char>) -> JsonSpec {
    match obj_get(v, key) {
        Option::Some(x) => x,
        Option::None => JsonSpec::Null,
    }
}

/// Text of one scalar cell, quoting artifacts stripped. Rows in service
/// responses carry only scalars; a nested array or object yields empty
/// text.
pub open spec fn spec_cell_text(v: JsonSpec) -> Seq<char> {
    match v {
        JsonSpec::Null => "null"@,
        JsonSpec::Bool(b) => if b {
            "true"@
        } else {
            "false"@
        },
        JsonSpec::Num(s) => s,
        JsonSpec::Str(s) => spec_clean(s),
        JsonSpec::Arr(_) => Seq::empty(),
        JsonSpec::Obj(_) => Seq::empty(),
    }
}

proof fn lemma_entries_get_skip(es: Seq<(Seq<char>, JsonSpec)>, key: Seq<char>, j: int)
    requires
        0 <= j <= es.len(),
        forall|k: int| 0 <= k < j ==> es[k].0 != key,
    ensures
        entries_get(es, key) == entries_get(es.skip(j), key),
    decreases j,
{
    if j > 0 {
        lemma_entries_get_skip(es, key, j - 1);
        assert(es.skip(j - 1).len() > 0);
        assert(es.skip(j - 1)[0] == es[j - 1]);
        assert(es.skip(j - 1).drop_first() =~= es.skip(j));
        assert(entries_get(es.skip(j - 1), key) == entries_get(es.skip(j - 1).drop_first(), key));
    } else {
        assert(es.skip(0) =~= es);
    }
}

impl JsonVal {
    /// Value under `key`, if this is an object holding it.
    #[verifier::loop_isolation(false)]
    pub fn get<'a>(&'a self, key: &String) -> (r: Option<&'a JsonVal>)
        ensures
            match r {
                Option::Some(x) => obj_get(self@, key@) == Option::Some(x@),
                Option::None => obj_get(self@, key@) is None,
            },
    {
        proof {
            broadcast use lemma_jv_view_entries;

        }
        match self {
            JsonVal::Obj(entries) => {
                let ghost ges = jv_view_entries(entries@);
                proof {
                    assert(self@ == JsonSpec::Obj(ges));
                }
                let n = entries.len();
                let mut j: usize = 0;
                while j < n
                    invariant
                        j <= n,
                        forall|k: int| 0 <= k < j ==> (#[trigger] ges[k]).0 != key@,
                    decreases n - j,
                {
                    if entries[j].0 == *key {
                        proof {
                            assert(ges[j as int] == (entries@[j as int].0@, jv_view(
                                entries@[j as int].1,
                            )));
                            lemma_entries_get_skip(ges, key@, j as int);
                            assert(ges.skip(j as int)[0] == ges[j as int]);
                        }
                        return Option::Some(&entries[j].1);
                    }
                    proof {
                        assert(ges[j as int] == (entries@[j as int].0@, jv_view(
                            entries@[j as int].1,
                        )));
                    }
                    j = j + 1;
                }
                proof {
                    lemma_entries_get_skip(ges, key@, n as int);
                    assert(ges.skip(n as int).len() == 0);
                }
                Option::None
            },
            _ => Option::None,
        }
    }

    /// Element `i`, if this is an array long enough to hold it.
    pub fn at<'a>(&'a self, i: usize) -> (r: Option<&'a JsonVal>)
        ensures
            match r {
                Option::Some(x) => arr_at(self@, i as int) == x@,
                Option::None => arr_at(self@, i as int) is Null,
            },
    {
        proof {
            broadcast use lemma_jv_view_seq;

        }
        match self {
            JsonVal::Arr(items) => {
                proof {
                    assert(self@ == JsonSpec::Arr(jv_view_seq(items@)));
                    assert(jv_view_seq(items@).len() == items@.len());
                }
                if i < items.len() {
                    proof {
                        assert(jv_view_seq(items@)[i as int] == jv_view(items@[i as int]));
                    }
                    Option::Some(&items[i])
                } else {
                    Option::None
                }
            },
            _ => Option::None,
        }
    }

    /// Cell text of the field `key`, a missing field reading as null.
    pub fn field_text(&self, key: &String) -> (r: String)
        ensures
            r@ == spec_cell_text(field_at(self@, key@)),
    {
        match self.get(key) {
            Option::Some(v) => v.cell_text(),
            Option::None => String::from_str("null"),
        }
    }

    /// Cell text of element `i`, a missing element reading as null.
    pub fn elem_text(&self, i: usize) -> (r: String)
        ensures
            r@ == spec_cell_text(arr_at(self@, i as int)),
    {
        match self.at(i) {
            Option::Some(v) => v.cell_text(),
            Option::None => String::from_str("null"),
        }
    }

    /// Text of this value as one table cell.
    pub fn cell_text(&self) -> (r: String)
        ensures
            r@ == spec_cell_text(self@),
    {
        match self {
            JsonVal::Null => String::from_str("null"),
            JsonVal::Bool(b) => {
                if *b {
                    String::from_str("true")
                } else {
                    String::from_str("false")
                }
            },
            JsonVal::Num(s) => s.clone(),
            JsonVal::Str(s) => clean_string(s.clone()),
            JsonVal::Arr(_) => String::new(),
            JsonVal::Obj(_) => String::new(),
        }
    }
}

} // verus!
