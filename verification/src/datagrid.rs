//! The datagrid side of the client: the one-dimensional partitioner
//! that caps instruments per chunk from the requested date span, the
//! request payload builder, and the reassembly of datagrid responses
//! into one table.

use vstd::prelude::*;
use vstd::string::StrSliceExecFns;
use vstd::string::StringExecFns;
use vstd::arithmetic::div_mod::lemma_basic_div;
use vstd::arithmetic::div_mod::lemma_div_is_ordered;
use vstd::arithmetic::div_mod::lemma_div_is_ordered_by_denominator;
use vstd::arithmetic::div_mod::lemma_div_plus_one;
use vstd::arithmetic::div_mod::lemma_div_pos_is_pos;

use crate::connection::Connection;
use crate::dates::parse_date_days;
use crate::dates::spec_parsed;
use crate::dates::today_days;
use crate::json::JsonSpec;
use crate::json::JsonVal;
use crate::json::jv_view_entries;
use crate::json::jv_view_seq;
use crate::json::lemma_jv_view_entries;
use crate::json::lemma_jv_view_seq;
use crate::json::arr_at;
use crate::json::field_at;
use crate::json::spec_cell_text;
use crate::table::Table;
use crate::table::clone_names;
use crate::table::spec_distinct;
use crate::utils::EkError;
use crate::utils::EkResults;
use crate::utils::Params;
use crate::utils::assoc_get;
use crate::utils::spec_field_obj;
use crate::utils::spec_str_entries;

verus! {

/// The row cap of one datagrid call.
pub const MAX_DATAGRID_ROWS: usize = 50000;

/// The instrument cap of one datagrid call.
pub const MAX_DATAGRID_INSTRUMENTS: usize = 7000;

/// Lower case of one character, over the ASCII letters; anything else
/// is kept.
pub open spec fn spec_lower_char(c: char) -> char {
    if 'A' <= c && c <= 'Z' {
        ((c as u8) + 32) as char
    } else {
        c
    }
}

/// Lower case of a frequency token.
pub open spec fn spec_lower(s: Seq<char>) -> Seq<char> {
    s.map_values(|c: char| spec_lower_char(c))
}

fn lower_char(c: char) -> (r: char)
    ensures
        r == spec_lower_char(c),
{
    if 'A' <= c && c <= 'Z' {
        ((c as u8) + 32) as char
    } else {
        c
    }
}

/// Lower case of a frequency token, over the ASCII letters.
#[verifier::loop_isolation(false)]
pub fn lower_token(s: &String) -> (r: String)
    ensures
        r@ == spec_lower(s@),
{
    let slice = s.as_str();
    let n = slice.unicode_len();
    let mut out = String::new();
    let mut i: usize = 0;
    while i < n
        invariant
            n == s@.len(),
            slice@ == s@,
            i <= n,
            out@ =~= s@.take(i as int).map_values(|c: char| spec_lower_char(c)),
        decreases n - i,
    {
        let c = slice.get_char(i);
        out.push(lower_char(c));
        proof {
            assert(out@ =~= s@.take(i + 1).map_values(|c: char| spec_lower_char(c)));
        }
        i = i + 1;
    }
    proof {
        assert(s@.take(n as int) =~= s@);
    }
    out
}

/// The three row-estimate families of datagrid frequency codes.
#[derive(Debug, Clone, Copy, PartialEq, Eq)]
pub enum FrqClass {
    Monthly,
    Yearly,
    Daily,
}

/// Which family a lowercased frequency token falls in; every unknown
/// token counts as daily.
pub open spec fn spec_frq_class(t: Seq<char>) -> FrqClass {
    if t == "m"@ || t == "am"@ || t == "fs"@ || t == "fh"@ || t == "fq"@ || t == "aq"@ || t == "q"@
        || t == "cm"@ || t == "ch"@ || t == "cs"@ || t == "cq"@ {
        FrqClass::Monthly
    } else if t == "y"@ || t == "fy"@ || t == "ay"@ || t == "f"@ || t == "cy"@ {
        FrqClass::Yearly
    } else {
        FrqClass::Daily
    }
}

/// Which family a lowercased frequency token falls in.
pub fn frq_class(t: &String) -> (r: FrqClass)
    ensures
        r == spec_frq_class(t@),
{
    if *t == String::from_str("m") || *t == String::from_str("am") || *t == String::from_str("fs")
        || *t == String::from_str("fh") || *t == String::from_str("fq") || *t
        == String::from_str("aq") || *t == String::from_str("q") || *t == String::from_str("cm")
        || *t == String::from_str("ch") || *t == String::from_str("cs") || *t == String::from_str(
        "cq",
    ) {
        FrqClass::Monthly
    } else if *t == String::from_str("y") || *t == String::from_str("fy") || *t
        == String::from_str("ay") || *t == String::from_str("f") || *t == String::from_str("cy") {
        FrqClass::Yearly
    } else {
        FrqClass::Daily
    }
}

/// Estimated rows one instrument produces over a span of `span_days`
/// days: the day count for daily data, scaled to months or years for
/// the coarser families. A negative span estimates as zero rows.
pub open spec fn spec_rows_per_instrument(class: FrqClass, span_days: int) -> int {
    let d = if span_days < 0 {
        0
    } else {
        span_days
    };
    match class {
        FrqClass::Monthly => d / 365 * 12,
        FrqClass::Yearly => d / 365,
        FrqClass::Daily => d,
    }
}

/// Instruments allowed in one datagrid chunk: as many as keep the
/// estimated rows under the row cap, at most the instrument cap, and
/// at least one so that partitioning can always proceed. A zero row
/// estimate (degenerate span) allows the full instrument cap.
pub open spec fn spec_group_size(class: FrqClass, span_days: int) -> int {
    let rows = spec_rows_per_instrument(class, span_days);
    if rows <= 0 {
        MAX_DATAGRID_INSTRUMENTS as int
    } else {
        let g = if (MAX_DATAGRID_ROWS as int) / rows < (MAX_DATAGRID_INSTRUMENTS as int) {
            (MAX_DATAGRID_ROWS as int) / rows
        } else {
            MAX_DATAGRID_INSTRUMENTS as int
        };
        if g == 0 {
            1
        } else {
            g
        }
    }
}

/// Instruments allowed in one datagrid chunk for `span_days` days of
/// data at the given frequency family.
pub fn group_size_for(class: FrqClass, span_days: i64) -> (r: usize)
    ensures
        r as int == spec_group_size(class, span_days as int),
        1 <= r <= MAX_DATAGRID_INSTRUMENTS,
{
    let d: i64 = if span_days < 0 {
        0
    } else {
        span_days
    };
    let rows: i64 = match class {
        FrqClass::Monthly => d / 365 * 12,
        FrqClass::Yearly => d / 365,
        FrqClass::Daily => d,
    };
    proof {
        if d > 0 {
            lemma_div_pos_is_pos(d as int, 365);
        }
    }
    if rows <= 0 {
        MAX_DATAGRID_INSTRUMENTS
    } else {
        let g: i64 = (MAX_DATAGRID_ROWS as i64) / rows;
        let g: i64 = if g < (MAX_DATAGRID_INSTRUMENTS as i64) {
            g
        } else {
            MAX_DATAGRID_INSTRUMENTS as i64
        };
        proof {
            lemma_div_pos_is_pos(MAX_DATAGRID_ROWS as int, rows as int);
        }
        if g == 0 {
            1
        } else {
            g as usize
        }
    }
}

/// Law: a longer date span never allows a larger datagrid group. More
/// days mean at least as many estimated rows per instrument, so the row
/// cap admits at most as many instruments per chunk.
pub proof fn lemma_group_size_monotone(class: FrqClass, span1: int, span2: int)
    requires
        0 <= span1 <= span2,
    ensures
        spec_group_size(class, span2) <= spec_group_size(class, span1),
{
    let rows1 = spec_rows_per_instrument(class, span1);
    let rows2 = spec_rows_per_instrument(class, span2);
    assert(0 <= rows1 && rows1 <= rows2) by {
        lemma_div_pos_is_pos(span1, 365);
        lemma_div_pos_is_pos(span2, 365);
        lemma_div_is_ordered(span1, span2, 365);
    }
    if rows1 <= 0 {
        assert(spec_group_size(class, span1) == MAX_DATAGRID_INSTRUMENTS as int);
        if rows2 > 0 {
            lemma_div_pos_is_pos(MAX_DATAGRID_ROWS as int, rows2);
        }
    } else {
        lemma_div_is_ordered_by_denominator(MAX_DATAGRID_ROWS as int, rows1, rows2);
    }
}

/// Contiguous chunks of at most `m` instruments, in input order.
pub open spec fn spec_chunks(gi: Seq<Seq<char>>, m: int) -> Seq<Seq<Seq<char>>>
    decreases gi.len(),
{
    if m < 1 || gi.len() == 0 {
        Seq::empty()
    } else if gi.len() <= m {
        seq![gi]
    } else {
        seq![gi.take(m)] + spec_chunks(gi.skip(m), m)
    }
}

/// Partition the instrument list into contiguous chunks of at most
/// `size` instruments, keeping input order.
#[verifier::loop_isolation(false)]
pub fn chunk_instruments(instruments: &Vec<String>, size: usize) -> (r: Vec<Vec<String>>)
    requires
        size >= 1,
    ensures
        r.deep_view() == spec_chunks(instruments.deep_view(), size as int),
{
    let ghost gi = instruments.deep_view();
    let n = instruments.len();
    let mut res: Vec<Vec<String>> = Vec::new();
    let mut start: usize = 0;
    proof {
        assert(gi.skip(0) =~= gi);
        assert(res.deep_view() + spec_chunks(gi, size as int) =~= spec_chunks(gi, size as int));
    }
    while start < n
        invariant
            start <= n,
            gi.len() == n,
            spec_chunks(gi, size as int) =~= res.deep_view() + spec_chunks(
                gi.skip(start as int),
                size as int,
            ),
        decreases n - start,
    {
        let end: usize = if size < n - start {
            start + size
        } else {
            n
        };
        let ghost rem = gi.skip(start as int);
        let mut chunk: Vec<String> = Vec::new();
        let mut k: usize = start;
        while k < end
            invariant
                start <= k <= end <= n,
                chunk.deep_view() =~= gi.subrange(start as int, k as int),
            decreases end - k,
        {
            chunk.push(instruments[k].clone());
            proof {
                assert(chunk.deep_view() =~= gi.subrange(start as int, k + 1));
            }
            k = k + 1;
        }
        proof {
            if rem.len() <= size {
                assert(end == n);
                assert(chunk.deep_view() =~= rem);
                assert(spec_chunks(rem, size as int) =~= seq![rem]);
                assert(gi.skip(end as int).len() == 0);
                assert(spec_chunks(gi.skip(end as int), size as int) =~= Seq::<
                    Seq<Seq<char>>,
                >::empty());
            } else {
                assert(end == start + size);
                assert(chunk.deep_view() =~= rem.take(size as int));
                assert(rem.skip(size as int) =~= gi.skip(end as int));
                assert(spec_chunks(rem, size as int) =~= seq![rem.take(size as int)] + spec_chunks(
                    gi.skip(end as int),
                    size as int,
                ));
            }
            assert((res.deep_view() + seq![chunk.deep_view()]) + spec_chunks(
                gi.skip(end as int),
                size as int,
            ) =~= res.deep_view() + spec_chunks(gi.skip(start as int), size as int));
        }
        res.push(chunk);
        proof {
            assert(res.deep_view().drop_last() =~= res.deep_view().take(
                res.deep_view().len() - 1,
            ));
        }
        start = end;
    }
    proof {
        assert(gi.skip(start as int).len() == 0);
        assert(spec_chunks(gi.skip(start as int), size as int) =~= Seq::<Seq<Seq<char>>>::empty());
        assert(res.deep_view() + Seq::<Seq<Seq<char>>>::empty() =~= res.deep_view());
        assert(res.deep_view() =~= spec_chunks(gi, size as int));
    }
    res
}

/// Law: for any instrument list and cap `m`, the datagrid partition's
/// chunks concatenate back to exactly the input list (so their union is
/// the input set, with nothing duplicated and nothing dropped), every
/// chunk holds at most `m` instruments, and a non-empty list yields
/// exactly `ceil(len / m)` chunks.
pub proof fn lemma_chunks_cover(gi: Seq<Seq<char>>, m: int)
    requires
        m >= 1,
    ensures
        spec_chunks(gi, m).flatten() == gi,
        forall|c: int|
            0 <= c < spec_chunks(gi, m).len() ==> (#[trigger] spec_chunks(gi, m)[c]).len() <= m,
        gi.len() == 0 ==> spec_chunks(gi, m).len() == 0,
        gi.len() >= 1 ==> spec_chunks(gi, m).len() == (gi.len() + m - 1) / m,
    decreases gi.len(),
{
    let cs = spec_chunks(gi, m);
    if gi.len() == 0 {
        assert(cs.flatten() =~= gi);
    } else if gi.len() <= m {
        cs.lemma_flatten_one_element();
        assert(cs.flatten() =~= gi);
        assert((gi.len() + m - 1) / m == 1) by {
            lemma_basic_div(gi.len() - 1, m);
            lemma_div_plus_one(gi.len() - 1, m);
        }
    } else {
        lemma_chunks_cover(gi.skip(m), m);
        assert(cs.first() == gi.take(m));
        assert(cs.drop_first() =~= spec_chunks(gi.skip(m), m));
        assert(cs.flatten() == cs.first() + cs.drop_first().flatten());
        assert(gi.take(m) + gi.skip(m) =~= gi);
        assert(cs.flatten() =~= gi);
        assert(gi.skip(m).len() == gi.len() - m);
        assert(cs.len() == 1 + (gi.len() - m + m - 1) / m);
        assert(1 + (gi.len() - m + m - 1) / m == (gi.len() + m - 1) / m) by {
            lemma_div_plus_one(gi.len() as int - 1, m);
        }
        assert(forall|c: int| 0 <= c < cs.len() ==> (#[trigger] cs[c]).len() <= m) by {
            assert(forall|c: int|
                1 <= c < cs.len() ==> cs[c] == #[trigger] cs.drop_first()[c - 1]);
        }
    }
}

/// Law: with no date parameters the datagrid partitioner may fill each
/// chunk to the instrument cap `m`, so a list of `n >= 1` instruments
/// yields exactly `ceil(n / min(n, m))` chunks, each of at most `m`
/// instruments, which concatenate back to the input list.
pub proof fn lemma_datagrid_partition(gi: Seq<Seq<char>>, m: int)
    requires
        m >= 1,
        gi.len() >= 1,
    ensures
        spec_chunks(gi, m).flatten() == gi,
        forall|c: int|
            0 <= c < spec_chunks(gi, m).len() ==> (#[trigger] spec_chunks(gi, m)[c]).len() <= m,
        spec_chunks(gi, m).len() == {
            let w = if gi.len() < m {
                gi.len() as int
            } else {
                m
            };
            (gi.len() + w - 1) / w
        },
{
    lemma_chunks_cover(gi, m);
    let n = gi.len() as int;
    if n < m {
        assert((n + m - 1) / m == 1) by {
            lemma_basic_div(n - 1, m);
            lemma_div_plus_one(n - 1, m);
        }
        assert((n + n - 1) / n == 1) by {
            lemma_basic_div(n - 1, n);
            lemma_div_plus_one(n - 1, n);
        }
    }
}

pub struct Datagrid {
    pub connection: Connection,
}

/// The JSON array of instrument names in one chunk.
pub open spec fn spec_str_arr(xs: Seq<Seq<char>>) -> JsonSpec {
    JsonSpec::Arr(Seq::new(xs.len(), |i: int| JsonSpec::Str(xs[i])))
}

/// The JSON array of field objects, one `{"name": <f>}` per field.
pub open spec fn spec_fields_arr(fs: Seq<Seq<char>>) -> JsonSpec {
    JsonSpec::Arr(Seq::new(fs.len(), |i: int| spec_field_obj(fs[i])))
}

/// One datagrid chunk payload: the chunk's instruments, all fields, and
/// the original parameters when there are any.
pub open spec fn spec_dg_payload(
    insts: Seq<Seq<char>>,
    fs: Seq<Seq<char>>,
    params: Option<Seq<(Seq<char>, Seq<char>)>>,
) -> JsonSpec {
    let req = match params {
        Option::None => JsonSpec::Obj(
            seq![
                ("instruments"@, spec_str_arr(insts)),
                ("fields"@, spec_fields_arr(fs)),
            ],
        ),
        Option::Some(p) => JsonSpec::Obj(
            seq![
                ("instruments"@, spec_str_arr(insts)),
                ("fields"@, spec_fields_arr(fs)),
                ("parameters"@, JsonSpec::Obj(spec_str_entries(p))),
            ],
        ),
    };
    JsonSpec::Obj(seq![("requests"@, JsonSpec::Arr(seq![req]))])
}

/// The full ordered payload set for group size `g`: one payload per
/// instrument chunk.
pub open spec fn spec_payload_set(
    insts: Seq<Seq<char>>,
    fs: Seq<Seq<char>>,
    params: Option<Seq<(Seq<char>, Seq<char>)>>,
    g: int,
) -> Seq<JsonSpec> {
    Seq::new(
        spec_chunks(insts, g).len(),
        |c: int| spec_dg_payload(spec_chunks(insts, g)[c], fs, params),
    )
}

/// When the group-size computation rejects the parameters.
pub open spec fn spec_groups_err(p: Seq<(Seq<char>, Seq<char>)>) -> bool {
    let sdate = assoc_get(p, "SDate"@);
    let edate = assoc_get(p, "EDate"@);
    ||| (sdate is None && assoc_get(p, "Frq"@) is Some)
    ||| (sdate is Some && spec_parsed(sdate) is None)
    ||| (spec_parsed(sdate) is Some && edate is Some && spec_parsed(edate) is None)
}

/// The view of optional parameters.
pub open spec fn spec_opt_params(p: Option<Params>) -> Option<Seq<(Seq<char>, Seq<char>)>> {
    match p {
        Option::Some(q) => Option::Some(q@),
        Option::None => Option::None,
    }
}

impl Datagrid {
    pub fn new(c: Connection) -> (r: Self)
        ensures
            r.connection == c,
    {
        Self { connection: c }
    }

    /// Build the payload of one chunk: its instruments, the full field
    /// list, and the original parameters when there are any.
    #[verifier::loop_isolation(false)]
    pub fn assemble_payload(
        &self,
        instruments: Vec<String>,
        fields: &Vec<String>,
        param: &Option<Params>,
    ) -> (r: JsonVal)
        ensures
            r@ == spec_dg_payload(
                instruments.deep_view(),
                fields.deep_view(),
                spec_opt_params(*param),
            ),
    {
        proof {
            broadcast use lemma_jv_view_seq, lemma_jv_view_entries;

        }
        let ghost ginsts = instruments.deep_view();
        let ghost gfs = fields.deep_view();
        let n = instruments.len();
        let mut iarr: Vec<JsonVal> = Vec::new();
        let mut i: usize = 0;
        while i < n
            invariant
                i <= n,
                iarr@.len() == i,
                forall|k: int| 0 <= k < i ==> (#[trigger] iarr@[k])@ == JsonSpec::Str(ginsts[k]),
            decreases n - i,
        {
            iarr.push(JsonVal::Str(instruments[i].clone()));
            i = i + 1;
        }
        let insts_val = JsonVal::Arr(iarr);
        proof {
            assert(jv_view_seq(insts_val->Arr_0@) =~= spec_str_arr(ginsts)->Arr_0);
        }
        let m = fields.len();
        let mut farr: Vec<JsonVal> = Vec::new();
        let mut j: usize = 0;
        while j < m
            invariant
                j <= m,
                farr@.len() == j,
                forall|k: int| 0 <= k < j ==> (#[trigger] farr@[k])@ == spec_field_obj(gfs[k]),
            decreases m - j,
        {
            let mut fentries: Vec<(String, JsonVal)> = Vec::new();
            fentries.push((String::from_str("name"), JsonVal::Str(fields[j].clone())));
            let fobj = JsonVal::Obj(fentries);
            proof {
                assert(jv_view_entries(fobj->Obj_0@) =~= seq![
                    ("name"@, JsonSpec::Str(gfs[j as int])),
                ]);
            }
            farr.push(fobj);
            j = j + 1;
        }
        let fields_val = JsonVal::Arr(farr);
        proof {
            assert(jv_view_seq(fields_val->Arr_0@) =~= spec_fields_arr(gfs)->Arr_0);
        }
        let mut req_entries: Vec<(String, JsonVal)> = Vec::new();
        req_entries.push((String::from_str("instruments"), insts_val));
        req_entries.push((String::from_str("fields"), fields_val));
        match param {
            Option::None => {},
            Option::Some(p) => {
                let ghost gpairs = p@;
                let mut pentries: Vec<(String, JsonVal)> = Vec::new();
                let pn = p.entries.len();
                let mut k: usize = 0;
                while k < pn
                    invariant
                        k <= pn,
                        pentries@.len() == k,
                        forall|q: int|
                            0 <= q < k ==> #[trigger] pentries@[q].0@ == gpairs[q].0
                                && pentries@[q].1@ == JsonSpec::Str(gpairs[q].1),
                    decreases pn - k,
                {
                    pentries.push((p.entries[k].0.clone(), JsonVal::Str(p.entries[k].1.clone())));
                    proof {
                        let ghost ki = k as int;
                        assert(gpairs[ki] == (p.entries@[ki].0@, p.entries@[ki].1@));
                        assert(pentries@[k as int].0@ == gpairs[k as int].0);
                        assert(pentries@[k as int].1@ == JsonSpec::Str(gpairs[k as int].1));
                    }
                    k = k + 1;
                }
                let pobj = JsonVal::Obj(pentries);
                proof {
                    assert(jv_view_entries(pobj->Obj_0@) =~= spec_str_entries(gpairs));
                }
                req_entries.push((String::from_str("parameters"), pobj));
            },
        }
        let req = JsonVal::Obj(req_entries);
        proof {
            match spec_opt_params(*param) {
                Option::None => {
                    assert(jv_view_entries(req->Obj_0@) =~= seq![
                        ("instruments"@, spec_str_arr(ginsts)),
                        ("fields"@, spec_fields_arr(gfs)),
                    ]);
                },
                Option::Some(gp) => {
                    assert(jv_view_entries(req->Obj_0@) =~= seq![
                        ("instruments"@, spec_str_arr(ginsts)),
                        ("fields"@, spec_fields_arr(gfs)),
                        ("parameters"@, JsonSpec::Obj(spec_str_entries(gp))),
                    ]);
                },
            }
        }
        let mut outer: Vec<(String, JsonVal)> = Vec::new();
        let mut req_arr: Vec<JsonVal> = Vec::new();
        let ghost greq = req@;
        req_arr.push(req);
        proof {
            assert(jv_view_seq(req_arr@) =~= seq![greq]);
        }
        outer.push((String::from_str("requests"), JsonVal::Arr(req_arr)));
        let r = JsonVal::Obj(outer);
        proof {
            assert(jv_view_entries(r->Obj_0@) =~= seq![
                ("requests"@, JsonSpec::Arr(seq![greq])),
            ]);
        }
        r
    }

    /// Partition the logical request into its ordered chunk payloads:
    /// compute the group size from the parameters, cut the instrument
    /// list into contiguous chunks of that size, and pair every chunk
    /// with the full field list and the original parameters.
    #[verifier::loop_isolation(false)]
    pub fn payloads(
        &self,
        instruments: &Vec<String>,
        fields: &Vec<String>,
        parameters: &Option<Params>,
    ) -> (r: Result<Vec<JsonVal>, EkError>)
        ensures
            match parameters {
                Option::None => r is Ok,
                Option::Some(p) => r is Err <==> spec_groups_err(p@),
            },
            r matches Err(e) ==> (e is Error || e is DateError),
            r matches Ok(ps) ==> exists|g: int|
                1 <= g <= MAX_DATAGRID_INSTRUMENTS && jv_view_seq(ps@)
                    == #[trigger] spec_payload_set(
                    instruments.deep_view(),
                    fields.deep_view(),
                    spec_opt_params(*parameters),
                    g,
                ),
            parameters is None ==> (r matches Ok(ps) && jv_view_seq(ps@) == spec_payload_set(
                instruments.deep_view(),
                fields.deep_view(),
                Option::None,
                MAX_DATAGRID_INSTRUMENTS as int,
            )),
            parameters matches Some(p) ==> {
                let sdate = assoc_get(p@, "SDate"@);
                let edate = assoc_get(p@, "EDate"@);
                let sdays = spec_parsed(sdate);
                let edays = spec_parsed(edate);
                let class = spec_params_class(p@);
                &&& (sdate is None && assoc_get(p@, "Frq"@) is None ==> (r matches Ok(ps)
                    && jv_view_seq(ps@) == spec_payload_set(
                    instruments.deep_view(),
                    fields.deep_view(),
                    Option::Some(p@),
                    MAX_DATAGRID_INSTRUMENTS as int,
                )))
                &&& match (sdays, edays) {
                    (Option::Some(sd), Option::Some(ed)) => r matches Ok(ps) && jv_view_seq(ps@)
                        == spec_payload_set(
                        instruments.deep_view(),
                        fields.deep_view(),
                        Option::Some(p@),
                        spec_group_size(class, ed - sd),
                    ),
                    _ => true,
                }
                &&& (sdays is Some && edate is None ==> (r matches Ok(ps) && exists|t: int|
                    jv_view_seq(ps@) == #[trigger] spec_payload_set(
                        instruments.deep_view(),
                        fields.deep_view(),
                        Option::Some(p@),
                        spec_group_size(class, t),
                    )))
            },
        {
        proof {
            broadcast use lemma_jv_view_seq;

        }
        let g = match groups(parameters) {
            Ok(g) => g,
            Err(e) => {
                return Err(e);
            },
        };
        let ghost ginsts = instruments.deep_view();
        let ghost gfs = fields.deep_view();
        let ghost gparams = spec_opt_params(*parameters);
        let chunks = chunk_instruments(instruments, g);
        let cn = chunks.len();
        let mut res: Vec<JsonVal> = Vec::new();
        let mut c: usize = 0;
        while c < cn
            invariant
                c <= cn,
                res@.len() == c,
                forall|k: int|
                    0 <= k < c ==> (#[trigger] res@[k])@ == spec_dg_payload(
                        spec_chunks(ginsts, g as int)[k],
                        gfs,
                        gparams,
                    ),
            decreases cn - c,
        {
            let chunk = clone_names(&chunks[c]);
            proof {
                assert(chunk.deep_view() =~= chunks.deep_view()[c as int]);
            }
            let payload = self.assemble_payload(chunk, fields, parameters);
            res.push(payload);
            c = c + 1;
        }
        proof {
            assert(jv_view_seq(res@) =~= spec_payload_set(ginsts, gfs, gparams, g as int));
        }
        Ok(res)
    }
}

/// The frequency family the parameters select: the lowercased `Frq`
/// value's family, daily when no `Frq` is supplied.
pub open spec fn spec_params_class(p: Seq<(Seq<char>, Seq<char>)>) -> FrqClass {
    match assoc_get(p, "Frq"@) {
        Option::Some(f) => spec_frq_class(spec_lower(f)),
        Option::None => FrqClass::Daily,
    }
}

/// The group size the datagrid partitioner uses, from the request
/// parameters.
///
/// With no parameters, or with parameters that name no start date and
/// no frequency, the full instrument cap is allowed. A frequency
/// without a start date is a configuration error. An unparseable start
/// or end date is a date error. With both dates parsed the group size
/// follows the span between them; with no end date the span runs to
/// today.
pub fn groups(parameters: &Option<Params>) -> (r: Result<usize, EkError>)
    ensures
        parameters is None ==> (r matches Ok(g) && g == MAX_DATAGRID_INSTRUMENTS),
        parameters matches Some(p) ==> {
            let sdate = assoc_get(p@, "SDate"@);
            let edate = assoc_get(p@, "EDate"@);
            let sdays = spec_parsed(sdate);
            let edays = spec_parsed(edate);
            let class = spec_params_class(p@);
            &&& (sdate is None && assoc_get(p@, "Frq"@) is Some ==> (r matches Err(e) && e
                is Error))
            &&& (sdate is None && assoc_get(p@, "Frq"@) is None ==> (r matches Ok(g) && g
                == MAX_DATAGRID_INSTRUMENTS))
            &&& (sdate is Some && sdays is None ==> (r matches Err(e) && e is DateError))
            &&& (sdays is Some && edate is Some && edays is None ==> (r matches Err(e) && e
                is DateError))
            &&& match (sdays, edays) {
                (Option::Some(sd), Option::Some(ed)) => r matches Ok(g) && g as int
                    == spec_group_size(class, ed - sd),
                _ => true,
            }
            &&& (sdays is Some && edate is None ==> (r matches Ok(g) && 1 <= g
                <= MAX_DATAGRID_INSTRUMENTS && exists|t: int|
                g as int == spec_group_size(class, t)))
        },
{
    match parameters {
        Option::None => Ok(MAX_DATAGRID_INSTRUMENTS),
        Option::Some(param) => {
            let sdate_opt = param.get(&String::from_str("SDate"));
            let frq_opt = param.get(&String::from_str("Frq"));
            match sdate_opt {
                Option::None => {
                    if frq_opt.is_some() {
                        Err(
                            EkError::Error(
                                String::from_str("SDate is needed when Frq is supplied"),
                            ),
                        )
                    } else {
                        Ok(MAX_DATAGRID_INSTRUMENTS)
                    }
                },
                Option::Some(s) => {
                    let sd: i32 = match parse_date_days(s) {
                        Option::Some(d) => d,
                        Option::None => {
                            return Err(
                                EkError::DateError(
                                    String::from_str("Could not parse SDate as an ISO 8601 date"),
                                ),
                            );
                        },
                    };
                    let ed: i32 = match param.get(&String::from_str("EDate")) {
                        Option::Some(e) => match parse_date_days(e) {
                            Option::Some(d) => d,
                            Option::None => {
                                return Err(
                                    EkError::DateError(
                                        String::from_str(
                                            "Could not parse EDate as an ISO 8601 date",
                                        ),
                                    ),
                                );
                            },
                        },
                        Option::None => today_days(),
                    };
                    let class = match frq_opt {
                        Option::Some(f) => frq_class(&lower_token(f)),
                        Option::None => FrqClass::Daily,
                    };
                    let span: i64 = (ed as i64) - (sd as i64);
                    let g = group_size_for(class, span);
                    proof {
                        assert(g as int == spec_group_size(
                            spec_params_class(param@),
                            (ed as int) - (sd as int),
                        ));
                    }
                    Ok(g)
                },
            }
        },
    }
}

/// Where a datagrid response keeps its header row:
/// `responses[0].headers[0]`.
pub open spec fn spec_dg_headers_node(chunk: JsonSpec) -> JsonSpec {
    arr_at(field_at(arr_at(field_at(chunk, "responses"@), 0), "headers"@), 0)
}

/// The header names one datagrid response carries: the cleaned
/// `displayName` of every entry of its header row, provided that row is
/// a non-empty list — an empty header row names no columns and does not
/// count as a header set.
pub open spec fn spec_dg_headers(chunk: JsonSpec) -> Option<Seq<Seq<char>>> {
    match spec_dg_headers_node(chunk) {
        JsonSpec::Arr(items) => if items.len() == 0 {
            Option::None
        } else {
            Option::Some(
                Seq::new(items.len(), |i: int| spec_cell_text(field_at(items[i], "displayName"@))),
            )
        },
        _ => Option::None,
    }
}

/// The authoritative header set: the first chunk's headers, in the
/// order the chunks stand.
pub open spec fn spec_dg_first_headers(chunks: Seq<JsonSpec>) -> Option<Seq<Seq<char>>>
    decreases chunks.len(),
{
    if chunks.len() == 0 {
        Option::None
    } else {
        match spec_dg_headers(chunks[0]) {
            Option::Some(h) => Option::Some(h),
            Option::None => spec_dg_first_headers(chunks.drop_first()),
        }
    }
}

/// The row array of one datagrid response, `responses[0].data`, if it
/// is an array.
pub open spec fn spec_dg_rows(chunk: JsonSpec) -> Option<Seq<JsonSpec>> {
    match field_at(arr_at(field_at(chunk, "responses"@), 0), "data"@) {
        JsonSpec::Arr(rows) => Option::Some(rows),
        _ => Option::None,
    }
}

/// The cells one chunk contributes to column `j`: one cleaned cell per
/// row of its row array; a chunk without a row array contributes
/// nothing.
pub open spec fn spec_dg_col_one(chunk: JsonSpec, j: int) -> Seq<Option<Seq<char>>> {
    match spec_dg_rows(chunk) {
        Option::Some(rows) => Seq::new(
            rows.len(),
            |r: int| Option::Some(spec_cell_text(arr_at(rows[r], j))),
        ),
        Option::None => Seq::empty(),
    }
}

/// Column `j` of the reassembled table: every chunk's contribution, in
/// chunk order.
pub open spec fn spec_dg_col(chunks: Seq<JsonSpec>, j: int) -> Seq<Option<Seq<char>>>
    decreases chunks.len(),
{
    if chunks.len() == 0 {
        Seq::empty()
    } else {
        spec_dg_col_one(chunks[0], j) + spec_dg_col(chunks.drop_first(), j)
    }
}

/// Total number of extracted rows across the chunks.
pub open spec fn spec_dg_count(chunks: Seq<JsonSpec>) -> int
    decreases chunks.len(),
{
    if chunks.len() == 0 {
        0
    } else {
        (match spec_dg_rows(chunks[0]) {
            Option::Some(rows) => rows.len() as int,
            Option::None => 0,
        }) + spec_dg_count(chunks.drop_first())
    }
}

/// Every column of the reassembled table has one cell per extracted
/// row, whichever column it is: the table cannot come out ragged.
pub proof fn lemma_dg_col_len(chunks: Seq<JsonSpec>, j: int)
    ensures
        spec_dg_col(chunks, j).len() == spec_dg_count(chunks),
    decreases chunks.len(),
{
    if chunks.len() > 0 {
        lemma_dg_col_len(chunks.drop_first(), j);
    }
}

proof fn lemma_dg_first_headers_skip(chunks: Seq<JsonSpec>, j: int)
    requires
        0 <= j <= chunks.len(),
        forall|k: int| 0 <= k < j ==> spec_dg_headers(#[trigger] chunks[k]) is None,
    ensures
        spec_dg_first_headers(chunks) == spec_dg_first_headers(chunks.skip(j)),
    decreases j,
{
    if j > 0 {
        lemma_dg_first_headers_skip(chunks, j - 1);
        assert(chunks.skip(j - 1).len() > 0);
        assert(chunks.skip(j - 1)[0] == chunks[j - 1]);
        assert(chunks.skip(j - 1).drop_first() =~= chunks.skip(j));
    } else {
        assert(chunks.skip(0) =~= chunks);
    }
}

/// Law: two chunk results reassemble into columns holding the first
/// chunk's rows followed by the second's, under the first chunk's
/// header order: the row count is the sum of both, and no row of
/// either chunk is lost.
pub proof fn lemma_reassemble_two_chunks(c1: JsonSpec, c2: JsonSpec, h: Seq<Seq<char>>)
    requires
        spec_dg_headers(c1) == Option::Some(h),
    ensures
        spec_dg_first_headers(seq![c1, c2]) == Option::Some(h),
        forall|j: int|
            #![trigger spec_dg_col_one(c1, j)]
            spec_dg_col(seq![c1, c2], j) == spec_dg_col_one(c1, j) + spec_dg_col_one(c2, j)
                && spec_dg_col(seq![c1, c2], j).len() == spec_dg_col_one(c1, j).len()
                + spec_dg_col_one(c2, j).len(),
{
    let cs = seq![c1, c2];
    assert forall|j: int|
        #![trigger spec_dg_col_one(c1, j)]
        spec_dg_col(cs, j) == spec_dg_col_one(c1, j) + spec_dg_col_one(c2, j) by {
        assert(cs[0] == c1);
        assert(cs.drop_first() =~= seq![c2]);
        assert(seq![c2][0] == c2);
        assert(seq![c2].drop_first() =~= Seq::<JsonSpec>::empty());
        assert(spec_dg_col(Seq::<JsonSpec>::empty(), j) =~= Seq::<Option<Seq<char>>>::empty());
        assert(spec_dg_col(seq![c2], j) =~= spec_dg_col_one(c2, j));
        assert(spec_dg_col(cs, j) =~= spec_dg_col_one(c1, j) + spec_dg_col(seq![c2], j));
        assert(spec_dg_col(cs, j) =~= spec_dg_col_one(c1, j) + spec_dg_col_one(c2, j));
    }
}

/// Headers of one datagrid response chunk, if it carries a non-empty
/// header row.
#[verifier::loop_isolation(false)]
pub fn fetch_headers(chunk: &JsonVal) -> (r: Option<Vec<String>>)
    ensures
        match r {
            Option::Some(h) => spec_dg_headers(chunk@) == Option::Some(h.deep_view()),
            Option::None => spec_dg_headers(chunk@) is None,
        },
{
    let node: &JsonVal = match chunk.get(&String::from_str("responses")) {
        Option::Some(resp) => match resp.at(0) {
            Option::Some(first) => match first.get(&String::from_str("headers")) {
                Option::Some(hs) => match hs.at(0) {
                    Option::Some(x) => x,
                    Option::None => {
                        return Option::None;
                    },
                },
                Option::None => {
                    return Option::None;
                },
            },
            Option::None => {
                return Option::None;
            },
        },
        Option::None => {
            return Option::None;
        },
    };
    proof {
        assert(spec_dg_headers_node(chunk@) == node@);
        broadcast use lemma_jv_view_seq;

    }
    match node {
        JsonVal::Arr(items) => {
            let ghost gitems = jv_view_seq(items@);
            proof {
                assert(node@ == JsonSpec::Arr(gitems));
            }
            if items.len() == 0 {
                return Option::None;
            }
            let n = items.len();
            let mut names: Vec<String> = Vec::new();
            let mut i: usize = 0;
            let key = String::from_str("displayName");
            while i < n
                invariant
                    i <= n,
                    names@.len() == i,
                    forall|k: int|
                        0 <= k < i ==> (#[trigger] names@[k])@ == spec_cell_text(
                            field_at(gitems[k], "displayName"@),
                        ),
                decreases n - i,
            {
                names.push(items[i].field_text(&key));
                i = i + 1;
            }
            proof {
                assert(names.deep_view() =~= Seq::new(
                    gitems.len(),
                    |k: int| spec_cell_text(field_at(gitems[k], "displayName"@)),
                ));
            }
            Option::Some(names)
        },
        _ => Option::None,
    }
}

/// The authoritative header set: scan the chunks in order and take the
/// first non-empty header row found.
#[verifier::loop_isolation(false)]
pub fn first_headers(chunks: &Vec<JsonVal>) -> (r: Option<Vec<String>>)
    ensures
        match r {
            Option::Some(h) => spec_dg_first_headers(jv_view_seq(chunks@)) == Option::Some(
                h.deep_view(),
            ),
            Option::None => spec_dg_first_headers(jv_view_seq(chunks@)) is None,
        },
{
    proof {
        broadcast use lemma_jv_view_seq;

    }
    let ghost gchunks = jv_view_seq(chunks@);
    let n = chunks.len();
    let mut i: usize = 0;
    while i < n
        invariant
            i <= n,
            forall|k: int| 0 <= k < i ==> spec_dg_headers(#[trigger] gchunks[k]) is None,
        decreases n - i,
    {
        match fetch_headers(&chunks[i]) {
            Option::Some(h) => {
                proof {
                    lemma_dg_first_headers_skip(gchunks, i as int);
                    assert(gchunks.skip(i as int)[0] == gchunks[i as int]);
                }
                return Option::Some(h);
            },
            Option::None => {},
        }
        i = i + 1;
    }
    proof {
        lemma_dg_first_headers_skip(gchunks, n as int);
        assert(gchunks.skip(n as int).len() == 0);
    }
    Option::None
}

/// The row array of one chunk, `responses[0].data`, if present.
fn dg_data_node<'a>(chunk: &'a JsonVal) -> (r: Option<&'a JsonVal>)
    ensures
        match r {
            Option::Some(x) => field_at(arr_at(field_at(chunk@, "responses"@), 0), "data"@) == x@,
            Option::None => field_at(arr_at(field_at(chunk@, "responses"@), 0), "data"@) is Null,
        },
{
    match chunk.get(&String::from_str("responses")) {
        Option::Some(resp) => match resp.at(0) {
            Option::Some(first) => first.get(&String::from_str("data")),
            Option::None => Option::None,
        },
        Option::None => Option::None,
    }
}

/// Merge the chunk results into one table: the first header row found
/// names the columns, and every chunk's rows are appended under them,
/// cleaned cell by cell. Fails with `NoHeaders` when no chunk carries a
/// header row, and with `NoDataFrame` when two columns would share a
/// name.
#[verifier::loop_isolation(false)]
pub fn to_table(chunks: &Vec<JsonVal>) -> (r: Result<Table, EkError>)
    ensures
        ({
            let gchunks = jv_view_seq(chunks@);
            match spec_dg_first_headers(gchunks) {
                Option::None => r matches Err(e) && e is NoHeaders,
                Option::Some(h) => if spec_distinct(h) {
                    r matches Ok(t) && t.spec_names() == h && t.cols@.len() == h.len() && (forall|
                        j: int,
                    |
                        0 <= j < h.len() ==> #[trigger] t.spec_cols()[j] == spec_dg_col(gchunks, j))
                        && t.wf()
                } else {
                    r matches Err(e) && e is NoDataFrame
                },
            }
        }),
{
    proof {
        broadcast use lemma_jv_view_seq;

    }
    let ghost gchunks = jv_view_seq(chunks@);
    let headers = match first_headers(chunks) {
        Option::Some(h) => h,
        Option::None => {
            return Err(EkError::NoHeaders(String::from_str("Could not build headers")));
        },
    };
    let ghost gh = headers.deep_view();
    let n = chunks.len();
    let hn = headers.len();
    let mut cols: Vec<Vec<Option<String>>> = Vec::new();
    let mut j: usize = 0;
    while j < hn
        invariant
            j <= hn,
            cols@.len() == j,
            forall|q: int|
                0 <= q < j ==> (#[trigger] cols@[q]).deep_view() == spec_dg_col(gchunks, q),
        decreases hn - j,
    {
        let mut col: Vec<Option<String>> = Vec::new();
        let mut c: usize = 0;
        proof {
            assert(gchunks.skip(0) =~= gchunks);
            assert(col.deep_view() + spec_dg_col(gchunks, j as int) =~= spec_dg_col(
                gchunks,
                j as int,
            ));
        }
        while c < n
            invariant
                c <= n,
                spec_dg_col(gchunks, j as int) =~= col.deep_view() + spec_dg_col(
                    gchunks.skip(c as int),
                    j as int,
                ),
            decreases n - c,
        {
            let ghost base = col.deep_view();
            match dg_data_node(&chunks[c]) {
                Option::Some(node) => {
                    match node {
                        JsonVal::Arr(items) => {
                            let ghost grows = jv_view_seq(items@);
                            proof {
                                assert(node@ == JsonSpec::Arr(grows));
                                assert(spec_dg_rows(gchunks[c as int]) == Option::Some(grows));
                            }
                            let rn = items.len();
                            let mut rr: usize = 0;
                            while rr < rn
                                invariant
                                    rr <= rn,
                                    col.deep_view() =~= base + Seq::new(
                                        rr as nat,
                                        |q: int|
                                            Option::Some(
                                                spec_cell_text(arr_at(grows[q], j as int)),
                                            ),
                                    ),
                                decreases rn - rr,
                            {
                                let ghost prevdeep = col.deep_view();
                                let cell = items[rr].elem_text(j);
                                proof {
                                    assert(grows[rr as int] == items@[rr as int]@);
                                    assert(cell@ == spec_cell_text(arr_at(grows[rr as int], j as int)));
                                }
                                col.push(Option::Some(cell));
                                proof {
                                    assert(col.deep_view() =~= prevdeep.push(
                                        Option::Some(
                                            spec_cell_text(arr_at(grows[rr as int], j as int)),
                                        ),
                                    ));
                                    assert(base + Seq::new(
                                        (rr + 1) as nat,
                                        |q: int|
                                            Option::Some(
                                                spec_cell_text(arr_at(grows[q], j as int)),
                                            ),
                                    ) =~= prevdeep.push(
                                        Option::Some(
                                            spec_cell_text(arr_at(grows[rr as int], j as int)),
                                        ),
                                    ));
                                }
                                rr = rr + 1;
                            }
                            proof {
                                assert(col.deep_view() =~= base + spec_dg_col_one(
                                    gchunks[c as int],
                                    j as int,
                                ));
                            }
                        },
                        _ => {
                            proof {
                                assert(spec_dg_rows(gchunks[c as int]) is None);
                                assert(col.deep_view() =~= base + spec_dg_col_one(
                                    gchunks[c as int],
                                    j as int,
                                ));
                            }
                        },
                    }
                },
                Option::None => {
                    proof {
                        assert(spec_dg_rows(gchunks[c as int]) is None);
                        assert(col.deep_view() =~= base + spec_dg_col_one(
                            gchunks[c as int],
                            j as int,
                        ));
                    }
                },
            }
            proof {
                assert(gchunks.skip(c as int)[0] == gchunks[c as int]);
                assert(gchunks.skip(c as int).drop_first() =~= gchunks.skip(c + 1));
                assert(spec_dg_col(gchunks.skip(c as int), j as int) =~= spec_dg_col_one(
                    gchunks[c as int],
                    j as int,
                ) + spec_dg_col(gchunks.skip(c + 1), j as int));
            }
            c = c + 1;
        }
        proof {
            assert(gchunks.skip(n as int).len() == 0);
            assert(spec_dg_col(gchunks.skip(n as int), j as int) =~= Seq::<
                Option<Seq<char>>,
            >::empty());
            assert(col.deep_view() =~= spec_dg_col(gchunks, j as int));
        }
        cols.push(col);
        j = j + 1;
    }
    proof {
        assert forall|q: int| 0 <= q < hn implies (#[trigger] cols@[q]).deep_view().len()
            == spec_dg_count(gchunks) by {
            lemma_dg_col_len(gchunks, q);
        }
    }
    proof {
        let cand = Table { names: headers, cols };
        assert(cand.spec_names() =~= gh);
        if spec_distinct(gh) {
            if cand.cols.len() > 0 {
                assert(cand.spec_cols()[0].len() == spec_dg_count(gchunks));
            }
            assert(cand.wf());
        } else {
            let (a, b) = choose|a: int, b: int| 0 <= a < b < gh.len() && gh[a] == gh[b];
            assert(cand.spec_names()[a] == cand.spec_names()[b]);
            assert(!cand.wf());
        }
    }
    let t = Table::new_from_columns(headers, cols);
    match t {
        Ok(t) => Ok(t),
        Err(e) => Err(e),
    }
}

/// The outcome of a whole datagrid request, from the collected chunk
/// results: `NoData` when nothing contributed, the raw chunks when the
/// caller asked for them, the reassembled table otherwise.
pub fn datagrid_result(chunks: Vec<JsonVal>, raw: bool) -> (r: EkResults)
    ensures
        chunks@.len() == 0 ==> (r matches EkResults::Error(e) && e is NoData),
        chunks@.len() > 0 && raw ==> (r matches EkResults::Raw(v) && v == chunks),
        chunks@.len() > 0 && !raw ==> ({
            let gchunks = jv_view_seq(chunks@);
            match spec_dg_first_headers(gchunks) {
                Option::None => r matches EkResults::Error(e) && e is NoHeaders,
                Option::Some(h) => if spec_distinct(h) {
                    r matches EkResults::DF(t) && t.spec_names() == h && t.wf() && (forall|j: int|
                        0 <= j < h.len() ==> #[trigger] t.spec_cols()[j] == spec_dg_col(gchunks, j))
                } else {
                    r matches EkResults::Error(e) && e is NoDataFrame
                },
            }
        }),
{
    if chunks.len() == 0 {
        return EkResults::Error(
            EkError::NoData(String::from_str("No data returned from the service")),
        );
    }
    if raw {
        return EkResults::Raw(chunks);
    }
    match to_table(&chunks) {
        Ok(t) => EkResults::DF(t),
        Err(e) => EkResults::Error(e),
    }
}

} // verus!
