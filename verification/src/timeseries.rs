//! The time-series side of the client: the two-dimensional partitioner
//! that caps instruments per chunk and cuts the requested span into
//! equal sub-intervals, the request payload builder, and the reassembly
//! of time-series responses into tables.

use vstd::prelude::*;
use vstd::string::StringExecFns;
use vstd::arithmetic::div_mod::lemma_div_is_ordered;
use vstd::arithmetic::div_mod::lemma_div_pos_is_pos;
use vstd::arithmetic::div_mod::lemma_fundamental_div_mod;
use vstd::arithmetic::div_mod::lemma_fundamental_div_mod_converse;
use vstd::arithmetic::div_mod::lemma_mod_division_less_than_divisor;
use vstd::arithmetic::mul::lemma_mul_inequality;

use crate::connection::Connection;
use crate::datagrid::chunk_instruments;
use crate::datagrid::spec_chunks;
use crate::dates::format_datetime;
use crate::dates::iso_datetime_of;
use crate::json::JsonSpec;
use crate::json::JsonVal;
use crate::json::arr_at;
use crate::json::field_at;
use crate::json::jv_view_entries;
use crate::json::jv_view_seq;
use crate::json::lemma_jv_view_entries;
use crate::json::lemma_jv_view_seq;
use crate::json::spec_cell_text;
use crate::table::Table;
use crate::table::clone_names;
use crate::table::spec_distinct;
use crate::table::spec_padded_col;
use crate::table::spec_subset_names;
use crate::table::vstack_diag;
use crate::utils::EkError;
use crate::utils::EkResults;
use crate::utils::vec_contains_string;

verus! {

/// The row cap of one time-series call.
pub const MAX_TS_ROWS: usize = 3000;

/// The instrument cap of one time-series call.
pub const MAX_TS_COMPANIES: usize = 300;

/// Trading days per year, used by the daily row estimate.
pub const TRADING_DAYS: usize = 252;

/// The span cap, in seconds, that the partitioner accepts: wide enough
/// for any calendar request, small enough that every row estimate fits
/// in a machine integer.
pub const MAX_TS_SPAN_SECONDS: i64 = 100000000000;

/// The sampling frequencies a time-series request can ask for.
#[derive(Debug, Clone, Copy, PartialEq, Eq)]
pub enum Frequency {
    Minute,
    Hour,
    Daily,
    Weekly,
    Monthly,
    Quarterly,
    Yearly,
}

/// The frequency name on the wire.
pub open spec fn spec_freq_str(f: Frequency) -> Seq<char> {
    match f {
        Frequency::Minute => "minute"@,
        Frequency::Hour => "hour"@,
        Frequency::Daily => "daily"@,
        Frequency::Weekly => "weekly"@,
        Frequency::Monthly => "monthly"@,
        Frequency::Quarterly => "quarterly"@,
        Frequency::Yearly => "yearly"@,
    }
}

/// The frequency a name selects; every unknown name selects daily.
pub open spec fn spec_freq_of(v: Seq<char>) -> Frequency {
    if v == "minute"@ {
        Frequency::Minute
    } else if v == "hour"@ {
        Frequency::Hour
    } else if v == "weekly"@ {
        Frequency::Weekly
    } else if v == "monthly"@ {
        Frequency::Monthly
    } else if v == "quarterly"@ {
        Frequency::Quarterly
    } else if v == "yearly"@ {
        Frequency::Yearly
    } else {
        Frequency::Daily
    }
}

impl Frequency {
    /// The frequency name on the wire.
    pub fn as_str(&self) -> (r: &'static str)
        ensures
            r@ == spec_freq_str(*self),
    {
        match self {
            Frequency::Minute => "minute",
            Frequency::Hour => "hour",
            Frequency::Daily => "daily",
            Frequency::Weekly => "weekly",
            Frequency::Monthly => "monthly",
            Frequency::Quarterly => "quarterly",
            Frequency::Yearly => "yearly",
        }
    }

    /// The frequency named `v`; every unknown name means daily.
    pub fn new(v: &str) -> (r: Frequency)
        ensures
            r == spec_freq_of(v@),
    {
        let s = v.to_owned();
        if s == String::from_str("minute") {
            Frequency::Minute
        } else if s == String::from_str("hour") {
            Frequency::Hour
        } else if s == String::from_str("weekly") {
            Frequency::Weekly
        } else if s == String::from_str("monthly") {
            Frequency::Monthly
        } else if s == String::from_str("quarterly") {
            Frequency::Quarterly
        } else if s == String::from_str("yearly") {
            Frequency::Yearly
        } else {
            Frequency::Daily
        }
    }
}

pub struct TimeSeries {
    pub connection: Connection,
}

impl TimeSeries {
    pub fn new(c: Connection) -> (r: Self)
        ensures
            r.connection == c,
    {
        Self { connection: c }
    }
}

/// Estimated rows one instrument produces over `span_secs` seconds at
/// frequency `f`: half the elapsed minutes or hours for the intraday
/// frequencies, trading-day density for daily data, the elapsed week
/// count for weekly data, and the elapsed days scaled to the annual
/// fraction for the coarser frequencies, rounding up. A negative span
/// estimates as zero rows.
pub open spec fn spec_ts_rows(f: Frequency, span_secs: int) -> int {
    let s = if span_secs < 0 {
        0
    } else {
        span_secs
    };
    match f {
        Frequency::Minute => (s / 60 + 1) / 2,
        Frequency::Hour => (s / 3600 + 1) / 2,
        Frequency::Daily => ((s / 86400) * (TRADING_DAYS as int) + 364) / 365,
        Frequency::Weekly => s / 86400 / 7,
        Frequency::Monthly => ((s / 86400) * 12 + 364) / 365,
        Frequency::Quarterly => ((s / 86400) * 4 + 364) / 365,
        Frequency::Yearly => (s / 86400 + 364) / 365,
    }
}

/// Instruments per chunk: the whole list when it is small, the cap
/// otherwise.
pub open spec fn spec_ric_group_size(n: int) -> int {
    if n > MAX_TS_COMPANIES as int {
        MAX_TS_COMPANIES as int
    } else {
        n
    }
}

/// Number of equal sub-intervals the span is cut into, so that one
/// chunk's estimated rows stay under the row cap; a degenerate span
/// still makes one group.
pub open spec fn spec_time_groups(f: Frequency, span_secs: int, n: int) -> int {
    let t = (spec_ts_rows(f, span_secs) * spec_ric_group_size(n) + (MAX_TS_ROWS as int) - 1) / (
    MAX_TS_ROWS as int);
    if t <= 0 {
        1
    } else {
        t
    }
}

/// Estimated rows for one instrument, from the clamped span.
fn ts_rows_for(f: &Frequency, span_secs: i64) -> (r: i64)
    requires
        span_secs <= MAX_TS_SPAN_SECONDS,
    ensures
        r as int == spec_ts_rows(*f, span_secs as int),
        0 <= r <= 900000000,
{
    let s: i64 = if span_secs < 0 {
        0
    } else {
        span_secs
    };
    proof {
        if s > 0 {
            lemma_div_pos_is_pos(s as int, 60);
            lemma_div_pos_is_pos(s as int, 3600);
            lemma_div_pos_is_pos(s as int, 86400);
        }
        lemma_div_is_ordered(s as int, MAX_TS_SPAN_SECONDS as int, 60);
        lemma_div_is_ordered(s as int, MAX_TS_SPAN_SECONDS as int, 3600);
        lemma_div_is_ordered(s as int, MAX_TS_SPAN_SECONDS as int, 86400);
        lemma_div_is_ordered((s as int) / 60 + 1, 1666666667int, 2);
        lemma_div_is_ordered((s as int) / 3600 + 1, 27777778int, 2);
        lemma_mul_inequality((s as int) / 86400, 1157407, TRADING_DAYS as int);
        lemma_div_is_ordered((s as int) / 86400 * (TRADING_DAYS as int) + 364, (1157407 * 252 + 364) as int, 365);
        lemma_mul_inequality((s as int) / 86400, 1157407, 12);
        lemma_div_is_ordered((s as int) / 86400 * 12 + 364, (1157407 * 12 + 364) as int, 365);
        lemma_mul_inequality((s as int) / 86400, 1157407, 4);
        lemma_div_is_ordered((s as int) / 86400 * 4 + 364, (1157407 * 4 + 364) as int, 365);
        lemma_div_is_ordered((s as int) / 86400 + 364, (1157407 + 364) as int, 365);
        if s > 0 {
            lemma_div_pos_is_pos((s as int) / 60 + 1, 2);
            lemma_div_pos_is_pos((s as int) / 3600 + 1, 2);
        }
        assert((s as int) / 86400 * (TRADING_DAYS as int) >= 0) by (nonlinear_arith)
            requires
                (s as int) / 86400 >= 0,
        ;
        assert((s as int) / 86400 * 12 >= 0) by (nonlinear_arith)
            requires
                (s as int) / 86400 >= 0,
        ;
        assert((s as int) / 86400 * 4 >= 0) by (nonlinear_arith)
            requires
                (s as int) / 86400 >= 0,
        ;
        lemma_div_pos_is_pos((s as int) / 60 + 1, 2);
        lemma_div_pos_is_pos((s as int) / 3600 + 1, 2);
        lemma_div_pos_is_pos((s as int) / 86400 * (TRADING_DAYS as int) + 364, 365);
        lemma_div_pos_is_pos((s as int) / 86400 * 12 + 364, 365);
        lemma_div_pos_is_pos((s as int) / 86400 * 4 + 364, 365);
        lemma_div_pos_is_pos((s as int) / 86400 + 364, 365);
        if (s as int) / 86400 > 0 {
            lemma_div_pos_is_pos((s as int) / 86400, 7);
        }
    }
    match f {
        Frequency::Minute => (s / 60 + 1) / 2,
        Frequency::Hour => (s / 3600 + 1) / 2,
        Frequency::Daily => ((s / 86400) * (TRADING_DAYS as i64) + 364) / 365,
        Frequency::Weekly => s / 86400 / 7,
        Frequency::Monthly => ((s / 86400) * 12 + 364) / 365,
        Frequency::Quarterly => ((s / 86400) * 4 + 364) / 365,
        Frequency::Yearly => (s / 86400 + 364) / 365,
    }
}

/// Width of one sub-interval when `[s, e]` is cut into `g` parts.
pub open spec fn spec_ts_dur(s: int, e: int, g: int) -> int {
    (e - s) / g
}

/// Cut `[sdate, edate]` into `groups` contiguous sub-intervals of equal
/// width: each begins where the one before it ends, the first begins at
/// `sdate`, and the last ends exactly at `edate`, absorbing the
/// rounding of the division. So the sub-intervals cover the span with
/// no gap and no overlap.
#[verifier::loop_isolation(false)]
pub fn create_interval(groups: usize, sdate: i64, edate: i64) -> (r: Vec<(i64, i64)>)
    requires
        1 <= groups,
        groups as int <= i64::MAX as int,
        sdate <= edate,
        edate - sdate <= i64::MAX,
    ensures
        r@.len() == groups,
        r@[0].0 == sdate,
        r@[groups - 1].1 == edate,
        forall|i: int| 0 <= i < groups - 1 ==> (#[trigger] r@[i]).1 == r@[i + 1].0,
        forall|i: int| 0 <= i < groups ==> (#[trigger] r@[i]).0 <= r@[i].1,
        forall|i: int|
            0 <= i < groups ==> (#[trigger] r@[i]).0 == sdate + i * spec_ts_dur(
                sdate as int,
                edate as int,
                groups as int,
            ),
        spec_contiguous_cover(r@, sdate as int, edate as int),
{
    let g: i64 = groups as i64;
    let dur: i64 = (edate - sdate) / g;
    proof {
        assert(dur == spec_ts_dur(sdate as int, edate as int, groups as int));
    }
    proof {
        lemma_div_pos_is_pos(edate - sdate, g as int);
        lemma_fundamental_div_mod(edate - sdate, g as int);
        lemma_mod_division_less_than_divisor(edate - sdate, g as int);
        assert((g as int) * dur == (edate - sdate) - (edate - sdate) % (g as int));
    }
    let mut intervals: Vec<(i64, i64)> = Vec::new();
    let mut s: i64 = sdate;
    let mut i: usize = 0;
    while i < groups
        invariant
            i <= groups,
            intervals@.len() == i,
            i < groups ==> s == sdate + (i as int) * dur,
            sdate <= s <= edate,
            i < groups ==> s + ((groups - i) as int) * dur <= edate,
            i > 0 && i < groups ==> intervals@[i - 1].1 == s,
            forall|k: int| 0 <= k < i ==> (#[trigger] intervals@[k]).0 == sdate + k * dur,
            forall|k: int| 0 <= k < i - 1 ==> (#[trigger] intervals@[k]).1 == intervals@[k + 1].0,
            forall|k: int| 0 <= k < i ==> (#[trigger] intervals@[k]).0 <= intervals@[k].1,
            i > 0 ==> intervals@[0].0 == sdate,
            i == groups && i > 0 ==> intervals@[i - 1].1 == edate,
        decreases groups - i,
    {
        proof {
            assert(((groups - i) as int) * dur >= 1 * dur) by {
                lemma_mul_inequality(1, (groups - i) as int, dur as int);
            }
            assert(s + dur <= edate);
            assert(((i + 1) as int) * dur == (i as int) * dur + dur) by (nonlinear_arith);
            assert(((groups - (i + 1)) as int) * dur == ((groups - i) as int) * dur - dur)
                by (nonlinear_arith)
                requires
                    i < groups,
            ;
        }
        let e: i64 = if i == groups - 1 {
            edate
        } else {
            s + dur
        };
        intervals.push((s, e));
        s = e;
        i = i + 1;
    }
    intervals
}

/// One time-series chunk payload: the chunk's instruments, the fields,
/// the frequency name, and one sub-interval's bounds as text.
pub open spec fn spec_ts_payload(
    rics: Seq<Seq<char>>,
    fields: Seq<Seq<char>>,
    f: Frequency,
    s: int,
    e: int,
) -> JsonSpec {
    JsonSpec::Obj(
        seq![
            ("rics"@, JsonSpec::Arr(Seq::new(rics.len(), |i: int| JsonSpec::Str(rics[i])))),
            (
                "fields"@,
                JsonSpec::Arr(Seq::new(fields.len(), |i: int| JsonSpec::Str(fields[i]))),
            ),
            ("interval"@, JsonSpec::Str(spec_freq_str(f))),
            ("startdate"@, JsonSpec::Str(iso_datetime_of(s))),
            ("enddate"@, JsonSpec::Str(iso_datetime_of(e))),
        ],
    )
}

/// Build the payload of one chunk for one sub-interval.
#[verifier::loop_isolation(false)]
pub fn assemble_payload(
    rics: Vec<String>,
    fields: &Vec<String>,
    frq: &Frequency,
    sdate: i64,
    edate: i64,
) -> (r: JsonVal)
    ensures
        r@ == spec_ts_payload(
            rics.deep_view(),
            fields.deep_view(),
            *frq,
            sdate as int,
            edate as int,
        ),
{
    proof {
        broadcast use lemma_jv_view_seq, lemma_jv_view_entries;

    }
    let ghost grics = rics.deep_view();
    let ghost gfields = fields.deep_view();
    let n = rics.len();
    let mut rarr: Vec<JsonVal> = Vec::new();
    let mut i: usize = 0;
    while i < n
        invariant
            i <= n,
            rarr@.len() == i,
            forall|k: int| 0 <= k < i ==> (#[trigger] rarr@[k])@ == JsonSpec::Str(grics[k]),
        decreases n - i,
    {
        rarr.push(JsonVal::Str(rics[i].clone()));
        i = i + 1;
    }
    let rics_val = JsonVal::Arr(rarr);
    proof {
        assert(jv_view_seq(rics_val->Arr_0@) =~= Seq::new(
            grics.len(),
            |i: int| JsonSpec::Str(grics[i]),
        ));
    }
    let m = fields.len();
    let mut farr: Vec<JsonVal> = Vec::new();
    let mut j: usize = 0;
    while j < m
        invariant
            j <= m,
            farr@.len() == j,
            forall|k: int| 0 <= k < j ==> (#[trigger] farr@[k])@ == JsonSpec::Str(gfields[k]),
        decreases m - j,
    {
        farr.push(JsonVal::Str(fields[j].clone()));
        j = j + 1;
    }
    let fields_val = JsonVal::Arr(farr);
    proof {
        assert(jv_view_seq(fields_val->Arr_0@) =~= Seq::new(
            gfields.len(),
            |i: int| JsonSpec::Str(gfields[i]),
        ));
    }
    let mut entries: Vec<(String, JsonVal)> = Vec::new();
    entries.push((String::from_str("rics"), rics_val));
    entries.push((String::from_str("fields"), fields_val));
    entries.push((String::from_str("interval"), JsonVal::Str(String::from_str(frq.as_str()))));
    entries.push((String::from_str("startdate"), JsonVal::Str(format_datetime(sdate))));
    entries.push((String::from_str("enddate"), JsonVal::Str(format_datetime(edate))));
    let r = JsonVal::Obj(entries);
    proof {
        assert(jv_view_entries(r->Obj_0@) =~= spec_ts_payload(
            grics,
            gfields,
            *frq,
            sdate as int,
            edate as int,
        )->Obj_0);
    }
    r
}

/// The shape `create_interval` guarantees: the first sub-interval
/// begins at `s`, the last ends at `e`, each begins where the one
/// before it ends, and none runs backwards.
pub open spec fn spec_contiguous_cover(ivs: Seq<(i64, i64)>, s: int, e: int) -> bool {
    &&& ivs.len() >= 1
    &&& ivs[0].0 == s
    &&& ivs[ivs.len() - 1].1 == e
    &&& forall|i: int| 0 <= i < ivs.len() - 1 ==> (#[trigger] ivs[i]).1 == ivs[i + 1].0
    &&& forall|i: int| 0 <= i < ivs.len() ==> (#[trigger] ivs[i]).0 <= ivs[i].1
}

proof fn lemma_intervals_ordered(ivs: Seq<(i64, i64)>, s: int, e: int, i: int, j: int)
    requires
        spec_contiguous_cover(ivs, s, e),
        0 <= i < j < ivs.len(),
    ensures
        ivs[i].1 <= ivs[j].0,
    decreases j - i,
{
    if j == i + 1 {
    } else {
        lemma_intervals_ordered(ivs, s, e, i, j - 1);
    }
}

proof fn lemma_intervals_hit(ivs: Seq<(i64, i64)>, s: int, e: int, x: int)
    requires
        spec_contiguous_cover(ivs, s, e),
        s <= x <= e,
    ensures
        exists|i: int| 0 <= i < ivs.len() && (#[trigger] ivs[i]).0 <= x <= ivs[i].1,
    decreases ivs.len(),
{
    if x <= ivs[0].1 {
        assert(ivs[0].0 <= x <= ivs[0].1);
    } else {
        assert(ivs.len() >= 2);
        let tail = ivs.drop_first();
        assert(tail[0].0 == ivs[0].1);
        assert(forall|i: int| 0 <= i < tail.len() ==> #[trigger] tail[i] == ivs[i + 1]);
        assert(tail[tail.len() - 1].1 == e);
        assert(spec_contiguous_cover(tail, ivs[0].1 as int, e));
        lemma_intervals_hit(tail, ivs[0].1 as int, e, x);
        let w = choose|i: int| 0 <= i < tail.len() && (#[trigger] tail[i]).0 <= x <= tail[i].1;
        assert(ivs[w + 1].0 <= x <= ivs[w + 1].1);
    }
}

/// Law: contiguous sub-intervals with matching endpoints cover the
/// whole span `[s, e]` with no gap and no overlap — every instant of
/// the span lies in some sub-interval, every sub-interval lies inside
/// the span, and two distinct sub-intervals meet at most at one
/// endpoint. `create_interval` establishes exactly this shape, so the
/// sub-intervals of every (instrument chunk, time sub-interval) pair of
/// the partition, sorted, cover the requested range exactly, and the
/// last sub-interval ends at `e` itself.
pub proof fn lemma_intervals_cover_span(ivs: Seq<(i64, i64)>, s: int, e: int, x: int)
    requires
        spec_contiguous_cover(ivs, s, e),
        s <= x <= e,
    ensures
        exists|i: int| 0 <= i < ivs.len() && (#[trigger] ivs[i]).0 <= x <= ivs[i].1,
        forall|i: int| 0 <= i < ivs.len() ==> s <= (#[trigger] ivs[i]).0 && ivs[i].1 <= e,
        forall|i: int, j: int|
            0 <= i < j < ivs.len() ==> (#[trigger] ivs[i]).1 <= (#[trigger] ivs[j]).0,
{
    lemma_intervals_hit(ivs, s, e, x);
    assert forall|i: int, j: int| 0 <= i < j < ivs.len() implies (#[trigger] ivs[i]).1 <= (
    #[trigger] ivs[j]).0 by {
        lemma_intervals_ordered(ivs, s, e, i, j);
    }
    assert forall|i: int| 0 <= i < ivs.len() implies s <= (#[trigger] ivs[i]).0 && ivs[i].1
        <= e by {
        if i > 0 {
            lemma_intervals_ordered(ivs, s, e, 0, i);
        }
        if i < ivs.len() - 1 {
            lemma_intervals_ordered(ivs, s, e, i, ivs.len() - 1);
        }
    }
}

/// The sub-interval start the payload at position `k` carries, under
/// `tg` sub-intervals of width `dur`.
pub open spec fn spec_ts_start(sdate: int, dur: int, tg: int, k: int) -> int {
    sdate + (k % tg) * dur
}

/// The sub-interval end the payload at position `k` carries: the next
/// start, except that the last sub-interval ends at `edate` exactly.
pub open spec fn spec_ts_end(sdate: int, edate: int, dur: int, tg: int, k: int) -> int {
    if k % tg == tg - 1 {
        edate
    } else {
        sdate + (k % tg + 1) * dur
    }
}

/// Partition a logical time-series request into its ordered chunk
/// payloads: the instrument list is cut into chunks of at most the
/// instrument cap, the date span into as many equal sub-intervals as
/// keep one chunk's estimated rows under the row cap, and every
/// instrument chunk is paired with every sub-interval.
#[verifier::loop_isolation(false)]
#[verifier::rlimit(60)]
pub fn groups(
    rics: Vec<String>,
    fields: Vec<String>,
    sdate: i64,
    edate: i64,
    frq: Frequency,
) -> (r: Vec<JsonVal>)
    requires
        rics@.len() >= 1,
        sdate <= edate,
        edate - sdate <= MAX_TS_SPAN_SECONDS,
    ensures
        ({
            let grics = rics.deep_view();
            let cs = spec_chunks(grics, spec_ric_group_size(grics.len() as int));
            let tg = spec_time_groups(frq, edate - sdate, grics.len() as int);
            let dur = spec_ts_dur(sdate as int, edate as int, tg);
            &&& r@.len() == cs.len() * tg
            &&& forall|k: int|
                0 <= k < r@.len() ==> (#[trigger] r@[k])@ == spec_ts_payload(
                    cs[k / tg],
                    fields.deep_view(),
                    frq,
                    spec_ts_start(sdate as int, dur, tg, k),
                    spec_ts_end(sdate as int, edate as int, dur, tg, k),
                )
        }),
{
    proof {
        broadcast use lemma_jv_view_seq;

    }
    let ghost grics = rics.deep_view();
    let ghost gfields = fields.deep_view();
    let n = rics.len();
    let rgs: usize = if n > MAX_TS_COMPANIES {
        MAX_TS_COMPANIES
    } else {
        n
    };
    let rows: i64 = ts_rows_for(&frq, edate - sdate);
    proof {
        assert(rows * (rgs as int) >= 0) by (nonlinear_arith)
            requires
                rows >= 0,
                rgs >= 0,
        ;
        assert(rows * (rgs as int) <= 900000000 * 300) by (nonlinear_arith)
            requires
                0 <= rows <= 900000000,
                0 <= rgs <= 300,
        ;
    }
    let tg64: i64 = (rows * (rgs as i64) + (MAX_TS_ROWS as i64) - 1) / (MAX_TS_ROWS as i64);
    proof {
        lemma_div_pos_is_pos(rows * (rgs as int) + (MAX_TS_ROWS as int) - 1, MAX_TS_ROWS as int);
        lemma_div_is_ordered(
            rows * (rgs as int) + (MAX_TS_ROWS as int) - 1,
            900000000 * 300 + (MAX_TS_ROWS as int) - 1,
            MAX_TS_ROWS as int,
        );
    }
    let tg: usize = if tg64 <= 0 {
        1
    } else {
        tg64 as usize
    };
    proof {
        assert(tg as int == spec_time_groups(frq, (edate - sdate) as int, grics.len() as int));
        assert(1 <= tg <= 1000000000);
    }
    let chunks = chunk_instruments(&rics, rgs);
    let ivs = create_interval(tg, sdate, edate);
    let ghost cs = spec_chunks(grics, rgs as int);
    let ghost dur = spec_ts_dur(sdate as int, edate as int, tg as int);
    let cn = chunks.len();
    let mut payloads: Vec<JsonVal> = Vec::new();
    let mut c: usize = 0;
    while c < cn
        invariant
            c <= cn,
            payloads@.len() == c * tg,
            forall|k: int|
                0 <= k < payloads@.len() ==> (#[trigger] payloads@[k])@ == spec_ts_payload(
                    cs[k / (tg as int)],
                    gfields,
                    frq,
                    spec_ts_start(sdate as int, dur, tg as int, k),
                    spec_ts_end(sdate as int, edate as int, dur, tg as int, k),
                ),
        decreases cn - c,
    {
        let mut t: usize = 0;
        proof {
            assert(c * tg + tg == (c + 1) * tg) by (nonlinear_arith);
        }
        while t < tg
            invariant
                t <= tg,
                c < cn,
                payloads@.len() == c * tg + t,
                forall|k: int|
                    0 <= k < payloads@.len() ==> (#[trigger] payloads@[k])@ == spec_ts_payload(
                        cs[k / (tg as int)],
                        gfields,
                        frq,
                        spec_ts_start(sdate as int, dur, tg as int, k),
                        spec_ts_end(sdate as int, edate as int, dur, tg as int, k),
                    ),
            decreases tg - t,
        {
            let chunk = clone_names(&chunks[c]);
            proof {
                assert(chunk.deep_view() =~= chunks.deep_view()[c as int]);
            }
            let payload = assemble_payload(chunk, &fields, &frq, ivs[t].0, ivs[t].1);
            proof {
                let ghost k = (c * tg + t) as int;
                lemma_fundamental_div_mod_converse(k, tg as int, c as int, t as int);
                assert(k / (tg as int) == c as int);
                assert(k % (tg as int) == t as int);
                assert(ivs@[t as int].0 == sdate + (t as int) * dur);
                if t as int == tg - 1 {
                    assert(ivs@[t as int].1 == edate);
                } else {
                    assert(ivs@[t as int].1 == ivs@[t as int + 1].0);
                    assert(ivs@[t as int].1 == sdate + (t as int + 1) * dur);
                }
            }
            payloads.push(payload);
            t = t + 1;
        }
        c = c + 1;
    }
    proof {
        assert(payloads@.len() == cn * tg);
    }
    payloads
}

/// The instrument entries of a time-series response: its
/// `timeseriesData` array.
pub open spec fn spec_ts_entries(chunk: JsonSpec) -> Seq<JsonSpec> {
    match field_at(chunk, "timeseriesData"@) {
        JsonSpec::Arr(es) => es,
        _ => Seq::empty(),
    }
}

/// Whether one instrument entry reports a normal status.
pub open spec fn spec_ts_status_normal(e: JsonSpec) -> bool {
    field_at(e, "statusCode"@) == JsonSpec::Str("Normal"@)
}

/// The header names of a time-series response: the cleaned field names
/// of the first instrument entry, with the instrument column appended —
/// provided that entry reports a normal status and carries a field
/// list.
pub open spec fn spec_ts_headers(chunk: JsonSpec) -> Option<Seq<Seq<char>>> {
    let first = arr_at(field_at(chunk, "timeseriesData"@), 0);
    if spec_ts_status_normal(first) {
        match field_at(first, "fields"@) {
            JsonSpec::Arr(fs) => Option::Some(
                Seq::new(fs.len(), |i: int| spec_cell_text(field_at(fs[i], "name"@))).push("RIC"@),
            ),
            _ => Option::None,
        }
    } else {
        Option::None
    }
}

/// The data points of one instrument entry, if it carries an array of
/// them.
pub open spec fn spec_ts_points(e: JsonSpec) -> Option<Seq<JsonSpec>> {
    match field_at(e, "dataPoints"@) {
        JsonSpec::Arr(rows) => Option::Some(rows),
        _ => Option::None,
    }
}

/// The cells one instrument entry contributes to column `j`: one per
/// data point, the instrument name itself for the instrument column.
/// An entry with an abnormal status or no data-point array contributes
/// nothing.
pub open spec fn spec_ts_col_entry(e: JsonSpec, j: int, is_ric: bool) -> Seq<Option<Seq<char>>> {
    if !spec_ts_status_normal(e) {
        Seq::empty()
    } else {
        match spec_ts_points(e) {
            Option::Some(rows) => Seq::new(
                rows.len(),
                |r: int|
                    Option::Some(
                        if is_ric {
                            spec_cell_text(field_at(e, "ric"@))
                        } else {
                            spec_cell_text(arr_at(rows[r], j))
                        },
                    ),
            ),
            Option::None => Seq::empty(),
        }
    }
}

/// Column `j` of one reassembled time-series response: every instrument
/// entry's contribution, in entry order.
pub open spec fn spec_ts_col(es: Seq<JsonSpec>, j: int, is_ric: bool) -> Seq<Option<Seq<char>>>
    decreases es.len(),
{
    if es.len() == 0 {
        Seq::empty()
    } else {
        spec_ts_col_entry(es[0], j, is_ric) + spec_ts_col(es.drop_first(), j, is_ric)
    }
}

/// Total number of extracted rows across the entries.
pub open spec fn spec_ts_count(es: Seq<JsonSpec>) -> int
    decreases es.len(),
{
    if es.len() == 0 {
        0
    } else {
        (if spec_ts_status_normal(es[0]) {
            match spec_ts_points(es[0]) {
                Option::Some(rows) => rows.len() as int,
                Option::None => 0,
            }
        } else {
            0
        }) + spec_ts_count(es.drop_first())
    }
}

/// Every column has one cell per extracted row, whichever column it is.
pub proof fn lemma_ts_col_len(es: Seq<JsonSpec>, j: int, is_ric: bool)
    ensures
        spec_ts_col(es, j, is_ric).len() == spec_ts_count(es),
    decreases es.len(),
{
    if es.len() > 0 {
        lemma_ts_col_len(es.drop_first(), j, is_ric);
    }
}

/// Whether one instrument entry reports a normal status.
fn ts_status_normal(e: &JsonVal) -> (r: bool)
    ensures
        r == spec_ts_status_normal(e@),
{
    match e.get(&String::from_str("statusCode")) {
        Option::Some(v) => match v {
            JsonVal::Str(s) => *s == String::from_str("Normal"),
            _ => false,
        },
        Option::None => false,
    }
}

/// Header names of one time-series response: the first instrument
/// entry's cleaned field names plus the instrument column, or an error
/// when that entry is missing, abnormal, or without a field list.
#[verifier::loop_isolation(false)]
pub fn fetch_headers(chunk: &JsonVal) -> (r: Result<Vec<String>, String>)
    ensures
        match r {
            Ok(h) => spec_ts_headers(chunk@) == Option::Some(h.deep_view()),
            Err(_) => spec_ts_headers(chunk@) is None,
        },
{
    proof {
        broadcast use lemma_jv_view_seq;

    }
    let first: &JsonVal = match chunk.get(&String::from_str("timeseriesData")) {
        Option::Some(ts) => match ts.at(0) {
            Option::Some(x) => x,
            Option::None => {
                return Err(String::from_str("Status Code not normal"));
            },
        },
        Option::None => {
            return Err(String::from_str("Status Code not normal"));
        },
    };
    proof {
        assert(arr_at(field_at(chunk@, "timeseriesData"@), 0) == first@);
    }
    if !ts_status_normal(first) {
        return Err(String::from_str("Status Code not normal"));
    }
    match first.get(&String::from_str("fields")) {
        Option::Some(fv) => match fv {
            JsonVal::Arr(items) => {
                let ghost gitems = jv_view_seq(items@);
                proof {
                    assert(fv@ == JsonSpec::Arr(gitems));
                }
                let n = items.len();
                let mut names: Vec<String> = Vec::new();
                let mut i: usize = 0;
                let key = String::from_str("name");
                while i < n
                    invariant
                        i <= n,
                        names@.len() == i,
                        forall|k: int|
                            0 <= k < i ==> (#[trigger] names@[k])@ == spec_cell_text(
                                field_at(gitems[k], "name"@),
                            ),
                    decreases n - i,
                {
                    names.push(items[i].field_text(&key));
                    i = i + 1;
                }
                names.push(String::from_str("RIC"));
                proof {
                    assert(names.deep_view() =~= Seq::new(
                        gitems.len(),
                        |k: int| spec_cell_text(field_at(gitems[k], "name"@)),
                    ).push("RIC"@));
                }
                Ok(names)
            },
            _ => Err(String::from_str("Status Code not normal")),
        },
        Option::None => Err(String::from_str("Status Code not normal")),
    }
}

/// Reassemble one time-series response into a table: its header names
/// name the columns, and every normal instrument entry's data points
/// are appended under them, the instrument column carrying the entry's
/// own name. Fails with `NoHeaders` when the response carries no
/// usable header set, and with `NoDataFrame` when two columns would
/// share a name.
#[verifier::loop_isolation(false)]
pub fn to_table(chunk: &JsonVal) -> (r: Result<Table, EkError>)
    ensures
        ({
            match spec_ts_headers(chunk@) {
                Option::None => r matches Err(e) && e is NoHeaders,
                Option::Some(h) => if spec_distinct(h) {
                    r matches Ok(t) && t.spec_names() == h && t.cols@.len() == h.len() && (forall|
                        j: int,
                    |
                        0 <= j < h.len() ==> #[trigger] t.spec_cols()[j] == spec_ts_col(
                            spec_ts_entries(chunk@),
                            j,
                            h[j] == "RIC"@,
                        )) && t.wf()
                } else {
                    r matches Err(e) && e is NoDataFrame
                },
            }
        }),
{
    proof {
        broadcast use lemma_jv_view_seq;

    }
    let headers = match fetch_headers(chunk) {
        Ok(h) => h,
        Err(_) => {
            return Err(
                EkError::NoHeaders(String::from_str("Could not determine headers of data")),
            );
        },
    };
    let ghost gh = headers.deep_view();
    let ghost gentries = spec_ts_entries(chunk@);
    let hn = headers.len();
    let ric_name = String::from_str("RIC");
    let points_key = String::from_str("dataPoints");
    let ric_key = String::from_str("ric");
    let mut cols: Vec<Vec<Option<String>>> = Vec::new();
    let mut j: usize = 0;
    while j < hn
        invariant
            j <= hn,
            cols@.len() == j,
            forall|q: int|
                0 <= q < j ==> (#[trigger] cols@[q]).deep_view() == spec_ts_col(
                    gentries,
                    q,
                    gh[q] == "RIC"@,
                ),
        decreases hn - j,
    {
        let is_ric = headers[j] == ric_name;
        let ghost gis_ric = gh[j as int] == "RIC"@;
        proof {
            assert(is_ric == gis_ric);
        }
        let mut col: Vec<Option<String>> = Vec::new();
        match chunk.get(&String::from_str("timeseriesData")) {
            Option::Some(ts) => match ts {
                JsonVal::Arr(entries) => {
                    let ghost ges = jv_view_seq(entries@);
                    proof {
                        assert(ts@ == JsonSpec::Arr(ges));
                        assert(gentries == ges);
                        assert(ges.skip(0) =~= ges);
                        assert(col.deep_view() + spec_ts_col(ges, j as int, gis_ric)
                            =~= spec_ts_col(ges, j as int, gis_ric));
                    }
                    let en = entries.len();
                    let mut c: usize = 0;
                    while c < en
                        invariant
                            c <= en,
                            spec_ts_col(ges, j as int, gis_ric) =~= col.deep_view() + spec_ts_col(
                                ges.skip(c as int),
                                j as int,
                                gis_ric,
                            ),
                        decreases en - c,
                    {
                        let ghost base = col.deep_view();
                        let e = &entries[c];
                        if ts_status_normal(e) {
                            match e.get(&points_key) {
                                Option::Some(pv) => match pv {
                                    JsonVal::Arr(rows) => {
                                        let ghost grows = jv_view_seq(rows@);
                                        proof {
                                            assert(pv@ == JsonSpec::Arr(grows));
                                            assert(spec_ts_points(ges[c as int])
                                                == Option::Some(grows));
                                        }
                                        let rn = rows.len();
                                        let mut rr: usize = 0;
                                        while rr < rn
                                            invariant
                                                rr <= rn,
                                                col.deep_view() =~= base + Seq::new(
                                                    rr as nat,
                                                    |q: int|
                                                        Option::Some(
                                                            if gis_ric {
                                                                spec_cell_text(
                                                                    field_at(ges[c as int], "ric"@),
                                                                )
                                                            } else {
                                                                spec_cell_text(
                                                                    arr_at(grows[q], j as int),
                                                                )
                                                            },
                                                        ),
                                                ),
                                            decreases rn - rr,
                                        {
                                            let ghost prevdeep = col.deep_view();
                                            let cell: String = if is_ric {
                                                e.field_text(&ric_key)
                                            } else {
                                                rows[rr].elem_text(j)
                                            };
                                            proof {
                                                assert(grows[rr as int] == rows@[rr as int]@);
                                            }
                                            col.push(Option::Some(cell));
                                            proof {
                                                assert(base + Seq::new(
                                                    (rr + 1) as nat,
                                                    |q: int|
                                                        Option::Some(
                                                            if gis_ric {
                                                                spec_cell_text(
                                                                    field_at(ges[c as int], "ric"@),
                                                                )
                                                            } else {
                                                                spec_cell_text(
                                                                    arr_at(grows[q], j as int),
                                                                )
                                                            },
                                                        ),
                                                ) =~= prevdeep.push(
                                                    Option::Some(
                                                        if gis_ric {
                                                            spec_cell_text(
                                                                field_at(ges[c as int], "ric"@),
                                                            )
                                                        } else {
                                                            spec_cell_text(
                                                                arr_at(grows[rr as int], j as int),
                                                            )
                                                        },
                                                    ),
                                                ));
                                                assert(col.deep_view() =~= prevdeep.push(
                                                    Option::Some(
                                                        if gis_ric {
                                                            spec_cell_text(
                                                                field_at(ges[c as int], "ric"@),
                                                            )
                                                        } else {
                                                            spec_cell_text(
                                                                arr_at(grows[rr as int], j as int),
                                                            )
                                                        },
                                                    ),
                                                ));
                                            }
                                            rr = rr + 1;
                                        }
                                        proof {
                                            assert(col.deep_view() =~= base + spec_ts_col_entry(
                                                ges[c as int],
                                                j as int,
                                                gis_ric,
                                            ));
                                        }
                                    },
                                    _ => {
                                        proof {
                                            assert(spec_ts_points(ges[c as int]) is None);
                                            assert(col.deep_view() =~= base + spec_ts_col_entry(
                                                ges[c as int],
                                                j as int,
                                                gis_ric,
                                            ));
                                        }
                                    },
                                },
                                Option::None => {
                                    proof {
                                        assert(spec_ts_points(ges[c as int]) is None);
                                        assert(col.deep_view() =~= base + spec_ts_col_entry(
                                            ges[c as int],
                                            j as int,
                                            gis_ric,
                                        ));
                                    }
                                },
                            }
                        } else {
                            proof {
                                assert(col.deep_view() =~= base + spec_ts_col_entry(
                                    ges[c as int],
                                    j as int,
                                    gis_ric,
                                ));
                            }
                        }
                        proof {
                            assert(ges.skip(c as int)[0] == ges[c as int]);
                            assert(ges.skip(c as int).drop_first() =~= ges.skip(c + 1));
                            assert(spec_ts_col(ges.skip(c as int), j as int, gis_ric)
                                =~= spec_ts_col_entry(ges[c as int], j as int, gis_ric)
                                + spec_ts_col(ges.skip(c + 1), j as int, gis_ric));
                        }
                        c = c + 1;
                    }
                    proof {
                        assert(ges.skip(en as int).len() == 0);
                        assert(spec_ts_col(ges.skip(en as int), j as int, gis_ric) =~= Seq::<
                            Option<Seq<char>>,
                        >::empty());
                        assert(col.deep_view() =~= spec_ts_col(ges, j as int, gis_ric));
                    }
                },
                _ => {
                    proof {
                        assert(gentries =~= Seq::<JsonSpec>::empty());
                        assert(col.deep_view() =~= spec_ts_col(gentries, j as int, gis_ric));
                    }
                },
            },
            Option::None => {
                proof {
                    assert(gentries =~= Seq::<JsonSpec>::empty());
                    assert(col.deep_view() =~= spec_ts_col(gentries, j as int, gis_ric));
                }
            },
        }
        cols.push(col);
        j = j + 1;
    }
    proof {
        assert forall|q: int| 0 <= q < hn implies (#[trigger] cols@[q]).deep_view().len()
            == spec_ts_count(gentries) by {
            lemma_ts_col_len(gentries, q, gh[q] == "RIC"@);
        }
        let cand = Table { names: headers, cols };
        assert(cand.spec_names() =~= gh);
        if spec_distinct(gh) {
            if cand.cols.len() > 0 {
                assert(cand.spec_cols()[0].len() == spec_ts_count(gentries));
            }
            assert(cand.wf());
        } else {
            let (a, b) = choose|a: int, b: int| 0 <= a < b < gh.len() && gh[a] == gh[b];
            assert(cand.spec_names()[a] == cand.spec_names()[b]);
            assert(!cand.wf());
        }
    }
    match Table::new_from_columns(headers, cols) {
        Ok(t) => Ok(t),
        Err(e) => Err(e),
    }
}

/// Whether every name of `xs` occurs in `ys`.
#[verifier::loop_isolation(false)]
pub fn all_names_in(xs: &Vec<String>, ys: &Vec<String>) -> (r: bool)
    ensures
        r == spec_subset_names(xs.deep_view(), ys.deep_view()),
{
    let n = xs.len();
    let mut i: usize = 0;
    while i < n
        invariant
            i <= n,
            forall|k: int| 0 <= k < i ==> ys.deep_view().contains(#[trigger] xs.deep_view()[k]),
        decreases n - i,
    {
        if !vec_contains_string(ys, &xs[i]) {
            proof {
                assert(!ys.deep_view().contains(xs.deep_view()[i as int]));
            }
            return false;
        }
        i = i + 1;
    }
    true
}

/// Stack one more chunk's table onto the accumulated one, reconciling
/// their schemas: the narrower table is padded with null columns and
/// reordered to the wider table's column order. Fails with
/// `NoDataFrame` when neither table's column set contains the other's.
pub fn stack_pair(acc: Table, next: Table) -> (r: Result<Table, EkError>)
    requires
        acc.wf(),
        next.wf(),
    ensures
        spec_subset_names(next.spec_names(), acc.spec_names()) ==> (r matches Ok(t)
            && t.spec_names() == acc.spec_names() && (forall|j: int|
            0 <= j < t.cols.len() ==> #[trigger] t.spec_cols()[j] == acc.spec_cols()[j]
                + spec_padded_col(acc, next, j))),
        !spec_subset_names(next.spec_names(), acc.spec_names()) && spec_subset_names(
            acc.spec_names(),
            next.spec_names(),
        ) ==> (r matches Ok(t) && t.spec_names() == next.spec_names() && (forall|j: int|
            0 <= j < t.cols.len() ==> #[trigger] t.spec_cols()[j] == next.spec_cols()[j]
                + spec_padded_col(next, acc, j))),
        r matches Ok(t) ==> t.wf() && t.spec_height() == acc.spec_height() + next.spec_height(),
        r is Ok <==> (spec_subset_names(next.spec_names(), acc.spec_names())
            || spec_subset_names(acc.spec_names(), next.spec_names())),
        r matches Err(e) ==> e is NoDataFrame,
{
    if all_names_in(&next.names, &acc.names) {
        vstack_diag(acc, next)
    } else if all_names_in(&acc.names, &next.names) {
        match vstack_diag(next, acc) {
            Ok(t) => Ok(t),
            Err(e) => Err(e),
        }
    } else {
        Err(EkError::NoDataFrame(String::from_str("Can't combine created dataframes")))
    }
}

/// Extracted rows of the first `upto` chunk results taken together.
pub open spec fn spec_ts_total_rows(chunks: Seq<JsonVal>, upto: int) -> int
    decreases upto,
{
    if upto <= 0 {
        0
    } else {
        spec_ts_total_rows(chunks, upto - 1) + spec_ts_count(spec_ts_entries(chunks[upto - 1]@))
    }
}

/// Whether one response converts to a table at all: it carries a
/// header set, and no two of its header names collide.
pub open spec fn spec_ts_table_ok(chunk: JsonVal) -> bool {
    match spec_ts_headers(chunk@) {
        Option::Some(h) => spec_distinct(h),
        Option::None => false,
    }
}

/// The column names a reconciling stack leaves: the accumulated ones
/// when the next table's names are contained in them, the next table's
/// when containment runs the other way, none when neither set contains
/// the other.
pub open spec fn spec_stacked_names(acc: Seq<Seq<char>>, next: Seq<Seq<char>>) -> Option<
    Seq<Seq<char>>,
> {
    if spec_subset_names(next, acc) {
        Option::Some(acc)
    } else if spec_subset_names(acc, next) {
        Option::Some(next)
    } else {
        Option::None
    }
}

/// The column names after converting the first `upto` responses to
/// tables and stacking them in order — `None` as soon as one response
/// fails to convert or one stack cannot be reconciled.
pub open spec fn spec_ts_fold(chunks: Seq<JsonVal>, upto: int) -> Option<Seq<Seq<char>>>
    decreases upto,
{
    if upto <= 0 {
        Option::None
    } else if upto == 1 {
        if spec_ts_table_ok(chunks[0]) {
            Option::Some(spec_ts_headers(chunks[0]@)->0)
        } else {
            Option::None
        }
    } else {
        match spec_ts_fold(chunks, upto - 1) {
            Option::Some(acc) => if spec_ts_table_ok(chunks[upto - 1]) {
                spec_stacked_names(acc, spec_ts_headers(chunks[upto - 1]@)->0)
            } else {
                Option::None
            },
            Option::None => Option::None,
        }
    }
}

/// The position of the first response that fails to convert or to
/// stack, when the whole fold fails.
pub open spec fn spec_ts_first_bad(chunks: Seq<JsonVal>, n: int) -> int
    decreases n,
{
    if n <= 1 {
        0
    } else if spec_ts_fold(chunks, n - 1) is None {
        spec_ts_first_bad(chunks, n - 1)
    } else {
        n - 1
    }
}

proof fn lemma_ts_fold_none_absorbs(chunks: Seq<JsonVal>, m: int, n: int)
    requires
        1 <= m <= n,
        spec_ts_fold(chunks, m) is None,
    ensures
        spec_ts_fold(chunks, n) is None,
    decreases n - m,
{
    if n > m {
        lemma_ts_fold_none_absorbs(chunks, m, n - 1);
    }
}

proof fn lemma_ts_first_bad_at(chunks: Seq<JsonVal>, c: int, n: int)
    requires
        0 <= c < n,
        spec_ts_fold(chunks, c + 1) is None,
        c == 0 || spec_ts_fold(chunks, c) is Some,
    ensures
        spec_ts_first_bad(chunks, n) == c,
    decreases n,
{
    if n == c + 1 {
    } else {
        lemma_ts_fold_none_absorbs(chunks, c + 1, n - 1);
        lemma_ts_first_bad_at(chunks, c, n - 1);
    }
}

/// The outcome of a whole time-series request, from the collected chunk
/// results: `NoData` when nothing contributed; otherwise every response
/// must become a table and every table must stack, schemas reconciled,
/// in order — the result is one table exactly when that fold goes
/// through, under the folded column names and with one row per
/// extracted data point across all responses. The first response that
/// fails to convert or to stack decides the whole result: its error
/// comes back and no table is built from the remaining responses.
#[verifier::loop_isolation(false)]
pub fn timeseries_result(chunks: Vec<JsonVal>) -> (r: EkResults)
    ensures
        chunks@.len() == 0 ==> (r matches EkResults::Error(e) && e is NoData),
        !(r is Raw),
        r matches EkResults::DF(t) ==> t.wf(),
        ({
            let n = chunks@.len() as int;
            n > 0 ==> {
                &&& (r is DF <==> spec_ts_fold(chunks@, n) is Some)
                &&& (spec_ts_fold(chunks@, n) matches Option::Some(names) ==> (
                r matches EkResults::DF(t) && t.spec_names() == names && t.spec_height()
                    == spec_ts_total_rows(chunks@, n)))
                &&& (spec_ts_fold(chunks@, n) is None ==> (r matches EkResults::Error(e) && ({
                    let c = spec_ts_first_bad(chunks@, n);
                    if spec_ts_headers(chunks@[c]@) is None {
                        e is NoHeaders
                    } else {
                        e is NoDataFrame
                    }
                })))
            }
        }),
{
    let ghost gchunks = chunks@;
    if chunks.len() == 0 {
        return EkResults::Error(
            EkError::NoData(String::from_str("No data returned from the service")),
        );
    }
    let n = chunks.len();
    let mut acc = match to_table(&chunks[0]) {
        Ok(t) => t,
        Err(e) => {
            proof {
                assert(spec_ts_fold(gchunks, 1) is None);
                lemma_ts_fold_none_absorbs(gchunks, 1, n as int);
                lemma_ts_first_bad_at(gchunks, 0, n as int);
            }
            return EkResults::Error(e);
        },
    };
    proof {
        let gh = spec_ts_headers(gchunks[0]@)->0;
        assert(spec_ts_table_ok(gchunks[0]));
        assert(spec_ts_fold(gchunks, 1) == Option::Some(acc.spec_names()));
        assert(acc.cols@.len() == gh.len());
        assert(gh.len() >= 1);
        assert(acc.spec_cols()[0] == spec_ts_col(
            spec_ts_entries(gchunks[0]@),
            0,
            gh[0] == "RIC"@,
        ));
        lemma_ts_col_len(spec_ts_entries(gchunks[0]@), 0, gh[0] == "RIC"@);
        assert(acc.spec_height() == acc.spec_cols()[0].len());
        assert(spec_ts_total_rows(gchunks, 0) == 0);
        assert(acc.spec_height() == spec_ts_total_rows(gchunks, 1));
    }
    let mut i: usize = 1;
    while i < n
        invariant
            1 <= i <= n,
            acc.wf(),
            spec_ts_fold(gchunks, i as int) == Option::Some(acc.spec_names()),
            acc.spec_height() == spec_ts_total_rows(gchunks, i as int),
        decreases n - i,
    {
        let next = match to_table(&chunks[i]) {
            Ok(t) => t,
            Err(e) => {
                proof {
                    assert(!spec_ts_table_ok(gchunks[i as int]));
                    assert(spec_ts_fold(gchunks, i as int + 1) is None);
                    lemma_ts_fold_none_absorbs(gchunks, i as int + 1, n as int);
                    lemma_ts_first_bad_at(gchunks, i as int, n as int);
                }
                return EkResults::Error(e);
            },
        };
        let ghost gh_i = spec_ts_headers(gchunks[i as int]@)->0;
        proof {
            assert(spec_ts_table_ok(gchunks[i as int]));
            assert(next.spec_names() == gh_i);
            assert(next.cols@.len() == gh_i.len());
            assert(gh_i.len() >= 1);
            assert(next.spec_cols()[0] == spec_ts_col(
                spec_ts_entries(gchunks[i as int]@),
                0,
                gh_i[0] == "RIC"@,
            ));
            lemma_ts_col_len(spec_ts_entries(gchunks[i as int]@), 0, gh_i[0] == "RIC"@);
            assert(next.spec_height() == next.spec_cols()[0].len());
            assert(next.spec_height() == spec_ts_count(spec_ts_entries(gchunks[i as int]@)));
            assert(spec_ts_total_rows(gchunks, i as int + 1) == spec_ts_total_rows(
                gchunks,
                i as int,
            ) + spec_ts_count(spec_ts_entries(gchunks[i as int]@)));
        }
        let ghost prev_names = acc.spec_names();
        acc = match stack_pair(acc, next) {
            Ok(t) => t,
            Err(e) => {
                proof {
                    assert(spec_stacked_names(prev_names, gh_i) is None);
                    assert(spec_ts_fold(gchunks, i as int + 1) is None);
                    lemma_ts_fold_none_absorbs(gchunks, i as int + 1, n as int);
                    lemma_ts_first_bad_at(gchunks, i as int, n as int);
                }
                return EkResults::Error(e);
            },
        };
        proof {
            assert(spec_ts_fold(gchunks, i as int + 1) == Option::Some(acc.spec_names()));
        }
        i = i + 1;
    }
    EkResults::DF(acc)
}

} // verus!
