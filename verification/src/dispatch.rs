//! The decision core of the concurrent fan-out: how one call's outcome
//! is classified (retry, contribute, skip, abort), and how the
//! collected per-chunk outcomes become the operation's single result.
//! The worker pool, the pacing clock and the HTTP exchanges themselves
//! live outside the library and feed their events in as plain values.

use vstd::prelude::*;
use vstd::string::StringExecFns;

use crate::json::JsonSpec;
use crate::json::JsonVal;
use crate::json::arr_at;
use crate::json::obj_get;
use crate::utils::EkError;

verus! {

/// How many calls may be in flight at once.
pub const MAX_WORKERS: usize = 12;

/// The fixed delay between successive launches, in milliseconds.
pub const LAUNCH_DELAY_MS: u64 = 250;

/// What one physical call came back with, as the transport reports it.
pub enum CallEvent {
    /// The body parsed as JSON.
    Reply(JsonVal),
    /// The call completed but its body did not parse as JSON.
    MalformedBody(String),
    /// The call could not even be sent or received.
    TransientFailure(String),
    /// The transport failed in a way that retrying cannot mend.
    TerminalFailure(String),
}

/// What the dispatcher does with one call's event.
pub enum CallAction {
    /// Issue the same call again.
    RetryCall,
    /// Count the reply as a contributing chunk.
    Contribute(JsonVal),
    /// Count the reply as an intentional empty contribution.
    SkipEmpty,
    /// Abort the whole operation with this error.
    Abort(EkError),
}

/// Whether a reply carries extractable data markers: a time-series
/// reply has a `timeseriesData` field, a datagrid reply has a
/// `responses` array whose first element carries `data`.
pub open spec fn spec_has_markers(v: JsonSpec) -> bool {
    ||| obj_get(v, "timeseriesData"@) is Some
    ||| match obj_get(v, "responses"@) {
        Option::Some(resp) => obj_get(arr_at(resp, 0), "data"@) is Some,
        Option::None => false,
    }
}

/// Whether a reply carries extractable data markers.
pub fn has_markers(body: &JsonVal) -> (r: bool)
    ensures
        r == spec_has_markers(body@),
{
    if body.get(&String::from_str("timeseriesData")).is_some() {
        return true;
    }
    match body.get(&String::from_str("responses")) {
        Option::Some(resp) => match resp.at(0) {
            Option::Some(first) => first.get(&String::from_str("data")).is_some(),
            Option::None => false,
        },
        Option::None => false,
    }
}

/// Classify one call's event, exactly as the retry policy demands:
/// only a failure to send or receive is retried; a reply with data
/// markers contributes, one without is an intentional empty
/// contribution; a body that parses as neither aborts with `NoData`;
/// a terminal transport failure aborts with `ConnectionError`.
pub fn classify_call(event: CallEvent) -> (r: CallAction)
    ensures
        match event {
            CallEvent::Reply(b) => if spec_has_markers(b@) {
                r == CallAction::Contribute(b)
            } else {
                r == CallAction::SkipEmpty
            },
            CallEvent::MalformedBody(m) => r == CallAction::Abort(EkError::NoData(m)),
            CallEvent::TransientFailure(_) => r == CallAction::RetryCall,
            CallEvent::TerminalFailure(m) => r == CallAction::Abort(EkError::ConnectionError(m)),
        },
{
    match event {
        CallEvent::Reply(b) => {
            if has_markers(&b) {
                CallAction::Contribute(b)
            } else {
                CallAction::SkipEmpty
            }
        },
        CallEvent::MalformedBody(m) => CallAction::Abort(EkError::NoData(m)),
        CallEvent::TransientFailure(_) => CallAction::RetryCall,
        CallEvent::TerminalFailure(m) => CallAction::Abort(EkError::ConnectionError(m)),
    }
}

/// The final outcome of one chunk, after any transient retries.
pub enum ChunkOutcome {
    /// The chunk's reply, carrying data markers.
    Data(JsonVal),
    /// The chunk legitimately produced no usable data.
    Empty,
    /// The chunk failed for good, with this error.
    Fatal(EkError),
}

/// The first fatal error among the outcomes, if any.
pub open spec fn spec_first_fatal(os: Seq<ChunkOutcome>) -> Option<EkError>
    decreases os.len(),
{
    if os.len() == 0 {
        Option::None
    } else {
        match os[0] {
            ChunkOutcome::Fatal(e) => Option::Some(e),
            _ => spec_first_fatal(os.drop_first()),
        }
    }
}

/// The replies of the contributing chunks, in launch order.
pub open spec fn spec_contributions(os: Seq<ChunkOutcome>) -> Seq<JsonVal>
    decreases os.len(),
{
    if os.len() == 0 {
        Seq::empty()
    } else {
        (match os[0] {
            ChunkOutcome::Data(v) => seq![v],
            _ => Seq::empty(),
        }) + spec_contributions(os.drop_first())
    }
}

/// Law: one fatal chunk decides the whole operation. If any outcome is
/// fatal, the collected result is an error — never a value built from
/// the other chunks' replies.
pub proof fn lemma_fatal_chunk_aborts(os: Seq<ChunkOutcome>, k: int)
    requires
        0 <= k < os.len(),
        os[k] is Fatal,
    ensures
        spec_first_fatal(os) is Some,
    decreases k,
{
    if os.len() > 0 {
        match os[0] {
            ChunkOutcome::Fatal(_) => {},
            _ => {
                assert(os.drop_first()[k - 1] == os[k]);
                lemma_fatal_chunk_aborts(os.drop_first(), k - 1);
            },
        }
    }
}

/// The join barrier: once every chunk's outcome is in, the operation
/// yields the contributing replies in launch order, unless some chunk
/// failed for good — then the first such error is the whole result and
/// every reply is discarded.
#[verifier::loop_isolation(false)]
pub fn collect_outcomes(outcomes: Vec<ChunkOutcome>) -> (r: Result<Vec<JsonVal>, EkError>)
    ensures
        r is Ok <==> spec_first_fatal(outcomes@) is None,
        r matches Ok(vs) ==> vs@ == spec_contributions(outcomes@),
        r matches Err(e) ==> spec_first_fatal(outcomes@) == Option::Some(e),
{
    let ghost gos = outcomes@;
    let mut rest = outcomes;
    let mut res: Vec<JsonVal> = Vec::new();
    let ghost mut i: int = 0;
    proof {
        assert(gos.skip(0) =~= gos);
        assert(res@ + spec_contributions(gos) =~= spec_contributions(gos));
    }
    while rest.len() > 0
        invariant
            0 <= i <= gos.len(),
            rest@ =~= gos.skip(i),
            spec_first_fatal(gos.skip(i)) == spec_first_fatal(gos),
            spec_contributions(gos) =~= res@ + spec_contributions(gos.skip(i)),
        decreases rest@.len(),
    {
        proof {
            assert(gos.skip(i)[0] == gos[i]);
            assert(gos.skip(i).drop_first() =~= gos.skip(i + 1));
        }
        let o = rest.remove(0);
        proof {
            assert(rest@ =~= gos.skip(i + 1));
        }
        match o {
            ChunkOutcome::Data(v) => {
                proof {
                    assert(spec_contributions(gos.skip(i)) =~= seq![gos[i]->Data_0]
                        + spec_contributions(gos.skip(i + 1)));
                }
                res.push(v);
            },
            ChunkOutcome::Empty => {
                proof {
                    assert(spec_contributions(gos.skip(i)) =~= spec_contributions(
                        gos.skip(i + 1),
                    ));
                }
            },
            ChunkOutcome::Fatal(e) => {
                proof {
                    assert(spec_first_fatal(gos) == Option::Some(gos[i]->Fatal_0));
                }
                return Err(e);
            },
        }
        proof {
            i = i + 1;
        }
    }
    proof {
        assert(gos.skip(i).len() == 0);
        assert(i == gos.len());
        assert(spec_contributions(gos.skip(i)) =~= Seq::<JsonVal>::empty());
        assert(res@ =~= spec_contributions(gos));
    }
    Ok(res)
}

} // verus!
