//! The main route: audio, processed as its parameters ask.
//!
//! A request reads the result storage first. On a miss it joins the requests that are in
//! flight for the same result: the leader fetches, processes and stores, and only then
//! lets the waiters read what it stored.

use bytes::Bytes;
use vstd::prelude::*;
use crate::blob;
use crate::blob::AudioBuffer;
use crate::inflight::{
    CoalesceResult,
    Ending,
    InflightGuard,
    InflightTracker,
    Published,
};
use crate::middleware;
use crate::middleware::CacheMissContext;
use crate::routes::source::{serve, Served};
use crate::text;
use crate::utils::{e500, AppError};

verus! {

/// What follows the look into the result storage.
pub enum AfterLookup {
    /// The result was there: the answer.
    Answer(Served),
    /// The result was not there: the request joins those in flight.
    Join(Option<CacheMissContext>),
}

/// Decides a request by what the result storage gave for it.
pub fn streamingpath_handler(
    found: Option<Bytes>,
    range: Option<&[u8]>,
    miss: Option<CacheMissContext>,
) -> (r: AfterLookup)
    ensures
        match found {
            Some(body) => r matches AfterLookup::Answer(s) && s.with_audio(
                middleware::header_view(range),
                miss,
                blob::contents(body),
            ),
            None => r matches AfterLookup::Join(m) && m == miss,
        },
{
    match found {
        Some(body) => AfterLookup::Answer(serve(range, miss, body)),
        None => AfterLookup::Join(miss),
    }
}

/// What follows a join.
pub enum AfterJoin {
    /// The request leads: it fetches, processes and stores.
    Lead(InflightGuard),
    /// The leader has stored the result: the request reads it.
    Read,
    /// The request fails.
    Fail(AppError),
}

/// Decides a request by how it was settled with those in flight.
pub fn on_joined(joined: CoalesceResult) -> (r: AfterJoin)
    ensures
        match joined {
            CoalesceResult::Leader(g) => r == AfterJoin::Lead(g),
            CoalesceResult::Waiter(Ok(_)) => r is Read,
            CoalesceResult::Waiter(Err(e)) => r matches AfterJoin::Fail(a) && a.says(
                500,
                "coalesced request failed: "@ + e.inner@,
            ),
            CoalesceResult::Failed(e) => r matches AfterJoin::Fail(a) && a.says(
                500,
                "request failed (cached): "@ + e.inner@,
            ),
        },
{
    match joined {
        CoalesceResult::Leader(g) => AfterJoin::Lead(g),
        CoalesceResult::Waiter(Ok(_)) => AfterJoin::Read,
        CoalesceResult::Waiter(Err(e)) => AfterJoin::Fail(
            e500(text::cat("coalesced request failed: ", e.inner.as_str())),
        ),
        CoalesceResult::Failed(e) => AfterJoin::Fail(
            e500(text::cat("request failed (cached): ", e.inner.as_str())),
        ),
    }
}

/// Decides the work of a leader by what the processor gave: audio to be stored, or the
/// text of an error.
pub fn on_processed(processed: Result<AudioBuffer, String>) -> (r: Result<AudioBuffer, AppError>)
    ensures
        match processed {
            Ok(b) => r == Ok::<AudioBuffer, AppError>(b),
            Err(e) => r is Err && r->Err_0.says(500, "Failed to process audio: "@ + e@),
        },
{
    match processed {
        Ok(b) => Ok(b),
        Err(e) => Err(e500(text::cat("Failed to process audio: ", e.as_str()))),
    }
}

/// Ends a leader whose work failed. The failure is published with the text of the error
/// and remembered from `now` on, and the request is answered with the error.
pub fn lead_failed(guard: InflightGuard, tracker: &mut InflightTracker, error: AppError, now: u64)
    -> (r: (Published, Served))
    requires
        old(tracker)@.wf(),
    ensures
        final(tracker)@.wf(),
        final(tracker)@ == old(tracker)@.noted(guard.for_key(), error.error@, now).released(
            guard.for_key(),
            guard.held_ticket(),
        ),
        r.0.ticket == guard.held_ticket(),
        r.0.ending() == Ending::Failed(error.error@),
        r.1.with_error(error.status, error.error@),
{
    let text: String = error.error.clone();
    (guard.fail(tracker, text, now), Served::error(error))
}

/// Ends a leader by whether the result storage took what it processed. Where it did, the
/// waiters may read it, and the request is answered with it. Where it did not, the work is
/// lost: the leader fails.
pub fn on_stored(
    guard: InflightGuard,
    tracker: &mut InflightTracker,
    stored: Result<(), String>,
    processed: AudioBuffer,
    range: Option<&[u8]>,
    miss: Option<CacheMissContext>,
    now: u64,
) -> (r: (Published, Served))
    requires
        old(tracker)@.wf(),
    ensures
        final(tracker)@.wf(),
        r.0.ticket == guard.held_ticket(),
        match stored {
            Ok(()) => {
                &&& final(tracker)@ == old(tracker)@.released(
                    guard.for_key(),
                    guard.held_ticket(),
                )
                &&& r.0.ending() == Ending::Done
                &&& r.1.with_audio(middleware::header_view(range), miss, processed.bytes())
            },
            Err(e) => {
                &&& final(tracker)@ == old(tracker)@.noted(
                    guard.for_key(),
                    "result storage write failed: "@ + e@,
                    now,
                ).released(guard.for_key(), guard.held_ticket())
                &&& r.0.ending() == Ending::Failed("result storage write failed: "@ + e@)
                &&& r.1.with_error(500, "Failed to save result audio: "@ + e@)
            },
        },
{
    match stored {
        Ok(()) => {
            let published: Published = guard.complete(tracker);
            (published, serve(range, miss, processed.into_bytes()))
        },
        Err(e) => {
            let published: Published = guard.fail(
                tracker,
                text::cat("result storage write failed: ", e.as_str()),
                now,
            );
            (
                published,
                Served::error(e500(text::cat("Failed to save result audio: ", e.as_str()))),
            )
        },
    }
}

/// Answers a waiter by what the result storage gave once its leader was done.
pub fn on_coalesced_read(
    read: Result<Bytes, String>,
    range: Option<&[u8]>,
    miss: Option<CacheMissContext>,
) -> (s: Served)
    ensures
        match read {
            Ok(body) => s.with_audio(
                middleware::header_view(range),
                miss,
                blob::contents(body),
            ),
            Err(e) => s.with_error(
                500,
                "failed to read coalesced result from storage: "@ + e@,
            ),
        },
{
    match read {
        Ok(body) => serve(range, miss, body),
        Err(e) => Served::error(
            e500(text::cat("failed to read coalesced result from storage: ", e.as_str())),
        ),
    }
}

} // verus!
