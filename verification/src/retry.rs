//! When a request is sent again, and after how long.
use vstd::prelude::*;

use crate::entry::{fault_debug, SyncError};
use crate::text::{cat2, cat6, decimal, decimal_text};

verus! {

/// The seconds to wait before an attempt: twice as long each time, at most
/// half a minute.
pub open spec fn backoff_seconds(attempt: u8) -> u64 {
    if attempt <= 1 {
        1
    } else if attempt == 2 {
        2
    } else if attempt == 3 {
        4
    } else if attempt == 4 {
        8
    } else if attempt == 5 {
        16
    } else {
        30
    }
}

/// The seconds to wait before an attempt.
pub fn retry_delay(attempt: u8) -> (r: u64)
    ensures
        r == backoff_seconds(attempt),
        1 <= r <= 30,
{
    match attempt {
        0 => 1,
        1 => 1,
        2 => 2,
        3 => 4,
        4 => 8,
        5 => 16,
        _ => 30,
    }
}

/// Waiting times do not fall, double as long as they stay below half a minute,
/// and never exceed it.
pub proof fn law_backoff_grows_to_a_bound(attempt: u8)
    requires
        attempt < u8::MAX,
    ensures
        1 <= backoff_seconds(attempt) <= backoff_seconds((attempt + 1) as u8) <= 30,
        1 <= attempt < 5 ==> backoff_seconds((attempt + 1) as u8) == 2 * backoff_seconds(attempt),
{
}

/// What follows a failed request.
#[derive(Debug)]
pub enum RetryDecision {
    /// Send it again, as the given attempt, after waiting.
    Again { attempt: u8, delay: u64, notice: String },
    /// Stop with an error.
    Fail { error: String },
}

/// Decides what follows a failed request of a synchronisation: only an
/// internal error is worth another attempt.
pub fn retry_sync_call(attempt: u8, retry: u8, err: &SyncError) -> (r: RetryDecision)
    ensures
        match r {
            RetryDecision::Again { attempt: next, delay, notice } => {
                &&& err@ is Internal
                &&& attempt < retry
                &&& next == attempt + 1
                &&& delay == backoff_seconds(next)
                &&& notice@ == "transient sync operation error: "@ + fault_debug(err@) + "; retry "@ + decimal(
                    next as nat,
                ) + " after "@ + seconds_text(delay)
            },
            RetryDecision::Fail { error } => {
                &&& !(err@ is Internal && attempt < retry)
                &&& error@ == "sync operation failed: "@ + fault_debug(err@)
            },
        },
{
    let internal = match err {
        SyncError::Internal(_) => true,
        _ => false,
    };
    if internal && attempt < retry {
        let next: u8 = attempt + 1;
        let delay: u64 = retry_delay(next);
        return RetryDecision::Again {
            attempt: next,
            delay,
            notice: cat6(
                "transient sync operation error: ",
                err.debug_form().as_str(),
                "; retry ",
                decimal_text(next as u64).as_str(),
                " after ",
                cat2(decimal_text(delay).as_str(), "s").as_str(),
            ),
        };
    }
    RetryDecision::Fail { error: cat2("sync operation failed: ", err.debug_form().as_str()) }
}

/// A time in whole seconds, as it is shown.
pub open spec fn seconds_text(seconds: u64) -> Seq<char> {
    decimal(seconds as nat) + "s"@
}

/// What follows a failed query that any error may be tried again for.
pub open spec fn query_retried(
    r: RetryDecision,
    attempt: u8,
    retry: u8,
    failed: Seq<char>,
    given_up: Seq<char>,
    err: Seq<char>,
) -> bool {
    match r {
        RetryDecision::Again { attempt: next, delay, notice } => {
            &&& attempt < retry
            &&& next == attempt + 1
            &&& delay == backoff_seconds(next)
            &&& notice@ == failed + ": "@ + err + "; retry "@ + decimal(next as nat) + "/"@ + decimal(retry as nat)
                + (" after "@ + seconds_text(delay))
        },
        RetryDecision::Fail { error } => attempt >= retry && error@ == given_up + ": "@ + err,
    }
}

fn retry_query(attempt: u8, retry: u8, failed: &str, given_up: &str, err: &str) -> (r: RetryDecision)
    ensures
        query_retried(r, attempt, retry, failed@, given_up@, err@),
{
    if attempt < retry {
        let next: u8 = attempt + 1;
        let delay: u64 = retry_delay(next);
        let head = crate::text::cat7(
            failed,
            ": ",
            err,
            "; retry ",
            decimal_text(next as u64).as_str(),
            "/",
            decimal_text(retry as u64).as_str(),
        );
        let tail = cat2(" after ", cat2(decimal_text(delay).as_str(), "s").as_str());
        return RetryDecision::Again { attempt: next, delay, notice: cat2(head.as_str(), tail.as_str()) };
    }
    RetryDecision::Fail { error: crate::text::cat3(given_up, ": ", err) }
}

/// Decides what follows a failed query for a file.
pub fn retry_file_info(attempt: u8, retry: u8, id: u32, err: &str) -> (r: RetryDecision)
    ensures
        query_retried(
            r,
            attempt,
            retry,
            "file info query failed for id "@ + decimal(id as nat),
            "failed to read remote file info "@ + decimal(id as nat),
            err@,
        ),
{
    let number = decimal_text(id as u64);
    retry_query(
        attempt,
        retry,
        cat2("file info query failed for id ", number.as_str()).as_str(),
        cat2("failed to read remote file info ", number.as_str()).as_str(),
        err,
    )
}

/// Decides what follows a failed query for chunks of a file.
pub fn retry_file_chunks(attempt: u8, retry: u8, id: u32, index: u32, err: &str) -> (r: RetryDecision)
    ensures
        query_retried(
            r,
            attempt,
            retry,
            "chunk query failed for file "@ + decimal(id as nat) + " at "@ + decimal(index as nat),
            "failed to download file "@ + decimal(id as nat) + " at chunk "@ + decimal(index as nat),
            err@,
        ),
{
    let number = decimal_text(id as u64);
    let chunk = decimal_text(index as u64);
    retry_query(
        attempt,
        retry,
        crate::text::cat4("chunk query failed for file ", number.as_str(), " at ", chunk.as_str()).as_str(),
        crate::text::cat4("failed to download file ", number.as_str(), " at chunk ", chunk.as_str()).as_str(),
        err,
    )
}

/// The first attempt waits a second, each one after it twice as long as the one
/// before up to the fifth, and every later one half a minute.
pub proof fn law_waiting_times(attempt: u8)
    ensures
        attempt <= 1 ==> backoff_seconds(attempt) == 1,
        2 <= attempt <= 5 ==> backoff_seconds(attempt) == 2 * backoff_seconds((attempt - 1) as u8),
        attempt > 5 ==> backoff_seconds(attempt) == 30,
        seconds_text(backoff_seconds(attempt)) == decimal(backoff_seconds(attempt) as nat).push('s'),
{
    reveal_strlit("s");
    assert("s"@ =~= seq!['s']);
    assert(seconds_text(backoff_seconds(attempt)) =~= decimal(backoff_seconds(attempt) as nat).push('s'));
}

/// A query is sent again exactly where attempts are left, as the next one and
/// after its waiting time; otherwise the error is told with what failed.
pub proof fn law_queries_are_sent_again_while_attempts_are_left(
    r: RetryDecision,
    attempt: u8,
    retry: u8,
    failed: Seq<char>,
    given_up: Seq<char>,
    err: Seq<char>,
)
    requires
        query_retried(r, attempt, retry, failed, given_up, err),
    ensures
        r is Again <==> attempt < retry,
        r matches RetryDecision::Again { attempt: next, delay, notice } ==> {
            &&& next == attempt + 1
            &&& delay == backoff_seconds(next)
            &&& notice@ == failed + ": "@ + err + "; retry "@ + decimal(next as nat) + "/"@ + decimal(retry as nat) + (
            " after "@ + seconds_text(delay))
        },
        r matches RetryDecision::Fail { error } ==> error@ == given_up + ": "@ + err,
{
}

} // verus!
