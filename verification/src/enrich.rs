//! Metadata enrichment policy: classification of one fetch attempt's
//! outcome, and the bounded-retry state machine with exponential backoff
//! that drives repeated attempts.
//!
//! The machine is pure: the surrounding runtime performs the HTTP call and
//! the backoff sleep, hands each outcome to `on_outcome`, and obeys the
//! decision handed back.

use vstd::prelude::*;
use vstd::arithmetic::power2::{pow2, lemma_pow2_strictly_increases};
use vstd::arithmetic::mul::lemma_mul_inequality;
use crate::market::MarketMetadata;

verus! {

/// Why a metadata fetch attempt failed.
#[derive(Clone, Copy, Debug, PartialEq, Eq, Structural)]
pub enum FetchError {
    /// Network failure or an HTTP non-success status; retryable.
    Transport,
    /// The response body was not the expected shape; not retried.
    Parse,
}

/// What the retry machine tells its driver to do next.
pub enum RetryDecision {
    /// Stop with this result.
    Done(Result<Option<MarketMetadata>, FetchError>),
    /// Wait this many milliseconds, fetch again, and report the outcome.
    RetryAfter(u64),
}

/// The enricher's outcome taxonomy for one fetch attempt: a non-success
/// status is a retryable transport failure, an unreadable body a
/// structural parse error, an empty result list a well-formed "not
/// found", and otherwise the first listed market is the result.
pub open spec fn classify_spec(status_success: bool, body: Option<Seq<MarketMetadata>>) -> Result<
    Option<MarketMetadata>,
    FetchError,
> {
    if !status_success {
        Err(FetchError::Transport)
    } else {
        match body {
            None => Err(FetchError::Parse),
            Some(v) => if v.len() == 0 {
                Ok(None)
            } else {
                Ok(Some(v[0]))
            },
        }
    }
}

/// Image of the decoded response body.
pub open spec fn body_view(body: Option<Vec<MarketMetadata>>) -> Option<Seq<MarketMetadata>> {
    match body {
        None => None,
        Some(v) => Some(v@),
    }
}

/// Sorts one fetch attempt into the enricher's outcome taxonomy, exactly
/// as `classify_spec` describes.
pub fn classify_response(status_success: bool, body: Option<Vec<MarketMetadata>>) -> (r: Result<
    Option<MarketMetadata>,
    FetchError,
>)
    ensures
        r == classify_spec(status_success, body_view(body)),
{
    if !status_success {
        return Err(FetchError::Transport);
    }
    match body {
        None => Err(FetchError::Parse),
        Some(mut v) => {
            if v.len() == 0 {
                Ok(None)
            } else {
                let first = v.remove(0);
                Ok(Some(first))
            }
        },
    }
}

/// Backoff delay before retry number `attempt`: the base delay doubled
/// once per attempt already spent.
pub fn backoff_delay_ms(base: u64, attempt: u32) -> (r: u64)
    requires
        base * pow2(attempt as nat) <= u64::MAX,
    ensures
        r == base * pow2(attempt as nat),
{
    proof {
        vstd::arithmetic::power2::lemma2_to64();
    }
    let mut d: u64 = base;
    let mut j: u32 = 0;
    while j < attempt
        invariant
            0 <= j <= attempt,
            d == base * pow2(j as nat),
            base * pow2(attempt as nat) <= u64::MAX,
        decreases attempt - j,
    {
        proof {
            assert(pow2((j + 1) as nat) == 2 * pow2(j as nat)) by {
                vstd::arithmetic::power2::lemma_pow2_unfold((j + 1) as nat);
            }
            assert(base * pow2((j + 1) as nat) == 2 * (base * pow2(j as nat))) by (nonlinear_arith)
                requires
                    pow2((j + 1) as nat) == 2 * pow2(j as nat),
            ;
            if j + 1 < attempt {
                lemma_pow2_strictly_increases((j + 1) as nat, attempt as nat);
                lemma_mul_inequality(
                    pow2((j + 1) as nat) as int,
                    pow2(attempt as nat) as int,
                    base as int,
                );
                assert(pow2((j + 1) as nat) * base <= pow2(attempt as nat) * base);
                assert(base * pow2((j + 1) as nat) <= base * pow2(attempt as nat))
                    by (nonlinear_arith)
                    requires
                        pow2((j + 1) as nat) * base <= pow2(attempt as nat) * base,
                ;
            } else {
                assert((j + 1) as nat == attempt as nat);
            }
            assert(base * pow2((j + 1) as nat) <= u64::MAX);
            assert(d * 2 == base * pow2((j + 1) as nat));
        }
        d = d * 2;
        j = j + 1;
    }
    d
}

/// Retry state for one entity's metadata fetch.
///
/// The machine is in its attempting phase while `attempt` stays at most
/// `max_retries`; each non-success outcome either moves it through a
/// backoff step or exhausts it with a final result.
pub struct RetryMachine {
    /// Base backoff delay in milliseconds.
    pub base_delay_ms: u64,
    /// How many retries may follow the initial attempt.
    pub max_retries: u32,
    /// Non-success attempts already spent.
    pub attempt: u32,
    /// Whether any attempt came back as a well-formed "not found".
    pub saw_absent: bool,
}

/// What one outcome does to the machine: the successor state and the
/// decision handed back. A found market or a parse error ends the run at
/// once; "not found" and transport failures back off while budget
/// remains; at exhaustion the entity counts as durably absent, unless
/// every attempt failed hard, in which case the last transport error is
/// propagated.
pub open spec fn retry_step(
    m: RetryMachine,
    outcome: Result<Option<MarketMetadata>, FetchError>,
) -> (RetryMachine, RetryDecision) {
    match outcome {
        Ok(Some(found)) => (m, RetryDecision::Done(Ok(Some(found)))),
        Ok(None) => {
            let noted = RetryMachine { saw_absent: true, ..m };
            if m.attempt < m.max_retries {
                (
                    RetryMachine { attempt: (m.attempt + 1) as u32, ..noted },
                    RetryDecision::RetryAfter((m.base_delay_ms * pow2(m.attempt as nat)) as u64),
                )
            } else {
                (noted, RetryDecision::Done(Ok(None)))
            }
        },
        Err(FetchError::Parse) => (m, RetryDecision::Done(Err(FetchError::Parse))),
        Err(FetchError::Transport) => {
            if m.attempt < m.max_retries {
                (
                    RetryMachine { attempt: (m.attempt + 1) as u32, ..m },
                    RetryDecision::RetryAfter((m.base_delay_ms * pow2(m.attempt as nat)) as u64),
                )
            } else {
                (
                    m,
                    RetryDecision::Done(
                        if m.saw_absent {
                            Ok(None)
                        } else {
                            Err(FetchError::Transport)
                        },
                    ),
                )
            }
        },
    }
}

/// The machine after `k` consecutive well-formed "not found" outcomes.
pub open spec fn absent_run(m: RetryMachine, k: nat) -> RetryMachine
    decreases k,
{
    if k == 0 {
        m
    } else {
        absent_run(retry_step(m, Ok(None)).0, (k - 1) as nat)
    }
}

proof fn lemma_absent_run_spends_attempts(m: RetryMachine, k: nat)
    requires
        m.wf(),
        m.attempt + k <= m.max_retries,
    ensures
        absent_run(m, k).attempt == m.attempt + k,
        absent_run(m, k).base_delay_ms == m.base_delay_ms,
        absent_run(m, k).max_retries == m.max_retries,
        absent_run(m, k).wf(),
    decreases k,
{
    if k > 0 {
        let m1 = retry_step(m, Ok(None)).0;
        lemma_absent_run_spends_attempts(m1, (k - 1) as nat);
    }
}

/// Bounded-retry law against an always-absent source: a fresh machine
/// answers each of the first `max_retries` "not found" outcomes with a
/// backoff wait of the base delay doubled per attempt spent, and ends the
/// next one — its attempt number `max_retries + 1` — with `Ok(None)`.
pub proof fn lemma_retry_not_found_budget(m: RetryMachine, i: nat)
    requires
        m.wf(),
        m.attempt == 0,
        i <= m.max_retries,
    ensures
        i < m.max_retries ==> retry_step(absent_run(m, i), Ok(None)).1
            == RetryDecision::RetryAfter((m.base_delay_ms * pow2(i)) as u64),
        i == m.max_retries ==> retry_step(absent_run(m, i), Ok(None)).1 == RetryDecision::Done(
            Ok::<Option<MarketMetadata>, FetchError>(None),
        ),
{
    lemma_absent_run_spends_attempts(m, i);
}

/// Retryable-failure law: an HTTP non-success response classifies as a
/// transport failure, never a crash, and while retry budget remains the
/// machine answers it with a backoff wait rather than a result.
pub proof fn lemma_non_success_is_retried(m: RetryMachine, body: Option<Seq<MarketMetadata>>)
    requires
        m.wf(),
    ensures
        classify_spec(false, body) == Err::<Option<MarketMetadata>, FetchError>(
            FetchError::Transport,
        ),
        m.attempt < m.max_retries ==> retry_step(m, classify_spec(false, body)).1
            == RetryDecision::RetryAfter((m.base_delay_ms * pow2(m.attempt as nat)) as u64),
{
}

impl RetryMachine {
    /// The machine's invariant: the attempt budget is not overspent and
    /// every backoff delay it can ask for fits in a `u64`.
    pub open spec fn wf(self) -> bool {
        self.attempt <= self.max_retries && self.base_delay_ms * pow2(self.max_retries as nat)
            <= u64::MAX
    }

    /// A fresh machine that has spent no attempts.
    pub fn new(base_delay_ms: u64, max_retries: u32) -> (r: RetryMachine)
        requires
            base_delay_ms * pow2(max_retries as nat) <= u64::MAX,
        ensures
            r.wf(),
            r == (RetryMachine { base_delay_ms, max_retries, attempt: 0, saw_absent: false }),
    {
        RetryMachine { base_delay_ms, max_retries, attempt: 0, saw_absent: false }
    }

    /// Feeds one fetch outcome to the machine.
    ///
    /// A found market or a structural parse error ends the run at once.
    /// "Not found" and transport failures are retried with exponential
    /// backoff while budget remains; at exhaustion the entity is treated
    /// as durably absent, unless every attempt failed hard, in which case
    /// the last transport error is propagated.
    pub fn on_outcome(&mut self, outcome: Result<Option<MarketMetadata>, FetchError>) -> (d:
        RetryDecision)
        requires
            old(self).wf(),
        ensures
            final(self).wf(),
            (*final(self), d) == retry_step(*old(self), outcome),
    {
        match outcome {
            Ok(Some(m)) => RetryDecision::Done(Ok(Some(m))),
            Ok(None) => {
                self.saw_absent = true;
                if self.attempt < self.max_retries {
                    let ms = self.next_delay();
                    self.attempt = self.attempt + 1;
                    RetryDecision::RetryAfter(ms)
                } else {
                    RetryDecision::Done(Ok(None))
                }
            },
            Err(FetchError::Parse) => RetryDecision::Done(Err(FetchError::Parse)),
            Err(FetchError::Transport) => {
                if self.attempt < self.max_retries {
                    let ms = self.next_delay();
                    self.attempt = self.attempt + 1;
                    RetryDecision::RetryAfter(ms)
                } else {
                    RetryDecision::Done(
                        if self.saw_absent {
                            Ok(None)
                        } else {
                            Err(FetchError::Transport)
                        },
                    )
                }
            },
        }
    }

    /// The backoff delay owed before the next retry.
    fn next_delay(&self) -> (r: u64)
        requires
            self.wf(),
        ensures
            r == self.base_delay_ms * pow2(self.attempt as nat),
    {
        proof {
            if self.attempt < self.max_retries {
                lemma_pow2_strictly_increases(self.attempt as nat, self.max_retries as nat);
                lemma_mul_inequality(
                    pow2(self.attempt as nat) as int,
                    pow2(self.max_retries as nat) as int,
                    self.base_delay_ms as int,
                );
                assert(pow2(self.attempt as nat) * self.base_delay_ms <= pow2(
                    self.max_retries as nat,
                ) * self.base_delay_ms);
                assert(self.base_delay_ms * pow2(self.attempt as nat) <= self.base_delay_ms * pow2(
                    self.max_retries as nat,
                )) by (nonlinear_arith)
                    requires
                        pow2(self.attempt as nat) * self.base_delay_ms <= pow2(
                            self.max_retries as nat,
                        ) * self.base_delay_ms,
                ;
            }
        }
        backoff_delay_ms(self.base_delay_ms, self.attempt)
    }
}

} // verus!
