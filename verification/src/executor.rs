//! The authenticated-request executor: a REST call with bounded
//! token-refresh retry.
//!
//! A call is attempted up to five times. A success returns at once; an
//! unauthorized status refreshes the token and retries, until the fifth
//! attempt returns the failure; any other status returns at once. The
//! surrounding code performs the send and the refresh; the decisions are
//! here.

use crate::errors::EmptyError;
use crate::errors::InvalidResponse;
use vstd::prelude::*;

verus! {

/// One REST response, reduced to what the retry logic reads.
#[derive(Clone, Debug)]
pub struct RestResponse {
    pub status: u16,
    pub body: String,
}

/// The mathematical value of a response.
pub struct RestResponseView {
    pub status: u16,
    pub body: Seq<char>,
}

impl View for RestResponse {
    type V = RestResponseView;

    open spec fn view(&self) -> RestResponseView {
        RestResponseView { status: self.status, body: self.body@ }
    }
}

impl DeepView for RestResponse {
    type V = RestResponseView;

    open spec fn deep_view(&self) -> RestResponseView {
        self@
    }
}

/// What a finished request produced: the successful body, an invalid
/// response, or the defensive marker for the impossible case where the
/// retry loop assigned no result.
#[derive(Clone, Debug)]
pub enum ExecOutcome {
    Success(String),
    Invalid(InvalidResponse),
    Empty(EmptyError),
}

/// The mathematical value of an outcome.
pub enum ExecOutcomeView {
    Success(Seq<char>),
    Invalid(u16, Seq<char>),
    Empty,
}

impl View for ExecOutcome {
    type V = ExecOutcomeView;

    open spec fn view(&self) -> ExecOutcomeView {
        match self {
            ExecOutcome::Success(b) => ExecOutcomeView::Success(b@),
            ExecOutcome::Invalid(i) => ExecOutcomeView::Invalid(i.code, i.response@),
            ExecOutcome::Empty(_) => ExecOutcomeView::Empty,
        }
    }
}

/// How the executor runs against a sequence of responses, counting from
/// attempt number `attempt` (zero-based count of unauthorized responses
/// seen so far): how many attempts it makes, how many refreshes it
/// invokes, and what it returns.
pub open spec fn exec_trace(rs: Seq<RestResponseView>, attempt: nat) -> (nat, nat, ExecOutcomeView)
    decreases rs.len(),
{
    if rs.len() == 0 {
        (0nat, 0nat, ExecOutcomeView::Empty)
    } else {
        let h = rs[0];
        if h.status == 200 {
            (1nat, 0nat, ExecOutcomeView::Success(h.body))
        } else if h.status == 401 {
            if attempt + 1 >= 5 {
                (1nat, 0nat, ExecOutcomeView::Invalid(401, h.body))
            } else {
                let t = exec_trace(rs.skip(1), attempt + 1);
                ((t.0 + 1) as nat, (t.1 + 1) as nat, t.2)
            }
        } else {
            (1nat, 0nat, ExecOutcomeView::Invalid(h.status, h.body))
        }
    }
}

/// The executor's state between attempts: how many unauthorized
/// responses this request has seen.
#[derive(Clone, Copy, Debug)]
pub struct Executor {
    pub attempt_counter: u8,
}

/// What the caller must do after one attempt: stop with the outcome, or
/// refresh the token and try again.
#[derive(Clone, Debug)]
pub enum ExecAction {
    Done(ExecOutcome),
    Refresh,
}

impl Executor {
    /// A fresh executor for one request.
    pub fn new() -> (r: Executor)
        ensures
            r.attempt_counter == 0,
    {
        Executor { attempt_counter: 0 }
    }

    /// Decides what one response means: success and other failures end
    /// the request at once; an unauthorized response asks for a refresh
    /// and retry until the fifth attempt, which ends the request with
    /// the invalid response.
    pub fn step(&mut self, resp: &RestResponse) -> (a: ExecAction)
        requires
            old(self).attempt_counter < 5,
        ensures
            resp.status == 200 ==> (a matches ExecAction::Done(o) && o@
                == ExecOutcomeView::Success(resp.body@)) && *final(self) == *old(self),
            resp.status == 401 && old(self).attempt_counter + 1 >= 5 ==> (a
                matches ExecAction::Done(o) && o@ == ExecOutcomeView::Invalid(401, resp.body@))
                && final(self).attempt_counter == old(self).attempt_counter + 1,
            resp.status == 401 && old(self).attempt_counter + 1 < 5 ==> (a
                matches ExecAction::Refresh) && final(self).attempt_counter == old(
                self,
            ).attempt_counter + 1,
            resp.status != 200 && resp.status != 401 ==> (a matches ExecAction::Done(o) && o@
                == ExecOutcomeView::Invalid(resp.status, resp.body@)) && *final(self) == *old(
                self,
            ),
    {
        if resp.status == 200 {
            ExecAction::Done(ExecOutcome::Success(resp.body.clone()))
        } else if resp.status == 401 {
            self.attempt_counter = self.attempt_counter + 1;
            if self.attempt_counter >= 5 {
                ExecAction::Done(
                    ExecOutcome::Invalid(
                        InvalidResponse { code: 401, response: resp.body.clone() },
                    ),
                )
            } else {
                ExecAction::Refresh
            }
        } else {
            ExecAction::Done(
                ExecOutcome::Invalid(
                    InvalidResponse { code: resp.status, response: resp.body.clone() },
                ),
            )
        }
    }
}

/// Runs the retry logic against the given responses, consumed in order,
/// starting from attempt number `counter`.
fn run_from(responses: &Vec<RestResponse>, idx: usize, counter: u8) -> (r: (
    usize,
    usize,
    ExecOutcome,
))
    requires
        idx <= responses@.len(),
        counter < 5,
        responses@.len() - idx >= 5 - counter,
    ensures
        (r.0 as nat, r.1 as nat, r.2@) == exec_trace(
            responses.deep_view().skip(idx as int),
            counter as nat,
        ),
        r.0 <= 5 - counter,
        r.1 < 5 - counter,
    decreases 5 - counter,
{
    let n = responses.len();
    let ghost rs = responses.deep_view().skip(idx as int);
    proof {
        assert(rs.len() > 0);
        assert(idx < n);
        assert(rs[0] == responses@[idx as int]@);
    }
    let resp = &responses[idx];
    if resp.status == 200 {
        (1, 0, ExecOutcome::Success(resp.body.clone()))
    } else if resp.status == 401 {
        if counter + 1 >= 5 {
            (
                1,
                0,
                ExecOutcome::Invalid(InvalidResponse { code: 401, response: resp.body.clone() }),
            )
        } else {
            let t = run_from(responses, idx + 1, counter + 1);
            proof {
                assert(responses.deep_view().skip(idx + 1) =~= rs.skip(1));
            }
            (t.0 + 1, t.1 + 1, t.2)
        }
    } else {
        (
            1,
            0,
            ExecOutcome::Invalid(
                InvalidResponse { code: resp.status, response: resp.body.clone() },
            ),
        )
    }
}

/// A report of one simulated request: how many attempts were made, how
/// many refreshes were invoked, and what came out.
#[derive(Clone, Debug)]
pub struct ExecReport {
    pub attempts: usize,
    pub refreshes: usize,
    pub outcome: ExecOutcome,
}

/// Runs the retry logic of one request against the given responses: the
/// first response answers the first attempt, and so on.
pub fn run_attempts(responses: &Vec<RestResponse>) -> (r: ExecReport)
    requires
        responses@.len() >= 5,
    ensures
        (r.attempts as nat, r.refreshes as nat, r.outcome@) == exec_trace(
            responses.deep_view(),
            0,
        ),
{
    let t = run_from(responses, 0, 0);
    proof {
        assert(responses.deep_view().skip(0) =~= responses.deep_view());
    }
    ExecReport { attempts: t.0, refreshes: t.1, outcome: t.2 }
}

/// Given a response for every attempt it can make, the executor always
/// produces a real outcome: the defensive empty result is unreachable.
pub proof fn lemma_outcome_never_empty(rs: Seq<RestResponseView>, c: nat)
    requires
        c < 5,
        rs.len() >= 5 - c,
    ensures
        !(exec_trace(rs, c).2 is Empty),
    decreases 5 - c,
{
    if rs[0].status == 401 && c + 1 < 5 {
        lemma_outcome_never_empty(rs.skip(1), c + 1);
    }
}

/// With a success on attempt `k` (after `k - 1` unauthorized responses),
/// the executor attempts exactly `k` times, refreshes exactly `k - 1`
/// times, and succeeds with that response's body.
pub proof fn lemma_success_on_attempt_k(rs: Seq<RestResponseView>, c: nat, k: nat)
    requires
        1 <= k,
        c + k <= 5,
        rs.len() >= k,
        forall|i: int| 0 <= i < k - 1 ==> #[trigger] rs[i].status == 401,
        rs[k - 1].status == 200,
    ensures
        exec_trace(rs, c) == (k, (k - 1) as nat, ExecOutcomeView::Success(rs[k - 1].body)),
    decreases k,
{
    if k == 1 {
    } else {
        assert(rs[0].status == 401);
        lemma_success_on_attempt_k(rs.skip(1), c + 1, (k - 1) as nat);
        assert(rs.skip(1)[k - 2] == rs[k - 1]);
        assert(forall|i: int| 0 <= i < k - 2 ==> #[trigger] rs.skip(1)[i].status == 401);
    }
}

/// With nothing but unauthorized responses, the executor attempts
/// exactly `5 - c` more times, refreshes on each but the last, and
/// returns the invalid response.
pub proof fn lemma_unauthorized_exhausts(rs: Seq<RestResponseView>, c: nat)
    requires
        c < 5,
        rs.len() >= 5 - c,
        forall|i: int| 0 <= i < 5 - c ==> #[trigger] rs[i].status == 401,
    ensures
        exec_trace(rs, c) == (
            (5 - c) as nat,
            (4 - c) as nat,
            ExecOutcomeView::Invalid(401, rs[4 - c].body),
        ),
    decreases 5 - c,
{
    assert(rs[0].status == 401);
    if c + 1 < 5 {
        lemma_unauthorized_exhausts(rs.skip(1), c + 1);
        assert(forall|i: int| 0 <= i < 5 - (c + 1) ==> #[trigger] rs.skip(1)[i].status == 401);
        assert(rs.skip(1)[4 - c - 1] == rs[4 - c]);
    }
}

/// The two counting laws at the top: five unauthorized responses give
/// five attempts, four refreshes and the invalid response; a success on
/// attempt `k` gives `k` attempts and `k - 1` refreshes.
pub proof fn lemma_retry_counts(rs: Seq<RestResponseView>, k: nat)
    requires
        rs.len() >= 5,
        1 <= k <= 5,
    ensures
        (forall|i: int| 0 <= i < 5 ==> #[trigger] rs[i].status == 401) ==> exec_trace(rs, 0) == (
            5nat,
            4nat,
            ExecOutcomeView::Invalid(401, rs[4].body),
        ),
        (forall|i: int| 0 <= i < k - 1 ==> #[trigger] rs[i].status == 401) && rs[k
            - 1].status == 200 ==> exec_trace(rs, 0) == (
            k,
            (k - 1) as nat,
            ExecOutcomeView::Success(rs[k - 1].body),
        ),
{
    if forall|i: int| 0 <= i < 5 ==> #[trigger] rs[i].status == 401 {
        lemma_unauthorized_exhausts(rs, 0);
    }
    if (forall|i: int| 0 <= i < k - 1 ==> #[trigger] rs[i].status == 401) && rs[k - 1].status
        == 200 {
        lemma_success_on_attempt_k(rs, 0, k);
    }
}

} // verus!
