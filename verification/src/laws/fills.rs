//! Waiting for orders.
use crate::double::positive;
use crate::error::{ErrorView, ExecutionError, Fault};
use crate::fill::{
    any_fill, confirm_start, confirm_step, limit_start, limit_step, settled, told, ConfirmFill,
    LimitFill, CONFIRM_ATTEMPTS, LIMIT_PAUSE,
};
use crate::json::Json;
use crate::request::{query_of, StepView};
use crate::types::Fill;
use vstd::prelude::*;

verus! {

/// Answers, in the order in which they come.
pub type Answers = spec_fn(nat) -> Result<Json, String>;

/// Whether answer `n` leaves open what became of an order.
pub open spec fn unsettled(answers: Answers, txid: Seq<char>, n: nat) -> bool {
    settled(told(answers(n), txid), txid) is None
}

/// How many answers confirming an order has taken in when it ends, and how it
/// ends, where it goes on from `c` with answer `n`.
pub open spec fn confirm_run(c: ConfirmFill<Seq<char>>, answers: Answers, n: nat) -> (
    nat,
    Result<Fill, ErrorView>,
)
    decreases CONFIRM_ATTEMPTS - c.attempt,
{
    match confirm_step(c, answers(n)) {
        StepView::Done(_, r) => (n + 1, r),
        StepView::Call(_, next, _) => confirm_run(next, answers, n + 1),
    }
}

proof fn lemma_confirm_run(c: ConfirmFill<Seq<char>>, answers: Answers, n: nat)
    requires
        c.attempt < CONFIRM_ATTEMPTS,
    ensures
        ({
            let (count, r) = confirm_run(c, answers, n);
            &&& n < count <= n + CONFIRM_ATTEMPTS - c.attempt
            &&& forall|i: nat| n <= i < count - 1 ==> #[trigger] unsettled(answers, c.txid, i)
            &&& if unsettled(answers, c.txid, (count - 1) as nat) {
                &&& count == n + CONFIRM_ATTEMPTS - c.attempt
                &&& r == Err::<Fill, ErrorView>(
                    ExecutionError::ExchangeError(Fault::NotConfirmed { txid: c.txid }),
                )
            } else {
                settled(told(answers((count - 1) as nat), c.txid), c.txid) == Some(r)
            }
        }),
    decreases CONFIRM_ATTEMPTS - c.attempt,
{
    match confirm_step(c, answers(n)) {
        StepView::Done(_, r) => {},
        StepView::Call(_, next, _) => {
            assert(unsettled(answers, c.txid, n));
            lemma_confirm_run(next, answers, n + 1);
        },
    }
}

/// Confirming an order asks at most twelve times, each time for that order. It
/// ends with the first answer that settles the matter, and with what that
/// answer says; where none of the twelve does, the order is not confirmed.
pub proof fn law_confirming_ends(txid: Seq<char>, answers: Answers)
    ensures
        confirm_start(txid) == StepView::<ConfirmFill<Seq<char>>, Result<Fill, ErrorView>>::Call(
            0,
            ConfirmFill { txid, attempt: 0 },
            query_of(txid),
        ),
        ({
            let (count, r) = confirm_run(ConfirmFill { txid, attempt: 0 }, answers, 0);
            &&& 0 < count <= 12
            &&& forall|i: nat| i < count - 1 ==> #[trigger] unsettled(answers, txid, i)
            &&& if unsettled(answers, txid, (count - 1) as nat) {
                &&& count == 12
                &&& r == Err::<Fill, ErrorView>(
                    ExecutionError::ExchangeError(Fault::NotConfirmed { txid }),
                )
            } else {
                settled(told(answers((count - 1) as nat), txid), txid) == Some(r)
            }
        }),
{
    lemma_confirm_run(ConfirmFill { txid, attempt: 0 }, answers, 0);
}

/// Every question after the first is about the same order.
pub proof fn law_confirming_keeps_to_the_order(
    c: ConfirmFill<Seq<char>>,
    sent: Result<Json, String>,
)
    ensures
        confirm_step(c, sent) matches StepView::Call(_, next, call) ==> next.txid == c.txid && call
            == query_of(c.txid),
{
}

/// A fill is only ever reported where the exchange said that something was
/// executed.
pub proof fn law_confirmed_fill_is_real(c: ConfirmFill<Seq<char>>, sent: Result<Json, String>)
    ensures
        confirm_step(c, sent) matches StepView::Done(_, Ok(fill)) ==> {
            &&& positive(fill.volume)
            &&& told(sent, c.txid) matches Some(r) && r.fill == fill
        },
{
}

/// How many answers waiting for a limit order has taken in when it ends, how
/// many milliseconds it has waited from here on, and how it ends, where it
/// goes on from `c` with answer `n`.
pub open spec fn limit_run(c: LimitFill<Seq<char>>, answers: Answers, n: nat) -> (
    nat,
    nat,
    Option<Fill>,
)
    decreases c.left,
{
    match limit_step(c, answers(n)) {
        StepView::Done(pause, r) => (n + 1, pause, r),
        StepView::Call(pause, next, _) => {
            let (count, waited, r) = limit_run(next, answers, n + 1);
            (count, pause + waited, r)
        },
    }
}

proof fn lemma_limit_run(c: LimitFill<Seq<char>>, answers: Answers, n: nat)
    ensures
        ({
            let (count, waited, r) = limit_run(c, answers, n);
            &&& n < count <= n + c.left + 1
            &&& waited <= LIMIT_PAUSE * c.left
            &&& c.left > 0 ==> waited <= LIMIT_PAUSE * (c.left - 1)
            &&& forall|i: nat| n <= i < count - 1 ==> #[trigger] unsettled(answers, c.txid, i)
            &&& if count == n + c.left + 1 {
                r == any_fill(told(answers((count - 1) as nat), c.txid))
            } else {
                match settled(told(answers((count - 1) as nat), c.txid), c.txid) {
                    Some(Ok(fill)) => r == Some(fill),
                    Some(Err(_)) => r is None,
                    None => false,
                }
            }
        }),
    decreases c.left,
{
    if c.left > 0 {
        match limit_step(c, answers(n)) {
            StepView::Done(_, r) => {},
            StepView::Call(_, next, _) => {
                assert(unsettled(answers, c.txid, n));
                lemma_limit_run(next, answers, n + 1);
            },
        }
    }
}

/// Waiting for a limit order asks once per second of its window and once more
/// after it, and waits no longer than the window. It ends with the first
/// answer in the window that settles the matter; after the window it keeps
/// whatever was filled.
pub proof fn law_waiting_ends(txid: Seq<char>, window: u64, answers: Answers)
    ensures
        ({
            let (count, waited, r) = limit_run(LimitFill { txid, left: window }, answers, 0);
            let first = match limit_start(txid, window) {
                StepView::Call(pause, _, _) => pause,
                StepView::Done(pause, _) => pause,
            };
            &&& 0 < count <= window + 1
            &&& first + waited <= 1000 * window
            &&& forall|i: nat| i < count - 1 ==> #[trigger] unsettled(answers, txid, i)
            &&& if count == window + 1 {
                r == any_fill(told(answers((count - 1) as nat), txid))
            } else {
                match settled(told(answers((count - 1) as nat), txid), txid) {
                    Some(Ok(fill)) => r == Some(fill),
                    Some(Err(_)) => r is None,
                    None => false,
                }
            }
        }),
{
    lemma_limit_run(LimitFill { txid, left: window }, answers, 0);
}

/// A fill of a limit order is only ever reported where the exchange said that
/// something was executed, and nothing that was executed by the last look is
/// lost.
pub proof fn law_limit_fill_is_real(c: LimitFill<Seq<char>>, sent: Result<Json, String>)
    ensures
        limit_step(c, sent) matches StepView::Done(_, Some(fill)) ==> {
            &&& positive(fill.volume)
            &&& told(sent, c.txid) matches Some(r) && r.fill == fill
        },
        limit_step(c, sent) matches StepView::Done(_, None) ==> match told(sent, c.txid) {
            Some(r) => !positive(r.fill.volume),
            None => true,
        },
{
}

} // verus!
