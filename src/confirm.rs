//! Waiting for a broadcast transaction to be included: a bounded number of receipt lookups.
use vstd::prelude::*;
use crate::error::Web3Error;

verus! {

/// The node's record that a transaction was included in a block. `success` is false for an
/// included transaction that reverted.
#[derive(Clone, Copy, Debug, PartialEq, Eq)]
pub struct TransactionReceipt {
    pub tx_hash: [u8; 32],
    pub block_number: u64,
    pub success: bool,
}

/// What the caller does after a lookup.
#[derive(Debug, PartialEq, Eq)]
pub enum PollStep {
    /// Wait for the poll interval and look the receipt up again.
    LookAgain,
    /// Stop: the receipt was found, or the budget is spent (`ConfirmationTimeout`).
    Finished(Result<TransactionReceipt, Web3Error>),
}

/// The state of one wait for a receipt.
#[derive(Clone, Copy, Debug, PartialEq, Eq)]
pub struct ReceiptPoll {
    pub attempts: u64,
    pub max_attempts: u64,
}

impl ReceiptPoll {
    pub open spec fn wf(&self) -> bool {
        self.attempts <= self.max_attempts
    }

    /// A wait that allows `max_attempts` lookups.
    pub fn new(max_attempts: u64) -> (r: ReceiptPoll)
        ensures
            r.wf(),
            r.attempts == 0,
            r.max_attempts == max_attempts,
    {
        ReceiptPoll { attempts: 0, max_attempts }
    }

    /// Whether another lookup is allowed.
    pub fn may_look(&self) -> (r: bool)
        ensures
            r == (self.attempts < self.max_attempts),
    {
        self.attempts < self.max_attempts
    }

    /// Takes the answer of one lookup. A receipt ends the wait, whatever its status; no
    /// receipt is no error until the last allowed lookup, which ends it with
    /// `ConfirmationTimeout`. A wait with no lookups allowed ends at once with the timeout.
    pub fn on_lookup(&mut self, answer: Option<TransactionReceipt>) -> (r: PollStep)
        requires
            old(self).wf(),
        ensures
            final(self).wf(),
            final(self).max_attempts == old(self).max_attempts,
            old(self).attempts < old(self).max_attempts ==> final(self).attempts == old(
                self,
            ).attempts + 1,
            old(self).attempts == old(self).max_attempts ==> final(self).attempts == old(
                self,
            ).attempts && r == PollStep::Finished(Err(Web3Error::ConfirmationTimeout)),
            old(self).attempts < old(self).max_attempts ==> match answer {
                Some(rc) => r == PollStep::Finished(Ok(rc)),
                None => if final(self).attempts == final(self).max_attempts {
                    r == PollStep::Finished(Err(Web3Error::ConfirmationTimeout))
                } else {
                    r == PollStep::LookAgain
                },
            },
    {
        if self.attempts >= self.max_attempts {
            return PollStep::Finished(Err(Web3Error::ConfirmationTimeout));
        }
        self.attempts = self.attempts + 1;
        match answer {
            Some(rc) => PollStep::Finished(Ok(rc)),
            None => if self.attempts == self.max_attempts {
                PollStep::Finished(Err(Web3Error::ConfirmationTimeout))
            } else {
                PollStep::LookAgain
            },
        }
    }
}

/// The first receipt among the first `max_attempts` answers, with the number of lookups it
/// took (its position plus one).
pub open spec fn first_receipt(answers: Seq<Option<TransactionReceipt>>, max_attempts: nat) -> Option<
    (TransactionReceipt, nat),
>
    decreases answers.len(),
{
    if answers.len() == 0 || max_attempts == 0 {
        None
    } else {
        match answers[0] {
            Some(rc) => Some((rc, 1)),
            None => match first_receipt(answers.skip(1), (max_attempts - 1) as nat) {
                Some((rc, k)) => Some((rc, k + 1)),
                None => None,
            },
        }
    }
}

/// Runs a wait over the lookup answers in the order they come, at most `max_attempts` of
/// them: the first receipt, or `ConfirmationTimeout` once the budget is spent. Returns the
/// result and the number of lookups made.
pub fn await_receipt(answers: &Vec<Option<TransactionReceipt>>, max_attempts: u64) -> (r: (
    Result<TransactionReceipt, Web3Error>,
    u64,
))
    requires
        answers.len() >= max_attempts,
    ensures
        r.1 <= max_attempts,
        match first_receipt(answers@, max_attempts as nat) {
            Some((rc, k)) => r.0 == Ok::<TransactionReceipt, Web3Error>(rc) && r.1 == k,
            None => r.0 == Err::<TransactionReceipt, Web3Error>(Web3Error::ConfirmationTimeout)
                && r.1 == max_attempts,
        },
{
    let mut poll = ReceiptPoll::new(max_attempts);
    if !poll.may_look() {
        return (Err(Web3Error::ConfirmationTimeout), 0);
    }
    let mut i: usize = 0;
    assert(answers@.skip(0) =~= answers@);
    loop
        invariant
            poll.wf(),
            poll.max_attempts == max_attempts,
            poll.attempts == i,
            i < max_attempts,
            answers.len() >= max_attempts,
            match first_receipt(answers@, max_attempts as nat) {
                Some((rc, k)) => first_receipt(answers@.skip(i as int), (max_attempts - i) as nat)
                    == Some((rc, (k - i) as nat)) && k > i,
                None => first_receipt(answers@.skip(i as int), (max_attempts - i) as nat) is None,
            },
        decreases max_attempts - i,
    {
        let answer = answers[i];
        let ghost rest = answers@.skip(i as int);
        assert(rest[0] == answer);
        assert(rest.skip(1) =~= answers@.skip(i + 1));
        assert(first_receipt(rest, (max_attempts - i) as nat) == match answer {
            Some(rc) => Some((rc, 1nat)),
            None => match first_receipt(rest.skip(1), (max_attempts - i - 1) as nat) {
                Some((rc, k)) => Some((rc, k + 1)),
                None => None,
            },
        });
        assert(first_receipt(rest.skip(1), 0) is None);
        match poll.on_lookup(answer) {
            PollStep::Finished(res) => {
                return (res, poll.attempts);
            },
            PollStep::LookAgain => {},
        }
        i = i + 1;
    }
}

/// A node that never has a receipt ends every wait with `ConfirmationTimeout`.
pub proof fn lemma_no_receipt_times_out(answers: Seq<Option<TransactionReceipt>>, max_attempts: nat)
    requires
        forall|i: int| 0 <= i < answers.len() ==> answers[i] is None,
    ensures
        first_receipt(answers, max_attempts) is None,
    decreases answers.len(),
{
    if answers.len() > 0 && max_attempts > 0 {
        let rest = answers.skip(1);
        assert forall|i: int| 0 <= i < rest.len() implies rest[i] is None by {
            assert(rest[i] == answers[i + 1]);
        }
        lemma_no_receipt_times_out(rest, (max_attempts - 1) as nat);
    }
}

} // verus!
