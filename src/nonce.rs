//! Per-sender sequence numbers, handed out by a single owner so that no two transactions of
//! one sender claim the same slot.
use vstd::prelude::*;
use crate::address::Address;

verus! {

/// The single writer of one sender's nonces, started from the node's count for that sender.
pub struct NonceAllocator {
    sender: Address,
    next: u64,
    issued: Ghost<Set<u64>>,
}

impl NonceAllocator {
    /// Every nonce handed out so far lies below the next one.
    pub closed spec fn wf(&self) -> bool {
        forall|n: u64| #[trigger] self.issued@.contains(n) ==> n < self.next
    }

    pub closed spec fn sender_spec(&self) -> Address {
        self.sender
    }

    pub fn sender(&self) -> (r: Address)
        ensures
            r == self.sender_spec(),
    {
        self.sender
    }

    pub closed spec fn next_nonce(&self) -> u64 {
        self.next
    }

    pub closed spec fn issued(&self) -> Set<u64> {
        self.issued@
    }

    /// Starts from `baseline`, the number of transactions the node has seen from `sender`.
    pub fn new(sender: Address, baseline: u64) -> (r: NonceAllocator)
        ensures
            r.wf(),
            r.sender_spec() == sender,
            r.next_nonce() == baseline,
            r.issued() == Set::<u64>::empty(),
    {
        NonceAllocator { sender, next: baseline, issued: Ghost(Set::empty()) }
    }

    pub fn peek(&self) -> (r: u64)
        ensures
            r == self.next_nonce(),
    {
        self.next
    }

    /// Hands out the next nonce, never one handed out before; `None` once the counter is
    /// exhausted.
    pub fn allocate(&mut self) -> (r: Option<u64>)
        requires
            old(self).wf(),
        ensures
            final(self).wf(),
            final(self).sender_spec() == old(self).sender_spec(),
            match r {
                Some(n) => {
                    &&& n == old(self).next_nonce()
                    &&& !old(self).issued().contains(n)
                    &&& final(self).issued() == old(self).issued().insert(n)
                    &&& final(self).next_nonce() == n + 1
                },
                None => old(self).next_nonce() == u64::MAX && final(self).issued() == old(
                    self,
                ).issued() && final(self).next_nonce() == old(self).next_nonce(),
            },
    {
        if self.next == u64::MAX {
            return None;
        }
        let n = self.next;
        self.next = n + 1;
        self.issued = Ghost(self.issued@.insert(n));
        Some(n)
    }
}

/// Two nonces handed out by one allocator, one after the other, differ.
pub proof fn lemma_successive_nonces_differ(a: NonceAllocator, b: NonceAllocator, n1: u64, n2: u64)
    requires
        a.wf(),
        a.issued().contains(n1),
        n2 == a.next_nonce(),
        b.issued() == a.issued().insert(n2),
        b.next_nonce() == n2 + 1,
    ensures
        n1 != n2,
        b.wf(),
{
}

/// Whether two of the given nonces of one sender coincide, which the node would reject as a
/// conflict.
pub fn has_nonce_conflict(nonces: &Vec<u64>) -> (r: bool)
    ensures
        r == exists|i: int, j: int| 0 <= i < j < nonces@.len() && nonces@[i] == nonces@[j],
{
    let n = nonces.len();
    let mut j: usize = 0;
    while j < n
        invariant
            n == nonces.len(),
            j <= n,
            forall|a: int, b: int| 0 <= a < b < j ==> nonces@[a] != nonces@[b],
        decreases n - j,
    {
        let mut i: usize = 0;
        while i < j
            invariant
                n == nonces.len(),
                i <= j < n,
                forall|a: int, b: int| 0 <= a < b < j ==> nonces@[a] != nonces@[b],
                forall|a: int| 0 <= a < i ==> nonces@[a] != nonces@[j as int],
            decreases j - i,
        {
            if nonces[i] == nonces[j] {
                return true;
            }
            i = i + 1;
        }
        j = j + 1;
    }
    false
}

} // verus!
