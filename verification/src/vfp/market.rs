//! The capital market of a federation: each node's capital and the part of
//! it held in escrow for open claims, and the identifiers of claim tokens.

use vstd::prelude::*;
use vstd::string::*;
use vstd::utf8::encode_utf8;
use crate::base::{EpochId, NodeId};
use crate::text::{decimal, hex, le_value, u128_from_le_prefix, u128_to_hex, u64_to_decimal};
use crate::types::hash::{sha256_digest, sha256_of};
use crate::vfp::Capital;

verus! {

/// The account of `s` in a list of accounts, total capital and escrowed
/// part, from the last entry for it.
pub open spec fn account_in(a: Seq<(NodeId, Capital, Capital)>, s: Seq<char>) -> Option<(u64, u64)>
    decreases a.len(),
{
    if a.len() == 0 {
        None
    } else if a.last().0@ == s {
        Some((a.last().1.0, a.last().2.0))
    } else {
        account_in(a.drop_last(), s)
    }
}

proof fn lemma_account_update(a: Seq<(NodeId, Capital, Capital)>, k: int, x: (NodeId, Capital, Capital))
    requires
        0 <= k < a.len(),
        x.0@ == a[k].0@,
        forall|j: int| k < j < a.len() ==> (#[trigger] a[j]).0@ != a[k].0@,
    ensures
        forall|s: Seq<char>| #[trigger] account_in(a.update(k, x), s) == if s == x.0@ {
            Some((x.1.0, x.2.0))
        } else {
            account_in(a, s)
        },
    decreases a.len(),
{
    let b = a.update(k, x);
    if k < a.len() - 1 {
        let d = a.drop_last();
        assert forall|j: int| k < j < d.len() implies (#[trigger] d[j]).0@ != d[k].0@ by {
            assert(d[j] == a[j]);
        }
        lemma_account_update(d, k, x);
        assert(b.drop_last() =~= d.update(k, x));
        assert(b.last() == a.last());
        assert(a.last().0@ != x.0@) by {
            assert(a[a.len() - 1] == a.last());
        }
        assert forall|s: Seq<char>| #[trigger] account_in(b, s) == if s == x.0@ {
            Some((x.1.0, x.2.0))
        } else {
            account_in(a, s)
        } by {
            if s != a.last().0@ {
                assert(account_in(b, s) == account_in(d.update(k, x), s));
                assert(account_in(a, s) == account_in(d, s));
            }
        }
    } else {
        assert(b.drop_last() =~= a.drop_last());
        assert(b.last() == x);
        assert forall|s: Seq<char>| #[trigger] account_in(b, s) == if s == x.0@ {
            Some((x.1.0, x.2.0))
        } else {
            account_in(a, s)
        } by {
            if s != x.0@ {
                assert(account_in(b, s) == account_in(a.drop_last(), s));
                assert(a.last().0@ == x.0@);
                assert(account_in(a, s) == account_in(a.drop_last(), s));
            }
        }
    }
}

/// Why a stake cannot be escrowed from `available` capital.
pub open spec fn insufficient_message(available: u64, stake: u64) -> Seq<char> {
    "insufficient capital: have "@ + decimal(available as nat) + " available, need "@ + decimal(stake as nat)
}

/// The capital of an account once a stake settles with a payout: the
/// profit is added (the total stays where the sum would overflow), a loss
/// taken away, not below zero.
pub open spec fn settled_total(total: u64, stake: u64, payout: u64) -> u64 {
    if payout >= stake {
        if total + (payout - stake) <= u64::MAX { (total + (payout - stake)) as u64 } else { total }
    } else if total >= stake - payout {
        (total - (stake - payout)) as u64
    } else {
        0
    }
}

/// The escrow of an account once a stake leaves it, not below zero.
pub open spec fn released_escrow(escrowed: u64, stake: u64) -> u64 {
    if escrowed >= stake { (escrowed - stake) as u64 } else { 0 }
}

/// The text a claim token's identifier hashes: the issuer, the stake, the
/// target epoch and the epoch of escrow, separated by colons.
pub open spec fn token_preimage(issuer: Seq<char>, stake: u64, target_epoch: u64, escrowed_at: u64) -> Seq<char> {
    issuer + ":"@ + decimal(stake as nat) + ":"@ + decimal(target_epoch as nat) + ":"@ + decimal(escrowed_at as nat)
}

/// A claim token's identifier: `ct:` followed by the first sixteen bytes of
/// the SHA-256 of the UTF-8 preimage, read as a little-endian number and
/// written in lower-case hexadecimal.
pub open spec fn token_id_text(issuer: Seq<char>, stake: u64, target_epoch: u64, escrowed_at: u64) -> Seq<char> {
    "ct:"@ + hex(le_value(sha256_of(encode_utf8(token_preimage(issuer, stake, target_epoch, escrowed_at))).take(16)))
}

/// The identifier of the token by which `issuer` stakes `stake` on a claim
/// about `target_epoch`, escrowed at `escrowed_at_epoch`.
pub fn claim_token_id(issuer: &NodeId, stake: Capital, target_epoch: EpochId, escrowed_at_epoch: EpochId) -> (r: String)
    ensures
        r@ == token_id_text(issuer@, stake.0, target_epoch.0, escrowed_at_epoch.0),
{
    let mut raw = issuer.0.clone();
    raw.append(":");
    let a = u64_to_decimal(stake.0);
    raw.append(a.as_str());
    raw.append(":");
    let b = u64_to_decimal(target_epoch.0);
    raw.append(b.as_str());
    raw.append(":");
    let c = u64_to_decimal(escrowed_at_epoch.0);
    raw.append(c.as_str());
    proof { reveal_strlit(":"); }
    assert(raw@ =~= token_preimage(issuer@, stake.0, target_epoch.0, escrowed_at_epoch.0));
    let digest = sha256_digest(raw.as_str().as_bytes());
    let n = u128_from_le_prefix(digest.as_slice());
    let h = u128_to_hex(n);
    let mut id = String::from_str("ct:");
    id.append(h.as_str());
    id
}

/// Each node's capital and the part of it held in escrow for open claims.
#[derive(Debug, Clone)]
pub struct CapitalLedger {
    accounts: Vec<(NodeId, Capital, Capital)>,
}

impl CapitalLedger {
    /// The account of the node named `s`: its total capital and the part of
    /// it in escrow.
    pub closed spec fn account(&self, s: Seq<char>) -> Option<(u64, u64)> {
        account_in(self.accounts@, s)
    }

    /// No account holds more in escrow than its total capital.
    pub open spec fn escrow_within_capital(&self) -> bool {
        forall|s: Seq<char>| #[trigger] self.account(s) is Some ==> self.account(s).unwrap().1 <= self.account(s).unwrap().0
    }

    /// A ledger without accounts.
    pub fn new() -> (r: Self)
        ensures
            forall|s: Seq<char>| #[trigger] r.account(s) is None,
            r.escrow_within_capital(),
    {
        CapitalLedger { accounts: Vec::new() }
    }

    /// The position of the last entry for `node`, if any.
    fn find(&self, node: &NodeId) -> (r: Option<usize>)
        ensures
            match r {
                Some(k) => {
                    &&& k < self.accounts@.len()
                    &&& self.accounts@[k as int].0@ == node@
                    &&& forall|j: int| k < j < self.accounts@.len() ==> (#[trigger] self.accounts@[j]).0@ != node@
                    &&& self.account(node@) == Some((self.accounts@[k as int].1.0, self.accounts@[k as int].2.0))
                },
                None => self.account(node@) is None,
            },
    {
        let ghost a = self.accounts@;
        let mut k: usize = self.accounts.len();
        assert(a.take(k as int) =~= a);
        while k > 0
            invariant
                k <= a.len(),
                a == self.accounts@,
                forall|j: int| k <= j < a.len() ==> (#[trigger] a[j]).0@ != node@,
                account_in(a, node@) == account_in(a.take(k as int), node@),
            decreases k,
        {
            let ghost t = a.take(k as int);
            assert(t.last() == a[k - 1]);
            assert(t.drop_last() =~= a.take(k - 1));
            if crate::text::str_eq(self.accounts[k - 1].0.0.as_str(), node.0.as_str()) {
                return Some(k - 1);
            }
            k = k - 1;
        }
        None
    }

    /// Opens an account for `node` with `initial` capital and nothing in
    /// escrow; an account that exists stays as it is.
    pub fn initialize_capital(&mut self, node: NodeId, initial: Capital)
        requires
            old(self).escrow_within_capital(),
        ensures
            final(self).escrow_within_capital(),
            forall|s: Seq<char>| #[trigger] final(self).account(s) == if s == node@ && old(self).account(s) is None {
                Some((initial.0, 0u64))
            } else {
                old(self).account(s)
            },
    {
        match self.find(&node) {
            Some(_) => {},
            None => {
                let ghost before = self.accounts@;
                let ghost key = node@;
                self.accounts.push((node, initial, Capital(0)));
                assert(self.accounts@.drop_last() =~= before);
                assert forall|s: Seq<char>| #[trigger] self.account(s) is Some implies self.account(s).unwrap().1 <= self.account(s).unwrap().0 by {
                    if s != key {
                        assert(old(self).account(s) == self.account(s));
                    }
                }
            },
        }
    }

    /// The capital of `node` not held in escrow: zero without an account.
    pub fn available_capital(&self, node: &NodeId) -> (r: Capital)
        requires
            self.escrow_within_capital(),
        ensures
            r.0 == match self.account(node@) {
                Some(p) => (p.0 - p.1) as u64,
                None => 0u64,
            },
    {
        match self.find(node) {
            Some(k) => {
                let total = self.accounts[k].1;
                let locked = self.accounts[k].2;
                match total.checked_sub(locked) {
                    Some(c) => c,
                    None => Capital::zero(),
                }
            },
            None => Capital::zero(),
        }
    }

    /// Whether `node` has an account.
    pub fn has_account(&self, node: &NodeId) -> (r: bool)
        ensures
            r == self.account(node@) is Some,
    {
        self.find(node).is_some()
    }

    /// The total capital of `node`: zero without an account.
    pub fn total_capital(&self, node: &NodeId) -> (r: Capital)
        ensures
            r.0 == match self.account(node@) {
                Some(p) => p.0,
                None => 0u64,
            },
    {
        match self.find(node) {
            Some(k) => self.accounts[k].1,
            None => Capital::zero(),
        }
    }

    /// The capital of `node` held in escrow: zero without an account.
    pub fn escrowed_capital(&self, node: &NodeId) -> (r: Capital)
        ensures
            r.0 == match self.account(node@) {
                Some(p) => p.1,
                None => 0u64,
            },
    {
        match self.find(node) {
            Some(k) => self.accounts[k].2,
            None => Capital::zero(),
        }
    }
    /// Puts `stake` of `issuer`'s capital in escrow. A stake of zero is
    /// refused, and so is one above the capital available; otherwise the
    /// escrow grows by the stake. Nothing changes when it is refused.
    pub fn escrow(&mut self, issuer: &NodeId, stake: Capital) -> (r: Result<(), String>)
        requires
            old(self).escrow_within_capital(),
        ensures
            final(self).escrow_within_capital(),
            ({
                let available: u64 = match old(self).account(issuer@) {
                    Some(p) => (p.0 - p.1) as u64,
                    None => 0u64,
                };
                if stake.0 == 0 {
                    &&& r matches Err(m) && m@ == "stake must be positive"@
                    &&& *final(self) == *old(self)
                } else if stake.0 > available {
                    &&& r matches Err(m) && m@ == insufficient_message(available, stake.0)
                    &&& *final(self) == *old(self)
                } else {
                    &&& r is Ok
                    &&& forall|s: Seq<char>| #[trigger] final(self).account(s) == if s == issuer@ {
                        Some((old(self).account(s).unwrap().0, (old(self).account(s).unwrap().1 + stake.0) as u64))
                    } else {
                        old(self).account(s)
                    }
                }
            }),
    {
        if stake.0 == 0 {
            return Err(String::from_str("stake must be positive"));
        }
        let available = self.available_capital(issuer);
        if stake.0 > available.0 {
            let mut m = String::from_str("insufficient capital: have ");
            let a = u64_to_decimal(available.0);
            m.append(a.as_str());
            m.append(" available, need ");
            let b = u64_to_decimal(stake.0);
            m.append(b.as_str());
            return Err(m);
        }
        let k = match self.find(issuer) {
            Some(k) => k,
            None => {
                return Err(String::from_str("escrow overflow"));
            },
        };
        let node = self.accounts[k].0.clone();
        let total = self.accounts[k].1;
        let locked = self.accounts[k].2;
        let grown = match locked.checked_add(stake) {
            Some(g) => g,
            None => {
                return Err(String::from_str("escrow overflow"));
            },
        };
        let ghost before = self.accounts@;
        let entry = (node, total, grown);
        proof { lemma_account_update(before, k as int, entry); }
        self.accounts.set(k, entry);
        assert(self.accounts@ == before.update(k as int, entry));
        assert forall|s: Seq<char>| #[trigger] self.account(s) is Some implies self.account(s).unwrap().1 <= self.account(s).unwrap().0 by {
            if s != issuer@ {
                assert(old(self).account(s) == self.account(s));
            }
        }
        Ok(())
    }

    /// Settles a stake of `issuer` that paid `payout`: the stake leaves the
    /// escrow (not below zero), and the total capital gains the profit or
    /// bears the loss (see `settled_total`).
    pub fn settle_stake(&mut self, issuer: &NodeId, stake: Capital, payout: Capital)
        requires
            old(self).escrow_within_capital(),
            old(self).account(issuer@) is Some,
        ensures
            final(self).escrow_within_capital(),
            forall|s: Seq<char>| #[trigger] final(self).account(s) == if s == issuer@ {
                Some((
                    settled_total(old(self).account(s).unwrap().0, stake.0, payout.0),
                    released_escrow(old(self).account(s).unwrap().1, stake.0),
                ))
            } else {
                old(self).account(s)
            },
    {
        let k = match self.find(issuer) {
            Some(k) => k,
            None => {
                return;
            },
        };
        let node = self.accounts[k].0.clone();
        let total = self.accounts[k].1;
        let locked = self.accounts[k].2;
        let released = match locked.checked_sub(stake) {
            Some(l) => l,
            None => Capital::zero(),
        };
        let new_total = if payout.0 >= stake.0 {
            let profit = Capital(payout.0 - stake.0);
            match total.checked_add(profit) {
                Some(t) => t,
                None => total,
            }
        } else {
            let loss = Capital(stake.0 - payout.0);
            match total.checked_sub(loss) {
                Some(t) => t,
                None => Capital::zero(),
            }
        };
        let ghost before = self.accounts@;
        let entry = (node, new_total, released);
        proof { lemma_account_update(before, k as int, entry); }
        self.accounts.set(k, entry);
        assert(self.accounts@ == before.update(k as int, entry));
        assert forall|s: Seq<char>| #[trigger] self.account(s) is Some implies self.account(s).unwrap().1 <= self.account(s).unwrap().0 by {
            if s != issuer@ {
                assert(old(self).account(s) == self.account(s));
            } else {
                assert(old(self).account(s) is Some);
            }
        }
    }
}

} // verus!
