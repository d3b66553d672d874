//! An integrating contract that posts assertions with its own address as the
//! asserter, so that bonds pool under it rather than under an end user.
//!
//! Its token and Tholos instance are fixed once and read from storage on
//! every call, never taken from arguments: the token transfer it
//! pre-authorizes for Tholos is therefore determined by its own state and
//! the bond amount alone.

use vstd::prelude::*;

use crate::common::Address;

verus! {

/// Why the consumer refuses a call before it reaches Tholos.
#[derive(Clone, Copy, Debug, PartialEq, Eq, Structural)]
pub enum Error {
    /// `initialize` has not run.
    NotInitialized,
    /// `initialize` already ran.
    AlreadyInitialized,
}

/// A token transfer that the consumer authorizes, as the current contract,
/// one call deeper than Soroban would grant by itself:
/// `token.transfer(from, to, amount)`.
#[derive(Clone, Debug)]
pub struct TransferAuthorization {
    pub token: Address,
    pub from: Address,
    pub to: Address,
    pub amount: i128,
}

/// The call `create_assertion_as_self` makes: `assert_outcome(asserter,
/// outcome)` on the Tholos instance `tholos`, after installing
/// `authorization` for the bond transfer that call performs.
#[derive(Clone, Debug)]
pub struct SelfAssertion {
    pub tholos: Address,
    pub asserter: Address,
    pub outcome: bool,
    pub authorization: TransferAuthorization,
}

/// What the consumer keeps in storage.
pub struct AsserterConsumer {
    /// Pinned at deployment. The host requires its signature for
    /// `initialize` and `create_assertion_as_self`.
    pub admin: Address,
    /// The trusted Tholos instance, set once by `initialize`.
    pub tholos_id: Option<Address>,
    /// The token bonds are paid in, set once by `initialize`.
    pub token_id: Option<Address>,
}

impl AsserterConsumer {
    /// Both addresses are set together, by `initialize`.
    pub open spec fn wf(self) -> bool {
        self.tholos_id is Some <==> self.token_id is Some
    }

    /// Deploys the consumer with `admin` pinned from the start, so that no
    /// later caller can choose who may spend its balance.
    pub fn new(admin: Address) -> (c: AsserterConsumer)
        ensures
            c.wf(),
            c.admin == admin,
            c.tholos_id is None,
            c.token_id is None,
    {
        AsserterConsumer { admin, tholos_id: None, token_id: None }
    }

    /// Stores the trusted Tholos instance and token, once; they can never
    /// change afterwards.
    pub fn initialize(&mut self, tholos_id: Address, token_id: Address) -> (r: Result<(), Error>)
        requires
            old(self).wf(),
        ensures
            final(self).wf(),
            final(self).admin == old(self).admin,
            match old(self).tholos_id {
                Some(_) => {
                    &&& r == Err::<(), Error>(Error::AlreadyInitialized)
                    &&& final(self).tholos_id == old(self).tholos_id
                    &&& final(self).token_id == old(self).token_id
                },
                None => {
                    &&& r is Ok
                    &&& final(self).tholos_id == Some(tholos_id)
                    &&& final(self).token_id == Some(token_id)
                },
            },
    {
        if self.tholos_id.is_some() {
            return Err(Error::AlreadyInitialized);
        }
        self.tholos_id = Some(tholos_id);
        self.token_id = Some(token_id);
        Ok(())
    }

    /// The call that posts `outcome` to the stored Tholos instance with
    /// `current`, this contract's own address, as the asserter, paying a
    /// bond of `bond_amount` from its balance: the transfer authorized
    /// names the stored token, this contract as the payer and the stored
    /// Tholos instance as the payee.
    pub fn create_assertion_as_self(&self, current: Address, bond_amount: i128, outcome: bool) -> (r:
        Result<SelfAssertion, Error>)
        requires
            self.wf(),
        ensures
            match (self.tholos_id, self.token_id) {
                (Some(tholos), Some(token)) => r matches Ok(call) && {
                    &&& call.tholos == tholos
                    &&& call.asserter == current
                    &&& call.outcome == outcome
                    &&& call.authorization.token == token
                    &&& call.authorization.from == current
                    &&& call.authorization.to == tholos
                    &&& call.authorization.amount == bond_amount
                },
                _ => r == Err::<SelfAssertion, Error>(Error::NotInitialized),
            },
    {
        let tholos = match &self.tholos_id {
            None => return Err(Error::NotInitialized),
            Some(t) => t.clone(),
        };
        let token = match &self.token_id {
            None => return Err(Error::NotInitialized),
            Some(t) => t.clone(),
        };
        Ok(
            SelfAssertion {
                tholos: tholos.clone(),
                asserter: current.clone(),
                outcome,
                authorization: TransferAuthorization { token, from: current, to: tholos, amount: bond_amount },
            },
        )
    }
}

} // verus!
