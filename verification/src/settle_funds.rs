use vstd::prelude::*;
use crate::error::ErrorCode;
use crate::identity::Identity;
use crate::state::OpenOrders;

verus! {

/// What a settlement works on: the caller and the caller's balance record.
#[derive(Clone, Copy, Debug, PartialEq, Eq)]
pub struct SettleFunds {
    pub signer: Identity,
    pub open_orders: OpenOrders,
}

/// The amounts that custody pays out to the owner of a record.
#[derive(Clone, Copy, Debug, PartialEq, Eq, Structural)]
pub struct Payout {
    pub base: u64,
    pub quote: u64,
}

/// The outcome of a settlement that went through.
pub struct Settled {
    pub state: SettleFunds,
    /// What was paid out and is no longer on the record.
    pub paid: Payout,
}

impl SettleFunds {
    /// What there is to settle: the free balances. The caller must own the
    /// record, and at least one of the two must not be zero.
    pub open spec fn claim(self) -> Result<Payout, ErrorCode> {
        if self.open_orders.owner != self.signer {
            Err(ErrorCode::UnauthorizedAccess)
        } else if self.open_orders.base_free == 0 && self.open_orders.quote_free == 0 {
            Err(ErrorCode::NoFundsToSettle)
        } else {
            Ok(Payout { base: self.open_orders.base_free, quote: self.open_orders.quote_free })
        }
    }

    /// The outcome of a settlement of which `base_sent` and `quote_sent` say
    /// which transfers went through.
    ///
    /// Each free balance whose transfer went through is paid and reset to
    /// zero. The other stays as it is, whatever became of the first.
    pub open spec fn after_settle(self, base_sent: bool, quote_sent: bool) -> Result<
        Settled,
        ErrorCode,
    > {
        match self.claim() {
            Err(e) => Err(e),
            Ok(due) => Ok(
                Settled {
                    state: SettleFunds {
                        signer: self.signer,
                        open_orders: OpenOrders {
                            base_free: if base_sent {
                                0
                            } else {
                                due.base
                            },
                            quote_free: if quote_sent {
                                0
                            } else {
                                due.quote
                            },
                            ..self.open_orders
                        },
                    },
                    paid: Payout {
                        base: if base_sent {
                            due.base
                        } else {
                            0
                        },
                        quote: if quote_sent {
                            due.quote
                        } else {
                            0
                        },
                    },
                },
            ),
        }
    }

    /// The transfers that a settlement asks for, one for each amount that is
    /// not zero. Nothing changes yet.
    pub fn pending(&self) -> (r: Result<Payout, ErrorCode>)
        ensures
            r == self.claim(),
    {
        if self.open_orders.owner != self.signer {
            Err(ErrorCode::UnauthorizedAccess)
        } else if self.open_orders.base_free == 0 && self.open_orders.quote_free == 0 {
            Err(ErrorCode::NoFundsToSettle)
        } else {
            Ok(Payout { base: self.open_orders.base_free, quote: self.open_orders.quote_free })
        }
    }

    /// Books the outcome of the transfers that `pending` asked for.
    ///
    /// `base_sent` and `quote_sent` say which of them went through. A free
    /// balance is reset only when its transfer did, and independently of the
    /// other. Returns what was paid. A refused settlement changes nothing.
    pub fn settle_funds(&mut self, base_sent: bool, quote_sent: bool) -> (r: Result<
        Payout,
        ErrorCode,
    >)
        ensures
            match old(self).after_settle(base_sent, quote_sent) {
                Ok(settled) => {
                    &&& r == Ok::<Payout, ErrorCode>(settled.paid)
                    &&& *final(self) == settled.state
                },
                Err(e) => r == Err::<Payout, ErrorCode>(e) && *final(self) == *old(self),
            },
            r is Ok ==> {
                &&& final(self).open_orders.base_total() == old(self).open_orders.base_total()
                    - r->Ok_0.base
                &&& final(self).open_orders.quote_total() == old(self).open_orders.quote_total()
                    - r->Ok_0.quote
            },
    {
        let due = match self.pending() {
            Ok(due) => due,
            Err(e) => {
                return Err(e);
            },
        };
        let mut paid = Payout { base: 0, quote: 0 };
        if base_sent {
            paid.base = due.base;
            self.open_orders.base_free = 0;
        }
        if quote_sent {
            paid.quote = due.quote;
            self.open_orders.quote_free = 0;
        }
        Ok(paid)
    }
}

/// A settlement whose transfers all went through leaves nothing to settle: both
/// free balances are zero, and settling again is refused.
pub proof fn settle_drains_once(state: SettleFunds, base_sent: bool, quote_sent: bool)
    requires
        state.after_settle(true, true) is Ok,
    ensures
        state.after_settle(true, true)->Ok_0.state.open_orders.base_free == 0,
        state.after_settle(true, true)->Ok_0.state.open_orders.quote_free == 0,
        state.after_settle(true, true)->Ok_0.paid == state.claim()->Ok_0,
        state.after_settle(true, true)->Ok_0.state.after_settle(base_sent, quote_sent) == Err::<
            Settled,
            ErrorCode,
        >(ErrorCode::NoFundsToSettle),
{
}

} // verus!
