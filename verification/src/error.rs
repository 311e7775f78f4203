use vstd::prelude::*;

verus! {

/// Why an operation was refused. A refused operation changes nothing.
#[derive(Clone, Copy, Debug, PartialEq, Eq, Structural)]
pub enum ErrorCode {
    /// The order to cancel does not rest in the book, or belongs to someone else.
    OrderNotFound,
    /// The caller does not own the balance record that would be changed, or a
    /// record that a fill has to change was not supplied.
    UnauthorizedAccess,
    /// A balance would drop below zero.
    InsufficientFunds,
    /// An amount or a counter would exceed its integer width.
    MathOverflow,
    /// Both free balances are zero.
    NoFundsToSettle,
    /// Kept for partial settlement.
    InvalidClaimAmount,
    /// Kept for partial settlement.
    InsufficientBalanceClaim,
}

impl ErrorCode {
    /// The text shown to a user for each code.
    pub open spec fn spec_message(self) -> Seq<char> {
        match self {
            ErrorCode::OrderNotFound => "Order not found"@,
            ErrorCode::UnauthorizedAccess => "Unauthorized access"@,
            ErrorCode::InsufficientFunds => "Insufficient funds"@,
            ErrorCode::MathOverflow => "Math overflow"@,
            ErrorCode::NoFundsToSettle => "No funds to settle"@,
            ErrorCode::InvalidClaimAmount => "Invalid claim amount"@,
            ErrorCode::InsufficientBalanceClaim => "Insufficient balance to claim"@,
        }
    }

    pub fn message(&self) -> (text: &'static str)
        ensures
            text@ == self.spec_message(),
    {
        match self {
            ErrorCode::OrderNotFound => "Order not found",
            ErrorCode::UnauthorizedAccess => "Unauthorized access",
            ErrorCode::InsufficientFunds => "Insufficient funds",
            ErrorCode::MathOverflow => "Math overflow",
            ErrorCode::NoFundsToSettle => "No funds to settle",
            ErrorCode::InvalidClaimAmount => "Invalid claim amount",
            ErrorCode::InsufficientBalanceClaim => "Insufficient balance to claim",
        }
    }
}

} // verus!
