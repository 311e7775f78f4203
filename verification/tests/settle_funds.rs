use rapid_flow::{ErrorCode, Identity, OpenOrders, Payout, SettleFunds};

fn holder(tag: u8) -> Identity {
    Identity { bytes: [tag; 32] }
}

fn funds(owner: u8, base_free: u64, base_locked: u64, quote_free: u64, quote_locked: u64) -> OpenOrders {
    OpenOrders { owner: holder(owner), market: holder(200), base_free, base_locked, quote_free, quote_locked }
}

fn settlement(signer: u8, record: OpenOrders) -> SettleFunds {
    SettleFunds { signer: holder(signer), open_orders: record }
}

#[test]
fn pending_names_the_free_balances() {
    let ctx = settlement(1, funds(1, 60, 5, 600, 7));
    assert_eq!(ctx.pending(), Ok(Payout { base: 60, quote: 600 }));
    assert_eq!(ctx, settlement(1, funds(1, 60, 5, 600, 7)));
    assert_eq!(settlement(1, funds(1, 0, 5, 600, 7)).pending(), Ok(Payout { base: 0, quote: 600 }));
    assert_eq!(settlement(1, funds(1, 60, 5, 0, 7)).pending(), Ok(Payout { base: 60, quote: 0 }));
    assert_eq!(settlement(1, funds(1, 0, 5, 0, 7)).pending(), Err(ErrorCode::NoFundsToSettle));
    assert_eq!(settlement(2, funds(1, 60, 5, 600, 7)).pending(), Err(ErrorCode::UnauthorizedAccess));
}

#[test]
fn settlement_drains_exactly_once() {
    let mut ctx = settlement(1, funds(1, 60, 5, 600, 7));
    assert_eq!(ctx.settle_funds(true, true), Ok(Payout { base: 60, quote: 600 }));
    assert_eq!(ctx.open_orders.base_free, 0);
    assert_eq!(ctx.open_orders.quote_free, 0);
    assert_eq!(ctx.open_orders, funds(1, 0, 5, 0, 7));
    assert_eq!(ctx.settle_funds(true, true), Err(ErrorCode::NoFundsToSettle));
    assert_eq!(ctx.open_orders, funds(1, 0, 5, 0, 7));
}

#[test]
fn settlement_of_one_asset() {
    let mut ctx = settlement(1, funds(1, 0, 5, 600, 7));
    assert_eq!(ctx.settle_funds(true, true), Ok(Payout { base: 0, quote: 600 }));
    assert_eq!(ctx.open_orders, funds(1, 0, 5, 0, 7));
    let mut ctx = settlement(1, funds(1, 60, 5, 0, 7));
    assert_eq!(ctx.settle_funds(true, true), Ok(Payout { base: 60, quote: 0 }));
    assert_eq!(ctx.open_orders, funds(1, 0, 5, 0, 7));
}

#[test]
fn each_leg_is_reset_only_when_its_transfer_went_through() {
    let mut ctx = settlement(1, funds(1, 60, 5, 600, 7));
    assert_eq!(ctx.settle_funds(false, true), Ok(Payout { base: 0, quote: 600 }));
    assert_eq!(ctx.open_orders, funds(1, 60, 5, 0, 7));
    // The leg that failed can be settled later.
    assert_eq!(ctx.settle_funds(true, true), Ok(Payout { base: 60, quote: 0 }));
    assert_eq!(ctx.open_orders, funds(1, 0, 5, 0, 7));

    let mut ctx = settlement(1, funds(1, 60, 5, 600, 7));
    assert_eq!(ctx.settle_funds(true, false), Ok(Payout { base: 60, quote: 0 }));
    assert_eq!(ctx.open_orders, funds(1, 0, 5, 600, 7));

    let mut ctx = settlement(1, funds(1, 60, 5, 600, 7));
    assert_eq!(ctx.settle_funds(false, false), Ok(Payout { base: 0, quote: 0 }));
    assert_eq!(ctx.open_orders, funds(1, 60, 5, 600, 7));
}

#[test]
fn nothing_to_settle_is_refused() {
    let mut ctx = settlement(1, funds(1, 0, 5, 0, 7));
    assert_eq!(ctx.settle_funds(true, true), Err(ErrorCode::NoFundsToSettle));
    assert_eq!(ctx.open_orders, funds(1, 0, 5, 0, 7));
    assert_eq!(ctx.settle_funds(false, false), Err(ErrorCode::NoFundsToSettle));
}

#[test]
fn settlement_of_someone_elses_record_is_unauthorized() {
    let mut ctx = settlement(2, funds(1, 60, 5, 600, 7));
    assert_eq!(ctx.settle_funds(true, true), Err(ErrorCode::UnauthorizedAccess));
    assert_eq!(ctx.open_orders, funds(1, 60, 5, 600, 7));
}

#[test]
fn settlement_leaves_locked_balances_alone() {
    let mut ctx = settlement(1, funds(1, u64::MAX, u64::MAX, u64::MAX, u64::MAX));
    assert_eq!(ctx.settle_funds(true, true), Ok(Payout { base: u64::MAX, quote: u64::MAX }));
    assert_eq!(ctx.open_orders, funds(1, 0, u64::MAX, 0, u64::MAX));
}
