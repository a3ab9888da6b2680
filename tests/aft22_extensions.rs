use allfeat_contracts::aft22::{AFT22Error, AFT22};
use allfeat_contracts::counting::CountingBalances;
use allfeat_contracts::flashmint::{BorrowerReply, FlashLenderError};
use allfeat_contracts::token_timelock::{AFT22TokenTimelockError, TokenTimelock};
use allfeat_contracts::types::{AccountId, MAX_BALANCE};
use allfeat_contracts::wrapper::AFT22Wrapper;

fn acc(n: u8) -> AccountId {
    AccountId([n; 32])
}

#[test]
fn flash_fee_and_max_loan() {
    let mut t: AFT22<CountingBalances> = AFT22::new();
    let (this, other, a) = (acc(9), acc(8), acc(1));
    t._mint_to(&a, 100).unwrap();
    assert_eq!(t.flash_fee(&this, &this, 50), Ok(0));
    assert_eq!(t.flash_fee(&other, &this, 50), Err(FlashLenderError::WrongTokenAddress));
    assert_eq!(t.max_flashloan(&this, &this), MAX_BALANCE - 100);
    assert_eq!(t.max_flashloan(&other, &this), 0);
}

#[test]
fn flashloan_round_trip() {
    let mut t: AFT22<CountingBalances> = AFT22::new();
    let (this, borrower, fees) = (acc(9), acc(2), acc(3));
    assert_eq!(t.flashloan_begin(&borrower, &this, &this, 40), Ok(0));
    assert_eq!(t.balance_of(&borrower), 40);
    assert_eq!(t.flashloan_end(&borrower, &this, 40, 0, &Some(fees)), Err(FlashLenderError::AllowanceDoesNotAllowRefund));
    t._approve_from_to(&borrower, &this, 50).unwrap();
    assert_eq!(t.flashloan_end(&borrower, &this, 40, 0, &Some(fees)), Ok(()));
    assert_eq!(t.balance_of(&borrower), 0);
    assert_eq!(t.total_supply(), 0);
    assert_eq!(t.allowance(&borrower, &this), 10);
}

#[test]
fn flashloan_fee_goes_to_receiver() {
    let mut t: AFT22<CountingBalances> = AFT22::new();
    let (this, borrower, fees) = (acc(9), acc(2), acc(3));
    t._mint_to(&borrower, 5).unwrap();
    t.flashloan_begin(&borrower, &this, &this, 40).unwrap();
    t._approve_from_to(&borrower, &this, 45).unwrap();
    assert_eq!(t.flashloan_end(&borrower, &this, 40, 5, &Some(fees)), Ok(()));
    assert_eq!(t.balance_of(&borrower), 0);
    assert_eq!(t.balance_of(&fees), 5);
    assert_eq!(t.total_supply(), 5);
}

#[test]
fn token_errors_become_custom_loan_errors() {
    assert_eq!(
        FlashLenderError::from_aft22(AFT22Error::InsufficientBalance),
        FlashLenderError::Custom(String::from("PSP22: Insufficient Balance"))
    );
    assert_eq!(
        FlashLenderError::from_aft22(AFT22Error::Custom(String::from("x"))),
        FlashLenderError::Custom(String::from("x"))
    );
}

#[test]
fn timelock_releases_after_time() {
    let mut lock = TokenTimelock::new();
    let (token, who) = (acc(5), acc(6));
    assert_eq!(lock._init(100, token, who, 100), Err(AFT22TokenTimelockError::ReleaseTimeIsBeforeCurrentTime));
    assert_eq!(lock.release(0, 10), Err(AFT22TokenTimelockError::NoTokensToRelease));
    assert_eq!(lock._init(100, token, who, 200), Ok(()));
    assert_eq!(lock.release_time(), 200);
    assert_eq!(lock.token(), Some(token));
    assert_eq!(lock.beneficiary(), Some(who));
    assert_eq!(lock.release(199, 10), Err(AFT22TokenTimelockError::CurrentTimeIsBeforeReleaseTime));
    assert_eq!(lock.release(200, 0), Err(AFT22TokenTimelockError::NoTokensToRelease));
    assert_eq!(lock.release(200, 10), Ok((token, who, 10)));
}

#[test]
fn wrapper_deposit_and_recover() {
    let mut t: AFT22<CountingBalances> = AFT22::new();
    let mut w = AFT22Wrapper::new();
    let a = acc(1);
    assert!(matches!(w.underlying_for_transfer(), Err(AFT22Error::Custom(_))));
    w._init(acc(7));
    assert_eq!(w._underlying(), Some(acc(7)));
    assert_eq!(w.underlying_for_transfer(), Ok(acc(7)));
    assert_eq!(w.deposit_for(&mut t, &a, 10, Err(AFT22Error::InsufficientBalance)), Err(AFT22Error::InsufficientBalance));
    assert_eq!(t.total_supply(), 0);
    assert_eq!(w.deposit_for(&mut t, &a, 10, Ok(())), Ok(()));
    assert_eq!(t.balance_of(&a), 10);
    assert_eq!(w._recover(&mut t, &acc(2), 15), Ok(5));
    assert_eq!(t.balance_of(&acc(2)), 5);
    assert_eq!(t.total_supply(), 15);
}

#[test]
fn borrower_replies_decide_the_loan() {
    use_reply(BorrowerReply::Accepted, Ok(()));
    use_reply(BorrowerReply::NoHandler, Ok(()));
    use_reply(BorrowerReply::NotContract, Ok(()));
    use_reply(
        BorrowerReply::Rejected(String::from("no")),
        Err(FlashLenderError::BorrowerRejected(String::from("no"))),
    );
    use_reply(
        BorrowerReply::Failed,
        Err(FlashLenderError::BorrowerRejected(String::from("Error while performing the `on_flashloan`"))),
    );
}

fn use_reply(reply: BorrowerReply, expected: Result<(), FlashLenderError>) {
    assert_eq!(FlashLenderError::from_borrower_reply(reply), expected);
}
