use payment_system::account::{AccountId, Bank};
use payment_system::errors::PaymentError;
use payment_system::ledger::Ledger;

const RENT: u64 = 1_000;

fn funded_ledger(payer: AccountId, units: u64) -> Ledger {
    let mut bank = Bank::new();
    assert_eq!(bank.deposit(payer, units), Ok(()));
    Ledger::new(bank)
}

#[test]
fn scenario_a_initialize_creates_open_record() {
    let payer = AccountId(10);
    let payee = AccountId(20);
    let mut ledger = funded_ledger(payer, 2_000_000);
    let id = "order-42".to_string();

    let r = ledger.initialize_payment(
        payer,
        payee,
        1_000_000,
        id.clone(),
        "widget".to_string(),
        RENT,
        100,
    );
    assert_eq!(r, Ok(()));

    let record = ledger.get_payment(&id).expect("record must exist");
    assert_eq!(record.amount, 1_000_000);
    assert_eq!(record.payer, payer);
    assert_eq!(record.payee, payee);
    assert!(!record.paid);
    assert_eq!(record.paid_at, None);
    assert_eq!(record.payment_id, id);
    assert_eq!(record.description, "widget".to_string());
    assert_eq!(record.timestamp, 100);
    // The payer funded the record's allocation, nothing else moved.
    assert_eq!(ledger.bank.balance_of(payer), 2_000_000 - RENT);
    assert_eq!(ledger.bank.balance_of(payee), 0);
}

#[test]
fn scenario_b_process_pays_payee() {
    let payer = AccountId(10);
    let payee = AccountId(20);
    let mut ledger = funded_ledger(payer, 2_000_000);
    let id = "order-42".to_string();
    assert_eq!(
        ledger.initialize_payment(
            payer,
            payee,
            1_000_000,
            id.clone(),
            "widget".to_string(),
            RENT,
            100,
        ),
        Ok(())
    );

    let r = ledger.process_payment(payer, payee, &id, 250);
    assert_eq!(r, Ok(()));

    let record = ledger.get_payment(&id).expect("record must still exist");
    assert!(record.paid);
    assert_eq!(record.paid_at, Some(250));
    assert_eq!(ledger.bank.balance_of(payee), 1_000_000);
    assert_eq!(ledger.bank.balance_of(payer), 2_000_000 - RENT - 1_000_000);
}

#[test]
fn scenario_c_processing_twice_fails_with_already_paid() {
    let payer = AccountId(10);
    let payee = AccountId(20);
    let mut ledger = funded_ledger(payer, 2_000_000);
    let id = "order-42".to_string();
    assert_eq!(
        ledger.initialize_payment(
            payer,
            payee,
            1_000_000,
            id.clone(),
            "widget".to_string(),
            RENT,
            100,
        ),
        Ok(())
    );
    assert_eq!(ledger.process_payment(payer, payee, &id, 250), Ok(()));
    let payer_before = ledger.bank.balance_of(payer);
    let payee_before = ledger.bank.balance_of(payee);

    let r = ledger.process_payment(payer, payee, &id, 300);
    assert_eq!(r, Err(PaymentError::AlreadyPaid));
    // Balances unchanged, record still paid at the original time.
    assert_eq!(ledger.bank.balance_of(payer), payer_before);
    assert_eq!(ledger.bank.balance_of(payee), payee_before);
    let record = ledger.get_payment(&id).expect("record must still exist");
    assert_eq!(record.paid_at, Some(250));
}

#[test]
fn scenario_d_duplicate_initialize_fails() {
    let payer = AccountId(10);
    let payee = AccountId(20);
    let mut ledger = funded_ledger(payer, 2_000_000);
    let id = "order-42".to_string();
    assert_eq!(
        ledger.initialize_payment(
            payer,
            payee,
            1_000_000,
            id.clone(),
            "widget".to_string(),
            RENT,
            100,
        ),
        Ok(())
    );
    let balance_before = ledger.bank.balance_of(payer);

    let r = ledger.initialize_payment(
        payer,
        payee,
        77,
        id.clone(),
        "second try".to_string(),
        RENT,
        150,
    );
    assert_eq!(r, Err(PaymentError::DuplicatePayment));
    // The first record stands untouched and no further rent was taken.
    let record = ledger.get_payment(&id).expect("record must exist");
    assert_eq!(record.amount, 1_000_000);
    assert_eq!(record.timestamp, 100);
    assert_eq!(ledger.bank.balance_of(payer), balance_before);
}

#[test]
fn scenario_e_cancel_refunds_and_removes() {
    let payer = AccountId(10);
    let payee = AccountId(20);
    let mut ledger = funded_ledger(payer, 2_000_000);
    let id = "order-42".to_string();
    assert_eq!(
        ledger.initialize_payment(
            payer,
            payee,
            1_000_000,
            id.clone(),
            "widget".to_string(),
            RENT,
            100,
        ),
        Ok(())
    );
    assert_eq!(ledger.bank.balance_of(payer), 2_000_000 - RENT);

    let r = ledger.cancel_payment(payer, &id);
    assert_eq!(r, Ok(()));
    assert!(ledger.get_payment(&id).is_none());
    // The allocation cost came back to the payer.
    assert_eq!(ledger.bank.balance_of(payer), 2_000_000);
    // The identifier is free again.
    assert_eq!(
        ledger.initialize_payment(
            payer,
            payee,
            5,
            id.clone(),
            "again".to_string(),
            RENT,
            200,
        ),
        Ok(())
    );
}

#[test]
fn cancel_paid_record_fails_with_already_paid() {
    let payer = AccountId(10);
    let payee = AccountId(20);
    let mut ledger = funded_ledger(payer, 2_000_000);
    let id = "order-42".to_string();
    assert_eq!(
        ledger.initialize_payment(
            payer,
            payee,
            1_000_000,
            id.clone(),
            "widget".to_string(),
            RENT,
            100,
        ),
        Ok(())
    );
    assert_eq!(ledger.process_payment(payer, payee, &id, 250), Ok(()));

    // A paid record is terminal: not even its payer can cancel it.
    assert_eq!(ledger.cancel_payment(payer, &id), Err(PaymentError::AlreadyPaid));
    assert_eq!(ledger.cancel_payment(payee, &id), Err(PaymentError::AlreadyPaid));
    assert!(ledger.get_payment(&id).is_some());
}

#[test]
fn process_rejects_wrong_signer_or_recipient() {
    let payer = AccountId(10);
    let payee = AccountId(20);
    let stranger = AccountId(30);
    let mut ledger = funded_ledger(payer, 2_000_000);
    let id = "order-42".to_string();
    assert_eq!(
        ledger.initialize_payment(
            payer,
            payee,
            1_000_000,
            id.clone(),
            "widget".to_string(),
            RENT,
            100,
        ),
        Ok(())
    );

    assert_eq!(
        ledger.process_payment(stranger, payee, &id, 250),
        Err(PaymentError::Unauthorized)
    );
    assert_eq!(
        ledger.process_payment(payer, stranger, &id, 250),
        Err(PaymentError::Unauthorized)
    );
    let record = ledger.get_payment(&id).expect("record must exist");
    assert!(!record.paid);
    assert_eq!(ledger.bank.balance_of(payee), 0);
}

#[test]
fn cancel_rejects_wrong_signer() {
    let payer = AccountId(10);
    let payee = AccountId(20);
    let mut ledger = funded_ledger(payer, 2_000_000);
    let id = "order-42".to_string();
    assert_eq!(
        ledger.initialize_payment(
            payer,
            payee,
            1_000_000,
            id.clone(),
            "widget".to_string(),
            RENT,
            100,
        ),
        Ok(())
    );

    assert_eq!(ledger.cancel_payment(payee, &id), Err(PaymentError::Unauthorized));
    assert!(ledger.get_payment(&id).is_some());
}

#[test]
fn missing_record_is_reported() {
    let payer = AccountId(10);
    let payee = AccountId(20);
    let mut ledger = funded_ledger(payer, 1_000);
    let id = "no-such-order".to_string();

    assert_eq!(
        ledger.process_payment(payer, payee, &id, 250),
        Err(PaymentError::PaymentNotFound)
    );
    assert_eq!(ledger.cancel_payment(payer, &id), Err(PaymentError::PaymentNotFound));
}

#[test]
fn failed_transfer_leaves_record_open() {
    let payer = AccountId(10);
    let payee = AccountId(20);
    // Enough for the rent, not for the payment itself.
    let mut ledger = funded_ledger(payer, RENT + 10);
    let id = "order-42".to_string();
    assert_eq!(
        ledger.initialize_payment(
            payer,
            payee,
            1_000_000,
            id.clone(),
            "widget".to_string(),
            RENT,
            100,
        ),
        Ok(())
    );

    let r = ledger.process_payment(payer, payee, &id, 250);
    assert_eq!(r, Err(PaymentError::InsufficientFunds));
    // All or nothing: the record is still open and no unit moved.
    let record = ledger.get_payment(&id).expect("record must exist");
    assert!(!record.paid);
    assert_eq!(record.paid_at, None);
    assert_eq!(ledger.bank.balance_of(payer), 10);
    assert_eq!(ledger.bank.balance_of(payee), 0);

    // Once the payer is funded, the same record processes fine.
    assert_eq!(ledger.bank.deposit(payer, 1_000_000), Ok(()));
    assert_eq!(ledger.process_payment(payer, payee, &id, 300), Ok(()));
    assert_eq!(ledger.bank.balance_of(payee), 1_000_000);
}

#[test]
fn paid_at_is_not_before_creation() {
    let payer = AccountId(10);
    let payee = AccountId(20);
    let mut ledger = funded_ledger(payer, 2_000_000);
    let id = "order-42".to_string();
    assert_eq!(
        ledger.initialize_payment(
            payer,
            payee,
            1_000_000,
            id.clone(),
            "widget".to_string(),
            RENT,
            100,
        ),
        Ok(())
    );
    assert_eq!(ledger.process_payment(payer, payee, &id, 250), Ok(()));

    let record = ledger.get_payment(&id).expect("record must exist");
    let paid_at = record.paid_at.expect("completion time must be present");
    assert!(paid_at >= record.timestamp);
}

#[test]
fn self_payment_processes_without_moving_units() {
    let account = AccountId(10);
    let mut ledger = funded_ledger(account, 2_000_000);
    let id = "order-42".to_string();
    assert_eq!(
        ledger.initialize_payment(
            account,
            account,
            1_000_000,
            id.clone(),
            "widget".to_string(),
            RENT,
            100,
        ),
        Ok(())
    );

    assert_eq!(ledger.process_payment(account, account, &id, 250), Ok(()));
    let record = ledger.get_payment(&id).expect("record must exist");
    assert!(record.paid);
    assert_eq!(ledger.bank.balance_of(account), 2_000_000 - RENT);
}
