use pertoken::ContractError;
use pertoken::PaymentStatus;
use pertoken::PerTokenContract;

fn setup() -> PerTokenContract {
    PerTokenContract::new()
}

#[test]
fn test_request_payment() {
    let mut contract = setup();
    let site_id = "site123".to_string();
    let url_hash = "hash456".to_string();
    let amount = 1000000i128;

    let invoice = contract.request_payment(site_id.clone(), url_hash.clone(), amount, 1000);

    assert_eq!(invoice.site_id, site_id);
    assert_eq!(invoice.url_hash, url_hash);
    assert_eq!(invoice.amount, amount);
    assert_eq!(invoice.created_at, 1000);
    assert_eq!(invoice.expires_at, 4600);
    assert!(matches!(invoice.status, PaymentStatus::Pending));
}

#[test]
fn test_submit_payment_success() {
    let mut contract = setup();
    let invoice =
        contract.request_payment("site123".to_string(), "hash456".to_string(), 1000000i128, 1000);

    let tx_hash = "stellar_tx_hash_123456".to_string();
    let payer_key = "GCKFBEI...".to_string();

    let result = contract.submit_payment(invoice.payment_id.clone(), tx_hash, payer_key, 1000);

    assert!(result.is_ok());
    let jwt = result.unwrap();
    assert!(jwt.starts_with("pertoken."));
}

#[test]
fn test_submit_payment_expired() {
    let mut contract = setup();
    let invoice =
        contract.request_payment("site123".to_string(), "hash456".to_string(), 1000000i128, 1000);

    let result = contract.submit_payment(
        invoice.payment_id,
        "tx_hash_123".to_string(),
        "payer_key".to_string(),
        5000,
    );

    assert_eq!(result.unwrap_err(), ContractError::Expired);
}

#[test]
fn test_submit_payment_already_paid() {
    let mut contract = setup();
    let invoice =
        contract.request_payment("site123".to_string(), "hash456".to_string(), 1000000i128, 1000);

    let tx_hash = "stellar_tx_hash_123456".to_string();
    let payer_key = "GCKFBEI...".to_string();

    let _ = contract.submit_payment(
        invoice.payment_id.clone(),
        tx_hash.clone(),
        payer_key.clone(),
        1000,
    );

    let result = contract.submit_payment(invoice.payment_id, tx_hash, payer_key, 1000);

    assert_eq!(result.unwrap_err(), ContractError::AlreadyPaid);
}

#[test]
fn test_submit_payment_invalid_tx() {
    let mut contract = setup();
    let invoice =
        contract.request_payment("site123".to_string(), "hash456".to_string(), 1000000i128, 1000);

    let bad_tx_hash = "bad".to_string();

    let result = contract.submit_payment(
        invoice.payment_id,
        bad_tx_hash,
        "GCKFBEI...".to_string(),
        1000,
    );

    assert_eq!(result.unwrap_err(), ContractError::InvalidTx);
}

#[test]
fn test_submit_payment_not_found() {
    let mut contract = setup();

    let result = contract.submit_payment(
        "nonexistent_id".to_string(),
        "tx_hash_123".to_string(),
        "payer_key".to_string(),
        1000,
    );

    assert_eq!(result.unwrap_err(), ContractError::NotFound);
}

#[test]
fn test_verify_jwt_success() {
    let mut contract = setup();
    let invoice =
        contract.request_payment("site123".to_string(), "hash456".to_string(), 1000000i128, 1000);

    let token = contract
        .submit_payment(
            invoice.payment_id.clone(),
            "stellar_tx_hash_123456".to_string(),
            "GCKFBEI...".to_string(),
            1000,
        )
        .unwrap();

    let result = contract.verify_jwt(token);

    assert!(result.is_ok());
    let record = result.unwrap();
    assert_eq!(record.payment_id, invoice.payment_id);
}

#[test]
fn test_verify_jwt_bad_jwt() {
    let contract = setup();

    let result = contract.verify_jwt("".to_string());

    assert_eq!(result.unwrap_err(), ContractError::BadJWT);
}

#[test]
fn test_verify_jwt_not_found() {
    let contract = setup();

    let result = contract.verify_jwt("pertoken.jwt.token".to_string());

    assert_eq!(result.unwrap_err(), ContractError::NotFound);
}

#[test]
fn test_error_codes() {
    assert_eq!(ContractError::NotFound.code(), 1);
    assert_eq!(ContractError::Expired.code(), 2);
    assert_eq!(ContractError::AlreadyPaid.code(), 3);
    assert_eq!(ContractError::InvalidTx.code(), 4);
    assert_eq!(ContractError::BadJWT.code(), 5);
}

#[test]
fn test_invalid_tx_leaves_state_unchanged() {
    let mut contract = setup();
    let invoice =
        contract.request_payment("site123".to_string(), "hash456".to_string(), 1000000i128, 1000);

    let result = contract.submit_payment(
        invoice.payment_id.clone(),
        "short".to_string(),
        "payer_key".to_string(),
        1000,
    );
    assert_eq!(result.unwrap_err(), ContractError::InvalidTx);

    let stored = contract.get_payment_invoice(&invoice.payment_id).unwrap();
    assert!(matches!(stored.status, PaymentStatus::Pending));
    assert!(contract.get_payment_record(&invoice.payment_id).is_none());
}

#[test]
fn test_not_found_regardless_of_other_arguments() {
    let mut contract = setup();
    let _ = contract.request_payment("site123".to_string(), "hash456".to_string(), 5i128, 1000);

    let result = contract.submit_payment(
        "unknown".to_string(),
        "a_perfectly_long_tx_hash".to_string(),
        "some_payer".to_string(),
        1000,
    );
    assert_eq!(result.unwrap_err(), ContractError::NotFound);

    let result = contract.submit_payment("unknown".to_string(), "".to_string(), "".to_string(), 0);
    assert_eq!(result.unwrap_err(), ContractError::NotFound);
}

#[test]
fn test_expiry_boundary() {
    let mut contract = setup();
    let invoice =
        contract.request_payment("site123".to_string(), "hash456".to_string(), 1000000i128, 1000);

    // At exactly `expires_at` the invoice is still payable; one unit later it
    // is expired.
    let result = contract.submit_payment(
        invoice.payment_id.clone(),
        "tx_hash_len_ok".to_string(),
        "payer_key".to_string(),
        4601,
    );
    assert_eq!(result.unwrap_err(), ContractError::Expired);

    let result = contract.submit_payment(
        invoice.payment_id,
        "tx_hash_len_ok".to_string(),
        "payer_key".to_string(),
        4600,
    );
    assert!(result.is_ok());
}

#[test]
fn test_min_tx_hash_length_boundary() {
    let mut contract = setup();
    let invoice =
        contract.request_payment("site123".to_string(), "hash456".to_string(), 1000000i128, 1000);

    // Nine characters fail, ten pass.
    let result = contract.submit_payment(
        invoice.payment_id.clone(),
        "123456789".to_string(),
        "payer_key".to_string(),
        1000,
    );
    assert_eq!(result.unwrap_err(), ContractError::InvalidTx);

    let result = contract.submit_payment(
        invoice.payment_id,
        "1234567890".to_string(),
        "payer_key".to_string(),
        1000,
    );
    assert!(result.is_ok());
}

#[test]
fn test_record_snapshots_invoice() {
    let mut contract = setup();
    let invoice =
        contract.request_payment("site123".to_string(), "hash456".to_string(), 777i128, 1000);

    let result = contract.submit_payment(
        invoice.payment_id.clone(),
        "stellar_tx_hash_123456".to_string(),
        "GCKFBEI...".to_string(),
        1200,
    );
    assert!(result.is_ok());

    let record = contract.get_payment_record(&invoice.payment_id).unwrap();
    assert_eq!(record.payment_id, invoice.payment_id);
    assert_eq!(record.tx_hash, "stellar_tx_hash_123456");
    assert_eq!(record.payer_public_key, "GCKFBEI...");
    assert_eq!(record.verified_at, 1200);
    assert_eq!(record.site_id, "site123");
    assert_eq!(record.amount, 777);

    let stored = contract.get_payment_invoice(&invoice.payment_id).unwrap();
    assert!(matches!(stored.status, PaymentStatus::Paid));
}

#[test]
fn test_verify_jwt_malformed_token() {
    let mut contract = setup();
    let invoice =
        contract.request_payment("site123".to_string(), "hash456".to_string(), 1000000i128, 1000);
    let _ = contract.submit_payment(
        invoice.payment_id.clone(),
        "stellar_tx_hash_123456".to_string(),
        "GCKFBEI...".to_string(),
        1000,
    );

    // A token that does not carry the token tag is rejected even though a
    // record exists.
    let result = contract.verify_jwt("zzz".to_string());
    assert_eq!(result.unwrap_err(), ContractError::BadJWT);
}

#[test]
fn test_fresh_payment_ids() {
    let mut contract = setup();
    let first =
        contract.request_payment("site123".to_string(), "hash456".to_string(), 1000000i128, 1000);
    let second =
        contract.request_payment("site123".to_string(), "hash456".to_string(), 1000000i128, 1000);

    // Identifiers are minted from the store-guarded counter and never reused.
    assert_eq!(first.payment_id, "pay_0");
    assert_eq!(second.payment_id, "pay_1");
    assert_ne!(first.payment_id, second.payment_id);

    // Paying the first and then creating a third invoice leaves the paid
    // invoice and its record untouched; a resubmission still fails.
    let _ = contract
        .submit_payment(
            first.payment_id.clone(),
            "stellar_tx_hash_123456".to_string(),
            "GCKFBEI...".to_string(),
            1000,
        )
        .unwrap();
    let third =
        contract.request_payment("site123".to_string(), "hash456".to_string(), 1000000i128, 1000);
    assert_ne!(third.payment_id, first.payment_id);

    let stored = contract.get_payment_invoice(&first.payment_id).unwrap();
    assert!(matches!(stored.status, PaymentStatus::Paid));
    assert!(contract.get_payment_record(&first.payment_id).is_some());

    let again = contract.submit_payment(
        first.payment_id.clone(),
        "stellar_tx_hash_123456".to_string(),
        "GCKFBEI...".to_string(),
        1000,
    );
    assert_eq!(again.unwrap_err(), ContractError::AlreadyPaid);
}

#[test]
fn test_settle_invoice_pure() {
    let result = PerTokenContract::settle_invoice(
        None,
        "stellar_tx_hash_123456".to_string(),
        "payer".to_string(),
        1000,
    );
    assert_eq!(result.unwrap_err(), ContractError::NotFound);

    let mut contract = setup();
    let invoice =
        contract.request_payment("site123".to_string(), "hash456".to_string(), 42i128, 1000);
    let (updated, record, token) = PerTokenContract::settle_invoice(
        Some(invoice),
        "stellar_tx_hash_123456".to_string(),
        "payer".to_string(),
        1500,
    )
    .unwrap();
    assert!(matches!(updated.status, PaymentStatus::Paid));
    assert_eq!(record.payment_id, updated.payment_id);
    assert_eq!(record.verified_at, 1500);
    assert_eq!(record.site_id, "site123");
    assert_eq!(record.amount, 42);
    assert_eq!(token, format!("pertoken.{}", record.payment_id));
}

#[test]
fn test_token_payment_id_pure() {
    let bad = PerTokenContract::token_payment_id(&"".to_string());
    assert_eq!(bad.unwrap_err(), ContractError::BadJWT);

    let bad = PerTokenContract::token_payment_id(&"no_tag_here_at_all".to_string());
    assert_eq!(bad.unwrap_err(), ContractError::BadJWT);

    let bad = PerTokenContract::token_payment_id(&"pertoken.".to_string());
    assert_eq!(bad.unwrap_err(), ContractError::BadJWT);

    let ok = PerTokenContract::token_payment_id(&"pertoken.pay_7".to_string());
    assert_eq!(ok.unwrap(), "pay_7");
}

#[test]
fn test_full_scenario() {
    let mut contract = setup();

    // Create at time 1000: expires at 4600, pending.
    let invoice =
        contract.request_payment("site123".to_string(), "hash456".to_string(), 1000000i128, 1000);
    assert_eq!(invoice.expires_at, 4600);
    assert!(matches!(invoice.status, PaymentStatus::Pending));

    // Submit at time 1000 with a 22-character transaction hash: success.
    let token = contract
        .submit_payment(
            invoice.payment_id.clone(),
            "stellar_tx_hash_123456".to_string(),
            "GCKFBEI...".to_string(),
            1000,
        )
        .unwrap();
    let stored = contract.get_payment_invoice(&invoice.payment_id).unwrap();
    assert!(matches!(stored.status, PaymentStatus::Paid));
    assert!(contract.get_payment_record(&invoice.payment_id).is_some());

    // A second submission fails.
    let again = contract.submit_payment(
        invoice.payment_id.clone(),
        "stellar_tx_hash_123456".to_string(),
        "GCKFBEI...".to_string(),
        1000,
    );
    assert_eq!(again.unwrap_err(), ContractError::AlreadyPaid);

    // The issued token resolves to the record of the same payment.
    let record = contract.verify_jwt(token).unwrap();
    assert_eq!(record.payment_id, invoice.payment_id);

    // A fresh invoice submitted after its expiry fails.
    let second =
        contract.request_payment("site123".to_string(), "hash456".to_string(), 1000000i128, 1000);
    let late = contract.submit_payment(
        second.payment_id,
        "stellar_tx_hash_123456".to_string(),
        "GCKFBEI...".to_string(),
        5000,
    );
    assert_eq!(late.unwrap_err(), ContractError::Expired);
}
