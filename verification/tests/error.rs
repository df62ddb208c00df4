use zkpay::error::ZkLedgerError;

#[test]
fn messages_name_the_failure() {
    assert_eq!(
        ZkLedgerError::WalletNotFound("alice".to_string()).message(),
        "Wallet not found: alice"
    );
    assert_eq!(
        ZkLedgerError::WalletExists("alice".to_string()).message(),
        "Wallet 'alice' already exists"
    );
    assert_eq!(ZkLedgerError::InsufficientBalance.message(), "Insufficient balance");
    assert_eq!(ZkLedgerError::InvalidProof.message(), "Invalid proof");
    assert_eq!(ZkLedgerError::NoteAlreadySpent.message(), "Note already spent");
    assert_eq!(ZkLedgerError::DuplicateCommitment.message(), "Commitment already published");
    assert_eq!(ZkLedgerError::InvalidAmount.message(), "Invalid amount");
    assert_eq!(ZkLedgerError::InvalidKeyFormat.message(), "Invalid key format");
    assert_eq!(ZkLedgerError::DecodeError.message(), "Malformed data");
    assert_eq!(ZkLedgerError::AmountOverflow.message(), "Amount overflow");
}

#[test]
fn message_keeps_an_empty_or_unusual_name() {
    assert_eq!(ZkLedgerError::WalletNotFound(String::new()).message(), "Wallet not found: ");
    assert_eq!(
        ZkLedgerError::WalletExists("é '".to_string()).message(),
        "Wallet 'é '' already exists"
    );
}
