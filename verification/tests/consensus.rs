use minimint::consensus::{
    ConsensusItem, ConsensusOutcome, FediMintConsensus, ServerConfig, TransactionStatus,
    TransactionSubmissionError,
};
use minimint::db::{Database, OutputOutcome};
use minimint::mint::{Mint, MintError};
use minimint::tbs::{
    blind_message, combine_valid_shares, dealer_keygen, sign_blinded_msg, unblind_signature,
    AggregatePublicKey, Message, SecretKeyShare, Signature,
};
use minimint::transaction::{
    transaction_id, Coin, Input, IssuanceRequest, Output, PegInProof, PegOutRequest, Transaction,
    TransactionError, UtxoRef,
};
use minimint::wallet::{Wallet, WalletError};
use minimint::FeeConsensus;

/// A dealer with a single key holder: the federation's transaction-signing
/// authority for these tests.
fn authority() -> (AggregatePublicKey, SecretKeyShare) {
    let (apk, _pks, sks) = dealer_keygen(1, 1);
    (apk, sks[0])
}

fn sign_transaction(tx: &mut Transaction, sk: SecretKeyShare) {
    let id = transaction_id(tx);
    let msg = Message::from_hash(&id);
    let (bkey, bmsg) = blind_message(msg);
    let share = sign_blinded_msg(bmsg, sk);
    let shares = vec![(0usize, share)];
    let bsig = combine_valid_shares(&shares, 1);
    tx.signature = unblind_signature(bkey, bsig);
}

fn placeholder_signature() -> Signature {
    Signature(Message::from_bytes(b"placeholder").0)
}

fn issuance(tag: &[u8], amount: u64) -> IssuanceRequest {
    let msg = Message::from_bytes(tag);
    let (_bkey, bmsg) = blind_message(msg);
    IssuanceRequest { blinded: bmsg, amount }
}

fn coin_spend_tx(nonce: u64, amount: u64, out: Output, sk: SecretKeyShare) -> Transaction {
    let mut tx = Transaction {
        inputs: vec![Input::Coins(vec![Coin { nonce, amount }])],
        outputs: vec![out],
        signature: placeholder_signature(),
    };
    sign_transaction(&mut tx, sk);
    tx
}

fn replica() -> (FediMintConsensus, SecretKeyShare) {
    let (apk, sk) = authority();
    let cfg = ServerConfig { fee_consensus: FeeConsensus::zero(), auth_key: apk };
    (FediMintConsensus::new(cfg), sk)
}

fn outcome_of(epoch: u64, contributions: Vec<(u64, Vec<ConsensusItem>)>) -> ConsensusOutcome {
    ConsensusOutcome { epoch, contributions }
}

#[test]
fn double_spend_in_one_epoch_keeps_first() {
    let (mut fed, sk) = replica();
    let tx1 = coin_spend_tx(42, 100, Output::Coins(issuance(b"one", 100)), sk);
    let tx2 = coin_spend_tx(
        42,
        100,
        Output::PegOut(PegOutRequest { address: vec![1, 2, 3], amount: 100 }),
        sk,
    );
    let id1 = transaction_id(&tx1);
    let id2 = transaction_id(&tx2);

    assert!(fed.submit_transaction(tx1.clone()).is_ok());
    assert!(fed.submit_transaction(tx2.clone()).is_ok());

    let outcome = outcome_of(
        0,
        vec![(0, vec![ConsensusItem::Transaction(tx1)]), (1, vec![ConsensusItem::Transaction(
            tx2,
        )])],
    );
    fed.process_consensus_outcome(outcome);

    match fed.transaction_status(&id1) {
        Some(TransactionStatus::Accepted { epoch, outputs }) => {
            assert_eq!(epoch, 0);
            assert_eq!(outputs.len(), 1);
        }
        other => panic!("first transaction should be accepted, got {:?}", other),
    }
    // The conflicting transaction is gone from both the accepted set and
    // the proposed pool.
    assert!(fed.transaction_status(&id2).is_none());
}

#[test]
fn unbalanced_transaction_is_rejected_without_effect() {
    let (mut fed, sk) = replica();
    // Inputs carry 100 but outputs only 50 under a zero fee schedule.
    let tx = coin_spend_tx(7, 100, Output::Coins(issuance(b"half", 50)), sk);
    let id = transaction_id(&tx);
    let r = fed.submit_transaction(tx);
    assert_eq!(
        r,
        Err(TransactionSubmissionError::TransactionError(
            TransactionError::UnbalancedTransaction
        ))
    );
    assert!(fed.transaction_status(&id).is_none());
    assert_eq!(fed.get_consensus_proposal().len(), 0);
}

#[test]
fn accepted_outputs_report_module_outcomes_in_order() {
    let (mut fed, sk) = replica();
    let mut tx = Transaction {
        inputs: vec![Input::Coins(vec![Coin { nonce: 9, amount: 100 }])],
        outputs: vec![
            Output::Coins(issuance(b"sixty", 60)),
            Output::PegOut(PegOutRequest { address: vec![5, 6], amount: 40 }),
        ],
        signature: placeholder_signature(),
    };
    sign_transaction(&mut tx, sk);
    let id = transaction_id(&tx);
    assert!(fed.submit_transaction(tx.clone()).is_ok());

    let outcome = outcome_of(3, vec![(0, vec![ConsensusItem::Transaction(tx)])]);
    fed.process_consensus_outcome(outcome);

    match fed.transaction_status(&id) {
        Some(TransactionStatus::Accepted { epoch, outputs }) => {
            assert_eq!(epoch, 3);
            assert_eq!(outputs.len(), 2);
            match &outputs[0] {
                OutputOutcome::Mint(iss) => assert_eq!(iss.amount, 60),
                other => panic!("expected a mint outcome first, got {:?}", other),
            }
            match &outputs[1] {
                OutputOutcome::Wallet(po) => {
                    assert_eq!(po.amount, 40);
                    assert_eq!(po.address, vec![5, 6]);
                }
                other => panic!("expected a wallet outcome second, got {:?}", other),
            }
        }
        other => panic!("transaction should be accepted, got {:?}", other),
    }
}

#[test]
fn awaiting_consensus_until_epoch() {
    let (mut fed, sk) = replica();
    let tx = coin_spend_tx(11, 25, Output::Coins(issuance(b"pending", 25)), sk);
    let id = transaction_id(&tx);
    assert!(fed.submit_transaction(tx.clone()).is_ok());
    assert_eq!(fed.transaction_status(&id), Some(TransactionStatus::AwaitingConsensus));

    let proposal = fed.get_consensus_proposal();
    assert_eq!(proposal.len(), 1);
    match &proposal[0] {
        ConsensusItem::Transaction(p) => assert_eq!(transaction_id(p), id),
        other => panic!("expected a transaction item, got {:?}", other),
    }

    let outcome = outcome_of(1, vec![(0, vec![ConsensusItem::Transaction(tx)])]);
    fed.process_consensus_outcome(outcome);
    assert!(matches!(
        fed.transaction_status(&id),
        Some(TransactionStatus::Accepted { .. })
    ));
    assert_eq!(fed.get_consensus_proposal().len(), 0);
}

#[test]
fn spent_note_is_rejected_across_epochs() {
    let (mut fed, sk) = replica();
    let tx1 = coin_spend_tx(77, 10, Output::Coins(issuance(b"a", 10)), sk);
    assert!(fed.submit_transaction(tx1.clone()).is_ok());
    fed.process_consensus_outcome(outcome_of(0, vec![(0, vec![ConsensusItem::Transaction(
        tx1,
    )])]));

    let tx2 = coin_spend_tx(77, 10, Output::Coins(issuance(b"b", 10)), sk);
    let r = fed.submit_transaction(tx2);
    assert_eq!(r, Err(TransactionSubmissionError::InputCoinError(MintError::AlreadySpent)));
}

#[test]
fn peg_in_claimed_once() {
    let (mut fed, sk) = replica();
    let utxo = UtxoRef { txid: 500, vout: 1 };
    let mut tx1 = Transaction {
        inputs: vec![Input::PegIn(PegInProof { utxo, amount: 30 })],
        outputs: vec![Output::Coins(issuance(b"claim", 30))],
        signature: placeholder_signature(),
    };
    sign_transaction(&mut tx1, sk);
    assert!(fed.submit_transaction(tx1.clone()).is_ok());
    fed.process_consensus_outcome(outcome_of(0, vec![(0, vec![ConsensusItem::Transaction(
        tx1,
    )])]));

    let mut tx2 = Transaction {
        inputs: vec![Input::PegIn(PegInProof { utxo, amount: 30 })],
        outputs: vec![Output::Coins(issuance(b"again", 30))],
        signature: placeholder_signature(),
    };
    sign_transaction(&mut tx2, sk);
    let r = fed.submit_transaction(tx2);
    assert_eq!(r, Err(TransactionSubmissionError::InputPegIn(WalletError::AlreadyClaimed)));
}

#[test]
fn error_variants_name_the_failing_check() {
    let (mut fed, sk) = replica();

    // Empty coin bundle.
    let mut empty_spend = Transaction {
        inputs: vec![Input::Coins(vec![])],
        outputs: vec![],
        signature: placeholder_signature(),
    };
    sign_transaction(&mut empty_spend, sk);
    assert_eq!(
        fed.submit_transaction(empty_spend),
        Err(TransactionSubmissionError::InputCoinError(MintError::NothingSpent))
    );

    // The same note twice in one bundle.
    let mut dup = Transaction {
        inputs: vec![Input::Coins(vec![Coin { nonce: 5, amount: 1 }, Coin {
            nonce: 5,
            amount: 1,
        }])],
        outputs: vec![Output::Coins(issuance(b"dup", 2))],
        signature: placeholder_signature(),
    };
    sign_transaction(&mut dup, sk);
    assert_eq!(
        fed.submit_transaction(dup),
        Err(TransactionSubmissionError::InputCoinError(MintError::DuplicateCoin))
    );

    // A zero-amount issuance.
    let mut zero_issue = Transaction {
        inputs: vec![Input::Coins(vec![Coin { nonce: 6, amount: 0 }])],
        outputs: vec![Output::Coins(issuance(b"zero", 0))],
        signature: placeholder_signature(),
    };
    sign_transaction(&mut zero_issue, sk);
    assert_eq!(
        fed.submit_transaction(zero_issue),
        Err(TransactionSubmissionError::OutputCoinError(MintError::InvalidIssuance))
    );

    // A peg-out to an empty address.
    let mut bad_pegout = Transaction {
        inputs: vec![Input::Coins(vec![Coin { nonce: 8, amount: 5 }])],
        outputs: vec![Output::PegOut(PegOutRequest { address: vec![], amount: 5 })],
        signature: placeholder_signature(),
    };
    sign_transaction(&mut bad_pegout, sk);
    assert_eq!(
        fed.submit_transaction(bad_pegout),
        Err(TransactionSubmissionError::OutputPegOut(WalletError::InvalidPegOut))
    );

    // A zero-amount peg-in.
    let mut bad_pegin = Transaction {
        inputs: vec![Input::PegIn(PegInProof { utxo: UtxoRef { txid: 1, vout: 0 }, amount: 0 })],
        outputs: vec![],
        signature: placeholder_signature(),
    };
    sign_transaction(&mut bad_pegin, sk);
    assert_eq!(
        fed.submit_transaction(bad_pegin),
        Err(TransactionSubmissionError::InputPegIn(WalletError::InvalidPegIn))
    );

    // A signature that does not bind the content.
    let unsigned = coin_spend_tx(12, 3, Output::Coins(issuance(b"sig", 3)), sk);
    let mut tampered = unsigned.clone();
    tampered.signature = placeholder_signature();
    assert_eq!(
        fed.submit_transaction(tampered),
        Err(TransactionSubmissionError::TransactionError(TransactionError::InvalidSignature))
    );

    // A transaction over the size limits.
    let mut coins = Vec::new();
    for n in 0..1001u64 {
        coins.push(Coin { nonce: 1000 + n, amount: 1 });
    }
    let mut oversized = Transaction {
        inputs: vec![Input::Coins(coins)],
        outputs: vec![Output::Coins(issuance(b"big", 1001))],
        signature: placeholder_signature(),
    };
    sign_transaction(&mut oversized, sk);
    assert_eq!(
        fed.submit_transaction(oversized),
        Err(TransactionSubmissionError::TransactionError(TransactionError::OversizedTransaction))
    );
}

#[test]
fn non_conflicting_transactions_all_accepted() {
    let (mut fed, sk) = replica();
    let tx1 = coin_spend_tx(101, 10, Output::Coins(issuance(b"left", 10)), sk);
    let tx2 = coin_spend_tx(102, 10, Output::Coins(issuance(b"right", 10)), sk);
    let id1 = transaction_id(&tx1);
    let id2 = transaction_id(&tx2);
    assert!(fed.submit_transaction(tx1.clone()).is_ok());
    assert!(fed.submit_transaction(tx2.clone()).is_ok());
    fed.process_consensus_outcome(outcome_of(
        0,
        vec![(0, vec![ConsensusItem::Transaction(tx1)]), (1, vec![ConsensusItem::Transaction(
            tx2,
        )])],
    ));
    assert!(matches!(
        fed.transaction_status(&id1),
        Some(TransactionStatus::Accepted { .. })
    ));
    assert!(matches!(
        fed.transaction_status(&id2),
        Some(TransactionStatus::Accepted { .. })
    ));
}

#[test]
fn module_items_are_recorded() {
    let (mut fed, _sk) = replica();
    fed.process_consensus_outcome(outcome_of(
        0,
        vec![(4, vec![ConsensusItem::Mint(17), ConsensusItem::Wallet(23)]), (9, vec![
            ConsensusItem::Wallet(29),
        ])],
    ));
    assert_eq!(fed.db.mint_items, vec![(4, 17)]);
    assert_eq!(fed.db.wallet_items, vec![(4, 23), (9, 29)]);
}

#[test]
fn transaction_id_is_content_only_and_stable() {
    let (_apk, sk) = authority();
    let a = coin_spend_tx(55, 10, Output::Coins(issuance(b"stable", 10)), sk);
    let mut b = a.clone();
    // The id covers the content, not the signature.
    b.signature = placeholder_signature();
    assert_eq!(transaction_id(&a), transaction_id(&b));
    assert_eq!(transaction_id(&a).len(), 32);

    let c = coin_spend_tx(56, 10, Output::Coins(issuance(b"stable", 10)), sk);
    assert_ne!(transaction_id(&a), transaction_id(&c));
}

#[test]
fn empty_transaction_encoding_digest() {
    // An empty transaction encodes as two zero length tags: sixteen zero
    // bytes; its id is their SHA-256 digest.
    let tx = Transaction { inputs: vec![], outputs: vec![], signature: placeholder_signature() };
    let expected = bitcoin_hashes::sha256::hash(&[0u8; 16]).to_byte_array().to_vec();
    assert_eq!(transaction_id(&tx), expected);
}

#[test]
fn module_apply_input_marks_and_rejects() {
    let mut db = Database::new();
    let mint = Mint {};
    let coins = vec![Coin { nonce: 400, amount: 5 }];
    assert!(mint.apply_input(&mut db, &coins).is_ok());
    assert_eq!(mint.apply_input(&mut db, &coins), Err(MintError::AlreadySpent));

    let wallet = Wallet {};
    let proof = PegInProof { utxo: UtxoRef { txid: 8, vout: 0 }, amount: 5 };
    assert!(wallet.apply_input(&mut db, &proof).is_ok());
    assert_eq!(wallet.apply_input(&mut db, &proof), Err(WalletError::AlreadyClaimed));
}
