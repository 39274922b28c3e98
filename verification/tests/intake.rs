use copernicus::Blockchain;
use copernicus::Consensus;
use copernicus::Transaction;
use copernicus::TransactionError;
use copernicus::TransactionHandler;
use copernicus::consensus::serialize_batch;

#[test]
fn invalid_amount_rejected_without_side_effect() {
    let mut handler = TransactionHandler::new();
    assert_eq!(handler.queue_len(), 0);
    let bad = Transaction { sender: 1, amount: -5, nonce: 0 };
    let r = handler.handle_transaction(bad);
    assert!(matches!(r, Err(TransactionError::InvalidTransaction)));
    assert_eq!(handler.queue_len(), 0);

    let zero = Transaction { sender: 1, amount: 0, nonce: 1 };
    let r = handler.handle_transaction(zero);
    assert!(matches!(r, Err(TransactionError::InvalidTransaction)));
    assert_eq!(handler.queue_len(), 0);
}

#[test]
fn insufficient_funds_rejected() {
    let mut handler = TransactionHandler::new();
    handler.set_balance(1, 10);
    let too_big = Transaction { sender: 1, amount: 50, nonce: 0 };
    let r = handler.handle_transaction(too_big);
    assert!(matches!(r, Err(TransactionError::InsufficientFunds)));
    assert_eq!(handler.queue_len(), 0);

    let fits = Transaction { sender: 1, amount: 10, nonce: 1 };
    assert!(handler.handle_transaction(fits).is_ok());
    assert_eq!(handler.queue_len(), 1);
}

#[test]
fn unknown_account_has_no_funds() {
    let mut handler = TransactionHandler::new();
    let tx = Transaction { sender: 9, amount: 1, nonce: 0 };
    let r = handler.handle_transaction(tx);
    assert!(matches!(r, Err(TransactionError::InsufficientFunds)));
    assert_eq!(handler.queue_len(), 0);
}

#[test]
fn produced_block_payload_matches_accepted_batch() {
    let mut handler = TransactionHandler::new();
    handler.set_balance(7, 100);

    let bad = Transaction { sender: 7, amount: -1, nonce: 0 };
    assert!(handler.handle_transaction(bad).is_err());
    let t1 = Transaction { sender: 7, amount: 20, nonce: 1 };
    let t2 = Transaction { sender: 7, amount: 30, nonce: 2 };
    assert!(handler.handle_transaction(t1).is_ok());
    assert!(handler.handle_transaction(t2).is_ok());

    let mut chain = Blockchain::new();
    let producer = Consensus::new(10, 50);
    assert!(producer.propose(&mut chain, &mut handler, 123).is_ok());
    assert_eq!(handler.queue_len(), 0);
    assert_eq!(chain.len(), 1);

    let tip = chain.latest_block().unwrap();
    assert_eq!(tip.timestamp, 123);
    // The payload encodes exactly the two accepted transactions; the rejected
    // one was never queued and so never committed.
    assert_eq!(tip.payload, serialize_batch(&vec![t1, t2]));
    assert!(chain.validate());
}

#[test]
fn batch_size_bounds_each_block() {
    let mut handler = TransactionHandler::new();
    handler.set_balance(3, 1000);
    let t1 = Transaction { sender: 3, amount: 5, nonce: 0 };
    let t2 = Transaction { sender: 3, amount: 6, nonce: 1 };
    assert!(handler.handle_transaction(t1).is_ok());
    assert!(handler.handle_transaction(t2).is_ok());

    let mut chain = Blockchain::new();
    let producer = Consensus::new(1, 50);
    assert!(producer.propose(&mut chain, &mut handler, 1).is_ok());
    assert_eq!(handler.queue_len(), 1);
    assert_eq!(chain.latest_block().unwrap().payload, serialize_batch(&vec![t1]));

    assert!(producer.propose(&mut chain, &mut handler, 2).is_ok());
    assert_eq!(handler.queue_len(), 0);
    assert_eq!(chain.latest_block().unwrap().payload, serialize_batch(&vec![t2]));
    assert_eq!(chain.len(), 2);
    assert!(chain.validate());
}

#[test]
fn empty_batch_block_is_legal() {
    let mut handler = TransactionHandler::new();
    let mut chain = Blockchain::new();
    let producer = Consensus::new(8, 50);
    assert!(producer.propose(&mut chain, &mut handler, 42).is_ok());
    assert_eq!(chain.len(), 1);
    let tip = chain.latest_block().unwrap();
    assert_eq!(tip.number, 0);
    assert!(tip.payload.is_empty());
    assert!(chain.validate());
}

#[test]
fn serialize_batch_exact_bytes() {
    let t = Transaction { sender: 7, amount: 20, nonce: 1 };
    let bytes = serialize_batch(&vec![t]);
    assert_eq!(
        bytes,
        vec![
            7, 0, 0, 0, 0, 0, 0, 0, // sender, little endian
            20, 0, 0, 0, 0, 0, 0, 0, // amount, little endian
            1, 0, 0, 0, 0, 0, 0, 0, // nonce, little endian
        ]
    );
    assert_eq!(serialize_batch(&vec![]), Vec::<u8>::new());
}

#[test]
fn drain_and_requeue_keep_fifo_order() {
    let mut handler = TransactionHandler::new();
    handler.set_balance(4, 1000);
    let t1 = Transaction { sender: 4, amount: 1, nonce: 0 };
    let t2 = Transaction { sender: 4, amount: 2, nonce: 1 };
    let t3 = Transaction { sender: 4, amount: 3, nonce: 2 };
    assert!(handler.handle_transaction(t1).is_ok());
    assert!(handler.handle_transaction(t2).is_ok());
    assert!(handler.handle_transaction(t3).is_ok());

    let batch = handler.drain_batch(2);
    assert_eq!(batch, vec![t1, t2]);
    assert_eq!(handler.queue_len(), 1);

    handler.requeue_front(batch);
    let all = handler.drain_batch(10);
    assert_eq!(all, vec![t1, t2, t3]);
    assert_eq!(handler.queue_len(), 0);
}

#[test]
fn producer_interval_is_kept() {
    let producer = Consensus::new(4, 250);
    assert_eq!(producer.interval_millis(), 250);
}
