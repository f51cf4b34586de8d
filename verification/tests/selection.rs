use jormungandr::blockcfg::{
    BlockDate, HeaderContentEvalContext, Ledger, LedgerParameters,
};
use jormungandr::fragment::{Fragment, FragmentId, Logs, Pool, Status};
use jormungandr::selection::{FragmentSelectionAlgorithm, OldestFirst};

fn context() -> HeaderContentEvalContext {
    HeaderContentEvalContext { block_date: BlockDate { epoch: 2, slot_id: 7 } }
}

fn params() -> LedgerParameters {
    LedgerParameters { allow_account_creation: false }
}

fn pool_of(ids: &[u64]) -> Pool {
    let mut pool = Pool::new();
    for &n in ids {
        assert!(pool.insert(Fragment::new(FragmentId(n))));
    }
    pool
}

fn pending_logs(ids: &[u64]) -> Logs {
    let mut logs = Logs::new();
    for &n in ids {
        logs.modify(FragmentId(n), Status::Pending);
    }
    logs
}

#[test]
fn oldest_first_respects_max_per_block() {
    // Three accepted candidates, cap of two: the builder holds the two
    // oldest, in insertion order; the third is neither drained nor logged.
    let mut pool = pool_of(&[1, 2, 3]);
    let mut logs = pending_logs(&[1, 2, 3]);
    let ledger = Ledger::new();
    let metadata = context();
    let mut strategy = OldestFirst::new(2);
    strategy.select(&ledger, &params(), &metadata, &mut logs, &mut pool);
    let builder = strategy.finalize();
    let selected = builder.fragments();
    assert_eq!(selected.len(), 2);
    assert_eq!(selected[0].id(), FragmentId(1));
    assert_eq!(selected[1].id(), FragmentId(2));
    let date = metadata.block_date;
    assert_eq!(logs.status_of(FragmentId(1)), Some(&Status::InABlock { date }));
    assert_eq!(logs.status_of(FragmentId(2)), Some(&Status::InABlock { date }));
    assert_eq!(logs.status_of(FragmentId(3)), Some(&Status::Pending));
    assert_eq!(pool.len(), 1);
    assert_eq!(pool.oldest(), Some(FragmentId(3)));
}

#[test]
fn rejected_fragment_logged_and_not_emitted() {
    // One accepted, one rejected with a reason: the builder holds only
    // the accepted fragment, the log records both terminal statuses, and
    // the pool is drained.
    let mut pool = pool_of(&[1, 2]);
    let mut logs = pending_logs(&[1, 2]);
    let mut ledger = Ledger::new();
    ledger.reject(FragmentId(2), String::from("bad sig"));
    let metadata = context();
    let mut strategy = OldestFirst::new(10);
    strategy.select(&ledger, &params(), &metadata, &mut logs, &mut pool);
    let builder = strategy.finalize();
    let selected = builder.fragments();
    assert_eq!(selected.len(), 1);
    assert_eq!(selected[0].id(), FragmentId(1));
    let date = metadata.block_date;
    assert_eq!(logs.status_of(FragmentId(1)), Some(&Status::InABlock { date }));
    assert_eq!(
        logs.status_of(FragmentId(2)),
        Some(&Status::Rejected { reason: String::from("bad sig") })
    );
    assert_eq!(pool.len(), 0);
}

#[test]
fn every_drained_fragment_gets_terminal_status() {
    let mut pool = pool_of(&[1, 2, 3, 4]);
    let mut logs = pending_logs(&[1, 2, 3, 4]);
    let mut ledger = Ledger::new();
    ledger.reject(FragmentId(2), String::from("too large"));
    ledger.reject(FragmentId(4), String::from("expired"));
    let metadata = context();
    let mut strategy = OldestFirst::new(10);
    strategy.select(&ledger, &params(), &metadata, &mut logs, &mut pool);
    for n in 1..=4u64 {
        let status = logs.status_of(FragmentId(n)).unwrap();
        assert_ne!(status, &Status::Pending);
    }
    assert_eq!(pool.len(), 0);
}

#[test]
fn selection_on_empty_pool_selects_nothing() {
    let mut pool = Pool::new();
    let mut logs = Logs::new();
    let ledger = Ledger::new();
    let mut strategy = OldestFirst::new(5);
    strategy.select(&ledger, &params(), &context(), &mut logs, &mut pool);
    assert_eq!(strategy.finalize().fragments().len(), 0);
}

#[test]
fn zero_cap_drains_nothing() {
    let mut pool = pool_of(&[1, 2]);
    let mut logs = pending_logs(&[1, 2]);
    let ledger = Ledger::new();
    let mut strategy = OldestFirst::new(0);
    strategy.select(&ledger, &params(), &context(), &mut logs, &mut pool);
    assert_eq!(strategy.finalize().fragments().len(), 0);
    assert_eq!(pool.len(), 2);
    assert_eq!(logs.status_of(FragmentId(1)), Some(&Status::Pending));
}

#[test]
fn pool_refuses_duplicate_identifier() {
    let mut pool = Pool::new();
    assert!(pool.insert(Fragment::new(FragmentId(1))));
    assert!(!pool.insert(Fragment::new(FragmentId(1))));
    assert_eq!(pool.len(), 1);
}

#[test]
fn pool_lookup_remove_and_fifo_view() {
    let mut pool = pool_of(&[5, 6, 7]);
    assert_eq!(pool.lookup(FragmentId(6)), Some(Fragment::new(FragmentId(6))));
    assert_eq!(pool.lookup(FragmentId(9)), None);
    assert_eq!(pool.oldest(), Some(FragmentId(5)));
    assert_eq!(pool.remove(FragmentId(5)), Some(Fragment::new(FragmentId(5))));
    // The FIFO view moves on to the next oldest resident fragment.
    assert_eq!(pool.oldest(), Some(FragmentId(6)));
    assert_eq!(pool.remove(FragmentId(5)), None);
    assert_eq!(pool.len(), 2);
}

#[test]
fn ledger_reports_recorded_reason() {
    let mut ledger = Ledger::new();
    ledger.reject(FragmentId(3), String::from("no funds"));
    let fragment = Fragment::new(FragmentId(3));
    let err = ledger.apply_fragment(&params(), &fragment, &context()).unwrap_err();
    assert_eq!(err.into_message(), String::from("no funds"));
    let fine = Fragment::new(FragmentId(4));
    assert!(ledger.apply_fragment(&params(), &fine, &context()).is_ok());
}

#[test]
fn status_log_last_write_wins() {
    let mut logs = Logs::new();
    assert!(logs.status_of(FragmentId(1)).is_none());
    logs.modify(FragmentId(1), Status::Pending);
    let date = BlockDate { epoch: 1, slot_id: 2 };
    logs.modify(FragmentId(1), Status::InABlock { date });
    assert_eq!(logs.status_of(FragmentId(1)), Some(&Status::InABlock { date }));
}
