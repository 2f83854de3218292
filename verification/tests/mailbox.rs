use gpui_agent::mailbox::MailboxQueue;
use gpui_agent::MAX_MAILBOX_DEPTH;

#[test]
fn push_rejects_when_full() {
    let mut q = MailboxQueue::new();
    for i in 0..MAX_MAILBOX_DEPTH {
        assert!(q.push(i).is_ok());
    }
    assert_eq!(q.len(), MAX_MAILBOX_DEPTH);
    assert_eq!(q.push(999), Err(999));
    assert_eq!(q.len(), MAX_MAILBOX_DEPTH);
}

#[test]
fn take_is_empty_after_drain() {
    let mut q = MailboxQueue::new();
    q.push("1").unwrap();
    assert_eq!(q.len(), 1);
    let taken = q.take();
    assert_eq!(taken, vec!["1"]);
    assert_eq!(q.len(), 0);
    assert!(q.take().is_empty());
}

#[test]
fn drained_inbox_takes_work_again_in_order() {
    let mut q = MailboxQueue::new();
    for i in 0..MAX_MAILBOX_DEPTH {
        q.push(i).unwrap();
    }
    let all = q.take();
    assert_eq!(all.len(), MAX_MAILBOX_DEPTH);
    assert_eq!(all[0], 0);
    q.push(7).unwrap();
    q.push(8).unwrap();
    assert_eq!(q.take(), vec![7, 8]);
}
