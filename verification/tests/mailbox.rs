//! A sender that keeps messages until it is told where they go.

use monarch::mesh::mailbox::{Handed, ReconfigurableMailboxSender};

use std::cell::RefCell;

/// A sender that keeps the messages it is handed.
struct QueueingMailboxSender {
    handed: RefCell<Vec<Handed<u64>>>,
}

impl QueueingMailboxSender {
    fn new() -> Self {
        Self { handed: RefCell::new(Vec::new()) }
    }

    fn get_messages(&self) -> Vec<u64> {
        self.handed.borrow().iter().map(|h| h.message).collect()
    }

    fn get_unchecked(&self) -> Vec<u64> {
        self.handed.borrow().iter().filter(|h| !h.checked).map(|h| h.message).collect()
    }
}

/// The two senders, tied together.
struct Tied {
    sender: ReconfigurableMailboxSender<u64, QueueingMailboxSender>,
}

impl Tied {
    fn new() -> Self {
        Tied { sender: ReconfigurableMailboxSender::new() }
    }

    fn hand_on(&self, on: Option<Handed<u64>>) {
        if let Some(h) = on {
            inner(&self.sender).handed.borrow_mut().push(h);
        }
    }

    fn post(&mut self, message: u64) {
        let on = self.sender.post(message);
        self.hand_on(on);
    }

    fn post_unchecked(&mut self, message: u64) {
        let on = self.sender.post_unchecked(message);
        self.hand_on(on);
    }

    fn configure(&mut self, to: QueueingMailboxSender) -> bool {
        match self.sender.configure(to) {
            Some(kept) => {
                for message in kept {
                    self.hand_on(Some(Handed { message, checked: true }));
                }
                true
            }
            None => false,
        }
    }
}

fn inner(sender: &ReconfigurableMailboxSender<u64, QueueingMailboxSender>) -> &QueueingMailboxSender {
    match sender.as_inner() {
        Ok(inner) => inner,
        Err(e) => panic!("{}", e.text()),
    }
}

#[test]
fn test_queueing_before_configure() {
    let mut sender = Tied::new();
    let test_sender = QueueingMailboxSender::new();

    sender.post(1);
    sender.post(2);

    assert_eq!(test_sender.get_messages().len(), 0);

    sender.configure(test_sender);

    let messages = inner(&sender.sender).get_messages();
    assert_eq!(messages.len(), 2);
    assert_eq!(messages[0], 1);
    assert_eq!(messages[1], 2);
}

#[test]
fn test_direct_delivery_after_configure() {
    let mut sender = Tied::new();
    sender.configure(QueueingMailboxSender::new());

    sender.post(3);
    sender.post(4);

    let messages = inner(&sender.sender).get_messages();
    assert_eq!(messages.len(), 2);
    assert_eq!(messages[0], 3);
    assert_eq!(messages[1], 4);
}

#[test]
fn test_multiple_configurations() {
    let mut sender = Tied::new();
    assert!(sender.configure(QueueingMailboxSender::new()));
    assert!(!sender.configure(QueueingMailboxSender::new()));
}

#[test]
fn test_mixed_queueing_and_direct_delivery() {
    let mut sender = Tied::new();

    sender.post(5);
    sender.post(6);

    sender.configure(QueueingMailboxSender::new());

    sender.post(7);
    sender.post(8);

    let messages = inner(&sender.sender).get_messages();
    assert_eq!(messages.len(), 4);
    assert_eq!(messages[0], 5);
    assert_eq!(messages[1], 6);
    assert_eq!(messages[2], 7);
    assert_eq!(messages[3], 8);
}

#[test]
fn kept_messages_are_checked_on_their_way() {
    let mut sender = Tied::new();
    sender.post_unchecked(1);
    sender.post(2);
    assert_eq!(sender.sender.queued(), 2);
    match sender.sender.as_inner() {
        Ok(_) => panic!("configured"),
        Err(e) => assert_eq!(e.text(), "cannot get inner sender: not configured"),
    }
    assert!(sender.configure(QueueingMailboxSender::new()));
    assert_eq!(sender.sender.queued(), 0);
    sender.post_unchecked(3);
    let inner = inner(&sender.sender);
    assert_eq!(inner.get_messages(), vec![1, 2, 3]);
    assert_eq!(inner.get_unchecked(), vec![3]);
}

#[test]
fn a_second_sender_gets_nothing() {
    let mut sender = Tied::new();
    sender.post(1);
    let first = QueueingMailboxSender::new();
    first.handed.borrow_mut().push(Handed { message: 0, checked: true });
    assert!(sender.configure(first));
    assert!(!sender.configure(QueueingMailboxSender::new()));
    sender.post(2);
    assert_eq!(inner(&sender.sender).get_messages(), vec![0, 1, 2]);
}
