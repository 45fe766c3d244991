// The actor core driven on concrete command sequences: arrival order,
// backpressure at the mailbox bound, and the responses owed.

use kvstore::actor::ActorCore;
use kvstore::protocol::{Command, Response};

#[test]
fn commands_are_answered_in_arrival_order() {
    let mut actor = ActorCore::new(8);
    assert!(actor.try_submit(Command::Put {
        key: "hello".to_string(),
        value: "world".to_string(),
    }));
    assert!(actor.try_submit(Command::Get { key: "hello".to_string() }));
    assert!(actor.try_submit(Command::Delete { key: "hello".to_string() }));
    assert!(actor.try_submit(Command::Get { key: "hello".to_string() }));
    let responses = actor.drain();
    assert_eq!(
        responses,
        vec![
            Response::PutOk,
            Response::Value(Some("world".to_string())),
            Response::Deleted,
            Response::Value(None),
        ]
    );
}

#[test]
fn later_write_wins_in_the_total_order() {
    let mut actor = ActorCore::new(4);
    assert!(actor.try_submit(Command::Put { key: "k".to_string(), value: "A".to_string() }));
    assert!(actor.try_submit(Command::Put { key: "k".to_string(), value: "B".to_string() }));
    assert!(actor.try_submit(Command::Get { key: "k".to_string() }));
    let responses = actor.drain();
    assert_eq!(responses[2], Response::Value(Some("B".to_string())));
}

#[test]
fn full_mailbox_refuses_until_a_step_frees_a_slot() {
    let mut actor = ActorCore::new(2);
    assert!(actor.try_submit(Command::Put { key: "a".to_string(), value: "1".to_string() }));
    assert!(actor.try_submit(Command::Put { key: "b".to_string(), value: "2".to_string() }));
    // The mailbox is at its bound: the offer is refused, not dropped.
    assert!(!actor.try_submit(Command::Put { key: "c".to_string(), value: "3".to_string() }));
    // One worker step frees a slot; the same offer is then accepted.
    assert!(actor.step().is_some());
    assert!(actor.try_submit(Command::Put { key: "c".to_string(), value: "3".to_string() }));
    let responses = actor.drain();
    // Every accepted command completed; the refused offer was simply not taken.
    assert_eq!(responses.len(), 2);
    assert!(actor.step().is_none());
    assert_eq!(actor.drain(), vec![]);
}

#[test]
fn overload_completes_every_accepted_request() {
    // Offer far more requests than the mailbox holds; wait out each
    // refusal by letting the worker catch up, as a suspended caller would.
    let mut actor = ActorCore::new(4);
    let mut accepted = 0;
    let mut answered = 0;
    for i in 0..100 {
        let cmd = Command::Put { key: format!("key{}", i), value: format!("value{}", i) };
        loop {
            if actor.try_submit(cmd.clone()) {
                accepted += 1;
                break;
            }
            assert!(actor.step().is_some());
            answered += 1;
        }
    }
    answered += actor.drain().len();
    assert_eq!(accepted, 100);
    assert_eq!(answered, 100);
}

#[test]
fn racing_writers_and_reader_observe_only_written_values() {
    // Two writers cover the same keys with "value{i}" and "newvalue{i}";
    // a reader's gets land between their writes. Every read must be
    // absent or one of the two written values for that index, and the
    // run must answer every request.
    let mut actor = ActorCore::new(32);
    let mut reads = 0;
    for i in 0..100 {
        let key = format!("key{}", i);
        let first_get = i % 3 == 0;
        if first_get {
            while !actor.try_submit(Command::Get { key: key.clone() }) {
                actor.step();
            }
        }
        while !actor.try_submit(Command::Put { key: key.clone(), value: format!("value{}", i) }) {
            actor.step();
        }
        if i % 3 == 1 {
            while !actor.try_submit(Command::Get { key: key.clone() }) {
                actor.step();
            }
        }
        while !actor.try_submit(Command::Put {
            key: key.clone(),
            value: format!("newvalue{}", i),
        }) {
            actor.step();
        }
        if i % 3 == 2 {
            while !actor.try_submit(Command::Get { key: key.clone() }) {
                actor.step();
            }
        }
        for response in actor.drain() {
            if let Response::Value(got) = response {
                reads += 1;
                match got {
                    None => assert!(first_get),
                    Some(v) => {
                        assert!(v == format!("value{}", i) || v == format!("newvalue{}", i));
                    },
                }
            }
        }
    }
    assert_eq!(reads, 100);
}
