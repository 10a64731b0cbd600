use syslog_collector::pipeline::{ReceiverAction, SocketEvent};
use syslog_collector::queue::{Datagram, IngestQueue, SubmitOutcome};

fn datagram(source: &str, text: &str) -> Datagram {
    Datagram {
        source: String::from(source),
        text: String::from(text),
    }
}

#[test]
fn fifo_order() {
    let mut q = IngestQueue::new(10);
    for t in ["a", "b", "c"] {
        assert_eq!(q.submit(datagram("s", t)), SubmitOutcome::Accepted);
    }
    assert_eq!(q.dequeue().unwrap().text, "a");
    assert_eq!(q.dequeue().unwrap().text, "b");
    assert_eq!(q.dequeue().unwrap().text, "c");
    assert!(q.dequeue().is_none());
}

#[test]
fn full_queue_makes_producer_wait() {
    let cap = 4;
    let mut q = IngestQueue::new(cap);
    for i in 0..cap {
        assert_eq!(
            q.submit(datagram("s", &format!("m{}", i))),
            SubmitOutcome::Accepted
        );
    }
    // The (C+1)-th submission stays pending, and nothing is dropped.
    assert_eq!(q.submit(datagram("s", "extra")), SubmitOutcome::Pending);
    assert_eq!(q.len(), cap);
    assert_eq!(q.remaining_capacity(), 0);

    // Once a consumer frees a slot, the retried submission is accepted and
    // every item is still there, in order.
    assert_eq!(q.dequeue().unwrap().text, "m0");
    assert_eq!(q.submit(datagram("s", "extra")), SubmitOutcome::Accepted);
    assert_eq!(q.len(), cap);
    for want in ["m1", "m2", "m3", "extra"] {
        assert_eq!(q.dequeue().unwrap().text, want);
    }
}

#[test]
fn remaining_capacity_tracks_depth() {
    let mut q = IngestQueue::new(3);
    assert_eq!(q.remaining_capacity(), 3);
    q.submit(datagram("s", "x"));
    assert_eq!(q.remaining_capacity(), 2);
    q.dequeue();
    assert_eq!(q.remaining_capacity(), 3);
}

#[test]
fn valid_datagram_is_submitted() {
    let e = SocketEvent::Arrived {
        source: String::from("10.0.0.8"),
        bytes: "<13>ok".as_bytes().to_vec(),
    };
    match syslog_collector::pipeline::on_socket_event(e) {
        ReceiverAction::Submit(d) => {
            assert_eq!(d.source, "10.0.0.8");
            assert_eq!(d.text, "<13>ok");
        }
        _ => panic!("valid bytes must be submitted"),
    }
}

#[test]
fn invalid_encoding_is_discarded() {
    let e = SocketEvent::Arrived {
        source: String::from("10.0.0.8"),
        bytes: vec![0xff, 0xfe, 0x3c],
    };
    assert!(matches!(
        syslog_collector::pipeline::on_socket_event(e),
        ReceiverAction::Discard
    ));
}

#[test]
fn would_block_backs_off() {
    assert!(matches!(
        syslog_collector::pipeline::on_socket_event(SocketEvent::WouldBlock),
        ReceiverAction::Backoff
    ));
}

#[test]
fn recv_failure_is_reported_and_loop_continues() {
    assert!(matches!(
        syslog_collector::pipeline::on_socket_event(SocketEvent::RecvFailure),
        ReceiverAction::ReportError
    ));
}
