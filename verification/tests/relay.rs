use ipv_proxy::forward::manual::{listener_step, ListenerAction, ListenerEvent};
use ipv_proxy::forward::relay::{Pipe, Relay, RelayEvent, RelayStep, PIPE_CAPACITY};

#[test]
fn pipe_is_first_in_first_out() {
    let mut p = Pipe::new();
    assert_eq!(p.free_space(), PIPE_CAPACITY);
    p.receive(&[1, 2, 3]);
    p.receive(&[4]);
    assert_eq!(p.pending(), &[1, 2, 3, 4]);
    p.mark_sent(2);
    assert_eq!(p.pending(), &[3, 4]);
    assert_eq!(p.len(), 2);
    assert_eq!(p.free_space(), PIPE_CAPACITY - 2);
    p.mark_sent(0);
    assert_eq!(p.pending(), &[3, 4]);
    p.mark_sent(2);
    assert!(p.pending().is_empty());
}

#[test]
fn pipe_fills_to_capacity() {
    let mut p = Pipe::new();
    p.receive(&vec![7u8; PIPE_CAPACITY]);
    assert_eq!(p.free_space(), 0);
    p.mark_sent(1000);
    assert_eq!(p.free_space(), 1000);
    assert_eq!(p.len(), 500);
}

#[test]
fn relay_queues_reads_for_the_other_side() {
    let mut r = Relay::new();
    assert_eq!(r.client_read_limit(), 1500);
    assert_eq!(r.target_read_limit(), 1500);
    assert_eq!(r.handle(RelayEvent::ClientRead(b"GET /".to_vec())), RelayStep::Continue);
    assert_eq!(r.to_target(), b"GET /");
    assert!(r.to_client().is_empty());
    assert_eq!(r.client_read_limit(), 1495);
    assert_eq!(r.handle(RelayEvent::TargetWritten(3)), RelayStep::Continue);
    assert_eq!(r.to_target(), b" /");
    assert_eq!(r.handle(RelayEvent::TargetRead(b"200 OK".to_vec())), RelayStep::Continue);
    assert_eq!(r.to_client(), b"200 OK");
    assert_eq!(r.target_read_limit(), 1494);
    assert_eq!(r.handle(RelayEvent::ClientWritten(6)), RelayStep::Continue);
    assert!(r.to_client().is_empty());
}

#[test]
fn relay_stops_reading_a_side_when_the_other_is_full() {
    let mut r = Relay::new();
    assert_eq!(r.handle(RelayEvent::ClientRead(vec![1u8; 1500])), RelayStep::Continue);
    assert_eq!(r.client_read_limit(), 0);
    assert_eq!(r.target_read_limit(), 1500);
}

#[test]
fn relay_closes_on_end_of_input_failure_or_shutdown() {
    let mut r = Relay::new();
    r.handle(RelayEvent::ClientRead(vec![9]));
    assert_eq!(r.handle(RelayEvent::ClientRead(vec![])), RelayStep::Close);
    assert_eq!(r.to_target(), &[9]);
    assert_eq!(r.handle(RelayEvent::TargetRead(vec![])), RelayStep::Close);
    assert_eq!(r.handle(RelayEvent::ClientFailed), RelayStep::Close);
    assert_eq!(r.handle(RelayEvent::TargetFailed), RelayStep::Close);
    assert_eq!(r.handle(RelayEvent::Shutdown), RelayStep::Close);
    assert_eq!(r.to_target(), &[9]);
}

#[test]
fn relay_delivers_everything_in_order() {
    let mut r = Relay::new();
    let mut written: Vec<u8> = Vec::new();
    let input: Vec<u8> = (0..=255u8).cycle().take(5000).collect();
    let mut offset = 0;
    while offset < input.len() || !r.to_target().is_empty() {
        let limit = r.client_read_limit().min(700);
        if offset < input.len() && limit > 0 {
            let end = (offset + limit).min(input.len());
            r.handle(RelayEvent::ClientRead(input[offset..end].to_vec()));
            offset = end;
        }
        let pending = r.to_target().len();
        let n = pending.min(333);
        written.extend_from_slice(&r.to_target()[..n]);
        r.handle(RelayEvent::TargetWritten(n));
    }
    assert_eq!(written, input);
}

#[test]
fn listener_relays_connections_and_stops_on_bind_failure_or_shutdown() {
    assert_eq!(listener_step(ListenerEvent::Accepted), ListenerAction::RelayConnection);
    assert_eq!(listener_step(ListenerEvent::AcceptFailed), ListenerAction::KeepListening);
    assert_eq!(listener_step(ListenerEvent::BindFailed), ListenerAction::Stop);
    assert_eq!(listener_step(ListenerEvent::Shutdown), ListenerAction::Stop);
}
