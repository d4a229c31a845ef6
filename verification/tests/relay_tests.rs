use edr_agent::relay::{encode_envelope, RelayClient, RelayEnvelope, TransmitOutcome};
use edr_agent::telemetry::{Payload, ProcessInfo};

fn sample_envelope(ts: u64) -> RelayEnvelope {
    RelayEnvelope {
        hostname: "h1".to_string(),
        timestamp: ts,
        payload: Payload::Processes(vec![ProcessInfo {
            pid: 1,
            name: "init".to_string(),
            cmd: "/sbin/init".to_string(),
            memory: 1234,
            cpu_usage: 5,
            status: "Running".to_string(),
        }]),
    }
}

#[test]
fn envelope_body_is_exact() {
    let body = encode_envelope(&sample_envelope(1700000000));
    let expected = "{\"hostname\":\"h1\",\"timestamp\":1700000000,\"payload\":[{\"pid\":1,\"name\":\"init\",\"cmd\":\"/sbin/init\",\"memory\":1234,\"cpu_usage\":5,\"status\":\"Running\"}]}";
    assert_eq!(body, expected.as_bytes().to_vec());
}

#[test]
fn failed_deliveries_buffer_in_call_order() {
    let mut relay = RelayClient::new();
    let n = 3u64;
    for k in 0..n {
        let out = relay.transmit_or_buffer(&sample_envelope(100 + k), false);
        assert_eq!(out, TransmitOutcome::Buffered);
    }
    assert_eq!(relay.queue_len(), 3);
    for k in 0..n {
        let expected = encode_envelope(&sample_envelope(100 + k));
        assert_eq!(relay.entries()[k as usize], expected);
    }
}

#[test]
fn delivered_envelopes_are_not_buffered() {
    let mut relay = RelayClient::new();
    let out = relay.transmit_or_buffer(&sample_envelope(7), true);
    assert_eq!(out, TransmitOutcome::Sent);
    assert_eq!(relay.queue_len(), 0);
}

#[test]
fn flush_delivers_all_and_empties_queue() {
    let mut relay = RelayClient::new();
    for k in 0..4 {
        relay.transmit_or_buffer(&sample_envelope(k), false);
    }
    let outcomes = vec![true, true, true, true];
    let delivered = relay.flush_buffer(&outcomes);
    assert_eq!(delivered, 4);
    assert_eq!(relay.queue_len(), 0);
}

#[test]
fn flush_retains_undelivered_in_order() {
    let mut relay = RelayClient::new();
    for k in 0..3 {
        relay.transmit_or_buffer(&sample_envelope(k), false);
    }
    let outcomes = vec![true, false, true];
    let delivered = relay.flush_buffer(&outcomes);
    assert_eq!(delivered, 2);
    assert_eq!(relay.queue_len(), 1);
    assert_eq!(relay.entries()[0], encode_envelope(&sample_envelope(1)));
}

#[test]
fn queue_lines_hold_no_newline() {
    let mut relay = RelayClient::new();
    let mut env = sample_envelope(42);
    env.hostname = "host\nwith\tweird \"chars\"\\".to_string();
    relay.transmit_or_buffer(&env, false);
    for line in relay.entries() {
        assert!(!line.contains(&b'\n'));
    }
}

#[test]
fn restore_reloads_persisted_lines() {
    let line = encode_envelope(&sample_envelope(9));
    let relay = RelayClient::restore(vec![line.clone()]);
    assert_eq!(relay.queue_len(), 1);
    assert_eq!(relay.entries()[0], line);
}
