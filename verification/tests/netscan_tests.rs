use edr_agent::netscan::{active_connection_lines, collect_network_connections, describe_socket, parse_netstat_line, parse_pid};

const SAMPLE: &str = "Active Internet connections (w/o servers)\n\
Proto Recv-Q Send-Q Local Address Foreign Address State PID/Program name\n\
tcp 0 0 127.0.0.1:80 10.0.0.2:5 ESTABLISHED 1234/nginx\n\
udp 0 0 1.2.3.4:53 0.0.0.0:0 - -\n\
short line\n";

#[test]
fn netstat_table_is_parsed_field_for_field() {
    let conns = collect_network_connections(SAMPLE.as_bytes(), 777);
    assert_eq!(conns.len(), 2);
    let c = &conns[0];
    assert_eq!(c.protocol, "tcp");
    assert_eq!(c.local_address, "127.0.0.1:80");
    assert_eq!(c.remote_address, "10.0.0.2:5");
    assert_eq!(c.status, "ESTABLISHED");
    assert_eq!(c.pid, 1234);
    assert_eq!(c.process_name, "nginx");
    assert_eq!(c.timestamp, 777);
    let u = &conns[1];
    assert_eq!(u.protocol, "udp");
    assert_eq!(u.pid, -1);
    assert_eq!(u.process_name, "unknown");
}

#[test]
fn header_lines_are_skipped() {
    let conns = collect_network_connections(SAMPLE.as_bytes(), 0);
    // the two header lines have seven or more fields but are data here;
    // only lines after the first two are read
    assert!(conns.iter().all(|c| c.protocol == "tcp" || c.protocol == "udp"));
}

#[test]
fn short_lines_are_dropped() {
    let out = "h1\nh2\nonly three fields\n";
    let conns = collect_network_connections(out.as_bytes(), 1);
    assert_eq!(conns.len(), 0);
}

#[test]
fn line_parser_requires_seven_fields() {
    assert!(parse_netstat_line(b"a b c d e f", 0).is_none());
    let c = parse_netstat_line(b"tcp 0 0 l:1 r:2 LISTEN 7/x", 3).unwrap();
    assert_eq!(c.pid, 7);
    assert_eq!(c.process_name, "x");
    assert_eq!(c.status, "LISTEN");
}

#[test]
fn pid_field_falls_back_to_unknown() {
    assert_eq!(parse_pid(b"1234"), 1234);
    assert_eq!(parse_pid(b""), -1);
    assert_eq!(parse_pid(b"12a4"), -1);
    assert_eq!(parse_pid(b"99999999999999999999"), -1);
    assert_eq!(parse_pid(b"2147483647"), 2147483647);
    assert_eq!(parse_pid(b"2147483648"), -1);
}

#[test]
fn socket_descriptions_are_shaped() {
    let c = describe_socket(true, "10.0.0.1".to_string(), 443, "10.0.0.9".to_string(), 55000, Some(12));
    assert_eq!(c.protocol, "TCP");
    assert_eq!(c.local_addr, "10.0.0.1:443");
    assert_eq!(c.remote_addr, "10.0.0.9:55000");
    assert_eq!(c.pid, Some(12));
    let u = describe_socket(false, "0.0.0.0".to_string(), 53, String::new(), 0, None);
    assert_eq!(u.protocol, "UDP");
    assert_eq!(u.local_addr, "0.0.0.0:53");
    assert_eq!(u.remote_addr, "N/A");
    assert_eq!(u.pid, None);
}

#[test]
fn active_lines_are_filtered_in_order() {
    let out = "header one\nheader two\n\
tcp 0 0 a:1 b:2 ESTABLISHED 1/x\n\
tcp 0 0 a:3 b:4 TIME_WAIT 2/y\n\
tcp 0 0 a:5 0.0.0.0:* LISTEN 3/z\n";
    let lines = active_connection_lines(out.as_bytes());
    assert_eq!(lines.len(), 2);
    assert_eq!(lines[0], b"tcp 0 0 a:1 b:2 ESTABLISHED 1/x".to_vec());
    assert_eq!(lines[1], b"tcp 0 0 a:5 0.0.0.0:* LISTEN 3/z".to_vec());
}

#[test]
fn header_rows_never_reach_the_log() {
    let out = "ESTABLISHED in a header\nLISTEN in a header\nplain data row\n";
    let lines = active_connection_lines(out.as_bytes());
    assert_eq!(lines.len(), 0);
}
