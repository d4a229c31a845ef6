use vstd::prelude::*;
use vstd::utf8::encode_utf8;
use crate::json::{spec_dec, spec_json_string, push_dec, push_json_string};
use crate::keys::{
    spec_pid_open, push_pid_open, spec_name_key, push_name_key, spec_cmd_key, push_cmd_key,
    spec_memory_key, push_memory_key, spec_cpu_key, push_cpu_key, spec_status_key, push_status_key,
    spec_pname_key, push_pname_key, spec_local_address_key, push_local_address_key,
    spec_remote_address_key, push_remote_address_key, spec_protocol_key, push_protocol_key,
    spec_timestamp_key, push_timestamp_key, spec_path_open, push_path_open,
    spec_kind_key, push_kind_key,
};

verus! {

/// One running process, as the process snapshot reports it. CPU load is
/// carried in hundredths of a percent so that the record holds only
/// integers.
pub struct ProcessInfo {
    pub pid: i32,
    pub name: String,
    pub cmd: String,
    pub memory: u64,
    pub cpu_usage: u32,
    pub status: String,
}

/// One socket-table row, as the netstat scan reports it.
pub struct ConnectionInfo {
    pub pid: i32,
    pub process_name: String,
    pub local_address: String,
    pub remote_address: String,
    pub protocol: String,
    pub status: String,
    pub timestamp: u64,
}

/// One filesystem change, as the watch stream reports it.
pub struct FileEvent {
    pub path: String,
    pub kind: String,
    pub timestamp: u64,
}

/// Decimal rendering of a signed number: a minus sign before the digits
/// of its magnitude.
pub open spec fn spec_sdec(n: int) -> Seq<u8> {
    if n < 0 {
        seq![0x2du8] + spec_dec((-n) as nat)
    } else {
        spec_dec(n as nat)
    }
}

/// Appends the signed decimal rendering of `n`.
pub fn push_sdec(out: &mut Vec<u8>, n: i32)
    ensures
        final(out)@ == old(out)@ + spec_sdec(n as int),
{
    if n < 0 {
        out.push(0x2d);
        let wide: i64 = n as i64;
        let mag: u64 = (-wide) as u64;
        push_dec(out, mag);
        assert(out@ =~= old(out)@ + spec_sdec(n as int));
    } else {
        push_dec(out, n as u64);
    }
}

/// Canonical JSON object for one process record.
pub open spec fn spec_process_info_json(p: ProcessInfo) -> Seq<u8> {
    spec_pid_open() + spec_sdec(p.pid as int)
        + spec_name_key() + spec_json_string(encode_utf8(p.name@))
        + spec_cmd_key() + spec_json_string(encode_utf8(p.cmd@))
        + spec_memory_key() + spec_dec(p.memory as nat)
        + spec_cpu_key() + spec_dec(p.cpu_usage as nat)
        + spec_status_key() + spec_json_string(encode_utf8(p.status@))
        + seq![0x7du8]
}

/// Canonical JSON object for one connection record.
pub open spec fn spec_connection_info_json(c: ConnectionInfo) -> Seq<u8> {
    spec_pid_open() + spec_sdec(c.pid as int)
        + spec_pname_key() + spec_json_string(encode_utf8(c.process_name@))
        + spec_local_address_key() + spec_json_string(encode_utf8(c.local_address@))
        + spec_remote_address_key() + spec_json_string(encode_utf8(c.remote_address@))
        + spec_protocol_key() + spec_json_string(encode_utf8(c.protocol@))
        + spec_status_key() + spec_json_string(encode_utf8(c.status@))
        + spec_timestamp_key() + spec_dec(c.timestamp as nat)
        + seq![0x7du8]
}

/// Canonical JSON object for one file event.
pub open spec fn spec_file_event_json(e: FileEvent) -> Seq<u8> {
    spec_path_open() + spec_json_string(encode_utf8(e.path@))
        + spec_kind_key() + spec_json_string(encode_utf8(e.kind@))
        + spec_timestamp_key() + spec_dec(e.timestamp as nat)
        + seq![0x7du8]
}

/// Appends the canonical JSON of one process record.
pub fn push_process_info(out: &mut Vec<u8>, p: &ProcessInfo)
    ensures
        final(out)@ == old(out)@ + spec_process_info_json(*p),
{
    push_pid_open(out);
    push_sdec(out, p.pid);
    push_name_key(out);
    push_json_string(out, p.name.as_str().as_bytes());
    push_cmd_key(out);
    push_json_string(out, p.cmd.as_str().as_bytes());
    push_memory_key(out);
    push_dec(out, p.memory);
    push_cpu_key(out);
    push_dec(out, p.cpu_usage as u64);
    push_status_key(out);
    push_json_string(out, p.status.as_str().as_bytes());
    out.push(0x7d);
    assert(out@ =~= old(out)@ + spec_process_info_json(*p));
}

/// Appends the canonical JSON of one connection record.
pub fn push_connection_info(out: &mut Vec<u8>, c: &ConnectionInfo)
    ensures
        final(out)@ == old(out)@ + spec_connection_info_json(*c),
{
    push_pid_open(out);
    push_sdec(out, c.pid);
    push_pname_key(out);
    push_json_string(out, c.process_name.as_str().as_bytes());
    push_local_address_key(out);
    push_json_string(out, c.local_address.as_str().as_bytes());
    push_remote_address_key(out);
    push_json_string(out, c.remote_address.as_str().as_bytes());
    push_protocol_key(out);
    push_json_string(out, c.protocol.as_str().as_bytes());
    push_status_key(out);
    push_json_string(out, c.status.as_str().as_bytes());
    push_timestamp_key(out);
    push_dec(out, c.timestamp);
    out.push(0x7d);
    assert(out@ =~= old(out)@ + spec_connection_info_json(*c));
}

/// Appends the canonical JSON of one file event.
pub fn push_file_event(out: &mut Vec<u8>, e: &FileEvent)
    ensures
        final(out)@ == old(out)@ + spec_file_event_json(*e),
{
    push_path_open(out);
    push_json_string(out, e.path.as_str().as_bytes());
    push_kind_key(out);
    push_json_string(out, e.kind.as_str().as_bytes());
    push_timestamp_key(out);
    push_dec(out, e.timestamp);
    out.push(0x7d);
    assert(out@ =~= old(out)@ + spec_file_event_json(*e));
}

/// The JSON array items `a`, comma separated, in order.
pub open spec fn spec_join(items: Seq<Seq<u8>>) -> Seq<u8>
    decreases items.len(),
{
    if items.len() == 0 {
        Seq::empty()
    } else if items.len() == 1 {
        items[0]
    } else {
        spec_join(items.drop_last()) + seq![0x2cu8] + items.last()
    }
}

/// A JSON array of the given pre-rendered items.
pub open spec fn spec_array(items: Seq<Seq<u8>>) -> Seq<u8> {
    seq![0x5bu8] + spec_join(items) + seq![0x5du8]
}

proof fn lemma_join_push(items: Seq<Seq<u8>>, x: Seq<u8>)
    ensures
        items.len() == 0 ==> spec_join(items.push(x)) == x,
        items.len() > 0 ==> spec_join(items.push(x)) == spec_join(items) + seq![0x2cu8] + x,
{
    assert(items.push(x).drop_last() =~= items);
    assert(items.push(x).last() == x);
    if items.len() == 0 {
        assert(spec_join(items.push(x)) == items.push(x)[0]);
    }
}

/// The payload of an envelope: one telemetry variant.
pub enum Payload {
    Processes(Vec<ProcessInfo>),
    Connections(Vec<ConnectionInfo>),
    Files(Vec<FileEvent>),
}

/// Canonical JSON of a payload: the array of its records.
pub open spec fn spec_payload_json(p: Payload) -> Seq<u8> {
    match p {
        Payload::Processes(v) => spec_array(v@.map_values(|x: ProcessInfo| spec_process_info_json(x))),
        Payload::Connections(v) => spec_array(v@.map_values(|x: ConnectionInfo| spec_connection_info_json(x))),
        Payload::Files(v) => spec_array(v@.map_values(|x: FileEvent| spec_file_event_json(x))),
    }
}

/// Appends the canonical JSON of a payload.
#[verifier::rlimit(100)]
#[verifier::spinoff_prover]
pub fn push_payload(out: &mut Vec<u8>, p: &Payload)
    ensures
        final(out)@ == old(out)@ + spec_payload_json(*p),
{
    out.push(0x5b);
    match p {
        Payload::Processes(v) => {
            let ghost f = |x: ProcessInfo| spec_process_info_json(x);
            let mut i: usize = 0;
            while i < v.len()
                invariant
                    i <= v@.len(),
                    out@ == old(out)@ + seq![0x5bu8] + spec_join(v@.subrange(0, i as int).map_values(|x: ProcessInfo| spec_process_info_json(x))),
                decreases v@.len() - i,
            {
                let ghost pre = v@.subrange(0, i as int).map_values(|x: ProcessInfo| spec_process_info_json(x));
                if i > 0 {
                    out.push(0x2c);
                }
                push_process_info(out, &v[i]);
                proof {
                    assert(v@.subrange(0, i + 1).map_values(|x: ProcessInfo| spec_process_info_json(x))
                        =~= pre.push(spec_process_info_json(v@[i as int])));
                    lemma_join_push(pre, spec_process_info_json(v@[i as int]));
                    assert(out@ =~= old(out)@ + seq![0x5bu8] + spec_join(v@.subrange(0, i + 1).map_values(|x: ProcessInfo| spec_process_info_json(x))));
                }
                i = i + 1;
            }
            proof {
                assert(v@.subrange(0, v@.len() as int) =~= v@);
            }
        },
        Payload::Connections(v) => {
            let mut i: usize = 0;
            while i < v.len()
                invariant
                    i <= v@.len(),
                    out@ == old(out)@ + seq![0x5bu8] + spec_join(v@.subrange(0, i as int).map_values(|x: ConnectionInfo| spec_connection_info_json(x))),
                decreases v@.len() - i,
            {
                let ghost pre = v@.subrange(0, i as int).map_values(|x: ConnectionInfo| spec_connection_info_json(x));
                if i > 0 {
                    out.push(0x2c);
                }
                push_connection_info(out, &v[i]);
                proof {
                    assert(v@.subrange(0, i + 1).map_values(|x: ConnectionInfo| spec_connection_info_json(x))
                        =~= pre.push(spec_connection_info_json(v@[i as int])));
                    lemma_join_push(pre, spec_connection_info_json(v@[i as int]));
                    assert(out@ =~= old(out)@ + seq![0x5bu8] + spec_join(v@.subrange(0, i + 1).map_values(|x: ConnectionInfo| spec_connection_info_json(x))));
                }
                i = i + 1;
            }
            proof {
                assert(v@.subrange(0, v@.len() as int) =~= v@);
            }
        },
        Payload::Files(v) => {
            let mut i: usize = 0;
            while i < v.len()
                invariant
                    i <= v@.len(),
                    out@ == old(out)@ + seq![0x5bu8] + spec_join(v@.subrange(0, i as int).map_values(|x: FileEvent| spec_file_event_json(x))),
                decreases v@.len() - i,
            {
                let ghost pre = v@.subrange(0, i as int).map_values(|x: FileEvent| spec_file_event_json(x));
                if i > 0 {
                    out.push(0x2c);
                }
                push_file_event(out, &v[i]);
                proof {
                    assert(v@.subrange(0, i + 1).map_values(|x: FileEvent| spec_file_event_json(x))
                        =~= pre.push(spec_file_event_json(v@[i as int])));
                    lemma_join_push(pre, spec_file_event_json(v@[i as int]));
                    assert(out@ =~= old(out)@ + seq![0x5bu8] + spec_join(v@.subrange(0, i + 1).map_values(|x: FileEvent| spec_file_event_json(x))));
                }
                i = i + 1;
            }
            proof {
                assert(v@.subrange(0, v@.len() as int) =~= v@);
            }
        },
    }
    out.push(0x5d);
    proof {
        assert(out@ =~= old(out)@ + spec_payload_json(*p));
    }
}

} // verus!
