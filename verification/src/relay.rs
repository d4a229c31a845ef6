use vstd::prelude::*;
use vstd::utf8::encode_utf8;
use crate::json::{
    spec_dec, spec_json_string, spec_escape, spec_escape_byte, spec_plain_byte, spec_hex_digit,
    push_dec, push_json_string, lemma_dec_props,
};
use crate::keys::{
    spec_hostname_open, push_hostname_open, spec_timestamp_key, push_timestamp_key,
    spec_payload_key, push_payload_key, spec_pid_open, spec_name_key, spec_cmd_key,
    spec_memory_key, spec_cpu_key, spec_status_key, spec_pname_key,
    spec_local_address_key, spec_remote_address_key, spec_protocol_key,
    spec_path_open, spec_kind_key,
};
use crate::telemetry::{
    Payload, spec_payload_json, push_payload, spec_join, spec_array, spec_sdec,
    spec_process_info_json, spec_connection_info_json, spec_file_event_json,
    ProcessInfo, ConnectionInfo, FileEvent,
};

verus! {

/// The wire and queue unit: one telemetry payload wrapped with its host
/// and capture time.
pub struct RelayEnvelope {
    pub hostname: String,
    pub timestamp: u64,
    pub payload: Payload,
}

/// Canonical JSON body of an envelope, also the exact queue line.
pub open spec fn spec_envelope_bytes(env: RelayEnvelope) -> Seq<u8> {
    spec_hostname_open() + spec_json_string(encode_utf8(env.hostname@))
        + spec_timestamp_key() + spec_dec(env.timestamp as nat)
        + spec_payload_key() + spec_payload_json(env.payload)
        + seq![0x7du8]
}

/// Serializes an envelope to the canonical body that is POSTed, and that
/// is buffered unchanged when delivery fails.
pub fn encode_envelope(env: &RelayEnvelope) -> (r: Vec<u8>)
    ensures
        r@ == spec_envelope_bytes(*env),
{
    let mut out: Vec<u8> = Vec::new();
    push_hostname_open(&mut out);
    push_json_string(&mut out, env.hostname.as_str().as_bytes());
    push_timestamp_key(&mut out);
    push_dec(&mut out, env.timestamp);
    push_payload_key(&mut out);
    push_payload(&mut out, &env.payload);
    out.push(0x7d);
    proof {
        assert(out@ =~= spec_envelope_bytes(*env));
    }
    out
}

/// What a transmit attempt came to: delivered to the collector, or kept
/// in the durable queue.
#[derive(Clone, Copy, Debug, PartialEq, Eq, Structural)]
pub enum TransmitOutcome {
    Sent,
    Buffered,
}

/// The deliver-or-buffer relay: undelivered envelope lines, first in
/// first out, exactly as they will be replayed.
pub struct RelayClient {
    queue: Vec<Vec<u8>>,
}

/// The queue after keeping, in order, exactly the entries whose attempt
/// failed.
pub open spec fn spec_retained(q: Seq<Seq<u8>>, o: Seq<bool>) -> Seq<Seq<u8>>
    decreases q.len(),
{
    if q.len() == 0 {
        Seq::empty()
    } else {
        let rest = spec_retained(q.drop_last(), o.drop_last());
        if o.last() {
            rest
        } else {
            rest.push(q.last())
        }
    }
}

/// How many attempts succeeded.
pub open spec fn spec_count_true(o: Seq<bool>) -> nat
    decreases o.len(),
{
    if o.len() == 0 {
        0
    } else {
        spec_count_true(o.drop_last()) + if o.last() {
            1nat
        } else {
            0nat
        }
    }
}

impl RelayClient {
    /// The buffered envelope lines, oldest first.
    pub closed spec fn queue_view(&self) -> Seq<Seq<u8>> {
        self.queue@.map_values(|l: Vec<u8>| l@)
    }

    /// A relay with nothing buffered.
    pub fn new() -> (r: RelayClient)
        ensures
            r.queue_view() == Seq::<Seq<u8>>::empty(),
    {
        let r = RelayClient { queue: Vec::new() };
        proof {
            assert(r.queue_view() =~= Seq::<Seq<u8>>::empty());
        }
        r
    }

    /// A relay whose queue holds the given lines, as read back from the
    /// durable store at startup, oldest first.
    pub fn restore(lines: Vec<Vec<u8>>) -> (r: RelayClient)
        ensures
            r.queue_view() == lines@.map_values(|l: Vec<u8>| l@),
    {
        RelayClient { queue: lines }
    }

    /// How many envelopes wait in the queue.
    pub fn queue_len(&self) -> (n: usize)
        ensures
            n == self.queue_view().len(),
    {
        self.queue.len()
    }

    /// The buffered lines, for replay or persistence.
    pub fn entries(&self) -> (r: &Vec<Vec<u8>>)
        ensures
            r@.map_values(|l: Vec<u8>| l@) == self.queue_view(),
    {
        &self.queue
    }

    /// Deliver-or-buffer: a delivered envelope leaves the queue alone; a
    /// failed delivery appends exactly its canonical line at the back.
    /// Buffering is the defined fallback, so both outcomes are success.
    pub fn transmit_or_buffer(&mut self, env: &RelayEnvelope, delivered: bool) -> (r: TransmitOutcome)
        ensures
            delivered ==> r == TransmitOutcome::Sent
                && final(self).queue_view() == old(self).queue_view(),
            !delivered ==> r == TransmitOutcome::Buffered
                && final(self).queue_view() == old(self).queue_view().push(spec_envelope_bytes(*env)),
    {
        if delivered {
            TransmitOutcome::Sent
        } else {
            let line = encode_envelope(env);
            self.queue.push(line);
            proof {
                assert(self.queue_view() =~= old(self).queue_view().push(spec_envelope_bytes(*env)));
            }
            TransmitOutcome::Buffered
        }
    }

    /// Applies the per-entry outcomes of a replay pass: keeps, in their
    /// original order, exactly the entries that still failed, and
    /// reports how many were delivered.
    pub fn flush_buffer(&mut self, outcomes: &Vec<bool>) -> (delivered: usize)
        requires
            outcomes@.len() == old(self).queue_view().len(),
        ensures
            final(self).queue_view() == spec_retained(old(self).queue_view(), outcomes@),
            delivered == spec_count_true(outcomes@),
            delivered <= old(self).queue_view().len(),
    {
        let ghost q0 = self.queue_view();
        let n = self.queue.len();
        let mut retained: Vec<Vec<u8>> = Vec::new();
        let mut count: usize = 0;
        let mut i: usize = 0;
        proof {
            assert(q0.subrange(0, 0) =~= Seq::<Seq<u8>>::empty());
            assert(outcomes@.subrange(0, 0) =~= Seq::<bool>::empty());
            assert(retained@.map_values(|l: Vec<u8>| l@) =~= Seq::<Seq<u8>>::empty());
        }
        while i < n
            invariant
                i <= n,
                count <= i,
                n == q0.len(),
                outcomes@.len() == n,
                self.queue@.map_values(|l: Vec<u8>| l@) == q0.subrange(i as int, n as int),
                retained@.map_values(|l: Vec<u8>| l@) == spec_retained(q0.subrange(0, i as int), outcomes@.subrange(0, i as int)),
                count == spec_count_true(outcomes@.subrange(0, i as int)),
            decreases n - i,
        {
            proof {
                assert(self.queue@.map_values(|l: Vec<u8>| l@).len() == self.queue@.len());
                assert(self.queue@.map_values(|l: Vec<u8>| l@)[0] == self.queue@[0]@);
                assert(q0.subrange(i as int, n as int)[0] == q0[i as int]);
            }
            let ghost old_tail = self.queue@;
            let line = self.queue.remove(0);
            let ghost qpre = q0.subrange(0, i as int);
            let ghost opre = outcomes@.subrange(0, i as int);
            proof {
                assert(line@ == q0[i as int]);
                assert(q0.subrange(0, i + 1).drop_last() =~= qpre);
                assert(outcomes@.subrange(0, i + 1).drop_last() =~= opre);
                assert(q0.subrange(0, i + 1).last() == q0[i as int]);
                assert(outcomes@.subrange(0, i + 1).last() == outcomes@[i as int]);
                assert forall|k: int| 0 <= k < self.queue@.len()
                    implies self.queue@.map_values(|l: Vec<u8>| l@)[k] == #[trigger] q0.subrange(i + 1, n as int)[k] by {
                    assert(self.queue@.map_values(|l: Vec<u8>| l@)[k] == self.queue@[k]@);
                    assert(self.queue@[k]@ == old_tail.map_values(|l: Vec<u8>| l@)[k + 1]);
                    assert(old_tail.map_values(|l: Vec<u8>| l@)[k + 1] == q0.subrange(i as int, n as int)[k + 1]);
                }
                assert(self.queue@.map_values(|l: Vec<u8>| l@) =~= q0.subrange(i + 1, n as int));
            }
            if outcomes[i] {
                count = count + 1;
            } else {
                retained.push(line);
                proof {
                    assert(retained@.map_values(|l: Vec<u8>| l@)
                        =~= spec_retained(qpre, opre).push(q0[i as int]));
                }
            }
            i = i + 1;
        }
        proof {
            assert(q0.subrange(0, n as int) =~= q0);
            assert(outcomes@.subrange(0, n as int) =~= outcomes@);
        }
        self.queue = retained;
        count
    }
}

/// Law: buffering a run of envelope lines one by one, oldest first,
/// leaves the queue holding the old entries followed by the new lines in
/// exactly their production order.
pub proof fn lemma_buffer_fifo(q0: Seq<Seq<u8>>, lines: Seq<Seq<u8>>)
    ensures
        lines.fold_left(q0, |q: Seq<Seq<u8>>, l: Seq<u8>| q.push(l)) == q0 + lines,
    decreases lines.len(),
{
    let f = |q: Seq<Seq<u8>>, l: Seq<u8>| q.push(l);
    if lines.len() == 0 {
        assert(q0 + lines =~= q0);
    } else {
        lemma_buffer_fifo(q0, lines.drop_last());
        assert(lines.fold_left(q0, f) == f(lines.drop_last().fold_left(q0, f), lines.last()));
        assert((q0 + lines.drop_last()).push(lines.last()) =~= q0 + lines);
    }
}

/// Law: when every entry of a replay pass is delivered, the queue is
/// left empty and the reported count is the whole queue.
pub proof fn lemma_flush_all_delivered(q: Seq<Seq<u8>>, o: Seq<bool>)
    requires
        o.len() == q.len(),
        forall|k: int| 0 <= k < o.len() ==> o[k],
    ensures
        spec_retained(q, o) == Seq::<Seq<u8>>::empty(),
        spec_count_true(o) == q.len(),
    decreases q.len(),
{
    if q.len() == 0 {
        assert(spec_retained(q, o) =~= Seq::<Seq<u8>>::empty());
    } else {
        lemma_flush_all_delivered(q.drop_last(), o.drop_last());
        assert(o.last());
    }
}

/// Law: a replay pass keeps exactly the undelivered entries, so the
/// queue shrinks by the number delivered and by no more.
pub proof fn lemma_flush_partial(q: Seq<Seq<u8>>, o: Seq<bool>)
    requires
        o.len() == q.len(),
    ensures
        spec_count_true(o) <= q.len(),
        spec_retained(q, o).len() == q.len() - spec_count_true(o),
    decreases q.len(),
{
    if q.len() > 0 {
        lemma_flush_partial(q.drop_last(), o.drop_last());
    }
}

/// No newline anywhere in `s`.
pub open spec fn spec_nl_free(s: Seq<u8>) -> bool {
    forall|i: int| 0 <= i < s.len() ==> #[trigger] s[i] != 0x0a
}

proof fn lemma_nl_free_concat(a: Seq<u8>, b: Seq<u8>)
    requires
        spec_nl_free(a),
        spec_nl_free(b),
    ensures
        spec_nl_free(a + b),
{
    assert forall|i: int| 0 <= i < (a + b).len() implies #[trigger] (a + b)[i] != 0x0a by {
        if i < a.len() {
            assert(a[i] != 0x0a);
        } else {
            assert(b[i - a.len()] != 0x0a);
        }
    }
}

proof fn lemma_escape_nl_free(s: Seq<u8>)
    ensures
        spec_nl_free(spec_escape(s)),
    decreases s.len(),
{
    if s.len() == 0 {
    } else {
        lemma_escape_nl_free(s.drop_first());
        assert(spec_nl_free(spec_escape_byte(s[0]))) by {
            let b = s[0];
            if spec_plain_byte(b) {
            } else if b == 0x22 || b == 0x5c || b == 0x08 || b == 0x09 || b == 0x0a || b == 0x0c || b == 0x0d {
            } else {
                assert(spec_hex_digit(b / 16) != 0x0a);
                assert(spec_hex_digit(b % 16) != 0x0a);
            }
        }
        lemma_nl_free_concat(spec_escape_byte(s[0]), spec_escape(s.drop_first()));
    }
}

proof fn lemma_json_string_nl_free(s: Seq<u8>)
    ensures
        spec_nl_free(spec_json_string(s)),
{
    lemma_escape_nl_free(s);
    lemma_nl_free_concat(seq![0x22u8], spec_escape(s));
    lemma_nl_free_concat(seq![0x22u8] + spec_escape(s), seq![0x22u8]);
    assert(spec_json_string(s) =~= (seq![0x22u8] + spec_escape(s)) + seq![0x22u8]);
}

proof fn lemma_dec_nl_free(n: nat)
    ensures
        spec_nl_free(spec_dec(n)),
{
    lemma_dec_props(n);
}

proof fn lemma_sdec_nl_free(n: int)
    ensures
        spec_nl_free(spec_sdec(n)),
{
    if n < 0 {
        lemma_dec_nl_free((-n) as nat);
        lemma_nl_free_concat(seq![0x2du8], spec_dec((-n) as nat));
    } else {
        lemma_dec_nl_free(n as nat);
    }
}

proof fn lemma_process_info_nl_free(p: ProcessInfo)
    ensures
        spec_nl_free(spec_process_info_json(p)),
{
    lemma_sdec_nl_free(p.pid as int);
    lemma_json_string_nl_free(encode_utf8(p.name@));
    lemma_json_string_nl_free(encode_utf8(p.cmd@));
    lemma_dec_nl_free(p.memory as nat);
    lemma_dec_nl_free(p.cpu_usage as nat);
    lemma_json_string_nl_free(encode_utf8(p.status@));
    let sg0 = spec_pid_open();
    let sg1 = spec_sdec(p.pid as int);
    let sg2 = spec_name_key();
    let sg3 = spec_json_string(encode_utf8(p.name@));
    let sg4 = spec_cmd_key();
    let sg5 = spec_json_string(encode_utf8(p.cmd@));
    let sg6 = spec_memory_key();
    let sg7 = spec_dec(p.memory as nat);
    let sg8 = spec_cpu_key();
    let sg9 = spec_dec(p.cpu_usage as nat);
    let sg10 = spec_status_key();
    let sg11 = spec_json_string(encode_utf8(p.status@));
    let sg12 = seq![0x7du8];
    assert(spec_nl_free(sg0));
    assert(spec_nl_free(sg1));
    assert(spec_nl_free(sg2));
    assert(spec_nl_free(sg3));
    assert(spec_nl_free(sg4));
    assert(spec_nl_free(sg5));
    assert(spec_nl_free(sg6));
    assert(spec_nl_free(sg7));
    assert(spec_nl_free(sg8));
    assert(spec_nl_free(sg9));
    assert(spec_nl_free(sg10));
    assert(spec_nl_free(sg11));
    assert(spec_nl_free(sg12));
    lemma_nl_free_concat(sg0, sg1);
    lemma_nl_free_concat(sg0 + sg1, sg2);
    lemma_nl_free_concat(sg0 + sg1 + sg2, sg3);
    lemma_nl_free_concat(sg0 + sg1 + sg2 + sg3, sg4);
    lemma_nl_free_concat(sg0 + sg1 + sg2 + sg3 + sg4, sg5);
    lemma_nl_free_concat(sg0 + sg1 + sg2 + sg3 + sg4 + sg5, sg6);
    lemma_nl_free_concat(sg0 + sg1 + sg2 + sg3 + sg4 + sg5 + sg6, sg7);
    lemma_nl_free_concat(sg0 + sg1 + sg2 + sg3 + sg4 + sg5 + sg6 + sg7, sg8);
    lemma_nl_free_concat(sg0 + sg1 + sg2 + sg3 + sg4 + sg5 + sg6 + sg7 + sg8, sg9);
    lemma_nl_free_concat(sg0 + sg1 + sg2 + sg3 + sg4 + sg5 + sg6 + sg7 + sg8 + sg9, sg10);
    lemma_nl_free_concat(sg0 + sg1 + sg2 + sg3 + sg4 + sg5 + sg6 + sg7 + sg8 + sg9 + sg10, sg11);
    lemma_nl_free_concat(sg0 + sg1 + sg2 + sg3 + sg4 + sg5 + sg6 + sg7 + sg8 + sg9 + sg10 + sg11, sg12);
    assert(spec_process_info_json(p) =~= sg0 + sg1 + sg2 + sg3 + sg4 + sg5 + sg6 + sg7 + sg8 + sg9 + sg10 + sg11 + sg12);
}

proof fn lemma_connection_info_nl_free(c: ConnectionInfo)
    ensures
        spec_nl_free(spec_connection_info_json(c)),
{
    lemma_sdec_nl_free(c.pid as int);
    lemma_json_string_nl_free(encode_utf8(c.process_name@));
    lemma_json_string_nl_free(encode_utf8(c.local_address@));
    lemma_json_string_nl_free(encode_utf8(c.remote_address@));
    lemma_json_string_nl_free(encode_utf8(c.protocol@));
    lemma_json_string_nl_free(encode_utf8(c.status@));
    lemma_dec_nl_free(c.timestamp as nat);
    let sg0 = spec_pid_open();
    let sg1 = spec_sdec(c.pid as int);
    let sg2 = spec_pname_key();
    let sg3 = spec_json_string(encode_utf8(c.process_name@));
    let sg4 = spec_local_address_key();
    let sg5 = spec_json_string(encode_utf8(c.local_address@));
    let sg6 = spec_remote_address_key();
    let sg7 = spec_json_string(encode_utf8(c.remote_address@));
    let sg8 = spec_protocol_key();
    let sg9 = spec_json_string(encode_utf8(c.protocol@));
    let sg10 = spec_status_key();
    let sg11 = spec_json_string(encode_utf8(c.status@));
    let sg12 = spec_timestamp_key();
    let sg13 = spec_dec(c.timestamp as nat);
    let sg14 = seq![0x7du8];
    assert(spec_nl_free(sg0));
    assert(spec_nl_free(sg1));
    assert(spec_nl_free(sg2));
    assert(spec_nl_free(sg3));
    assert(spec_nl_free(sg4));
    assert(spec_nl_free(sg5));
    assert(spec_nl_free(sg6));
    assert(spec_nl_free(sg7));
    assert(spec_nl_free(sg8));
    assert(spec_nl_free(sg9));
    assert(spec_nl_free(sg10));
    assert(spec_nl_free(sg11));
    assert(spec_nl_free(sg12));
    assert(spec_nl_free(sg13));
    assert(spec_nl_free(sg14));
    lemma_nl_free_concat(sg0, sg1);
    lemma_nl_free_concat(sg0 + sg1, sg2);
    lemma_nl_free_concat(sg0 + sg1 + sg2, sg3);
    lemma_nl_free_concat(sg0 + sg1 + sg2 + sg3, sg4);
    lemma_nl_free_concat(sg0 + sg1 + sg2 + sg3 + sg4, sg5);
    lemma_nl_free_concat(sg0 + sg1 + sg2 + sg3 + sg4 + sg5, sg6);
    lemma_nl_free_concat(sg0 + sg1 + sg2 + sg3 + sg4 + sg5 + sg6, sg7);
    lemma_nl_free_concat(sg0 + sg1 + sg2 + sg3 + sg4 + sg5 + sg6 + sg7, sg8);
    lemma_nl_free_concat(sg0 + sg1 + sg2 + sg3 + sg4 + sg5 + sg6 + sg7 + sg8, sg9);
    lemma_nl_free_concat(sg0 + sg1 + sg2 + sg3 + sg4 + sg5 + sg6 + sg7 + sg8 + sg9, sg10);
    lemma_nl_free_concat(sg0 + sg1 + sg2 + sg3 + sg4 + sg5 + sg6 + sg7 + sg8 + sg9 + sg10, sg11);
    lemma_nl_free_concat(sg0 + sg1 + sg2 + sg3 + sg4 + sg5 + sg6 + sg7 + sg8 + sg9 + sg10 + sg11, sg12);
    lemma_nl_free_concat(sg0 + sg1 + sg2 + sg3 + sg4 + sg5 + sg6 + sg7 + sg8 + sg9 + sg10 + sg11 + sg12, sg13);
    lemma_nl_free_concat(sg0 + sg1 + sg2 + sg3 + sg4 + sg5 + sg6 + sg7 + sg8 + sg9 + sg10 + sg11 + sg12 + sg13, sg14);
    assert(spec_connection_info_json(c) =~= sg0 + sg1 + sg2 + sg3 + sg4 + sg5 + sg6 + sg7 + sg8 + sg9 + sg10 + sg11 + sg12 + sg13 + sg14);
}

proof fn lemma_file_event_nl_free(e: FileEvent)
    ensures
        spec_nl_free(spec_file_event_json(e)),
{
    lemma_json_string_nl_free(encode_utf8(e.path@));
    lemma_json_string_nl_free(encode_utf8(e.kind@));
    lemma_dec_nl_free(e.timestamp as nat);
    let sg0 = spec_path_open();
    let sg1 = spec_json_string(encode_utf8(e.path@));
    let sg2 = spec_kind_key();
    let sg3 = spec_json_string(encode_utf8(e.kind@));
    let sg4 = spec_timestamp_key();
    let sg5 = spec_dec(e.timestamp as nat);
    let sg6 = seq![0x7du8];
    assert(spec_nl_free(sg0));
    assert(spec_nl_free(sg1));
    assert(spec_nl_free(sg2));
    assert(spec_nl_free(sg3));
    assert(spec_nl_free(sg4));
    assert(spec_nl_free(sg5));
    assert(spec_nl_free(sg6));
    lemma_nl_free_concat(sg0, sg1);
    lemma_nl_free_concat(sg0 + sg1, sg2);
    lemma_nl_free_concat(sg0 + sg1 + sg2, sg3);
    lemma_nl_free_concat(sg0 + sg1 + sg2 + sg3, sg4);
    lemma_nl_free_concat(sg0 + sg1 + sg2 + sg3 + sg4, sg5);
    lemma_nl_free_concat(sg0 + sg1 + sg2 + sg3 + sg4 + sg5, sg6);
    assert(spec_file_event_json(e) =~= sg0 + sg1 + sg2 + sg3 + sg4 + sg5 + sg6);
}

proof fn lemma_join_nl_free(items: Seq<Seq<u8>>)
    requires
        forall|k: int| 0 <= k < items.len() ==> spec_nl_free(#[trigger] items[k]),
    ensures
        spec_nl_free(spec_join(items)),
    decreases items.len(),
{
    if items.len() == 0 {
    } else if items.len() == 1 {
        assert(spec_nl_free(items[0]));
    } else {
        assert(forall|k: int| 0 <= k < items.drop_last().len() ==> spec_nl_free(#[trigger] items.drop_last()[k]));
        lemma_join_nl_free(items.drop_last());
        lemma_nl_free_concat(spec_join(items.drop_last()), seq![0x2cu8]);
        lemma_nl_free_concat(spec_join(items.drop_last()) + seq![0x2cu8], items.last());
        assert(spec_join(items) =~= (spec_join(items.drop_last()) + seq![0x2cu8]) + items.last());
    }
}

proof fn lemma_payload_nl_free(p: Payload)
    ensures
        spec_nl_free(spec_payload_json(p)),
{
    match p {
        Payload::Processes(v) => {
            let items = v@.map_values(|x: ProcessInfo| spec_process_info_json(x));
            assert forall|k: int| 0 <= k < items.len() implies spec_nl_free(#[trigger] items[k]) by {
                lemma_process_info_nl_free(v@[k]);
            }
            lemma_join_nl_free(items);
            lemma_nl_free_concat(seq![0x5bu8], spec_join(items));
            lemma_nl_free_concat(seq![0x5bu8] + spec_join(items), seq![0x5du8]);
            assert(spec_array(items) =~= (seq![0x5bu8] + spec_join(items)) + seq![0x5du8]);
        },
        Payload::Connections(v) => {
            let items = v@.map_values(|x: ConnectionInfo| spec_connection_info_json(x));
            assert forall|k: int| 0 <= k < items.len() implies spec_nl_free(#[trigger] items[k]) by {
                lemma_connection_info_nl_free(v@[k]);
            }
            lemma_join_nl_free(items);
            lemma_nl_free_concat(seq![0x5bu8], spec_join(items));
            lemma_nl_free_concat(seq![0x5bu8] + spec_join(items), seq![0x5du8]);
            assert(spec_array(items) =~= (seq![0x5bu8] + spec_join(items)) + seq![0x5du8]);
        },
        Payload::Files(v) => {
            let items = v@.map_values(|x: FileEvent| spec_file_event_json(x));
            assert forall|k: int| 0 <= k < items.len() implies spec_nl_free(#[trigger] items[k]) by {
                lemma_file_event_nl_free(v@[k]);
            }
            lemma_join_nl_free(items);
            lemma_nl_free_concat(seq![0x5bu8], spec_join(items));
            lemma_nl_free_concat(seq![0x5bu8] + spec_join(items), seq![0x5du8]);
            assert(spec_array(items) =~= (seq![0x5bu8] + spec_join(items)) + seq![0x5du8]);
        },
    }
}

/// Law: an envelope line never holds a newline byte, so writing one line
/// per queue entry, each terminated by a newline, keeps every entry an
/// independently complete record whoever produced it.
pub proof fn lemma_envelope_line_nl_free(env: RelayEnvelope)
    ensures
        spec_nl_free(spec_envelope_bytes(env)),
{
    lemma_json_string_nl_free(encode_utf8(env.hostname@));
    lemma_dec_nl_free(env.timestamp as nat);
    lemma_payload_nl_free(env.payload);
    let a = spec_hostname_open();
    let b = spec_json_string(encode_utf8(env.hostname@));
    let c = spec_timestamp_key();
    let d = spec_dec(env.timestamp as nat);
    let e = spec_payload_key();
    let f = spec_payload_json(env.payload);
    let g = seq![0x7du8];
    lemma_nl_free_concat(a, b);
    lemma_nl_free_concat(a + b, c);
    lemma_nl_free_concat(a + b + c, d);
    lemma_nl_free_concat(a + b + c + d, e);
    lemma_nl_free_concat(a + b + c + d + e, f);
    lemma_nl_free_concat(a + b + c + d + e + f, g);
    assert(spec_envelope_bytes(env) =~= a + b + c + d + e + f + g);
}

} // verus!
