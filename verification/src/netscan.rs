use vstd::prelude::*;
use vstd::utf8::encode_utf8;
use crate::json::{spec_is_digit, spec_digits_val, lemma_digits_val_prefix, ascii_to_string, spec_dec, u64_to_dec, lemma_dec_props};
use crate::telemetry::ConnectionInfo;

verus! {

/// A field separator in netstat output: space or tab.
pub open spec fn spec_is_ws(b: u8) -> bool {
    b == 0x20 || b == 0x09
}

/// The whitespace-separated fields of a line, in order, each nonempty.
pub open spec fn spec_tokens(s: Seq<u8>) -> Seq<Seq<u8>>
    decreases s.len(),
{
    if s.len() == 0 {
        Seq::empty()
    } else {
        let rest = spec_tokens(s.drop_last());
        let b = s.last();
        if spec_is_ws(b) {
            rest
        } else if s.len() >= 2 && !spec_is_ws(s[s.len() - 2]) {
            rest.update(rest.len() - 1, rest.last().push(b))
        } else {
            rest.push(seq![b])
        }
    }
}

proof fn lemma_tokens_nonempty(s: Seq<u8>)
    requires
        s.len() > 0,
        !spec_is_ws(s.last()),
    ensures
        spec_tokens(s).len() >= 1,
    decreases s.len(),
{
    if s.len() >= 2 && !spec_is_ws(s[s.len() - 2]) {
        lemma_tokens_nonempty(s.drop_last());
        assert(s.drop_last().last() == s[s.len() - 2]);
    }
}

/// The lines of a byte text, split at newlines; without a newline the
/// whole text is one line.
pub open spec fn spec_lines(s: Seq<u8>) -> Seq<Seq<u8>>
    decreases s.len(),
{
    if s.len() == 0 {
        seq![Seq::empty()]
    } else {
        let rest = spec_lines(s.drop_last());
        let b = s.last();
        if b == 0x0a {
            rest.push(Seq::empty())
        } else {
            rest.update(rest.len() - 1, rest.last().push(b))
        }
    }
}

proof fn lemma_lines_nonempty(s: Seq<u8>)
    ensures
        spec_lines(s).len() >= 1,
    decreases s.len(),
{
    if s.len() > 0 {
        lemma_lines_nonempty(s.drop_last());
    }
}

/// Splits netstat output into its fields, exactly as the whitespace
/// model above says.
pub fn tokenize(s: &[u8]) -> (r: Vec<Vec<u8>>)
    ensures
        r@.map_values(|t: Vec<u8>| t@) == spec_tokens(s@),
{
    let mut toks: Vec<Vec<u8>> = Vec::new();
    let mut i: usize = 0;
    proof {
        assert(s@.subrange(0, 0) =~= Seq::<u8>::empty());
        assert(toks@.map_values(|t: Vec<u8>| t@) =~= spec_tokens(s@.subrange(0, 0)));
    }
    while i < s.len()
        invariant
            i <= s@.len(),
            toks@.map_values(|t: Vec<u8>| t@) == spec_tokens(s@.subrange(0, i as int)),
        decreases s@.len() - i,
    {
        let b = s[i];
        let ghost prefix = s@.subrange(0, i as int);
        let ghost next = s@.subrange(0, i + 1);
        proof {
            assert(next.drop_last() =~= prefix);
            assert(next.last() == s@[i as int]);
        }
        if b == 0x20 || b == 0x09 {
            proof {
                assert(spec_tokens(next) == spec_tokens(prefix));
            }
        } else if i > 0 && !(s[i - 1] == 0x20 || s[i - 1] == 0x09) {
            proof {
                assert(next[next.len() - 2] == s@[i - 1]);
                assert(prefix.len() > 0 && prefix.last() == s@[i - 1]);
                lemma_tokens_nonempty(prefix);
                assert(toks@.len() == spec_tokens(prefix).len());
            }
            let mut t = match toks.pop() {
                Some(t) => t,
                None => Vec::new(),
            };
            t.push(b);
            toks.push(t);
            proof {
                let f = |t: Vec<u8>| t@;
                let target = spec_tokens(prefix).update(spec_tokens(prefix).len() - 1, spec_tokens(prefix).last().push(b));
                assert forall|k: int| 0 <= k < toks@.len()
                    implies toks@.map_values(f)[k] == #[trigger] target[k] by {
                }
                assert(toks@.map_values(f) =~= target);
                assert(spec_tokens(next) == target);
            }
        } else {
            let mut t: Vec<u8> = Vec::new();
            t.push(b);
            toks.push(t);
            proof {
                let f = |t: Vec<u8>| t@;
                assert(toks@.map_values(f) =~= spec_tokens(prefix).push(seq![b]));
                assert(spec_tokens(next) == spec_tokens(prefix).push(seq![b]));
            }
        }
        i = i + 1;
    }
    proof {
        assert(s@.subrange(0, s@.len() as int) =~= s@);
    }
    toks
}

/// Splits a byte text into lines at newline bytes.
pub fn split_lines(s: &[u8]) -> (r: Vec<Vec<u8>>)
    ensures
        r@.map_values(|t: Vec<u8>| t@) == spec_lines(s@),
        r@.len() >= 1,
{
    let mut lines: Vec<Vec<u8>> = Vec::new();
    lines.push(Vec::new());
    let mut i: usize = 0;
    proof {
        assert(s@.subrange(0, 0) =~= Seq::<u8>::empty());
        assert(lines@.map_values(|t: Vec<u8>| t@) =~= spec_lines(s@.subrange(0, 0)));
    }
    while i < s.len()
        invariant
            i <= s@.len(),
            lines@.len() >= 1,
            lines@.map_values(|t: Vec<u8>| t@) == spec_lines(s@.subrange(0, i as int)),
        decreases s@.len() - i,
    {
        let b = s[i];
        let ghost prefix = s@.subrange(0, i as int);
        let ghost next = s@.subrange(0, i + 1);
        proof {
            assert(next.drop_last() =~= prefix);
            assert(next.last() == s@[i as int]);
            lemma_lines_nonempty(prefix);
            assert(lines@.len() == spec_lines(prefix).len());
        }
        if b == 0x0a {
            lines.push(Vec::new());
            proof {
                let f = |t: Vec<u8>| t@;
                assert(lines@.map_values(f) =~= spec_lines(prefix).push(Seq::<u8>::empty()));
                assert(spec_lines(next) == spec_lines(prefix).push(Seq::<u8>::empty()));
            }
        } else {
            let mut t = match lines.pop() {
                Some(t) => t,
                None => Vec::new(),
            };
            t.push(b);
            lines.push(t);
            proof {
                let f = |t: Vec<u8>| t@;
                let target = spec_lines(prefix).update(spec_lines(prefix).len() - 1, spec_lines(prefix).last().push(b));
                assert forall|k: int| 0 <= k < lines@.len()
                    implies lines@.map_values(f)[k] == #[trigger] target[k] by {
                }
                assert(lines@.map_values(f) =~= target);
                assert(spec_lines(next) == target);
            }
        }
        i = i + 1;
    }
    proof {
        assert(s@.subrange(0, s@.len() as int) =~= s@);
        lemma_lines_nonempty(s@);
    }
    lines
}

/// Every byte of the token is ASCII.
pub open spec fn spec_tok_ascii(t: Seq<u8>) -> bool {
    forall|i: int| 0 <= i < t.len() ==> #[trigger] t[i] < 0x80
}

/// A socket-table line the scan keeps: at least seven fields, the five
/// that are read all ASCII.
pub open spec fn spec_qual(toks: Seq<Seq<u8>>) -> bool {
    &&& toks.len() >= 7
    &&& spec_tok_ascii(toks[0])
    &&& spec_tok_ascii(toks[3])
    &&& spec_tok_ascii(toks[4])
    &&& spec_tok_ascii(toks[5])
    &&& spec_tok_ascii(toks[6])
}

/// `j` is the first slash of `t`.
pub open spec fn spec_slash_at(t: Seq<u8>, j: int) -> bool {
    &&& 0 <= j < t.len()
    &&& t[j] == 0x2f
    &&& forall|k: int| 0 <= k < j ==> t[k] != 0x2f
}

/// The numeric value of an all-digit field that fits an `i32`;
/// anything else reads as the unknown marker `-1`.
pub open spec fn spec_pid_val(s: Seq<u8>) -> int {
    if s.len() >= 1 && (forall|i: int| 0 <= i < s.len() ==> spec_is_digit(#[trigger] s[i]))
        && spec_digits_val(s) <= 0x7fffffff {
        spec_digits_val(s) as int
    } else {
        -1
    }
}

/// The bytes of `unknown`, the process name used when the field names
/// none.
pub open spec fn spec_unknown_bytes() -> Seq<u8> {
    seq![0x75u8, 0x6eu8, 0x6bu8, 0x6eu8, 0x6fu8, 0x77u8, 0x6eu8]
}

/// The pid and process name read from a `pid/name` field: split at the
/// first slash; without one the pid is unknown and so is the name.
pub open spec fn spec_pidname(t: Seq<u8>) -> (int, Seq<u8>) {
    if exists|j: int| spec_slash_at(t, j) {
        let j = choose|j: int| spec_slash_at(t, j);
        (spec_pid_val(t.subrange(0, j)), t.subrange(j + 1, t.len() as int))
    } else {
        (-1, spec_unknown_bytes())
    }
}

/// Reads an all-digit field as an `i32`, with `-1` for anything else.
pub fn parse_pid(s: &[u8]) -> (r: i32)
    ensures
        r as int == spec_pid_val(s@),
{
    if s.len() == 0 {
        return -1;
    }
    let mut acc: u64 = 0;
    let mut i: usize = 0;
    while i < s.len()
        invariant
            i <= s@.len(),
            s@.len() >= 1,
            acc == spec_digits_val(s@.subrange(0, i as int)),
            acc <= 0x7fffffff,
            forall|k: int| 0 <= k < i ==> spec_is_digit(#[trigger] s@[k]),
        decreases s@.len() - i,
    {
        let b = s[i];
        if !(0x30 <= b && b <= 0x39) {
            return -1;
        }
        let ghost pre = s@.subrange(0, i as int);
        proof {
            assert(s@.subrange(0, i + 1).drop_last() =~= pre);
            assert(s@.subrange(0, i + 1).last() == s@[i as int]);
        }
        acc = acc * 10 + (b - 0x30) as u64;
        if acc > 0x7fffffff {
            proof {
                if forall|k: int| 0 <= k < s@.len() ==> spec_is_digit(#[trigger] s@[k]) {
                    lemma_digits_val_prefix(s@, i + 1);
                    assert(s@.subrange(0, s@.len() as int) =~= s@);
                }
            }
            return -1;
        }
        i = i + 1;
    }
    proof {
        assert(s@.subrange(0, s@.len() as int) =~= s@);
    }
    acc as i32
}

/// The record built for one qualifying line's fields.
pub open spec fn spec_conn_matches(c: ConnectionInfo, toks: Seq<Seq<u8>>, ts: u64) -> bool {
    &&& encode_utf8(c.protocol@) == toks[0]
    &&& encode_utf8(c.local_address@) == toks[3]
    &&& encode_utf8(c.remote_address@) == toks[4]
    &&& encode_utf8(c.status@) == toks[5]
    &&& c.pid as int == spec_pidname(toks[6]).0
    &&& encode_utf8(c.process_name@) == spec_pidname(toks[6]).1
    &&& c.timestamp == ts
}

/// Checks that every byte is ASCII.
fn all_ascii(t: &[u8]) -> (r: bool)
    ensures
        r == spec_tok_ascii(t@),
{
    let mut i: usize = 0;
    while i < t.len()
        invariant
            i <= t@.len(),
            forall|k: int| 0 <= k < i ==> #[trigger] t@[k] < 0x80,
        decreases t@.len() - i,
    {
        if t[i] >= 0x80 {
            return false;
        }
        i = i + 1;
    }
    true
}

/// Reads one socket-table line. Keeps exactly the lines with at least
/// seven fields whose read fields are ASCII, and then fills the record
/// field for field from the line.
pub fn parse_netstat_line(line: &[u8], timestamp: u64) -> (r: Option<ConnectionInfo>)
    ensures
        r is Some <==> spec_qual(spec_tokens(line@)),
        r matches Some(c) ==> spec_conn_matches(c, spec_tokens(line@), timestamp),
{
    let toks = tokenize(line);
    let ghost tv = spec_tokens(line@);
    if toks.len() < 7 {
        return None;
    }
    proof {
        assert(tv[0] == toks@.map_values(|t: Vec<u8>| t@)[0]);
        assert(tv[3] == toks@.map_values(|t: Vec<u8>| t@)[3]);
        assert(tv[4] == toks@.map_values(|t: Vec<u8>| t@)[4]);
        assert(tv[5] == toks@.map_values(|t: Vec<u8>| t@)[5]);
        assert(tv[6] == toks@.map_values(|t: Vec<u8>| t@)[6]);
    }
    if !all_ascii(toks[0].as_slice()) || !all_ascii(toks[3].as_slice())
        || !all_ascii(toks[4].as_slice()) || !all_ascii(toks[5].as_slice())
        || !all_ascii(toks[6].as_slice()) {
        return None;
    }
    let protocol = ascii_to_string(toks[0].as_slice());
    let local_address = ascii_to_string(toks[3].as_slice());
    let remote_address = ascii_to_string(toks[4].as_slice());
    let status = ascii_to_string(toks[5].as_slice());
    let pidtok = toks[6].as_slice();
    let ghost t6 = tv[6];
    let mut slash: usize = 0;
    let mut found = false;
    while slash < pidtok.len() && !found
        invariant
            slash <= t6.len(),
            pidtok@ == t6,
            found ==> slash < t6.len() && t6[slash as int] == 0x2f,
            forall|k: int| 0 <= k < slash ==> t6[k] != 0x2f,
        decreases t6.len() - slash + if found { 0int } else { 1int },
    {
        if pidtok[slash] == 0x2f {
            found = true;
        } else {
            slash = slash + 1;
        }
    }
    let (pid, process_name): (i32, String) = if found {
        let ghost j = choose|j: int| spec_slash_at(t6, j);
        proof {
            assert(spec_slash_at(t6, slash as int));
            assert(spec_slash_at(t6, j));
            if j < slash {
                assert(t6[j] != 0x2f);
            }
            if j > slash {
                assert(t6[slash as int] != 0x2f);
            }
            assert(j == slash);
        }
        let before = vstd::slice::slice_subrange(pidtok, 0, slash);
        let after = vstd::slice::slice_subrange(pidtok, slash + 1, pidtok.len());
        let p = parse_pid(before);
        let name = ascii_to_string(after);
        proof {
            assert forall|k: int| 0 <= k < after@.len() implies #[trigger] after@[k] < 0x80 by {
                assert(after@[k] == t6[slash + 1 + k]);
            }
        }
        (p, name)
    } else {
        proof {
            if exists|j: int| spec_slash_at(t6, j) {
                let j = choose|j: int| spec_slash_at(t6, j);
                assert(t6[j] != 0x2f);
            }
        }
        let mut unk: Vec<u8> = Vec::new();
        unk.push(0x75);
        unk.push(0x6e);
        unk.push(0x6b);
        unk.push(0x6e);
        unk.push(0x6f);
        unk.push(0x77);
        unk.push(0x6e);
        proof {
            assert(unk@ =~= spec_unknown_bytes());
        }
        let name = ascii_to_string(unk.as_slice());
        (-1, name)
    };
    Some(ConnectionInfo {
        pid,
        process_name,
        local_address,
        remote_address,
        protocol,
        status,
        timestamp,
    })
}

/// The token lists of the qualifying lines after the two header lines.
pub open spec fn spec_net_entries(lines: Seq<Seq<u8>>) -> Seq<Seq<Seq<u8>>>
    decreases lines.len(),
{
    if lines.len() <= 2 {
        Seq::empty()
    } else {
        let rest = spec_net_entries(lines.drop_last());
        let toks = spec_tokens(lines.last());
        if spec_qual(toks) {
            rest.push(toks)
        } else {
            rest
        }
    }
}

/// Reads a whole netstat table: skips the two header lines, keeps each
/// qualifying line as one record, in output order, every field taken
/// from the line and stamped with the scan time.
pub fn collect_network_connections(output: &[u8], timestamp: u64) -> (r: Vec<ConnectionInfo>)
    ensures
        r@.len() == spec_net_entries(spec_lines(output@)).len(),
        forall|k: int| 0 <= k < r@.len()
            ==> spec_conn_matches(#[trigger] r@[k], spec_net_entries(spec_lines(output@))[k], timestamp),
{
    let lines = split_lines(output);
    let ghost lv = spec_lines(output@);
    let mut r: Vec<ConnectionInfo> = Vec::new();
    let mut i: usize = 2;
    if lines.len() <= 2 {
        proof {
            assert(spec_net_entries(lv).len() == 0);
        }
        return r;
    }
    while i < lines.len()
        invariant
            2 <= i <= lines@.len(),
            lines@.map_values(|t: Vec<u8>| t@) == lv,
            r@.len() == spec_net_entries(lv.subrange(0, i as int)).len(),
            forall|k: int| 0 <= k < r@.len()
                ==> spec_conn_matches(#[trigger] r@[k], spec_net_entries(lv.subrange(0, i as int))[k], timestamp),
        decreases lines@.len() - i,
    {
        let ghost pre = lv.subrange(0, i as int);
        let ghost next = lv.subrange(0, i + 1);
        proof {
            assert(next.drop_last() =~= pre);
            assert(next.last() == lv[i as int]);
            assert(lines@.map_values(|t: Vec<u8>| t@)[i as int] == lv[i as int]);
        }
        match parse_netstat_line(lines[i].as_slice(), timestamp) {
            Some(c) => {
                r.push(c);
                proof {
                    assert(spec_net_entries(next) =~= spec_net_entries(pre).push(spec_tokens(lv[i as int])));
                }
            },
            None => {
                proof {
                    assert(spec_net_entries(next) == spec_net_entries(pre));
                }
            },
        }
        i = i + 1;
    }
    proof {
        assert(lv.subrange(0, lv.len() as int) =~= lv);
    }
    r
}


/// One socket-table row as the native socket iterator reports it.
pub struct NetConnection {
    pub protocol: String,
    pub local_addr: String,
    pub remote_addr: String,
    pub pid: Option<u32>,
}

/// The `ip:port` rendering of one endpoint, over UTF-8 bytes.
pub open spec fn spec_sock_addr(ip: Seq<char>, port: u16) -> Seq<u8> {
    encode_utf8(ip) + seq![0x3au8] + spec_dec(port as nat)
}

proof fn lemma_encode_utf8_concat(a: Seq<char>, b: Seq<char>)
    ensures
        encode_utf8(a + b) == encode_utf8(a) + encode_utf8(b),
    decreases a.len(),
{
    if a.len() == 0 {
        assert(a + b =~= b);
        assert(encode_utf8(a) =~= Seq::<u8>::empty());
        assert(encode_utf8(a + b) =~= encode_utf8(a) + encode_utf8(b));
    } else {
        assert((a + b)[0] == a[0]);
        assert((a + b).drop_first() =~= a.drop_first() + b);
        lemma_encode_utf8_concat(a.drop_first(), b);
        assert(encode_utf8(a + b) =~= encode_utf8(a) + encode_utf8(b));
    }
}

/// Renders `ip:port` for one endpoint.
fn sock_addr_string(ip: String, port: u16) -> (r: String)
    ensures
        encode_utf8(r@) == spec_sock_addr(ip@, port),
{
    let ghost ip_view = ip@;
    let mut s = ip;
    s.append(":");
    let digits = u64_to_dec(port as u64);
    proof {
        lemma_dec_props(port as nat);
        assert(forall|i: int| 0 <= i < digits@.len() ==> spec_is_digit(#[trigger] digits@[i]));
    }
    let d = ascii_to_string(digits.as_slice());
    s.append(d.as_str());
    proof {
        reveal_strlit(":");
        assert(":"@ =~= seq![':']);
        assert(s@ == ip_view + ":"@ + d@);
        lemma_encode_utf8_concat(ip_view + ":"@, d@);
        lemma_encode_utf8_concat(ip_view, ":"@);
        assert(encode_utf8(":"@) =~= seq![0x3au8]) by {
            assert(":"@.len() == 1);
            assert(":"@[0] == ':');
            assert(":"@.drop_first() =~= Seq::<char>::empty());
            assert((':' as u32) == 0x3a);
            assert((0x3au32 & 0x7f) as u8 == 0x3au8) by (bit_vector);
            assert(vstd::utf8::leading_byte_width_1(0x3a) == 0x3au8);
            assert(vstd::utf8::encode_scalar(':' as u32) =~= seq![0x3au8]);
            assert(encode_utf8(":"@.drop_first()) =~= Seq::<u8>::empty());
            assert(encode_utf8(":"@) == vstd::utf8::encode_scalar(":"@[0] as u32) + encode_utf8(":"@.drop_first()));
            assert(":"@[0] as u32 == ':' as u32);
        }
        assert(encode_utf8(s@) =~= spec_sock_addr(ip_view, port));
    }
    s
}

/// Builds the record for one socket of the native socket iterator: TCP
/// keeps both endpoints as `ip:port`; UDP has no tracked peer, so its
/// remote side reads `N/A`.
pub fn describe_socket(
    tcp: bool,
    local_ip: String,
    local_port: u16,
    remote_ip: String,
    remote_port: u16,
    pid: Option<u32>,
) -> (r: NetConnection)
    ensures
        r.pid == pid,
        encode_utf8(r.local_addr@) == spec_sock_addr(local_ip@, local_port),
        tcp ==> r.protocol@ == "TCP"@
            && encode_utf8(r.remote_addr@) == spec_sock_addr(remote_ip@, remote_port),
        !tcp ==> r.protocol@ == "UDP"@ && r.remote_addr@ == "N/A"@,
{
    let local_addr = sock_addr_string(local_ip, local_port);
    if tcp {
        NetConnection {
            protocol: String::from_str("TCP"),
            local_addr,
            remote_addr: sock_addr_string(remote_ip, remote_port),
            pid,
        }
    } else {
        NetConnection {
            protocol: String::from_str("UDP"),
            local_addr,
            remote_addr: String::from_str("N/A"),
            pid,
        }
    }
}


/// `pat` occurs in `s`.
pub open spec fn spec_contains(s: Seq<u8>, pat: Seq<u8>) -> bool {
    exists|i: int| 0 <= i && i + pat.len() <= s.len() && #[trigger] s.subrange(i, i + pat.len()) == pat
}

/// Substring search, byte for byte.
pub fn contains_seq(hay: &[u8], needle: &[u8]) -> (r: bool)
    ensures
        r == spec_contains(hay@, needle@),
{
    let n = needle.len();
    let h = hay.len();
    if n == 0 {
        proof {
            assert(hay@.subrange(0, 0 + needle@.len() as int) =~= needle@);
        }
        return true;
    }
    if n > h {
        proof {
            assert forall|i: int| 0 <= i && i + needle@.len() <= hay@.len()
                implies !(#[trigger] hay@.subrange(i, i + needle@.len()) == needle@) by {
            }
        }
        return false;
    }
    let mut i: usize = 0;
    while i <= h - n
        invariant
            1 <= n <= h,
            h == hay@.len(),
            n == needle@.len(),
            i <= h - n + 1,
            forall|q: int| 0 <= q < i ==> !(#[trigger] hay@.subrange(q, q + needle@.len()) == needle@),
        decreases h - n - i + 1,
    {
        let mut j: usize = 0;
        let mut hit = true;
        while j < n
            invariant
                hit ==> forall|k: int| 0 <= k < j ==> #[trigger] hay@[i + k] == needle@[k],
                !hit ==> !(hay@.subrange(i as int, i + needle@.len()) == needle@),
                j <= n,
                i + n <= h,
                h == hay@.len(),
                n == needle@.len(),
            decreases n - j,
        {
            if hay[i + j] != needle[j] {
                proof {
                    assert(hay@.subrange(i as int, i + needle@.len())[j as int] == hay@[i + j]);
                }
                hit = false;
                j = n;
            } else {
                j = j + 1;
            }
        }
        if hit {
            proof {
                assert forall|k: int| 0 <= k < n
                    implies hay@.subrange(i as int, i + needle@.len())[k] == needle@[k] by {
                    assert(hay@[i + k] == needle@[k]);
                }
                assert(hay@.subrange(i as int, i + needle@.len()) =~= needle@);
            }
            return true;
        }
        i = i + 1;
    }
    proof {
        assert forall|q: int| 0 <= q && q + needle@.len() <= hay@.len()
            implies !(#[trigger] hay@.subrange(q, q + needle@.len()) == needle@) by {
            assert(q < i);
        }
    }
    false
}

/// The bytes of `ESTABLISHED`.
pub open spec fn spec_established_bytes() -> Seq<u8> {
    seq![0x45u8, 0x53u8, 0x54u8, 0x41u8, 0x42u8, 0x4cu8, 0x49u8, 0x53u8, 0x48u8, 0x45u8, 0x44u8]
}

/// The bytes of `LISTEN`.
pub open spec fn spec_listen_bytes() -> Seq<u8> {
    seq![0x4cu8, 0x49u8, 0x53u8, 0x54u8, 0x45u8, 0x4eu8]
}

/// A line the connection log keeps: it names an established or a
/// listening socket.
pub open spec fn spec_is_active_line(line: Seq<u8>) -> bool {
    spec_contains(line, spec_established_bytes()) || spec_contains(line, spec_listen_bytes())
}

/// The active lines of a socket table, the two header lines skipped.
pub open spec fn spec_active_lines(lines: Seq<Seq<u8>>) -> Seq<Seq<u8>>
    decreases lines.len(),
{
    if lines.len() <= 2 {
        Seq::empty()
    } else {
        let rest = spec_active_lines(lines.drop_last());
        if spec_is_active_line(lines.last()) {
            rest.push(lines.last())
        } else {
            rest
        }
    }
}

/// Filters a socket table down to the lines worth logging: those after
/// the two headers that show an established or listening socket, in
/// table order.
pub fn active_connection_lines(output: &[u8]) -> (r: Vec<Vec<u8>>)
    ensures
        r@.map_values(|l: Vec<u8>| l@) == spec_active_lines(spec_lines(output@)),
{
    let lines = split_lines(output);
    let ghost lv = spec_lines(output@);
    let mut r: Vec<Vec<u8>> = Vec::new();
    proof {
        assert(r@.map_values(|l: Vec<u8>| l@) =~= Seq::<Seq<u8>>::empty());
    }
    if lines.len() <= 2 {
        return r;
    }
    let mut est: Vec<u8> = Vec::new();
    est.push(0x45);
    est.push(0x53);
    est.push(0x54);
    est.push(0x41);
    est.push(0x42);
    est.push(0x4c);
    est.push(0x49);
    est.push(0x53);
    est.push(0x48);
    est.push(0x45);
    est.push(0x44);
    let mut lis: Vec<u8> = Vec::new();
    lis.push(0x4c);
    lis.push(0x49);
    lis.push(0x53);
    lis.push(0x54);
    lis.push(0x45);
    lis.push(0x4e);
    proof {
        assert(est@ =~= spec_established_bytes());
        assert(lis@ =~= spec_listen_bytes());
    }
    let mut i: usize = 2;
    while i < lines.len()
        invariant
            2 <= i <= lines@.len(),
            lines@.map_values(|t: Vec<u8>| t@) == lv,
            est@ == spec_established_bytes(),
            lis@ == spec_listen_bytes(),
            r@.map_values(|l: Vec<u8>| l@) == spec_active_lines(lv.subrange(0, i as int)),
        decreases lines@.len() - i,
    {
        let ghost pre = lv.subrange(0, i as int);
        let ghost next = lv.subrange(0, i + 1);
        proof {
            assert(next.drop_last() =~= pre);
            assert(next.last() == lv[i as int]);
            assert(lines@.map_values(|t: Vec<u8>| t@)[i as int] == lv[i as int]);
        }
        let line = lines[i].as_slice();
        if contains_seq(line, est.as_slice()) || contains_seq(line, lis.as_slice()) {
            r.push(vstd::slice::slice_to_vec(line));
            proof {
                assert(r@.map_values(|l: Vec<u8>| l@) =~= spec_active_lines(pre).push(lv[i as int]));
                assert(spec_active_lines(next) == spec_active_lines(pre).push(lv[i as int]));
            }
        } else {
            proof {
                assert(spec_active_lines(next) == spec_active_lines(pre));
            }
        }
        i = i + 1;
    }
    proof {
        assert(lv.subrange(0, lv.len() as int) =~= lv);
    }
    r
}

} // verus!
