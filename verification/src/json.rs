use vstd::prelude::*;

verus! {

/// Decimal digits of `n` in ASCII, most significant first, no leading zeros.
pub open spec fn spec_dec(n: nat) -> Seq<u8>
    decreases n,
{
    if n < 10 {
        seq![(n + 0x30) as u8]
    } else {
        spec_dec(n / 10).push((n % 10 + 0x30) as u8)
    }
}

/// Renders `n` in decimal ASCII.
pub fn u64_to_dec(n: u64) -> (r: Vec<u8>)
    ensures
        r@ == spec_dec(n as nat),
{
    let mut digits: Vec<u8> = Vec::new();
    let mut m: u64 = n;
    while m >= 10
        invariant
            spec_dec(n as nat) == spec_dec(m as nat) + digits@.reverse(),
        decreases m,
    {
        let d: u8 = (m % 10) as u8 + 0x30;
        digits.push(d);
        proof {
            let prev = digits@.drop_last();
            assert(digits@.reverse() =~= seq![d] + prev.reverse());
            assert(spec_dec(m as nat) == spec_dec((m / 10) as nat).push(d));
            assert(spec_dec((m / 10) as nat).push(d) =~= spec_dec((m / 10) as nat) + seq![d]);
            assert(spec_dec(n as nat) =~= spec_dec((m / 10) as nat) + digits@.reverse());
        }
        m = m / 10;
    }
    let mut r: Vec<u8> = Vec::new();
    r.push(m as u8 + 0x30);
    let len: usize = digits.len();
    let mut i: usize = len;
    while i > 0
        invariant
            i <= len,
            len == digits@.len(),
            m < 10,
            r@.len() == 1 + (len - i),
            r@[0] == (m + 0x30) as u8,
            forall|k: int| 0 <= k < len - i ==> #[trigger] r@[1 + k] == digits@[len - 1 - k],
        decreases i,
    {
        i = i - 1;
        r.push(digits[i]);
    }
    proof {
        let ghost full = seq![(m as nat + 0x30) as u8] + digits@.reverse();
        assert forall|j: int| 0 <= j < r@.len() implies r@[j] == full[j] by {
            if j > 0 {
                assert(r@[1 + (j - 1)] == digits@[len - 1 - (j - 1)]);
            }
        }
        assert(r@ =~= full);
        assert(spec_dec(m as nat) =~= seq![(m as nat + 0x30) as u8]);
    }
    r
}

/// True of bytes that canonical JSON writes without an escape sequence:
/// everything but the quote, the backslash and the ASCII control range.
pub open spec fn spec_plain_byte(b: u8) -> bool {
    b >= 0x20 && b != 0x22 && b != 0x5c
}

/// Hex digit (lower case) for a value below 16.
pub open spec fn spec_hex_digit(n: u8) -> u8 {
    if n < 10 {
        (n + 0x30) as u8
    } else {
        (n - 10 + 0x61) as u8
    }
}

/// Canonical JSON escape of one byte: plain bytes stand for themselves,
/// the short escapes cover quote, backslash, backspace, tab, newline,
/// form feed and carriage return, and the rest of the control range
/// takes the six-byte `\u00..` form.
pub open spec fn spec_escape_byte(b: u8) -> Seq<u8> {
    if spec_plain_byte(b) {
        seq![b]
    } else if b == 0x22 {
        seq![0x5c, 0x22]
    } else if b == 0x5c {
        seq![0x5c, 0x5c]
    } else if b == 0x08 {
        seq![0x5c, 0x62]
    } else if b == 0x09 {
        seq![0x5c, 0x74]
    } else if b == 0x0a {
        seq![0x5c, 0x6e]
    } else if b == 0x0c {
        seq![0x5c, 0x66]
    } else if b == 0x0d {
        seq![0x5c, 0x72]
    } else {
        seq![0x5c, 0x75, 0x30, 0x30, spec_hex_digit(b / 16), spec_hex_digit(b % 16)]
    }
}

/// Canonical JSON escape of a byte string, one byte at a time.
pub open spec fn spec_escape(s: Seq<u8>) -> Seq<u8>
    decreases s.len(),
{
    if s.len() == 0 {
        Seq::empty()
    } else {
        spec_escape_byte(s[0]) + spec_escape(s.drop_first())
    }
}

/// A JSON string token: the escaped content between two quotes.
pub open spec fn spec_json_string(s: Seq<u8>) -> Seq<u8> {
    seq![0x22u8] + spec_escape(s) + seq![0x22u8]
}

proof fn lemma_escape_push(s: Seq<u8>, b: u8)
    ensures
        spec_escape(s.push(b)) == spec_escape(s) + spec_escape_byte(b),
    decreases s.len(),
{
    if s.len() == 0 {
        assert(s.push(b)[0] == b);
        assert(s.push(b).drop_first() =~= Seq::<u8>::empty());
        assert(spec_escape(s.push(b)) == spec_escape_byte(b) + spec_escape(Seq::<u8>::empty()));
        assert(s =~= Seq::<u8>::empty());
        assert(spec_escape(s.push(b)) =~= spec_escape(s) + spec_escape_byte(b));
    } else {
        assert(s.push(b)[0] == s[0]);
        assert(s.push(b).drop_first() =~= s.drop_first().push(b));
        assert(spec_escape(s.push(b)) == spec_escape_byte(s[0]) + spec_escape(s.drop_first().push(b)));
        lemma_escape_push(s.drop_first(), b);
        assert(spec_escape(s.push(b)) =~= spec_escape(s) + spec_escape_byte(b));
    }
}

/// Appends the canonical escape of one byte to `out`.
fn push_escaped_byte(out: &mut Vec<u8>, b: u8)
    ensures
        final(out)@ == old(out)@ + spec_escape_byte(b),
{
    if b >= 0x20 && b != 0x22 && b != 0x5c {
        out.push(b);
        assert(out@ =~= old(out)@ + spec_escape_byte(b));
    } else if b == 0x22 || b == 0x5c {
        out.push(0x5c);
        out.push(b);
        assert(out@ =~= old(out)@ + spec_escape_byte(b));
    } else if b == 0x08 {
        out.push(0x5c);
        out.push(0x62);
        assert(out@ =~= old(out)@ + spec_escape_byte(b));
    } else if b == 0x09 {
        out.push(0x5c);
        out.push(0x74);
        assert(out@ =~= old(out)@ + spec_escape_byte(b));
    } else if b == 0x0a {
        out.push(0x5c);
        out.push(0x6e);
        assert(out@ =~= old(out)@ + spec_escape_byte(b));
    } else if b == 0x0c {
        out.push(0x5c);
        out.push(0x66);
        assert(out@ =~= old(out)@ + spec_escape_byte(b));
    } else if b == 0x0d {
        out.push(0x5c);
        out.push(0x72);
        assert(out@ =~= old(out)@ + spec_escape_byte(b));
    } else {
        out.push(0x5c);
        out.push(0x75);
        out.push(0x30);
        out.push(0x30);
        let hi: u8 = b / 16;
        let lo: u8 = b % 16;
        out.push(if hi < 10 { hi + 0x30 } else { hi - 10 + 0x61 });
        out.push(if lo < 10 { lo + 0x30 } else { lo - 10 + 0x61 });
        assert(out@ =~= old(out)@ + spec_escape_byte(b));
    }
}

/// Appends the canonical JSON string token for `s` (quotes included) to `out`.
pub fn push_json_string(out: &mut Vec<u8>, s: &[u8])
    ensures
        final(out)@ == old(out)@ + spec_json_string(s@),
{
    out.push(0x22);
    let mut i: usize = 0;
    while i < s.len()
        invariant
            i <= s@.len(),
            out@ == old(out)@ + seq![0x22u8] + spec_escape(s@.subrange(0, i as int)),
        decreases s@.len() - i,
    {
        let ghost prefix = s@.subrange(0, i as int);
        push_escaped_byte(out, s[i]);
        proof {
            assert(s@.subrange(0, i + 1) =~= prefix.push(s@[i as int]));
            lemma_escape_push(prefix, s@[i as int]);
        }
        i = i + 1;
    }
    proof {
        assert(s@.subrange(0, s@.len() as int) =~= s@);
    }
    out.push(0x22);
    assert(out@ =~= old(out)@ + spec_json_string(s@));
}

/// Appends the decimal rendering of `n` to `out`.
pub fn push_dec(out: &mut Vec<u8>, n: u64)
    ensures
        final(out)@ == old(out)@ + spec_dec(n as nat),
{
    let digits = u64_to_dec(n);
    let mut i: usize = 0;
    while i < digits.len()
        invariant
            i <= digits@.len(),
            digits@ == spec_dec(n as nat),
            out@ == old(out)@ + digits@.subrange(0, i as int),
        decreases digits@.len() - i,
    {
        out.push(digits[i]);
        proof {
            assert(digits@.subrange(0, i + 1) =~= digits@.subrange(0, i as int).push(digits@[i as int]));
        }
        i = i + 1;
    }
    proof {
        assert(digits@.subrange(0, digits@.len() as int) =~= digits@);
    }
}

/// Appends a byte-string literal (ASCII punctuation of the JSON syntax) to `out`.
pub fn push_lit(out: &mut Vec<u8>, lit: &[u8])
    ensures
        final(out)@ == old(out)@ + lit@,
{
    let mut i: usize = 0;
    while i < lit.len()
        invariant
            i <= lit@.len(),
            out@ == old(out)@ + lit@.subrange(0, i as int),
        decreases lit@.len() - i,
    {
        out.push(lit[i]);
        proof {
            assert(lit@.subrange(0, i + 1) =~= lit@.subrange(0, i as int).push(lit@[i as int]));
        }
        i = i + 1;
    }
    proof {
        assert(lit@.subrange(0, lit@.len() as int) =~= lit@);
    }
}

/// ASCII decimal digit.
pub open spec fn spec_is_digit(b: u8) -> bool {
    0x30 <= b <= 0x39
}

/// Numeric value of a digit string, most significant first.
pub open spec fn spec_digits_val(s: Seq<u8>) -> nat
    decreases s.len(),
{
    if s.len() == 0 {
        0
    } else {
        spec_digits_val(s.drop_last()) * 10 + (s.last() - 0x30) as nat
    }
}

/// The canonical decimal rendering is a nonempty digit string without a
/// leading zero (except for zero itself), and its value is the number.
pub proof fn lemma_dec_props(n: nat)
    ensures
        spec_dec(n).len() >= 1,
        forall|i: int| 0 <= i < spec_dec(n).len() ==> spec_is_digit(#[trigger] spec_dec(n)[i]),
        spec_dec(n)[0] == 0x30 ==> n == 0 && spec_dec(n).len() == 1,
        spec_digits_val(spec_dec(n)) == n,
    decreases n,
{
    if n < 10 {
        assert(spec_dec(n) =~= seq![(n + 0x30) as u8]);
        assert(spec_dec(n).drop_last() =~= Seq::<u8>::empty());
        assert(spec_dec(n).last() == (n + 0x30) as u8);
        assert(spec_digits_val(Seq::<u8>::empty()) == 0);
        assert((((n + 0x30) as u8) - 0x30) as nat == n);
    } else {
        lemma_dec_props(n / 10);
        assert(spec_dec(n) == spec_dec(n / 10).push((n % 10 + 0x30) as u8));
        assert(spec_dec(n).drop_last() =~= spec_dec(n / 10));
        assert(spec_dec(n).last() == (n % 10 + 0x30) as u8);
        assert(spec_digits_val(spec_dec(n)) == (n / 10) * 10 + n % 10);
        assert((n / 10) * 10 + n % 10 == n) by (nonlinear_arith);
        assert(spec_dec(n)[0] == spec_dec(n / 10)[0]);
        assert(n / 10 >= 1);
    }
}

/// A nonempty digit string without a leading zero is the canonical
/// rendering of its value.
pub proof fn lemma_digits_val_inverse(s: Seq<u8>)
    requires
        s.len() >= 1,
        forall|i: int| 0 <= i < s.len() ==> spec_is_digit(#[trigger] s[i]),
        s[0] == 0x30 ==> s.len() == 1,
    ensures
        spec_dec(spec_digits_val(s)) == s,
    decreases s.len(),
{
    if s.len() == 1 {
        assert(s.drop_last() =~= Seq::<u8>::empty());
        assert(spec_digits_val(Seq::<u8>::empty()) == 0);
        assert(s.last() == s[0]);
        assert(spec_digits_val(s) == (s[0] - 0x30) as nat);
        assert(spec_dec(spec_digits_val(s)) =~= s);
    } else {
        let p = s.drop_last();
        let d = (s.last() - 0x30) as nat;
        assert(p[0] == s[0]);
        assert(p.len() >= 1);
        lemma_digits_val_inverse(p);
        assert(spec_digits_val(p) >= 1) by {
            if spec_digits_val(p) == 0 {
                assert(spec_dec(0) =~= seq![0x30u8]);
                assert(p[0] == 0x30);
            }
        }
        let v = spec_digits_val(s);
        assert(v == spec_digits_val(p) * 10 + d);
        assert(v >= 10 && v / 10 == spec_digits_val(p) && v % 10 == d) by (nonlinear_arith)
            requires
                v == spec_digits_val(p) * 10 + d,
                spec_digits_val(p) >= 1,
                d < 10,
        ;
        assert(spec_dec(v) == spec_dec(spec_digits_val(p)).push((d + 0x30) as u8));
        assert(spec_dec(v) =~= s);
    }
}

/// The value of a digit string bounds the value of each of its prefixes.
pub proof fn lemma_digits_val_prefix(s: Seq<u8>, k: int)
    requires
        0 <= k <= s.len(),
        forall|i: int| 0 <= i < s.len() ==> spec_is_digit(#[trigger] s[i]),
    ensures
        spec_digits_val(s.subrange(0, k)) <= spec_digits_val(s),
    decreases s.len() - k,
{
    if k == s.len() {
        assert(s.subrange(0, k) =~= s);
    } else {
        lemma_digits_val_prefix(s, k + 1);
        let t = s.subrange(0, k + 1);
        assert(t.drop_last() =~= s.subrange(0, k));
        assert(spec_digits_val(s.subrange(0, k)) * 10 + (t.last() - 0x30) as nat >= spec_digits_val(s.subrange(0, k))) by (nonlinear_arith);
    }
}

/// Reads a canonical decimal number at `pos`: a maximal digit run without
/// a leading zero whose value fits in `u64`. The result is exactly the
/// number whose canonical rendering stands at `pos`, when there is one.
pub fn parse_dec(s: &[u8], pos: usize) -> (r: Option<(u64, usize)>)
    requires
        pos <= s@.len(),
    ensures
        r matches Some(t) ==> {
            &&& pos < t.1 <= s@.len()
            &&& s@.subrange(pos as int, t.1 as int) == spec_dec(t.0 as nat)
            &&& (t.1 == s@.len() || !spec_is_digit(s@[t.1 as int]))
        },
        forall|n: u64, p2: int|
            #![trigger s@.subrange(pos as int, p2), spec_dec(n as nat)]
            pos <= p2 <= s@.len() && s@.subrange(pos as int, p2) == spec_dec(n as nat)
                && (p2 == s@.len() || !spec_is_digit(s@[p2]))
            ==> r == Some((n, p2 as usize)),
{
    let len = s.len();
    if pos >= len || !(0x30 <= s[pos] && s[pos] <= 0x39) {
        proof {
            assert forall|n: u64, p2: int|
                pos <= p2 <= s@.len() && s@.subrange(pos as int, p2) == spec_dec(n as nat)
                    && (p2 == s@.len() || !spec_is_digit(s@[p2]))
                implies false by {
                lemma_dec_props(n as nat);
                assert(s@.subrange(pos as int, p2).len() >= 1);
                assert(s@[pos as int] == spec_dec(n as nat)[0]);
            }
        }
        return None;
    }
    if s[pos] == 0x30 {
        if pos + 1 < len && 0x30 <= s[pos + 1] && s[pos + 1] <= 0x39 {
            proof {
                assert forall|n: u64, p2: int|
                    pos <= p2 <= s@.len() && s@.subrange(pos as int, p2) == spec_dec(n as nat)
                        && (p2 == s@.len() || !spec_is_digit(s@[p2]))
                    implies false by {
                    lemma_dec_props(n as nat);
                    assert(s@[pos as int] == spec_dec(n as nat)[0]);
                    assert(spec_dec(n as nat).len() == 1);
                    assert(p2 == pos + 1);
                }
            }
            return None;
        }
        proof {
            lemma_dec_props(0);
            assert(s@.subrange(pos as int, pos + 1) =~= spec_dec(0));
            assert forall|n: u64, p2: int|
                pos <= p2 <= s@.len() && s@.subrange(pos as int, p2) == spec_dec(n as nat)
                    && (p2 == s@.len() || !spec_is_digit(s@[p2]))
                implies n == 0 && p2 == pos + 1 by {
                lemma_dec_props(n as nat);
                assert(s@[pos as int] == spec_dec(n as nat)[0]);
            }
        }
        return Some((0, pos + 1));
    }
    let mut acc: u64 = (s[pos] - 0x30) as u64;
    let mut i: usize = pos + 1;
    proof {
        assert(s@.subrange(pos as int, pos + 1).drop_last() =~= Seq::<u8>::empty());
        assert(s@.subrange(pos as int, pos + 1).last() == s@[pos as int]);
        assert(spec_digits_val(Seq::<u8>::empty()) == 0);
        assert(spec_digits_val(s@.subrange(pos as int, pos + 1)) == acc);
    }
    while i < len && 0x30 <= s[i] && s[i] <= 0x39
        invariant
            pos < i <= len <= s@.len(),
            len == s@.len(),
            s@[pos as int] != 0x30,
            forall|k: int| pos <= k < i ==> spec_is_digit(#[trigger] s@[k]),
            acc == spec_digits_val(s@.subrange(pos as int, i as int)),
        decreases len - i,
    {
        let d: u64 = (s[i] - 0x30) as u64;
        let ghost run_next = s@.subrange(pos as int, i + 1);
        proof {
            assert(run_next.drop_last() =~= s@.subrange(pos as int, i as int));
            assert(spec_digits_val(run_next) == acc * 10 + d);
        }
        if acc > (u64::MAX - d) / 10 {
            proof {
                assert(acc * 10 + d > u64::MAX) by (nonlinear_arith)
                    requires
                        acc > (u64::MAX - d) / 10,
                        d <= 9,
                ;
                assert forall|n: u64, p2: int|
                    pos <= p2 <= s@.len() && s@.subrange(pos as int, p2) == spec_dec(n as nat)
                        && (p2 == s@.len() || !spec_is_digit(s@[p2]))
                    implies false by {
                    lemma_dec_props(n as nat);
                    let run = s@.subrange(pos as int, p2);
                    assert forall|k: int| 0 <= k < run.len() implies spec_is_digit(#[trigger] run[k]) by {
                        assert(run[k] == spec_dec(n as nat)[k]);
                    }
                    if p2 <= i {
                        assert(spec_is_digit(s@[p2]));
                    } else {
                        lemma_digits_val_prefix(run, i + 1 - pos);
                        assert(run.subrange(0, i + 1 - pos) =~= run_next);
                        assert(spec_digits_val(run) == n);
                    }
                }
            }
            return None;
        }
        acc = acc * 10 + d;
        i = i + 1;
    }
    proof {
        let run = s@.subrange(pos as int, i as int);
        assert(run[0] == s@[pos as int]);
        lemma_digits_val_inverse(run);
        assert(spec_dec(acc as nat) == run);
        assert forall|n: u64, p2: int|
            pos <= p2 <= s@.len() && s@.subrange(pos as int, p2) == spec_dec(n as nat)
                && (p2 == s@.len() || !spec_is_digit(s@[p2]))
            implies n == acc && p2 == i by {
            lemma_dec_props(n as nat);
            let cand = s@.subrange(pos as int, p2);
            assert forall|k: int| 0 <= k < cand.len() implies spec_is_digit(#[trigger] cand[k]) by {
                assert(cand[k] == spec_dec(n as nat)[k]);
            }
            assert forall|k: int| pos <= k < p2 implies spec_is_digit(#[trigger] s@[k]) by {
                assert(cand[k - pos] == s@[k]);
            }
            if p2 < i {
                assert(spec_is_digit(s@[p2]));
                assert(false);
            }
            if p2 > i {
                assert(spec_is_digit(s@[i as int]));
                assert(i < len);
                assert(false);
            }
            assert(cand == run);
            assert(spec_digits_val(cand) == n as nat);
        }
    }
    Some((acc, i))
}

/// Printable ASCII that canonical JSON writes unescaped.
pub open spec fn spec_plain_ascii(b: u8) -> bool {
    0x20 <= b <= 0x7e && b != 0x22 && b != 0x5c
}

/// A byte string of printable ASCII without quote or backslash.
pub open spec fn spec_plain_seq(s: Seq<u8>) -> bool {
    forall|i: int| 0 <= i < s.len() ==> spec_plain_ascii(#[trigger] s[i])
}

/// Escaping is the identity on plain ASCII content.
pub proof fn lemma_plain_escape_id(s: Seq<u8>)
    requires
        spec_plain_seq(s),
    ensures
        spec_escape(s) == s,
    decreases s.len(),
{
    if s.len() == 0 {
        assert(spec_escape(s) =~= s);
    } else {
        assert(spec_plain_ascii(s[0]));
        assert(spec_plain_seq(s.drop_first())) by {
            assert(forall|i: int| 0 <= i < s.drop_first().len() ==> #[trigger] s.drop_first()[i] == s[i + 1]);
        }
        lemma_plain_escape_id(s.drop_first());
        assert(spec_escape_byte(s[0]) =~= seq![s[0]]);
        assert(spec_escape(s) =~= s);
    }
}

/// Relies on String::from_utf8: ASCII bytes are valid UTF-8, and the
/// string returned for them carries exactly those bytes.
#[verifier::external_body]
pub(crate) fn ascii_to_string(v: &[u8]) -> (r: String)
    requires
        forall|i: int| 0 <= i < v@.len() ==> v@[i] < 0x80,
    ensures
        vstd::utf8::encode_utf8(r@) == v@,
{
    String::from_utf8(v.to_vec()).unwrap_or_default()
}

/// Reads a quoted run of plain ASCII at `pos`. The result is exactly the
/// content of the quoted plain string standing at `pos`, when there is one.
pub fn parse_plain_string(s: &[u8], pos: usize) -> (r: Option<(String, usize)>)
    requires
        pos <= s@.len(),
    ensures
        r matches Some(t) ==> {
            &&& pos + 2 <= t.1 <= s@.len()
            &&& spec_plain_seq(vstd::utf8::encode_utf8(t.0@))
            &&& s@.subrange(pos as int, t.1 as int) == spec_json_string(vstd::utf8::encode_utf8(t.0@))
        },
        forall|content: Seq<u8>, p2: int|
            #![trigger s@.subrange(pos as int, p2), spec_plain_seq(content)]
            spec_plain_seq(content) && pos + 2 + content.len() == p2 <= s@.len()
                && s@.subrange(pos as int, p2) == spec_json_string(content)
            ==> (r matches Some(t) && vstd::utf8::encode_utf8(t.0@) == content && t.1 == p2),
{
    let len = s.len();
    proof {
        assert forall|content: Seq<u8>, p2: int|
            spec_plain_seq(content) && pos + 2 + content.len() == p2 <= s@.len()
                && s@.subrange(pos as int, p2) == spec_json_string(content)
            implies {
                &&& s@[pos as int] == 0x22
                &&& s@[p2 - 1] == 0x22
                &&& forall|k: int| pos + 1 <= k < p2 - 1 ==> spec_plain_ascii(#[trigger] s@[k])
            } by {
            lemma_plain_escape_id(content);
            let tok = spec_json_string(content);
            assert(s@[pos as int] == tok[0]);
            assert(tok[0] == 0x22);
            assert(s@[p2 - 1] == tok[tok.len() - 1]);
            assert(tok[tok.len() - 1] == 0x22);
            assert forall|k: int| pos + 1 <= k < p2 - 1 implies spec_plain_ascii(#[trigger] s@[k]) by {
                assert(s@[k] == tok[k - pos]);
                assert(tok[k - pos] == content[k - pos - 1]);
            }
        }
    }
    if pos >= len || s[pos] != 0x22 {
        return None;
    }
    let mut out: Vec<u8> = Vec::new();
    let mut i: usize = pos + 1;
    while i < len && 0x20 <= s[i] && s[i] <= 0x7e && s[i] != 0x22 && s[i] != 0x5c
        invariant
            pos + 1 <= i <= len <= s@.len(),
            len == s@.len(),
            out@ == s@.subrange(pos + 1, i as int),
            forall|k: int| pos + 1 <= k < i ==> spec_plain_ascii(#[trigger] s@[k]),
        decreases len - i,
    {
        out.push(s[i]);
        proof {
            assert(out@ =~= s@.subrange(pos + 1, i + 1));
        }
        i = i + 1;
    }
    if i < len && s[i] == 0x22 {
        proof {
            assert(spec_plain_seq(out@));
            lemma_plain_escape_id(out@);
        }
        let st = ascii_to_string(out.as_slice());
        proof {
            let content = vstd::utf8::encode_utf8(st@);
            assert(spec_json_string(content) =~= seq![0x22u8] + content + seq![0x22u8]);
            assert(s@.subrange(pos as int, i + 1) =~= seq![0x22u8] + s@.subrange(pos + 1, i as int) + seq![0x22u8]);
            assert forall|content2: Seq<u8>, p2: int|
                spec_plain_seq(content2) && pos + 2 + content2.len() == p2 <= s@.len()
                    && s@.subrange(pos as int, p2) == spec_json_string(content2)
                implies content2 == content && p2 == i + 1 by {
                lemma_plain_escape_id(content2);
                if p2 - 1 < i {
                    assert(spec_plain_ascii(s@[p2 - 1]));
                } else if p2 - 1 > i {
                    assert(spec_plain_ascii(s@[i as int]));
                }
                assert(p2 == i + 1);
                let tok = spec_json_string(content2);
                assert forall|k: int| 0 <= k < content2.len() implies content2[k] == content[k] by {
                    assert(s@.subrange(pos as int, p2)[k + 1] == tok[k + 1]);
                    assert(tok[k + 1] == content2[k]);
                    assert(s@[pos + 1 + k] == content2[k]);
                }
                assert(content2 =~= content);
            }
        }
        return Some((st, i + 1));
    }
    proof {
        assert forall|content: Seq<u8>, p2: int|
            spec_plain_seq(content) && pos + 2 + content.len() == p2 <= s@.len()
                && s@.subrange(pos as int, p2) == spec_json_string(content)
            implies false by {
            if p2 - 1 < i {
                assert(spec_plain_ascii(s@[p2 - 1]));
            } else if i < len {
                assert(spec_plain_ascii(s@[i as int]));
            }
        }
    }
    None
}

/// Matches the fixed byte run `lit` at `pos`.
pub fn eat(s: &[u8], pos: usize, lit: &Vec<u8>) -> (r: Option<usize>)
    requires
        pos <= s@.len(),
    ensures
        r matches Some(p2) ==> p2 == pos + lit@.len() && p2 <= s@.len()
            && s@.subrange(pos as int, p2 as int) == lit@,
        r is None ==> !(pos + lit@.len() <= s@.len()
            && s@.subrange(pos as int, pos + lit@.len()) == lit@),
{
    let n = lit.len();
    let slen = s.len();
    if n > slen - pos {
        return None;
    }
    let mut j: usize = 0;
    while j < n
        invariant
            0 <= j <= n,
            n == lit@.len(),
            slen == s@.len(),
            pos + n <= slen,
            forall|k: int| 0 <= k < j ==> #[trigger] s@[pos + k] == lit@[k],
        decreases n - j,
    {
        if s[pos + j] != lit[j] {
            proof {
                if s@.subrange(pos as int, pos + lit@.len()) == lit@ {
                    assert(s@.subrange(pos as int, pos + lit@.len())[j as int] == s@[pos + j]);
                    assert(false);
                }
            }
            return None;
        }
        j = j + 1;
    }
    proof {
        assert forall|k: int| 0 <= k < n implies s@.subrange(pos as int, pos + n)[k] == lit@[k] by {
            assert(s@[pos + k] == lit@[k]);
        }
        assert(s@.subrange(pos as int, pos + n) =~= lit@);
    }
    Some(pos + n)
}

} // verus!
