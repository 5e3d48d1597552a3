use vstd::arithmetic::div_mod::lemma_fundamental_div_mod;
use vstd::prelude::*;

verus! {

/// The bytes of `Content-Length: ` that open a frame header.
pub open spec fn length_prefix() -> Seq<u8> {
    seq![67u8, 111, 110, 116, 101, 110, 116, 45, 76, 101, 110, 103, 116, 104, 58, 32]
}

/// The bytes `\r\n\r\n` that close a frame header.
pub open spec fn header_end() -> Seq<u8> {
    seq![13u8, 10, 13, 10]
}

pub open spec fn is_digit_byte(b: u8) -> bool {
    48 <= b <= 57
}

/// The number that the ASCII digits `s` spell.
pub open spec fn digits_value(s: Seq<u8>) -> nat
    decreases s.len(),
{
    if s.len() == 0 {
        0
    } else {
        digits_value(s.drop_last()) * 10 + (s.last() - 48) as nat
    }
}

/// The ASCII decimal digits of `n`.
pub open spec fn decimal_bytes(n: nat) -> Seq<u8>
    decreases n,
{
    if n < 10 {
        seq![(48 + n) as u8]
    } else {
        decimal_bytes(n / 10).push((48 + n % 10) as u8)
    }
}

/// How many `\r\n` pairs `s` starts with.
pub open spec fn leading_line_ends(s: Seq<u8>) -> nat
    decreases s.len(),
{
    if s.len() >= 2 && s[0] == 13 && s[1] == 10 {
        1 + leading_line_ends(s.skip(2))
    } else {
        0
    }
}

/// How many ASCII digits `s` starts with.
pub open spec fn leading_digits(s: Seq<u8>) -> nat
    decreases s.len(),
{
    if s.len() > 0 && is_digit_byte(s[0]) {
        1 + leading_digits(s.drop_first())
    } else {
        0
    }
}

/// What reading a frame header from the front of a buffer gives.
#[derive(Debug, Clone, Copy, PartialEq, Eq, Structural)]
pub enum HeaderParse {
    /// A header announcing a body of `length` bytes, which starts at `consumed`.
    Complete { length: usize, consumed: usize },
    /// The buffer is a proper prefix of a header: more bytes are needed.
    Incomplete,
    /// The buffer cannot start a header.
    Invalid,
}

/// Any number of blank lines, then `Content-Length: `, one or more decimal
/// digits whose value fits in a `usize`, and `\r\n\r\n`.
pub open spec fn header_parse(buf: Seq<u8>) -> HeaderParse {
    let start = 2 * leading_line_ends(buf);
    let rest = buf.skip(start as int);
    if rest.len() < 16 {
        if rest == length_prefix().take(rest.len() as int) || rest == seq![13u8] {
            HeaderParse::Incomplete
        } else {
            HeaderParse::Invalid
        }
    } else if rest.take(16) != length_prefix() {
        HeaderParse::Invalid
    } else {
        let d = leading_digits(rest.skip(16));
        let value = digits_value(rest.skip(16).take(d as int));
        if value > usize::MAX {
            HeaderParse::Invalid
        } else if 16 + d == rest.len() {
            HeaderParse::Incomplete
        } else if d == 0 {
            HeaderParse::Invalid
        } else {
            let tail = rest.skip(16 + d as int);
            if tail.len() < 4 {
                if tail == header_end().take(tail.len() as int) {
                    HeaderParse::Incomplete
                } else {
                    HeaderParse::Invalid
                }
            } else if tail.take(4) == header_end() {
                HeaderParse::Complete {
                    length: value as usize,
                    consumed: (start + 16 + d + 4) as usize,
                }
            } else {
                HeaderParse::Invalid
            }
        }
    }
}

/// A message as it goes on the wire: its header, then its bytes.
pub open spec fn frame_bytes(body: Seq<u8>) -> Seq<u8> {
    length_prefix() + decimal_bytes(body.len()) + header_end() + body
}

proof fn lemma_line_ends_step(s: Seq<u8>, p: int)
    requires
        0 <= p,
        p + 1 < s.len(),
        s[p] == 13,
        s[p + 1] == 10,
    ensures
        leading_line_ends(s.skip(p)) == 1 + leading_line_ends(s.skip(p + 2)),
{
    assert(s.skip(p).skip(2) =~= s.skip(p + 2));
}

proof fn lemma_digits_step(s: Seq<u8>, k: int)
    requires
        0 <= k < s.len(),
        is_digit_byte(s[k]),
    ensures
        leading_digits(s.skip(k)) == 1 + leading_digits(s.skip(k + 1)),
        digits_value(s.take(k + 1)) == digits_value(s.take(k)) * 10 + (s[k] - 48) as nat,
{
    assert(s.skip(k).drop_first() =~= s.skip(k + 1));
    assert(s.take(k + 1).drop_last() =~= s.take(k));
}

proof fn lemma_digits_value_grows(s: Seq<u8>, k: int, d: int)
    requires
        0 <= k <= d <= s.len(),
        forall|m: int| k <= m < d ==> is_digit_byte(#[trigger] s[m]),
    ensures
        digits_value(s.take(k)) <= digits_value(s.take(d)),
    decreases d - k,
{
    if k < d {
        lemma_digits_value_grows(s, k, d - 1);
        assert(s.take(d).drop_last() =~= s.take(d - 1));
        assert(digits_value(s.take(d - 1)) <= digits_value(s.take(d - 1)) * 10) by (nonlinear_arith);
    }
}

/// How many bytes of `pat` match `buf` from `at` on.
fn matched_len(buf: &[u8], at: usize, pat: &[u8]) -> (k: usize)
    requires
        at <= buf@.len(),
    ensures
        k <= pat@.len(),
        at + k <= buf@.len(),
        buf@.skip(at as int).take(k as int) == pat@.take(k as int),
        k < pat@.len() && at + k < buf@.len() ==> buf@[at + k] != pat@[k as int],
{
    let n = buf.len();
    let avail = n - at;
    let mut k: usize = 0;
    while k < pat.len() && k < avail && buf[at + k] == pat[k]
        invariant
            n == buf@.len(),
            at <= n,
            avail == n - at,
            k <= pat@.len(),
            at + k <= buf@.len(),
            buf@.skip(at as int).take(k as int) == pat@.take(k as int),
        decreases pat@.len() - k,
    {
        assert(buf@.skip(at as int).take(k + 1) =~= buf@.skip(at as int).take(k as int).push(
            buf@[at + k],
        ));
        assert(pat@.take(k + 1) =~= pat@.take(k as int).push(pat@[k as int]));
        k = k + 1;
    }
    k
}

/// The length of the run of `\r\n` pairs at the front of `buf`.
fn skip_line_ends(buf: &[u8]) -> (p: usize)
    ensures
        p == 2 * leading_line_ends(buf@),
        p <= buf@.len(),
{
    let n = buf.len();
    let ghost s = buf@;
    let mut p: usize = 0;
    assert(s.skip(0) =~= s);
    while p + 1 < n && buf[p] == 13 && buf[p + 1] == 10
        invariant
            n == s.len(),
            s == buf@,
            p <= n,
            p % 2 == 0,
            leading_line_ends(s) == p / 2 + leading_line_ends(s.skip(p as int)),
        decreases n - p,
    {
        proof {
            lemma_line_ends_step(s, p as int);
        }
        p = p + 2;
    }
    assert(leading_line_ends(s.skip(p as int)) == 0);
    p
}

/// The run of digits at `start`: its length and value, or `None` when the
/// value exceeds `usize::MAX`.
fn read_digits(buf: &[u8], start: usize) -> (r: Option<(usize, usize)>)
    requires
        start <= buf@.len(),
    ensures
        ({
            let ds = buf@.skip(start as int);
            let d = leading_digits(ds);
            match r {
                Some((len, value)) => len == d && value == digits_value(ds.take(d as int)) && start
                    + len <= buf@.len(),
                None => digits_value(ds.take(d as int)) > usize::MAX,
            }
        }),
{
    let n = buf.len();
    let ghost ds = buf@.skip(start as int);
    let mut d: usize = 0;
    let mut value: usize = 0;
    assert(ds.skip(0) =~= ds);
    assert(ds.take(0) =~= Seq::<u8>::empty());
    while start + d < n && buf[start + d] >= 48 && buf[start + d] <= 57
        invariant
            start + d <= n,
            n == buf@.len(),
            ds == buf@.skip(start as int),
            leading_digits(ds) == d + leading_digits(ds.skip(d as int)),
            value == digits_value(ds.take(d as int)),
            forall|m: int| 0 <= m < d ==> is_digit_byte(#[trigger] ds[m]),
        decreases n - start - d,
    {
        let b = buf[start + d];
        assert(ds[d as int] == b);
        proof {
            lemma_digits_step(ds, d as int);
        }
        let digit = (b - 48) as usize;
        if value > (usize::MAX - digit) / 10 {
            proof {
                assert(value * 10 + digit > usize::MAX) by (nonlinear_arith)
                    requires
                        value > (usize::MAX - digit) / 10,
                        digit <= 9,
                ;
                let dd = leading_digits(ds);
                lemma_all_leading_digits(ds, (d + 1) as int);
                lemma_digits_value_grows(ds, (d + 1) as int, dd as int);
            }
            return None;
        }
        proof {
            assert(value * 10 + digit <= usize::MAX) by (nonlinear_arith)
                requires
                    value <= (usize::MAX - digit) / 10,
                    digit <= 9,
            ;
        }
        value = value * 10 + digit;
        d = d + 1;
    }
    proof {
        if start + d < n {
            assert(ds.skip(d as int).len() > 0 && !is_digit_byte(ds.skip(d as int)[0]));
        }
        assert(leading_digits(ds.skip(d as int)) == 0);
    }
    Some((d, value))
}

/// Reads a frame header from the front of `buf`.
pub fn parse_json_rpc_header(buf: &[u8]) -> (r: HeaderParse)
    ensures
        r == header_parse(buf@),
{
    let n = buf.len();
    let ghost s = buf@;
    let p = skip_line_ends(buf);
    let ghost rest = s.skip(p as int);
    let rlen = n - p;
    let prefix: [u8; 16] = [67u8, 111, 110, 116, 101, 110, 116, 45, 76, 101, 110, 103, 116, 104, 58, 32];
    assert(prefix@ == length_prefix());
    let k = matched_len(buf, p, prefix.as_slice());
    if rlen < 16 {
        if k == rlen {
            assert(rest.take(rlen as int) =~= rest);
            return HeaderParse::Incomplete;
        }
        if rlen == 1 && buf[p] == 13 {
            assert(rest =~= seq![13u8]);
            return HeaderParse::Incomplete;
        }
        assert(rest != length_prefix().take(rlen as int)) by {
            assert(rest[k as int] == s[p + k]);
            assert(length_prefix().take(rlen as int)[k as int] == length_prefix()[k as int]);
        }
        assert(rest != seq![13u8]) by {
            if rlen == 1 {
                assert(rest[0] == s[p as int]);
            }
        }
        return HeaderParse::Invalid;
    }
    if k < 16 {
        assert(rest.take(16)[k as int] == s[p + k]);
        return HeaderParse::Invalid;
    }
    assert(rest.take(16) =~= length_prefix());
    let ghost ds = rest.skip(16);
    let start = p + 16;
    assert(s.skip(start as int) =~= ds);
    let (d, value) = match read_digits(buf, start) {
        Some(x) => x,
        None => return HeaderParse::Invalid,
    };
    if start + d == n {
        return HeaderParse::Incomplete;
    }
    if d == 0 {
        return HeaderParse::Invalid;
    }
    let t = start + d;
    let ghost tail = rest.skip(16 + d as int);
    assert(tail =~= s.skip(t as int));
    let end: [u8; 4] = [13u8, 10, 13, 10];
    assert(end@ == header_end());
    let e = matched_len(buf, t, end.as_slice());
    let tlen = n - t;
    if e < 4 && e < tlen {
        assert(tail.len() < 4 ==> tail != header_end().take(tail.len() as int)) by {
            if tail.len() < 4 {
                assert(tail[e as int] == s[t + e]);
                assert(header_end().take(tail.len() as int)[e as int] == header_end()[e as int]);
            }
        }
        assert(tail.len() >= 4 ==> tail.take(4) != header_end()) by {
            if tail.len() >= 4 {
                assert(tail.take(4)[e as int] == s[t + e]);
            }
        }
        return HeaderParse::Invalid;
    }
    if tlen < 4 {
        assert(tail.take(tlen as int) =~= tail);
        return HeaderParse::Incomplete;
    }
    assert(tail.take(4) =~= header_end());
    HeaderParse::Complete { length: value, consumed: t + 4 }
}

proof fn lemma_all_leading_digits(s: Seq<u8>, k: int)
    requires
        0 <= k <= leading_digits(s),
    ensures
        forall|m: int| k <= m < leading_digits(s) ==> is_digit_byte(#[trigger] s[m]),
        leading_digits(s) <= s.len(),
    decreases s.len(),
{
    if s.len() > 0 && is_digit_byte(s[0]) {
        let t = s.drop_first();
        if k > 0 {
            lemma_all_leading_digits(t, k - 1);
        } else {
            lemma_all_leading_digits(t, 0);
        }
        assert forall|m: int| k <= m < leading_digits(s) implies is_digit_byte(#[trigger] s[m]) by {
            if m > 0 {
                assert(s[m] == t[m - 1]);
            }
        }
    }
}

fn decimal_bytes_of(n: usize) -> (r: Vec<u8>)
    ensures
        r@ == decimal_bytes(n as nat),
    decreases n,
{
    if n < 10 {
        let mut v: Vec<u8> = Vec::new();
        v.push((48 + n) as u8);
        v
    } else {
        let mut v = decimal_bytes_of(n / 10);
        v.push((48 + n % 10) as u8);
        v
    }
}

fn push_all(out: &mut Vec<u8>, bytes: &[u8])
    ensures
        final(out)@ == old(out)@ + bytes@,
{
    let ghost start = out@;
    for i in 0..bytes.len()
        invariant
            out@ == start + bytes@.take(i as int),
    {
        assert(bytes@.take(i + 1) =~= bytes@.take(i as int).push(bytes@[i as int]));
        out.push(bytes[i]);
    }
    assert(bytes@.take(bytes@.len() as int) =~= bytes@);
}

/// Wraps `body` in a frame: `Content-Length: <n>\r\n\r\n`, then the body.
pub fn encode_frame(body: &[u8]) -> (r: Vec<u8>)
    ensures
        r@ == frame_bytes(body@),
{
    let prefix: [u8; 16] = [67u8, 111, 110, 116, 101, 110, 116, 45, 76, 101, 110, 103, 116, 104, 58, 32];
    let end: [u8; 4] = [13u8, 10, 13, 10];
    assert(prefix@ == length_prefix());
    assert(end@ == header_end());
    let mut out: Vec<u8> = Vec::new();
    push_all(&mut out, prefix.as_slice());
    let digits = decimal_bytes_of(body.len());
    push_all(&mut out, digits.as_slice());
    push_all(&mut out, end.as_slice());
    push_all(&mut out, body);
    assert(out@ =~= frame_bytes(body@));
    out
}

proof fn lemma_decimal_bytes(n: nat)
    ensures
        decimal_bytes(n).len() >= 1,
        forall|m: int| 0 <= m < decimal_bytes(n).len() ==> is_digit_byte(#[trigger] decimal_bytes(n)[m]),
        digits_value(decimal_bytes(n)) == n,
    decreases n,
{
    if n < 10 {
        let e = decimal_bytes(n);
        assert(e.drop_last() =~= Seq::<u8>::empty());
        assert(e.last() == (48 + n) as u8);
        assert(digits_value(e.drop_last()) == 0);
        assert(digits_value(e) == (e.last() - 48) as nat);
    } else {
        lemma_decimal_bytes(n / 10);
        let d = decimal_bytes(n / 10);
        let e = decimal_bytes(n);
        assert(e.drop_last() =~= d);
        assert(n % 10 < 10);
        assert(e.last() == (48 + n % 10) as u8);
        assert(e.last() - 48 == n % 10);
        lemma_fundamental_div_mod(n as int, 10);
        assert(digits_value(e) == digits_value(d) * 10 + (n % 10));
        assert((n / 10) * 10 + n % 10 == n) by (nonlinear_arith)
            requires
                n == 10 * (n / 10) + n % 10,
        ;
        assert forall|m: int| 0 <= m < e.len() implies is_digit_byte(#[trigger] e[m]) by {
            if m < d.len() {
                assert(e[m] == d[m]);
            }
        }
    }
}

proof fn lemma_leading_digits_of(ds: Seq<u8>, t: Seq<u8>)
    requires
        forall|m: int| 0 <= m < ds.len() ==> is_digit_byte(#[trigger] ds[m]),
        t.len() > 0,
        !is_digit_byte(t[0]),
    ensures
        leading_digits(ds + t) == ds.len(),
    decreases ds.len(),
{
    if ds.len() == 0 {
        assert(ds + t =~= t);
    } else {
        assert((ds + t).drop_first() =~= ds.drop_first() + t);
        assert forall|m: int| 0 <= m < ds.drop_first().len() implies is_digit_byte(
            #[trigger] ds.drop_first()[m],
        ) by {
            assert(ds.drop_first()[m] == ds[m + 1]);
        }
        lemma_leading_digits_of(ds.drop_first(), t);
    }
}

#[verifier::rlimit(40)]
/// Reading the header of a framed message gives the length of its body, and
/// the body is what follows the header.
pub proof fn lemma_frame_round_trip(body: Seq<u8>)
    requires
        body.len() <= usize::MAX,
    ensures
        header_parse(frame_bytes(body)) == (HeaderParse::Complete {
            length: body.len() as usize,
            consumed: (frame_bytes(body).len() - body.len()) as usize,
        }),
        frame_bytes(body).skip(frame_bytes(body).len() - body.len()) == body,
{
    let n = body.len();
    let dec = decimal_bytes(n);
    let f = frame_bytes(body);
    lemma_decimal_bytes(n);
    let end_body = header_end() + body;
    assert(f =~= length_prefix() + (dec + end_body));
    assert(f[0] == 67);
    assert(leading_line_ends(f) == 0);
    let rest = f.skip(0);
    assert(rest =~= f);
    assert(rest.len() >= 16);
    assert(rest.take(16) =~= length_prefix());
    let ds = rest.skip(16);
    assert(ds =~= dec + end_body);
    assert(end_body[0] == 13);
    lemma_leading_digits_of(dec, end_body);
    let d = leading_digits(ds);
    assert(d == dec.len());
    assert(ds.take(d as int) =~= dec);
    assert(digits_value(ds.take(d as int)) == n);
    assert(16 + d != rest.len());
    let tail = rest.skip(16 + d as int);
    assert(tail =~= end_body);
    assert(tail.take(4) =~= header_end());
    assert(f.skip(f.len() - n) =~= body);
}

} // verus!
