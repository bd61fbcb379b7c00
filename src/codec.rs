//! Frame codec: `Content-Length: <N>\r\n\r\n` followed by exactly `N` payload bytes.

use vstd::prelude::*;

verus! {

/// The header name with its separator, as bytes: `Content-Length: `.
pub open spec fn length_prefix() -> Seq<u8> {
    seq![67u8, 111u8, 110u8, 116u8, 101u8, 110u8, 116u8, 45u8, 76u8, 101u8, 110u8, 103u8, 116u8, 104u8, 58u8, 32u8]
}

/// The byte pair that ends a header line.
pub open spec fn crlf() -> Seq<u8> {
    seq![13u8, 10u8]
}

pub open spec fn is_digit(b: u8) -> bool {
    48 <= b <= 57
}

/// Decimal representation of `n`, most significant digit first, no leading zeros.
pub open spec fn decimal(n: nat) -> Seq<u8>
    decreases n,
{
    if n < 10 {
        seq![(48 + n) as u8]
    } else {
        decimal(n / 10).push((48 + n % 10) as u8)
    }
}

/// The header announcing a payload of `n` bytes.
pub open spec fn header(n: nat) -> Seq<u8> {
    length_prefix() + decimal(n) + crlf() + crlf()
}

/// A payload framed for the wire.
pub open spec fn frame(payload: Seq<u8>) -> Seq<u8> {
    header(payload.len()) + payload
}

fn decimal_digits(n: usize) -> (r: Vec<u8>)
    ensures
        r@ == decimal(n as nat),
    decreases n,
{
    if n < 10 {
        let mut v: Vec<u8> = Vec::new();
        v.push((48 + n) as u8);
        proof {
            assert(v@ =~= decimal(n as nat));
        }
        v
    } else {
        let mut v = decimal_digits(n / 10);
        v.push((48 + n % 10) as u8);
        v
    }
}

fn push_all(dst: &mut Vec<u8>, src: &[u8])
    ensures
        final(dst)@ == old(dst)@ + src@,
{
    let mut i: usize = 0;
    while i < src.len()
        invariant
            0 <= i <= src@.len(),
            dst@ == old(dst)@ + src@.subrange(0, i as int),
        decreases src@.len() - i,
    {
        dst.push(src[i]);
        i = i + 1;
        proof {
            assert(src@.subrange(0, i as int) =~= src@.subrange(0, i - 1 as int).push(src@[i - 1]));
        }
    }
    proof {
        assert(src@.subrange(0, i as int) =~= src@);
    }
}

fn length_prefix_bytes() -> (r: Vec<u8>)
    ensures
        r@ == length_prefix(),
{
    let r: Vec<u8> = vec![67u8, 111u8, 110u8, 116u8, 101u8, 110u8, 116u8, 45u8, 76u8, 101u8, 110u8, 103u8, 116u8, 104u8, 58u8, 32u8];
    proof {
        assert(r@ =~= length_prefix());
    }
    r
}

/// Frames `payload` for the wire: the length header, then the payload verbatim.
pub fn encode(payload: &[u8]) -> (r: Vec<u8>)
    ensures
        r@ == frame(payload@),
{
    let mut out = length_prefix_bytes();
    let digits = decimal_digits(payload.len());
    push_all(&mut out, digits.as_slice());
    out.push(13u8);
    out.push(10u8);
    out.push(13u8);
    out.push(10u8);
    push_all(&mut out, payload);
    proof {
        assert(out@ =~= frame(payload@));
    }
    out
}


/// Why a header block was refused.
#[derive(Debug, Clone, Copy, PartialEq, Eq, Structural)]
pub enum ProtocolError {
    /// A non-empty header line without a `:` separator.
    MalformedHeader,
    /// The header block ended without a `Content-Length` line.
    MissingLength,
    /// The `Content-Length` value is empty, not decimal, or too large.
    InvalidLength,
}

/// What the bytes received so far amount to.
pub enum FrameParse {
    /// A whole frame: its payload, and how many bytes of the stream it took.
    Complete { payload: Seq<u8>, consumed: nat },
    /// More bytes are needed before a frame can be told apart.
    Incomplete,
    /// The header block cannot be a valid one, whatever follows.
    Malformed { error: ProtocolError },
}

pub open spec fn crlf_at(s: Seq<u8>, i: int) -> bool {
    0 <= i && i + 1 < s.len() && s[i] == 13u8 && s[i + 1] == 10u8
}

/// Position of the first CRLF that starts at or after `i`.
pub open spec fn next_crlf(s: Seq<u8>, i: int) -> Option<int>
    decreases s.len() - i,
{
    if i < 0 || i + 1 >= s.len() {
        None
    } else if crlf_at(s, i) {
        Some(i)
    } else {
        next_crlf(s, i + 1)
    }
}

pub open spec fn has_colon(line: Seq<u8>) -> bool {
    exists|k: int| 0 <= k < line.len() && line[k] == 58u8
}

pub open spec fn is_length_line(line: Seq<u8>) -> bool {
    line.len() >= length_prefix().len() && line.subrange(0, length_prefix().len() as int)
        == length_prefix()
}

/// Value of a string of decimal digits.
pub open spec fn digits_value(d: Seq<u8>) -> nat
    decreases d.len(),
{
    if d.len() == 0 {
        0
    } else {
        digits_value(d.drop_last()) * 10 + (d.last() - 48) as nat
    }
}

/// A length value the decoder accepts: one or more digits, small enough for memory.
pub open spec fn valid_length(d: Seq<u8>) -> bool {
    &&& d.len() > 0
    &&& forall|k: int| 0 <= k < d.len() ==> is_digit(#[trigger] d[k])
    &&& digits_value(d) <= usize::MAX
}

/// Reads the header lines of `s` starting at `i`, with the length found so far,
/// up to the blank line; then takes exactly the announced payload.
pub open spec fn parse_headers(s: Seq<u8>, i: int, len: Option<nat>) -> FrameParse
    decreases s.len() - i,
{
    match next_crlf(s, i) {
        None => FrameParse::Incomplete,
        Some(j) => {
            if j < i || j + 2 > s.len() {
                FrameParse::Incomplete
            } else if j == i {
                match len {
                    None => FrameParse::Malformed { error: ProtocolError::MissingLength },
                    Some(n) => {
                        if j + 2 + n <= s.len() {
                            FrameParse::Complete {
                                payload: s.subrange(j + 2, j + 2 + n),
                                consumed: (j + 2 + n) as nat,
                            }
                        } else {
                            FrameParse::Incomplete
                        }
                    },
                }
            } else {
                let line = s.subrange(i, j);
                if !has_colon(line) {
                    FrameParse::Malformed { error: ProtocolError::MalformedHeader }
                } else if len is None && is_length_line(line) {
                    let d = line.subrange(length_prefix().len() as int, line.len() as int);
                    if valid_length(d) {
                        parse_headers(s, j + 2, Some(digits_value(d)))
                    } else {
                        FrameParse::Malformed { error: ProtocolError::InvalidLength }
                    }
                } else {
                    parse_headers(s, j + 2, len)
                }
            }
        },
    }
}

/// What the start of stream `s` decodes to.
pub open spec fn parse_frame(s: Seq<u8>) -> FrameParse {
    parse_headers(s, 0, None)
}


/// The outcome of one decode attempt on the bytes received so far.
#[derive(Debug)]
pub enum DecodeStep {
    /// A complete frame: its payload, and how many bytes it took from the front.
    Frame { payload: Vec<u8>, consumed: usize },
    /// Not enough bytes yet; try again when more have arrived.
    Pending,
    /// The header block is malformed; the stream cannot be resynchronised.
    Error(ProtocolError),
}

impl DecodeStep {
    /// This step reports exactly the parse `f`.
    pub open spec fn describes(&self, f: FrameParse) -> bool {
        match (*self, f) {
            (DecodeStep::Frame { payload, consumed }, FrameParse::Complete { payload: p, consumed: c }) =>
                payload@ == p && consumed == c,
            (DecodeStep::Pending, FrameParse::Incomplete) => true,
            (DecodeStep::Error(e), FrameParse::Malformed { error }) => e == error,
            _ => false,
        }
    }
}

pub open spec fn spec_len(len: Option<usize>) -> Option<nat> {
    match len {
        Some(n) => Some(n as nat),
        None => None,
    }
}

fn find_crlf(s: &[u8], i: usize) -> (r: Option<usize>)
    requires
        i <= s@.len(),
    ensures
        match r {
            Some(j) => next_crlf(s@, i as int) == Some(j as int) && i <= j && crlf_at(s@, j as int),
            None => next_crlf(s@, i as int) is None,
        },
{
    let mut k: usize = i;
    while k < s.len()
        invariant
            i <= k <= s@.len(),
            next_crlf(s@, i as int) == next_crlf(s@, k as int),
        decreases s@.len() - k,
    {
        if k + 1 < s.len() && s[k] == 13u8 && s[k + 1] == 10u8 {
            return Some(k);
        }
        k = k + 1;
    }
    None
}

fn range_has_colon(s: &[u8], a: usize, b: usize) -> (r: bool)
    requires
        a <= b <= s@.len(),
    ensures
        r == has_colon(s@.subrange(a as int, b as int)),
{
    let ghost line = s@.subrange(a as int, b as int);
    let mut k: usize = a;
    while k < b
        invariant
            a <= k <= b <= s@.len(),
            line == s@.subrange(a as int, b as int),
            forall|m: int| 0 <= m < k - a ==> line[m] != 58u8,
        decreases b - k,
    {
        if s[k] == 58u8 {
            assert(line[k - a] == 58u8);
            return true;
        }
        k = k + 1;
    }
    false
}

fn range_is_length_line(s: &[u8], a: usize, b: usize) -> (r: bool)
    requires
        a <= b <= s@.len(),
    ensures
        r == is_length_line(s@.subrange(a as int, b as int)),
{
    let ghost line = s@.subrange(a as int, b as int);
    let prefix = length_prefix_bytes();
    if b - a < prefix.len() {
        return false;
    }
    let mut k: usize = 0;
    while k < prefix.len()
        invariant
            0 <= k <= prefix@.len(),
            prefix@ == length_prefix(),
            a + prefix@.len() <= b <= s@.len(),
            line == s@.subrange(a as int, b as int),
            forall|m: int| 0 <= m < k ==> line[m] == prefix@[m],
        decreases prefix@.len() - k,
    {
        if s[a + k] != prefix[k] {
            assert(line.subrange(0, length_prefix().len() as int)[k as int] != length_prefix()[k as int]);
            return false;
        }
        k = k + 1;
    }
    assert(line.subrange(0, length_prefix().len() as int) =~= length_prefix());
    true
}

proof fn lemma_digits_prefix_le(d: Seq<u8>, m: int)
    requires
        0 <= m <= d.len(),
    ensures
        digits_value(d.subrange(0, m)) <= digits_value(d),
    decreases d.len(),
{
    if m < d.len() {
        lemma_digits_prefix_le(d.drop_last(), m);
        assert(d.drop_last().subrange(0, m) =~= d.subrange(0, m));
    } else {
        assert(d.subrange(0, m) =~= d);
    }
}

fn parse_length(s: &[u8], a: usize, b: usize) -> (r: Option<usize>)
    requires
        a <= b <= s@.len(),
    ensures
        match r {
            Some(v) => valid_length(s@.subrange(a as int, b as int)) && v == digits_value(
                s@.subrange(a as int, b as int),
            ),
            None => !valid_length(s@.subrange(a as int, b as int)),
        },
{
    let ghost d = s@.subrange(a as int, b as int);
    if a == b {
        return None;
    }
    let mut v: usize = 0;
    let mut k: usize = a;
    while k < b
        invariant
            a <= k <= b <= s@.len(),
            d == s@.subrange(a as int, b as int),
            v == digits_value(d.subrange(0, k - a)),
            forall|m: int| 0 <= m < k - a ==> is_digit(#[trigger] d[m]),
        decreases b - k,
    {
        let c = s[k];
        if c < 48u8 || c > 57u8 {
            assert(!is_digit(d[k - a]));
            return None;
        }
        let digit = (c - 48u8) as usize;
        proof {
            assert(d.subrange(0, k + 1 - a).drop_last() =~= d.subrange(0, k - a));
        }
        if v > (usize::MAX - digit) / 10 {
            proof {
                assert(v * 10 + digit > usize::MAX) by (nonlinear_arith)
                    requires
                        v > (usize::MAX - digit) / 10,
                        digit <= 9,
                ;
                if forall|m: int| 0 <= m < d.len() ==> is_digit(#[trigger] d[m]) {
                    lemma_digits_prefix_le(d, k + 1 - a);
                }
            }
            return None;
        }
        proof {
            assert(v * 10 + digit <= usize::MAX) by (nonlinear_arith)
                requires
                    v <= (usize::MAX - digit) / 10,
                    digit <= 9,
            ;
        }
        v = v * 10 + digit;
        k = k + 1;
    }
    proof {
        assert(d.subrange(0, k - a) =~= d);
    }
    Some(v)
}

fn copy_range(s: &[u8], a: usize, b: usize) -> (r: Vec<u8>)
    requires
        a <= b <= s@.len(),
    ensures
        r@ == s@.subrange(a as int, b as int),
{
    let mut out: Vec<u8> = Vec::new();
    let mut k: usize = a;
    while k < b
        invariant
            a <= k <= b <= s@.len(),
            out@ == s@.subrange(a as int, k as int),
        decreases b - k,
    {
        out.push(s[k]);
        k = k + 1;
        proof {
            assert(out@ =~= s@.subrange(a as int, k as int));
        }
    }
    out
}

/// Decodes the frame at the front of `buf`: header lines up to the blank line,
/// the declared length, then exactly that many payload bytes. Bytes after the
/// frame are left for the next call.
pub fn decode_next(buf: &[u8]) -> (r: DecodeStep)
    ensures
        r.describes(parse_frame(buf@)),
{
    let mut i: usize = 0;
    let mut len: Option<usize> = None;
    loop
        invariant
            i <= buf@.len(),
            parse_frame(buf@) == parse_headers(buf@, i as int, spec_len(len)),
        decreases buf@.len() - i,
    {
        match find_crlf(buf, i) {
            None => {
                return DecodeStep::Pending;
            },
            Some(j) => {
                if j == i {
                    match len {
                        None => {
                            return DecodeStep::Error(ProtocolError::MissingLength);
                        },
                        Some(n) => {
                            if n <= buf.len() - (j + 2) {
                                let payload = copy_range(buf, j + 2, j + 2 + n);
                                return DecodeStep::Frame { payload, consumed: j + 2 + n };
                            } else {
                                return DecodeStep::Pending;
                            }
                        },
                    }
                }
                if !range_has_colon(buf, i, j) {
                    return DecodeStep::Error(ProtocolError::MalformedHeader);
                }
                if len.is_none() && range_is_length_line(buf, i, j) {
                    proof {
                        let line = buf@.subrange(i as int, j as int);
                        assert(line.subrange(length_prefix().len() as int, line.len() as int)
                            =~= buf@.subrange(i + 16, j as int));
                    }
                    match parse_length(buf, i + 16, j) {
                        Some(v) => {
                            len = Some(v);
                        },
                        None => {
                            return DecodeStep::Error(ProtocolError::InvalidLength);
                        },
                    }
                }
                assert(j + 2 <= buf.len());
                i = j + 2;
            },
        }
    }
}


proof fn lemma_next_crlf_prefix(s: Seq<u8>, k: int, i: int)
    requires
        0 <= i,
        0 <= k <= s.len(),
    ensures
        match next_crlf(s, i) {
            Some(j) => i <= j && crlf_at(s, j) && next_crlf(s.subrange(0, k), i) == (if j + 2 <= k {
                Some(j)
            } else {
                None
            }),
            None => next_crlf(s.subrange(0, k), i) is None,
        },
    decreases s.len() - i,
{
    let t = s.subrange(0, k);
    if i + 1 >= s.len() {
    } else if crlf_at(s, i) {
    } else {
        lemma_next_crlf_prefix(s, k, i + 1);
        if i + 1 < k {
            assert(!crlf_at(t, i));
        }
    }
}

proof fn lemma_parse_prefix(s: Seq<u8>, k: int, i: int, len: Option<nat>)
    requires
        0 <= i,
        0 <= k <= s.len(),
        parse_headers(s, i, len) is Complete,
    ensures
        parse_headers(s, i, len)->consumed >= i + 2,
        parse_headers(s, i, len)->consumed <= s.len(),
        parse_headers(s.subrange(0, k), i, len) == (if k >= parse_headers(s, i, len)->consumed {
            parse_headers(s, i, len)
        } else {
            FrameParse::Incomplete
        }),
    decreases s.len() - i,
{
    let t = s.subrange(0, k);
    lemma_next_crlf_prefix(s, k, i);
    let j = next_crlf(s, i)->Some_0;
    if j == i {
        if j + 2 <= k {
            let n = len->Some_0;
            if j + 2 + n <= k {
                assert(t.subrange(j + 2, j + 2 + n) =~= s.subrange(j + 2, j + 2 + n));
            }
        }
    } else {
        let line = s.subrange(i, j);
        let len2 = if len is None && is_length_line(line) {
            Some(digits_value(line.subrange(length_prefix().len() as int, line.len() as int)))
        } else {
            len
        };
        lemma_parse_prefix(s, k, j + 2, len2);
        if j + 2 <= k {
            assert(t.subrange(i, j) =~= line);
        }
    }
}

/// A stream delivered piece by piece decodes as it would all at once, and no
/// earlier: every prefix shorter than the frame is still pending, and every
/// prefix that holds the frame yields the same payload and length.
pub proof fn lemma_incremental_decode(s: Seq<u8>, k: int)
    requires
        0 <= k <= s.len(),
        parse_frame(s) is Complete,
    ensures
        parse_frame(s.subrange(0, k)) == (if k >= parse_frame(s)->consumed {
            parse_frame(s)
        } else {
            FrameParse::Incomplete
        }),
{
    lemma_parse_prefix(s, k, 0, None);
}

proof fn lemma_decimal(n: nat)
    ensures
        decimal(n).len() >= 1,
        forall|m: int| 0 <= m < decimal(n).len() ==> is_digit(#[trigger] decimal(n)[m]),
        digits_value(decimal(n)) == n,
    decreases n,
{
    if n >= 10 {
        lemma_decimal(n / 10);
        assert(decimal(n).drop_last() =~= decimal(n / 10));
        assert(decimal(n).last() == (48 + n % 10) as u8);
        assert(((48 + n % 10) as u8) as int == 48 + n % 10);
        assert(n == (n / 10) * 10 + n % 10);
        assert(digits_value(decimal(n)) == digits_value(decimal(n / 10)) * 10 + (n % 10));
    } else {
        assert(decimal(n).drop_last() =~= Seq::<u8>::empty());
        assert(((48 + n) as u8) as int == 48 + n);
        assert(decimal(n).last() == (48 + n) as u8);
        assert(digits_value(Seq::<u8>::empty()) == 0);
        assert(digits_value(decimal(n)) == digits_value(decimal(n).drop_last()) * 10 + n);
    }
}

proof fn lemma_next_crlf_at(s: Seq<u8>, i: int, j: int)
    requires
        0 <= i <= j,
        crlf_at(s, j),
        forall|m: int| i <= m < j ==> s[m] != 13u8,
    ensures
        next_crlf(s, i) == Some(j),
    decreases j - i,
{
    if i < j {
        lemma_next_crlf_at(s, i + 1, j);
    }
}

/// Decoding what `encode` produced gives the payload back byte for byte,
/// whatever bytes follow it in the stream.
pub proof fn lemma_round_trip(p: Seq<u8>, rest: Seq<u8>)
    requires
        p.len() <= usize::MAX,
    ensures
        parse_frame(frame(p) + rest) == (FrameParse::Complete {
            payload: p,
            consumed: frame(p).len(),
        }),
{
    let n = p.len();
    let s = frame(p) + rest;
    let d = decimal(n);
    let pre = length_prefix();
    let l = 16int;
    lemma_decimal(n);
    let e = l + d.len();
    assert(s.len() == e + 4 + n + rest.len());
    assert(s.subrange(0, l) =~= pre);
    assert(s.subrange(l, e) =~= d);
    assert(s.subrange(e + 4, e + 4 + n) =~= p);
    assert(s[e] == 13u8 && s[e + 1] == 10u8 && s[e + 2] == 13u8 && s[e + 3] == 10u8);
    assert forall|m: int| 0 <= m < e implies s[m] != 13u8 by {
        if m < l {
            assert(s[m] == s.subrange(0, l)[m]);
        } else {
            assert(s[m] == s.subrange(l, e)[m - l]);
        }
    }
    lemma_next_crlf_at(s, 0, e);
    let line = s.subrange(0, e);
    assert(line[14] == pre[14]);
    assert(has_colon(line));
    assert(line.subrange(0, l) =~= pre);
    assert(is_length_line(line));
    assert(line.subrange(l, line.len() as int) =~= d);
    assert(valid_length(d));
    lemma_next_crlf_at(s, e + 2, e + 2);
    assert(parse_headers(s, e + 2, Some(n)) == (FrameParse::Complete { payload: p, consumed: frame(p).len() }));
}

/// A frame whose header has arrived but whose payload is cut short is still
/// pending: the decoder never hands out a partial payload.
pub proof fn lemma_truncated_frame_pending(p: Seq<u8>, k: int)
    requires
        p.len() <= usize::MAX,
        0 <= k < p.len(),
    ensures
        parse_frame(header(p.len()) + p.subrange(0, k)) == FrameParse::Incomplete,
{
    let s = frame(p);
    lemma_round_trip(p, Seq::empty());
    assert(s + Seq::<u8>::empty() =~= s);
    let cut = header(p.len()).len() + k;
    assert(s.subrange(0, cut) =~= header(p.len()) + p.subrange(0, k));
    lemma_incremental_decode(s, cut);
}


proof fn lemma_next_crlf_extend(x: Seq<u8>, y: Seq<u8>, i: int)
    requires
        0 <= i,
        next_crlf(x, i) is Some,
    ensures
        next_crlf(x + y, i) == next_crlf(x, i),
{
    let s = x + y;
    assert(s.subrange(0, x.len() as int) =~= x);
    lemma_next_crlf_prefix(s, x.len() as int, i);
}

/// A frame, or a malformed header, at the front of `x` stays what it is
/// whatever bytes arrive after `x`.
pub proof fn lemma_parse_extend(x: Seq<u8>, y: Seq<u8>, i: int, len: Option<nat>)
    requires
        0 <= i,
        !(parse_headers(x, i, len) is Incomplete),
    ensures
        parse_headers(x + y, i, len) == parse_headers(x, i, len),
    decreases x.len() - i,
{
    let s = x + y;
    lemma_next_crlf_extend(x, y, i);
    lemma_next_crlf_prefix(x, x.len() as int, i);
    let j = next_crlf(x, i)->Some_0;
    if j == i {
        if let Some(n) = len {
            if j + 2 + n <= x.len() {
                assert(s.subrange(j + 2, j + 2 + n) =~= x.subrange(j + 2, j + 2 + n));
            }
        }
    } else {
        assert(s.subrange(i, j) =~= x.subrange(i, j));
        let line = x.subrange(i, j);
        if has_colon(line) {
            let len2 = if len is None && is_length_line(line) {
                Some(digits_value(line.subrange(length_prefix().len() as int, line.len() as int)))
            } else {
                len
            };
            if len is None && is_length_line(line) && !valid_length(
                line.subrange(length_prefix().len() as int, line.len() as int),
            ) {
            } else {
                lemma_parse_extend(x, y, j + 2, len2);
            }
        }
    }
}

/// Every complete frame takes at least one byte and no more than the stream holds.
pub proof fn lemma_consumed_in_bounds(s: Seq<u8>)
    requires
        parse_frame(s) is Complete,
    ensures
        0 < parse_frame(s)->consumed <= s.len(),
{
    lemma_parse_prefix(s, s.len() as int, 0, None);
}

/// Bytes received from the peer and not yet taken by a complete frame.
pub struct FrameDecoder {
    buf: Vec<u8>,
}

impl View for FrameDecoder {
    type V = Seq<u8>;

    closed spec fn view(&self) -> Seq<u8> {
        self.buf@
    }
}

impl FrameDecoder {
    pub fn new() -> (r: Self)
        ensures
            r@ == Seq::<u8>::empty(),
    {
        FrameDecoder { buf: Vec::new() }
    }

    /// Appends newly received bytes.
    pub fn feed(&mut self, bytes: &[u8])
        ensures
            final(self)@ == old(self)@ + bytes@,
    {
        push_all(&mut self.buf, bytes);
    }

    /// Number of buffered bytes.
    pub fn buffered(&self) -> (r: usize)
        ensures
            r == self@.len(),
    {
        self.buf.len()
    }

    /// Decodes the frame at the front of the buffer; a complete frame is
    /// removed, anything else leaves the buffer as it was.
    pub fn next_payload(&mut self) -> (r: DecodeStep)
        ensures
            r.describes(parse_frame(old(self)@)),
            match r {
                DecodeStep::Frame { consumed, .. } => final(self)@ == old(self)@.subrange(
                    consumed as int,
                    old(self)@.len() as int,
                ),
                _ => final(self)@ == old(self)@,
            },
    {
        let step = decode_next(self.buf.as_slice());
        match step {
            DecodeStep::Frame { payload, consumed } => {
                proof {
                    lemma_consumed_in_bounds(self.buf@);
                }
                let rest = copy_range(self.buf.as_slice(), consumed, self.buf.len());
                self.buf = rest;
                DecodeStep::Frame { payload, consumed }
            },
            other => other,
        }
    }
}

} // verus!
