use vstd::arithmetic::power::{lemma_pow_increases, pow};
use vstd::prelude::*;

use crate::font::string_views;
use crate::text::{hex_char, hex_fixed, hex_string};

verus! {

/// The number of hexadecimal digits in a record's length header.
pub const HEADER_LEN: usize = 8;

/// The largest payload, in characters, that a header can announce.
pub const MAX_PAYLOAD: usize = 0xffff_ffff;

/// The value of a hexadecimal digit character, if it is one.
pub open spec fn hex_digit_value(c: char) -> Option<nat> {
    if '0' <= c && c <= '9' {
        Some((c as nat - '0' as nat) as nat)
    } else if 'a' <= c && c <= 'f' {
        Some((c as nat - 'a' as nat + 10) as nat)
    } else {
        None
    }
}

/// Whether every character of `s` is a lower-case hexadecimal digit.
pub open spec fn all_hex(s: Seq<char>) -> bool {
    forall|i: int| 0 <= i < s.len() ==> (#[trigger] hex_digit_value(s[i])) is Some
}

/// The number that a string of hexadecimal digits denotes.
pub open spec fn hex_value(s: Seq<char>) -> nat
    decreases s.len(),
{
    if s.len() == 0 {
        0
    } else {
        hex_value(s.drop_last()) * 16 + hex_digit_value(s.last())->Some_0
    }
}

/// One record: its length in eight hexadecimal digits, then the payload.
pub open spec fn frame(p: Seq<char>) -> Seq<char> {
    hex_fixed(p.len(), HEADER_LEN as nat) + p
}

/// Records one after another; no separator is needed between them.
pub open spec fn frame_all(ps: Seq<Seq<char>>) -> Seq<char>
    decreases ps.len(),
{
    if ps.len() == 0 {
        seq![]
    } else {
        frame(ps[0]) + frame_all(ps.drop_first())
    }
}

/// Whether every payload fits under a header.
pub open spec fn all_fit(ps: Seq<Seq<char>>) -> bool {
    forall|i: int| 0 <= i < ps.len() ==> (#[trigger] ps[i]).len() <= MAX_PAYLOAD
}

/// Splits a concatenation of records back into payloads; `None` where a
/// header is cut short, is not hexadecimal, or announces more than is left.
pub open spec fn split_all(s: Seq<char>) -> Option<Seq<Seq<char>>>
    decreases s.len(),
{
    if s.len() == 0 {
        Some(seq![])
    } else if s.len() < HEADER_LEN || !all_hex(s.subrange(0, HEADER_LEN as int)) {
        None
    } else {
        let n = hex_value(s.subrange(0, HEADER_LEN as int));
        if HEADER_LEN + n > s.len() {
            None
        } else {
            match split_all(s.subrange(HEADER_LEN + n, s.len() as int)) {
                Some(rest) => Some(seq![s.subrange(HEADER_LEN as int, HEADER_LEN + n)] + rest),
                None => None,
            }
        }
    }
}

proof fn lemma_hex_digit_round_trip(d: nat)
    requires
        d < 16,
    ensures
        hex_digit_value(hex_char(d)) == Some(d),
{
}

/// Fixed-width hexadecimal digits read back as the number they came from.
pub proof fn lemma_hex_round_trip(n: nat, width: nat)
    requires
        n < pow(16, width),
    ensures
        all_hex(hex_fixed(n, width)),
        hex_value(hex_fixed(n, width)) == n,
        hex_fixed(n, width).len() == width,
    decreases width,
{
    reveal(pow);
    if width == 0 {
    } else {
        let w1 = (width - 1) as nat;
        let p = pow(16, w1);
        assert(n / 16 < p) by (nonlinear_arith)
            requires n < 16 * p;
        lemma_hex_round_trip(n / 16, w1);
        lemma_hex_digit_round_trip(n % 16);
        let h = hex_fixed(n, width);
        assert(h.drop_last() =~= hex_fixed(n / 16, w1));
        assert(h.last() == hex_char(n % 16));
        assert forall|i: int| 0 <= i < h.len() implies (#[trigger] hex_digit_value(h[i])) is Some by {
            if i < h.len() - 1 {
                assert(h[i] == hex_fixed(n / 16, w1)[i]);
            }
        }
    }
}

pub(crate) proof fn lemma_header_bound(n: nat)
    requires
        n <= MAX_PAYLOAD,
    ensures
        n < pow(16, HEADER_LEN as nat),
{
    reveal_with_fuel(pow, 9);
    assert(pow(16, 8) == 0x1_0000_0000);
}

/// A number that hexadecimal digits denote is below sixteen to the power of
/// their count.
pub proof fn lemma_hex_value_bound(h: Seq<char>)
    requires
        all_hex(h),
    ensures
        hex_value(h) < pow(16, h.len()),
    decreases h.len(),
{
    reveal(pow);
    if h.len() > 0 {
        let t = h.drop_last();
        assert(all_hex(t)) by {
            assert forall|i: int| 0 <= i < t.len() implies (#[trigger] hex_digit_value(t[i])) is Some by {
                assert(t[i] == h[i]);
            }
        }
        lemma_hex_value_bound(t);
        assert(hex_digit_value(h[h.len() - 1]) is Some);
        let d = hex_digit_value(h.last())->Some_0;
        let v = hex_value(t);
        let p = pow(16, t.len());
        assert(d < 16);
        assert(v * 16 + d < 16 * p) by (nonlinear_arith)
            requires v < p, d < 16;
    }
}

/// Hexadecimal digits are the fixed-width digits of the number they denote.
pub proof fn lemma_hex_value_digits(h: Seq<char>)
    requires
        all_hex(h),
    ensures
        hex_fixed(hex_value(h), h.len()) == h,
    decreases h.len(),
{
    if h.len() > 0 {
        let t = h.drop_last();
        assert(all_hex(t)) by {
            assert forall|i: int| 0 <= i < t.len() implies (#[trigger] hex_digit_value(t[i])) is Some by {
                assert(t[i] == h[i]);
            }
        }
        lemma_hex_value_digits(t);
        assert(hex_digit_value(h[h.len() - 1]) is Some);
        let c = h.last();
        let d = hex_digit_value(c)->Some_0;
        let v = hex_value(t);
        assert(d < 16);
        assert((v * 16 + d) / 16 == v && (v * 16 + d) % 16 == d) by (nonlinear_arith)
            requires d < 16;
        assert(hex_char(d) == c);
        assert(hex_fixed(hex_value(h), h.len()) =~= h);
    }
}

/// Framing the payloads that splitting found gives back what was split,
/// and each of them fits under a header.
pub proof fn lemma_frame_split_all(s: Seq<char>)
    requires
        split_all(s) is Some,
    ensures
        frame_all(split_all(s)->Some_0) == s,
        all_fit(split_all(s)->Some_0),
    decreases s.len(),
{
    if s.len() > 0 {
        let h = s.subrange(0, HEADER_LEN as int);
        let n = hex_value(h);
        let tail = s.subrange(HEADER_LEN + n, s.len() as int);
        let p = s.subrange(HEADER_LEN as int, HEADER_LEN + n);
        lemma_frame_split_all(tail);
        let rest = split_all(tail)->Some_0;
        let ps = split_all(s)->Some_0;
        assert(ps == seq![p] + rest);
        lemma_hex_value_digits(h);
        lemma_hex_value_bound(h);
        reveal_with_fuel(pow, 9);
        assert(pow(16, 8) == 0x1_0000_0000);
        assert(ps[0] == p);
        assert(ps.drop_first() =~= rest);
        assert(frame(p) =~= h + p);
        assert(s =~= h + p + tail);
        assert forall|i: int| 0 <= i < ps.len() implies (#[trigger] ps[i]).len() <= MAX_PAYLOAD by {
            if i > 0 {
                assert(ps[i] == rest[i - 1]);
            }
        }
    }
}

/// Splitting what framing joined gives back the payloads.
pub proof fn lemma_split_frame_all(ps: Seq<Seq<char>>)
    requires
        all_fit(ps),
    ensures
        split_all(frame_all(ps)) == Some(ps),
    decreases ps.len(),
{
    if ps.len() == 0 {
    } else {
        let p = ps[0];
        let rest = ps.drop_first();
        assert(all_fit(rest)) by {
            assert forall|i: int| 0 <= i < rest.len() implies (#[trigger] rest[i]).len() <= MAX_PAYLOAD by {
                assert(rest[i] == ps[i + 1]);
            }
        }
        lemma_split_frame_all(rest);
        lemma_header_bound(p.len());
        lemma_hex_round_trip(p.len(), HEADER_LEN as nat);
        let s = frame_all(ps);
        let h = hex_fixed(p.len(), HEADER_LEN as nat);
        assert(s == h + p + frame_all(rest));
        assert(s.subrange(0, HEADER_LEN as int) =~= h);
        assert(s.subrange(HEADER_LEN as int, HEADER_LEN + p.len()) =~= p);
        assert(s.subrange(HEADER_LEN + p.len(), s.len() as int) =~= frame_all(rest));
        assert(seq![p] + rest =~= ps);
    }
}

/// Framing a list of payloads is framing its two halves, one after the other.
pub proof fn lemma_frame_all_append(a: Seq<Seq<char>>, b: Seq<Seq<char>>)
    ensures
        frame_all(a + b) == frame_all(a) + frame_all(b),
    decreases a.len(),
{
    if a.len() == 0 {
        assert(a + b =~= b);
    } else {
        assert((a + b).drop_first() =~= a.drop_first() + b);
        lemma_frame_all_append(a.drop_first(), b);
        assert((a + b)[0] == a[0]);
    }
}

/// Records written independently and placed one after the other, in any
/// grouping, split back into all their payloads in that order.
pub proof fn lemma_merged_records_split(a: Seq<Seq<char>>, b: Seq<Seq<char>>)
    requires
        all_fit(a),
        all_fit(b),
    ensures
        split_all(frame_all(a) + frame_all(b)) == Some(a + b),
{
    lemma_frame_all_append(a, b);
    assert(all_fit(a + b)) by {
        assert forall|i: int| 0 <= i < (a + b).len() implies (#[trigger] (a + b)[i]).len()
            <= MAX_PAYLOAD by {
            if i < a.len() {
                assert((a + b)[i] == a[i]);
            } else {
                assert((a + b)[i] == b[i - a.len()]);
            }
        }
    }
    lemma_split_frame_all(a + b);
}

/// Frames one payload as a record: its length in eight hexadecimal digits,
/// then the payload itself.
pub fn frame_record(payload: &str) -> (r: String)
    requires
        payload@.len() <= MAX_PAYLOAD,
    ensures
        r@ == frame(payload@),
{
    let n = payload.unicode_len();
    let mut r = hex_string(n as u64, HEADER_LEN);
    r.append(payload);
    r
}

/// The value of one hexadecimal digit character, if it is one.
fn hex_digit(c: char) -> (r: Option<u64>)
    ensures
        match hex_digit_value(c) {
            Some(v) => r == Some(v as u64),
            None => r is None,
        },
{
    if '0' <= c && c <= '9' {
        Some((c as u32 - '0' as u32) as u64)
    } else if 'a' <= c && c <= 'f' {
        Some((c as u32 - 'a' as u32 + 10) as u64)
    } else {
        None
    }
}

/// Reads the length header that starts at `start`.
pub(crate) fn read_header(s: &str, start: usize) -> (r: Option<usize>)
    requires
        start + HEADER_LEN <= s@.len(),
        s@.len() <= usize::MAX,
    ensures
        all_hex(s@.subrange(start as int, start + HEADER_LEN)) ==> r == Some(
            hex_value(s@.subrange(start as int, start + HEADER_LEN)) as usize,
        ),
        all_hex(s@.subrange(start as int, start + HEADER_LEN)) ==> hex_value(
            s@.subrange(start as int, start + HEADER_LEN),
        ) <= MAX_PAYLOAD,
        !all_hex(s@.subrange(start as int, start + HEADER_LEN)) ==> r is None,
{
    let ghost h = s@.subrange(start as int, start + HEADER_LEN);
    let mut acc: u64 = 0;
    let mut k: usize = 0;
    proof {
        reveal(pow);
        assert(h.subrange(0, 0) =~= seq![]);
    }
    while k < HEADER_LEN
        invariant
            start + HEADER_LEN <= s@.len(),
            s@.len() <= usize::MAX,
            h == s@.subrange(start as int, start + HEADER_LEN),
            k <= HEADER_LEN,
            all_hex(h.subrange(0, k as int)),
            acc == hex_value(h.subrange(0, k as int)),
            acc < pow(16, k as nat),
        decreases HEADER_LEN - k,
    {
        let c = s.get_char(start + k);
        assert(c == h[k as int]);
        match hex_digit(c) {
            None => {
                assert(!all_hex(h));
                return None;
            },
            Some(v) => {
                proof {
                    lemma_pow_increases(16, k as nat, 7);
                    reveal_with_fuel(pow, 8);
                    assert(pow(16, 7) == 0x1000_0000);
                    let p = pow(16, k as nat);
                    assert(acc * 16 + v < 16 * p) by (nonlinear_arith)
                        requires acc < p, v < 16;
                    reveal(pow);
                    assert(pow(16, (k + 1) as nat) == 16 * p);
                }
                let ghost prev = h.subrange(0, k as int);
                acc = acc * 16 + v;
                proof {
                    let next = h.subrange(0, k + 1);
                    assert(next.drop_last() =~= prev);
                    assert(next.last() == c);
                    assert forall|i: int| 0 <= i < next.len() implies (#[trigger] hex_digit_value(
                        next[i],
                    )) is Some by {
                        if i < k {
                            assert(next[i] == prev[i]);
                        }
                    }
                }
            },
        }
        k = k + 1;
    }
    proof {
        assert(h.subrange(0, HEADER_LEN as int) =~= h);
        reveal_with_fuel(pow, 9);
        assert(pow(16, 8) == 0x1_0000_0000);
    }
    Some(acc as usize)
}

/// Splits a concatenation of records into their payloads, in order; `None`
/// where the concatenation is not made of whole records.
pub fn split_records(blob: &str) -> (r: Option<Vec<String>>)
    ensures
        match split_all(blob@) {
            Some(ps) => r is Some && string_views(r->Some_0@) == ps,
            None => r is None,
        },
{
    let n = blob.unicode_len();
    let mut out: Vec<String> = Vec::new();
    let mut pos: usize = 0;
    proof {
        assert(blob@.subrange(0, n as int) =~= blob@);
    }
    while pos < n
        invariant
            n == blob@.len(),
            pos <= n,
            split_all(blob@) == match split_all(blob@.subrange(pos as int, n as int)) {
                Some(rest) => Some(string_views(out@) + rest),
                None => None::<Seq<Seq<char>>>,
            },
        decreases n - pos,
    {
        let ghost t = blob@.subrange(pos as int, n as int);
        if n - pos < HEADER_LEN {
            return None;
        }
        proof {
            assert(t.subrange(0, HEADER_LEN as int) =~= blob@.subrange(pos as int, pos + HEADER_LEN));
        }
        match read_header(blob, pos) {
            None => {
                return None;
            },
            Some(len) => {
                if len > n - pos - HEADER_LEN {
                    return None;
                }
                let start = pos + HEADER_LEN;
                let payload = String::from_str(blob.substring_char(start, start + len));
                let ghost prev = out@;
                out.push(payload);
                proof {
                    assert(t.subrange(HEADER_LEN as int, HEADER_LEN + len) =~= payload@);
                    assert(t.subrange(HEADER_LEN + len, t.len() as int) =~= blob@.subrange(
                        start + len,
                        n as int,
                    ));
                    assert(string_views(out@) =~= string_views(prev).push(payload@));
                    match split_all(blob@.subrange(start + len, n as int)) {
                        Some(rest) => {
                            assert(string_views(prev) + (seq![payload@] + rest) =~= string_views(out@)
                                + rest);
                        },
                        None => {},
                    }
                }
                pos = start + len;
            },
        }
    }
    proof {
        assert(blob@.subrange(n as int, n as int) =~= seq![]);
        assert(string_views(out@) + seq![] =~= string_views(out@));
    }
    Some(out)
}

} // verus!
