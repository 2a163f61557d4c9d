use vstd::prelude::*;
use vstd::utf8::{decode_utf8, valid_utf8};

use crate::text::{copy_range, utf8_to_string};

verus! {

/// A carriage return or a line feed.
pub open spec fn is_crlf(c: u8) -> bool {
    c == 13 || c == 10
}

/// How many CR/LF bytes stand in a row at the end of `b[..i]`.
pub open spec fn crlf_run(b: Seq<u8>, i: int) -> nat
    decreases i,
{
    if i <= 0 || i > b.len() {
        0
    } else if is_crlf(b[i - 1]) {
        crlf_run(b, i - 1) + 1
    } else {
        0
    }
}

/// Scanning from `i`, the index just past the first run of four CR/LF
/// bytes, or `b.len()` when no such run ends at or after `i`.
pub open spec fn body_start_from(b: Seq<u8>, i: int) -> int
    decreases b.len() - i,
{
    if i >= b.len() {
        b.len() as int
    } else if crlf_run(b, i + 1) == 4 {
        i + 1
    } else {
        body_start_from(b, i + 1)
    }
}

/// Where the body begins: after the first four CR/LF bytes in a row, in
/// any mix of the two, or at the end when there is no such run.
pub open spec fn body_start(b: Seq<u8>) -> int {
    body_start_from(b, 0)
}

/// The body of the response `b`.
pub open spec fn body_of(b: Seq<u8>) -> Seq<u8> {
    b.subrange(body_start(b), b.len() as int)
}

/// The index of the first `x` at or after `from`, or `b.len()`.
pub open spec fn find_byte(b: Seq<u8>, x: u8, from: int) -> int
    decreases b.len() - from,
{
    if from >= b.len() {
        b.len() as int
    } else if b[from] == x {
        from
    } else {
        find_byte(b, x, from + 1)
    }
}

/// Where `find_byte` can land.
pub proof fn lemma_find_byte_bounds(b: Seq<u8>, x: u8, from: int)
    requires
        0 <= from <= b.len(),
    ensures
        from <= find_byte(b, x, from) <= b.len(),
        find_byte(b, x, from) < b.len() ==> b[find_byte(b, x, from)] == x,
    decreases b.len() - from,
{
    if from < b.len() && b[from] != x {
        lemma_find_byte_bounds(b, x, from + 1);
    }
}

/// The bytes between the first and the second space, if there are two.
pub open spec fn status_field(b: Seq<u8>) -> Option<Seq<u8>> {
    let s1 = find_byte(b, 32, 0);
    let s2 = find_byte(b, 32, s1 + 1);
    if s2 < b.len() {
        Some(b.subrange(s1 + 1, s2))
    } else {
        None
    }
}

pub open spec fn is_digit(c: u8) -> bool {
    48 <= c <= 57
}

pub open spec fn all_digits(d: Seq<u8>) -> bool {
    forall|i: int| 0 <= i < d.len() ==> is_digit(#[trigger] d[i])
}

/// The value of a run of decimal digits.
pub open spec fn digits_value(d: Seq<u8>) -> nat
    decreases d.len(),
{
    if d.len() == 0 {
        0
    } else {
        digits_value(d.drop_last()) * 10 + (d.last() - 48) as nat
    }
}

/// An unsigned decimal: an optional `+`, then one or more digits.
pub open spec fn unsigned_value(t: Seq<u8>) -> Option<nat> {
    let d = if t.len() > 0 && t[0] == 43 {
        t.drop_first()
    } else {
        t
    };
    if d.len() > 0 && all_digits(d) {
        Some(digits_value(d))
    } else {
        None
    }
}

/// `t` read as a `u16`: an unsigned decimal that fits.
pub open spec fn u16_of(t: Seq<u8>) -> Option<u16> {
    match unsigned_value(t) {
        Some(v) => if v <= 65535 {
            Some(v as u16)
        } else {
            None
        },
        None => None,
    }
}

/// The status code of the response `b`, or 0 when there is no second
/// space or the text between the spaces is no `u16`.
pub open spec fn status_code_of(b: Seq<u8>) -> u16 {
    match status_field(b) {
        Some(t) => match u16_of(t) {
            Some(v) => v,
            None => 0,
        },
        None => 0,
    }
}

proof fn lemma_digits_value_grows(d: Seq<u8>, k: int)
    requires
        0 <= k <= d.len(),
        forall|i: int| 0 <= i < d.len() ==> is_digit(#[trigger] d[i]),
    ensures
        digits_value(d.subrange(0, k)) <= digits_value(d),
    decreases d.len() - k,
{
    if k < d.len() {
        lemma_digits_value_grows(d, k + 1);
        assert(d.subrange(0, k + 1).drop_last() =~= d.subrange(0, k));
    } else {
        assert(d.subrange(0, k) =~= d);
    }
}

/// Reads `t[lo..hi]` as a `u16`.
fn parse_u16(t: &[u8], lo: usize, hi: usize) -> (r: Option<u16>)
    requires
        lo <= hi <= t@.len(),
    ensures
        r == u16_of(t@.subrange(lo as int, hi as int)),
{
    let ghost s = t@.subrange(lo as int, hi as int);
    let mut i: usize = lo;
    if lo < hi && t[lo] == 43 {
        i = lo + 1;
    }
    let ghost d = t@.subrange(i as int, hi as int);
    proof {
        if lo < hi {
            assert(s[0] == t@[lo as int]);
        }
        if s.len() > 0 && s[0] == 43 {
            assert(d =~= s.drop_first());
        } else {
            assert(d =~= s);
        }
    }
    if i == hi {
        return None;
    }
    let start = i;
    proof {
        if all_digits(d) {
            assert(unsigned_value(s) == Some(digits_value(d)));
        } else {
            let j = choose|j: int| 0 <= j < d.len() && !is_digit(#[trigger] d[j]);
            if s.len() > 0 && s[0] == 43 {
                assert(s.drop_first()[j] == d[j]);
            } else {
                assert(s[j] == d[j]);
            }
        }
    }
    let mut acc: u32 = 0;
    while i < hi
        invariant
            lo <= start <= i <= hi <= t@.len(),
            d == t@.subrange(start as int, hi as int),
            d.len() > 0,
            s == t@.subrange(lo as int, hi as int),
            unsigned_value(s) == if all_digits(d) {
                Some(digits_value(d))
            } else {
                None
            },
            acc as nat == digits_value(d.subrange(0, i - start)),
            acc <= 65535,
            forall|j: int| 0 <= j < i - start ==> is_digit(#[trigger] d[j]),
        decreases hi - i,
    {
        let c = t[i];
        assert(d[i - start] == c);
        if c < 48 || c > 57 {
            return None;
        }
        let ghost k = i - start;
        proof {
            assert(d.subrange(0, k + 1).drop_last() =~= d.subrange(0, k));
            assert(d.subrange(0, k + 1).last() == c);
        }
        acc = acc * 10 + (c - 48) as u32;
        i = i + 1;
        if acc > 65535 {
            proof {
                if all_digits(d) {
                    lemma_digits_value_grows(d, k + 1);
                }
            }
            return None;
        }
    }
    proof {
        assert(d.subrange(0, i - start) =~= d);
    }
    Some(acc as u16)
}

/// A complete response as read from the transport: status line, headers
/// and body, in wire order.
pub struct Response(pub Vec<u8>);

impl Response {
    /// The raw bytes.
    pub open spec fn bytes(&self) -> Seq<u8> {
        self.0@
    }

    /// Everything after the first run of four CR/LF bytes; empty when there
    /// is none.
    pub fn read_body(&self) -> (r: Vec<u8>)
        ensures
            r@ == body_of(self.bytes()),
    {
        let b = &self.0;
        let n = b.len();
        let mut count: u8 = 0;
        let mut i: usize = 0;
        while i < n && count < 4
            invariant
                n == b@.len(),
                i <= n,
                count as nat == crlf_run(b@, i as int),
                count <= 4,
                body_start(b@) == if count == 4 {
                    i as int
                } else {
                    body_start_from(b@, i as int)
                },
            decreases n - i,
        {
            if b[i] == 13 || b[i] == 10 {
                count = count + 1;
            } else {
                count = 0;
            }
            i = i + 1;
        }
        copy_range(b.as_slice(), i, n)
    }

    /// The body decoded as UTF-8; empty when it is not valid UTF-8.
    pub fn read_body_string(&self) -> (r: String)
        ensures
            valid_utf8(body_of(self.bytes())) ==> r@ == decode_utf8(body_of(self.bytes())),
            !valid_utf8(body_of(self.bytes())) ==> r@ == Seq::<char>::empty(),
    {
        let body = self.read_body();
        match utf8_to_string(body) {
            Some(s) => s,
            None => String::new(),
        }
    }

    /// The number between the first and the second space, or 0 when there
    /// is no second space or that text is no `u16`.
    pub fn read_status_code(&self) -> (r: u16)
        ensures
            r == status_code_of(self.bytes()),
    {
        let b = &self.0;
        let n = b.len();
        let s1 = find_from(b.as_slice(), 32, 0);
        if s1 == n {
            return 0;
        }
        let s2 = find_from(b.as_slice(), 32, s1 + 1);
        if s2 == n {
            return 0;
        }
        match parse_u16(b.as_slice(), s1 + 1, s2) {
            Some(v) => v,
            None => 0,
        }
    }
}

/// The index of the first `x` in `b` at or after `from`, or `b.len()`.
pub fn find_from(b: &[u8], x: u8, from: usize) -> (r: usize)
    requires
        from <= b@.len(),
    ensures
        r as int == find_byte(b@, x, from as int),
        from <= r <= b@.len(),
{
    let mut i = from;
    while i < b.len()
        invariant
            from <= i <= b@.len(),
            find_byte(b@, x, from as int) == find_byte(b@, x, i as int),
        decreases b@.len() - i,
    {
        if b[i] == x {
            return i;
        }
        i = i + 1;
    }
    i
}

/// A response with no run of four CR/LF bytes has an empty body.
pub proof fn lemma_no_blank_run_empty_body(b: Seq<u8>)
    requires
        forall|i: int| 0 <= i <= b.len() ==> #[trigger] crlf_run(b, i) < 4,
    ensures
        body_of(b) == Seq::<u8>::empty(),
{
    lemma_body_start_from_end(b, 0);
}

proof fn lemma_body_start_from_end(b: Seq<u8>, i: int)
    requires
        0 <= i <= b.len(),
        forall|k: int| 0 <= k <= b.len() ==> #[trigger] crlf_run(b, k) < 4,
    ensures
        body_start_from(b, i) == b.len(),
    decreases b.len() - i,
{
    if i < b.len() {
        assert(crlf_run(b, i + 1) < 4);
        lemma_body_start_from_end(b, i + 1);
    }
}

/// A response holding fewer than two spaces has status code 0.
pub proof fn lemma_no_second_space_status_zero(b: Seq<u8>)
    requires
        forall|i: int, j: int| 0 <= i < j < b.len() ==> !(b[i] == 32 && b[j] == 32),
    ensures
        status_code_of(b) == 0,
{
    let s1 = find_byte(b, 32, 0);
    lemma_find_byte_bounds(b, 32, 0);
    if s1 < b.len() {
        lemma_find_byte_bounds(b, 32, s1 + 1);
        let s2 = find_byte(b, 32, s1 + 1);
        if s2 < b.len() {
            assert(b[s1] == 32 && b[s2] == 32);
        }
    }
}

} // verus!
