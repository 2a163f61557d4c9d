use vstd::prelude::*;
use vstd::string::StringSliceAdditionalSpecFns;
use vstd::utf8::{decode_utf8, valid_utf8};

use crate::response::Response;
use crate::text::{copy_range, lemma_valid_between, utf8_to_string};

verus! {

/// The map that a list of entries stands for: a later entry for a key
/// replaces an earlier one.
pub open spec fn entries_map(s: Seq<(Seq<char>, Seq<char>)>) -> Map<Seq<char>, Seq<char>>
    decreases s.len(),
{
    if s.len() == 0 {
        Map::empty()
    } else {
        entries_map(s.drop_last()).insert(s.last().0, s.last().1)
    }
}

/// No key stands in two entries.
pub open spec fn keys_unique(s: Seq<(Seq<char>, Seq<char>)>) -> bool {
    forall|i: int, j: int| 0 <= i < j < s.len() ==> s[i].0 != s[j].0
}

proof fn lemma_absent(s: Seq<(Seq<char>, Seq<char>)>, k: Seq<char>)
    requires
        forall|i: int| 0 <= i < s.len() ==> s[i].0 != k,
    ensures
        !entries_map(s).dom().contains(k),
    decreases s.len(),
{
    if s.len() > 0 {
        let t = s.drop_last();
        assert forall|i: int| 0 <= i < t.len() implies t[i].0 != k by {
            assert(t[i] == s[i]);
        }
        lemma_absent(t, k);
    }
}

proof fn lemma_len(s: Seq<(Seq<char>, Seq<char>)>)
    requires
        keys_unique(s),
    ensures
        entries_map(s).dom().finite(),
        entries_map(s).len() == s.len(),
    decreases s.len(),
{
    if s.len() > 0 {
        let t = s.drop_last();
        assert forall|i: int| 0 <= i < t.len() implies t[i].0 != s.last().0 by {
            assert(t[i] == s[i]);
        }
        lemma_absent(t, s.last().0);
        assert(keys_unique(t)) by {
            assert forall|i: int, j: int| 0 <= i < j < t.len() implies t[i].0 != t[j].0 by {
                assert(t[i] == s[i] && t[j] == s[j]);
            }
        }
        lemma_len(t);
    }
}

/// Whether two strings hold the same characters.
pub fn same_text(a: &str, b: &str) -> (r: bool)
    ensures
        r == (a@ == b@),
{
    let x = a.as_bytes();
    let y = b.as_bytes();
    proof {
        vstd::utf8::encode_utf8_decode_utf8(a@);
        vstd::utf8::encode_utf8_decode_utf8(b@);
    }
    if x.len() != y.len() {
        return false;
    }
    let mut i: usize = 0;
    while i < x.len()
        invariant
            x@ == a.spec_bytes(),
            y@ == b.spec_bytes(),
            x@.len() == y@.len(),
            i <= x@.len(),
            forall|j: int| 0 <= j < i ==> x@[j] == y@[j],
        decreases x@.len() - i,
    {
        if x[i] != y[i] {
            proof {
                if a@ == b@ {
                    assert(x@ == y@);
                    assert(x@[i as int] == y@[i as int]);
                }
            }
            return false;
        }
        i = i + 1;
    }
    assert(x@ =~= y@);
    true
}

proof fn lemma_present(s: Seq<(Seq<char>, Seq<char>)>, i: int)
    requires
        keys_unique(s),
        0 <= i < s.len(),
    ensures
        entries_map(s).dom().contains(s[i].0),
        entries_map(s)[s[i].0] == s[i].1,
    decreases s.len(),
{
    if i < s.len() - 1 {
        let t = s.drop_last();
        assert(t[i] == s[i]);
        lemma_present(t, i);
    }
}

proof fn lemma_update(s: Seq<(Seq<char>, Seq<char>)>, i: int, v: Seq<char>)
    requires
        keys_unique(s),
        0 <= i < s.len(),
    ensures
        entries_map(s.update(i, (s[i].0, v))) == entries_map(s).insert(s[i].0, v),
    decreases s.len(),
{
    let u = s.update(i, (s[i].0, v));
    let t = s.drop_last();
    if i == s.len() - 1 {
        assert(u.drop_last() =~= t);
        assert(entries_map(u) =~= entries_map(s).insert(s[i].0, v));
    } else {
        assert(u.drop_last() =~= t.update(i, (t[i].0, v)));
        assert(t[i] == s[i]);
        lemma_update(t, i, v);
        assert(s[i].0 != s.last().0);
        assert(entries_map(u) =~= entries_map(s).insert(s[i].0, v));
    }
}

/// Header names and values: one value per name, case-sensitive names.
#[derive(Clone, Debug)]
pub struct Headers {
    entries: Vec<(String, String)>,
}

impl Headers {
    pub closed spec fn pairs(&self) -> Seq<(Seq<char>, Seq<char>)> {
        self.entries@.map_values(|e: (String, String)| (e.0@, e.1@))
    }

    /// The name-to-value map.
    pub closed spec fn view(&self) -> Map<Seq<char>, Seq<char>> {
        entries_map(self.pairs())
    }

    pub closed spec fn wf(&self) -> bool {
        keys_unique(self.pairs())
    }

    /// No headers.
    pub fn new() -> (r: Headers)
        ensures
            r.wf(),
            r.view() == Map::<Seq<char>, Seq<char>>::empty(),
    {
        let r = Headers { entries: Vec::new() };
        proof {
            assert(r.pairs() =~= Seq::empty());
        }
        r
    }

    fn position(&self, key: &str) -> (r: Option<usize>)
        requires
            self.wf(),
        ensures
            r matches Some(i) ==> i < self.pairs().len() && self.pairs()[i as int].0 == key@,
            r is None ==> forall|i: int| 0 <= i < self.pairs().len() ==> self.pairs()[i].0 != key@,
    {
        let mut i: usize = 0;
        while i < self.entries.len()
            invariant
                i <= self.entries@.len(),
                forall|j: int| 0 <= j < i ==> self.pairs()[j].0 != key@,
            decreases self.entries@.len() - i,
        {
            assert(self.pairs()[i as int].0 == self.entries@[i as int].0@);
            if same_text(self.entries[i].0.as_str(), key) {
                return Some(i);
            }
            i = i + 1;
        }
        None
    }

    /// Sets `key` to `value`, replacing an earlier value.
    pub fn insert(&mut self, key: String, value: String)
        requires
            old(self).wf(),
        ensures
            final(self).wf(),
            final(self).view() == old(self).view().insert(key@, value@),
    {
        let ghost s = self.pairs();
        match self.position(key.as_str()) {
            Some(i) => {
                self.entries.set(i, (key, value));
                proof {
                    assert(self.pairs() =~= s.update(i as int, (s[i as int].0, value@)));
                    lemma_update(s, i as int, value@);
                }
            },
            None => {
                self.entries.push((key, value));
                proof {
                    assert(self.pairs() =~= s.push((key@, value@)));
                    assert(self.pairs().drop_last() =~= s);
                }
            },
        }
    }

    /// The value of `key`, if it is set.
    pub fn get(&self, key: &str) -> (r: Option<&str>)
        requires
            self.wf(),
        ensures
            r is Some <==> self.view().dom().contains(key@),
            r matches Some(v) ==> v@ == self.view()[key@],
    {
        match self.position(key) {
            Some(i) => {
                proof {
                    lemma_present(self.pairs(), i as int);
                }
                Some(self.entries[i].1.as_str())
            },
            None => {
                proof {
                    lemma_absent(self.pairs(), key@);
                }
                None
            },
        }
    }

    /// How many names are set.
    pub fn len(&self) -> (r: usize)
        requires
            self.wf(),
        ensures
            r == self.view().len(),
    {
        proof {
            lemma_len(self.pairs());
        }
        self.entries.len()
    }
}

/// The first index at or after `from` where `\r\n` starts inside
/// `b[..end]`, or `end`.
pub open spec fn find_crlf(b: Seq<u8>, from: int, end: int) -> int
    decreases end - from,
{
    if from < 0 || from + 1 >= end || end > b.len() {
        end
    } else if b[from] == 13 && b[from + 1] == 10 {
        from
    } else {
        find_crlf(b, from + 1, end)
    }
}

/// The first index at or after `from` where `: ` starts inside `b[..end]`,
/// or `end`.
pub open spec fn find_separator(b: Seq<u8>, from: int, end: int) -> int
    decreases end - from,
{
    if from < 0 || from + 1 >= end || end > b.len() {
        end
    } else if b[from] == 58 && b[from + 1] == 32 {
        from
    } else {
        find_separator(b, from + 1, end)
    }
}

/// The first index at or after `from` where `\r\n\r\n` starts, or
/// `b.len()`.
pub open spec fn find_blank_line(b: Seq<u8>, from: int) -> int
    decreases b.len() - from,
{
    if from < 0 || from + 3 >= b.len() {
        b.len() as int
    } else if b[from] == 13 && b[from + 1] == 10 && b[from + 2] == 13 && b[from + 3] == 10 {
        from
    } else {
        find_blank_line(b, from + 1)
    }
}

/// `acc` with the header of the line `b[lo..hi]`, if it holds `: `.
pub open spec fn with_line(b: Seq<u8>, lo: int, hi: int, acc: Map<Seq<char>, Seq<char>>) -> Map<
    Seq<char>,
    Seq<char>,
> {
    let c = find_separator(b, lo, hi);
    if c < hi {
        acc.insert(decode_utf8(b.subrange(lo, c)), decode_utf8(b.subrange(c + 2, hi)))
    } else {
        acc
    }
}

/// `acc` with the headers of the lines of `b[pos..end]`.
pub open spec fn with_lines(b: Seq<u8>, pos: int, end: int, acc: Map<Seq<char>, Seq<char>>) -> Map<
    Seq<char>,
    Seq<char>,
>
    decreases end - pos,
{
    let le = find_crlf(b, pos, end);
    let next = with_line(b, pos, le, acc);
    if le < pos || le + 2 > end {
        next
    } else {
        with_lines(b, le + 2, end, next)
    }
}

/// The headers of the response `b`: none unless `b` is valid UTF-8; else,
/// in the text before the first blank line, each line after the first that
/// holds `: ` sets the name before it to the value after it.
pub open spec fn headers_of(b: Seq<u8>) -> Map<Seq<char>, Seq<char>> {
    let end = find_blank_line(b, 0);
    let first = find_crlf(b, 0, end);
    if !valid_utf8(b) || first >= end {
        Map::empty()
    } else {
        with_lines(b, first + 2, end, Map::empty())
    }
}

fn find_crlf_from(b: &[u8], from: usize, end: usize) -> (r: usize)
    requires
        from <= end <= b@.len(),
    ensures
        r as int == find_crlf(b@, from as int, end as int),
        from <= r <= end,
        r < end ==> r + 1 < end && b@[r as int] == 13 && b@[r + 1] == 10,
{
    let mut i = from;
    while end - i > 1
        invariant
            from <= i <= end <= b@.len(),
            find_crlf(b@, from as int, end as int) == find_crlf(b@, i as int, end as int),
        decreases end - i,
    {
        if b[i] == 13 && b[i + 1] == 10 {
            return i;
        }
        i = i + 1;
    }
    end
}

fn find_separator_from(b: &[u8], from: usize, end: usize) -> (r: usize)
    requires
        from <= end <= b@.len(),
    ensures
        r as int == find_separator(b@, from as int, end as int),
        from <= r <= end,
        r < end ==> r + 1 < end && b@[r as int] == 58 && b@[r + 1] == 32,
{
    let mut i = from;
    while end - i > 1
        invariant
            from <= i <= end <= b@.len(),
            find_separator(b@, from as int, end as int) == find_separator(
                b@,
                i as int,
                end as int,
            ),
        decreases end - i,
    {
        if b[i] == 58 && b[i + 1] == 32 {
            return i;
        }
        i = i + 1;
    }
    end
}

fn find_blank_line_from(b: &[u8]) -> (r: usize)
    ensures
        r as int == find_blank_line(b@, 0),
        r <= b@.len(),
        r < b@.len() ==> b@[r as int] == 13,
{
    let mut i: usize = 0;
    while b.len() - i > 3
        invariant
            i <= b@.len(),
            find_blank_line(b@, 0) == find_blank_line(b@, i as int),
        decreases b@.len() - i,
    {
        if b[i] == 13 && b[i + 1] == 10 && b[i + 2] == 13 && b[i + 3] == 10 {
            return i;
        }
        i = i + 1;
    }
    b.len()
}

/// Decodes `b[lo..hi]`, which lies in valid UTF-8 between two ASCII bytes
/// (or an end).
fn decode_range(b: &[u8], lo: usize, hi: usize) -> (r: String)
    requires
        valid_utf8(b@),
        0 < lo <= hi <= b@.len(),
        b@[lo - 1] < 128,
        hi == b@.len() || b@[hi as int] < 128,
    ensures
        r@ == decode_utf8(b@.subrange(lo as int, hi as int)),
{
    proof {
        lemma_valid_between(b@, lo as int, hi as int);
    }
    match utf8_to_string(copy_range(b, lo, hi)) {
        Some(s) => s,
        None => String::new(),
    }
}

impl Response {
    /// The headers, by name: lines of the header block after the status
    /// line, split at the first `: `, a later line winning over an earlier
    /// one. Empty when the response is not valid UTF-8.
    pub fn read_headers(&self) -> (r: Headers)
        ensures
            r.wf(),
            r.view() == headers_of(self.bytes()),
    {
        let mut headers = Headers::new();
        let valid = utf8_to_string(self.0.clone());
        if valid.is_none() {
            return headers;
        }
        let b = self.0.as_slice();
        let end = find_blank_line_from(b);
        let first = find_crlf_from(b, 0, end);
        if first >= end {
            return headers;
        }
        let mut pos = first + 2;
        let mut more = true;
        while more
            invariant
                b@ == self.bytes(),
                valid_utf8(b@),
                end as int == find_blank_line(b@, 0),
                end <= b@.len(),
                end < b@.len() ==> b@[end as int] == 13,
                headers.wf(),
                2 <= pos <= end,
                b@[pos - 1] == 10,
                more ==> with_lines(b@, first + 2, end as int, Map::empty()) == with_lines(
                    b@,
                    pos as int,
                    end as int,
                    headers.view(),
                ),
                !more ==> headers.view() == with_lines(b@, first + 2, end as int, Map::empty()),
            decreases end - pos + (if more {
                1int
            } else {
                0int
            }),
        {
            let le = find_crlf_from(b, pos, end);
            let c = find_separator_from(b, pos, le);
            let ghost before = headers.view();
            if c < le {
                let key = decode_range(b, pos, c);
                let value = decode_range(b, c + 2, le);
                headers.insert(key, value);
            }
            assert(headers.view() == with_line(b@, pos as int, le as int, before));
            if le >= end {
                more = false;
            } else {
                pos = le + 2;
            }
        }
        headers
    }
}

} // verus!
