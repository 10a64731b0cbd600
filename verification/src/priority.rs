//! Parsing of the syslog PRI value: the integer between the first `<` and
//! the first `>` after it, encoding facility (high five bits) and severity
//! (low three bits).

use vstd::prelude::*;

verus! {

/// Why a datagram text yields no (facility, severity) pair.
#[derive(Clone, Copy, Debug, PartialEq, Eq, Structural)]
pub enum PriorityError {
    /// No `<` in the text, or no `>` after the first `<`.
    NoDelimiter,
    /// The text between the delimiters is not a decimal integer in [0, 255].
    MalformedValue,
}

pub open spec fn is_digit_char(c: char) -> bool {
    0x30 <= (c as u32) && (c as u32) <= 0x39
}

pub open spec fn digit_val(c: char) -> nat {
    if is_digit_char(c) {
        ((c as u32) - 0x30) as nat
    } else {
        0
    }
}

/// The value of a string of decimal digits, most significant first.
pub open spec fn digits_value(s: Seq<char>) -> nat
    decreases s.len(),
{
    if s.len() == 0 {
        0
    } else {
        digits_value(s.drop_last()) * 10 + digit_val(s.last())
    }
}

pub open spec fn all_digits(s: Seq<char>) -> bool {
    forall|i: int| 0 <= i < s.len() ==> is_digit_char(s[i])
}

/// The value `s` denotes as an unsigned 8-bit integer: an optional leading
/// `+`, then at least one decimal digit, with value at most 255.
pub open spec fn parsed_u8(s: Seq<char>) -> Option<u8> {
    let ds = if s.len() > 0 && s[0] == '+' {
        s.drop_first()
    } else {
        s
    };
    if ds.len() > 0 && all_digits(ds) && digits_value(ds) <= 255 {
        Some(digits_value(ds) as u8)
    } else {
        None
    }
}

/// The smallest index `k >= from` with `s[k] == c`, if any.
pub open spec fn find_from(s: Seq<char>, c: char, from: int) -> Option<int>
    decreases s.len() - from when 0 <= from <= s.len()
{
    if from >= s.len() {
        None
    } else if s[from] == c {
        Some(from)
    } else {
        find_from(s, c, from + 1)
    }
}

/// The PRI value of a datagram text, or the reason there is none.
pub open spec fn spec_pri_value(s: Seq<char>) -> Result<u8, PriorityError> {
    match find_from(s, '<', 0) {
        None => Err(PriorityError::NoDelimiter),
        Some(i) => match find_from(s, '>', i + 1) {
            None => Err(PriorityError::NoDelimiter),
            Some(j) => match parsed_u8(s.subrange(i + 1, j)) {
                None => Err(PriorityError::MalformedValue),
                Some(p) => Ok(p),
            },
        },
    }
}

/// The (facility, severity) pair of a datagram text: the PRI value split
/// into its high five and low three bits.
pub open spec fn spec_parse_priority(s: Seq<char>) -> Result<(u8, u8), PriorityError> {
    match spec_pri_value(s) {
        Ok(p) => Ok((p >> 3, p & 7)),
        Err(e) => Err(e),
    }
}

fn find_char(v: &Vec<char>, c: char, from: usize) -> (r: Option<usize>)
    requires
        from <= v@.len(),
    ensures
        match r {
            Some(k) => from <= k < v@.len() && find_from(v@, c, from as int) == Some(k as int),
            None => find_from(v@, c, from as int) is None,
        },
{
    let mut i: usize = from;
    while i < v.len()
        invariant
            from <= i <= v@.len(),
            find_from(v@, c, from as int) == find_from(v@, c, i as int),
        decreases v@.len() - i,
    {
        if v[i] == c {
            return Some(i);
        }
        i = i + 1;
    }
    None
}

proof fn lemma_digits_value_monotone(s: Seq<char>, i: int, j: int)
    requires
        0 <= i <= j <= s.len(),
    ensures
        digits_value(s.take(i)) <= digits_value(s.take(j)),
    decreases j - i,
{
    if i < j {
        lemma_digits_value_monotone(s, i, j - 1);
        assert(s.take(j).drop_last() =~= s.take(j - 1));
        assert(digits_value(s.take(j)) == digits_value(s.take(j - 1)) * 10 + digit_val(
            s.take(j).last(),
        ));
    }
}

fn parse_u8_span(v: &Vec<char>, lo: usize, hi: usize) -> (r: Option<u8>)
    requires
        lo <= hi <= v@.len(),
    ensures
        r == parsed_u8(v@.subrange(lo as int, hi as int)),
{
    let ghost sub = v@.subrange(lo as int, hi as int);
    let start: usize = if hi > lo && v[lo] == '+' {
        lo + 1
    } else {
        lo
    };
    let ghost ds = v@.subrange(start as int, hi as int);
    proof {
        if hi > lo && v@[lo as int] == '+' {
            assert(sub.drop_first() =~= ds);
        } else {
            assert(sub =~= ds);
        }
    }
    if start == hi {
        return None;
    }
    let mut vv: u32 = 0;
    let mut k: usize = start;
    while k < hi
        invariant
            lo <= start <= k <= hi <= v@.len(),
            sub == v@.subrange(lo as int, hi as int),
            ds == v@.subrange(start as int, hi as int),
            ds == (if sub.len() > 0 && sub[0] == '+' {
                sub.drop_first()
            } else {
                sub
            }),
            vv == digits_value(ds.take(k - start)),
            vv <= 255,
            all_digits(ds.take(k - start)),
        decreases hi - k,
    {
        let c = v[k];
        proof {
            assert(ds.take(k + 1 - start).drop_last() =~= ds.take(k - start));
            assert(ds.take(k + 1 - start).last() == v@[k as int]);
        }
        if !(c as u32 >= 0x30 && c as u32 <= 0x39) {
            proof {
                assert(ds[k - start] == v@[k as int]);
                assert(!all_digits(ds));
            }
            return None;
        }
        let d: u32 = c as u32 - 0x30;
        let next: u32 = vv * 10 + d;
        if next > 255 {
            proof {
                assert(digits_value(ds.take(k + 1 - start)) == next);
                lemma_digits_value_monotone(ds, k + 1 - start, ds.len() as int);
                assert(ds.take(ds.len() as int) =~= ds);
                assert(digits_value(ds) > 255);
            }
            return None;
        }
        vv = next;
        k = k + 1;
    }
    proof {
        assert(ds.take(hi - start) =~= ds);
    }
    Some(vv as u8)
}

/// What remains of a datagram text once its priority tag is consumed: the
/// characters after the `>` that closes the PRI value, or the whole text
/// where there is no such tag.
pub open spec fn spec_payload(s: Seq<char>) -> Seq<char> {
    match find_from(s, '<', 0) {
        Some(i) => match find_from(s, '>', i + 1) {
            Some(j) => s.skip(j + 1),
            None => s,
        },
        None => s,
    }
}

/// Splits a datagram text: the (facility, severity) pair encoded by its
/// PRI value, and the message payload standing after the tag.
pub fn parse_datagram_chars(v: &Vec<char>) -> (r: Result<((u8, u8), Vec<char>), PriorityError>)
    ensures
        match spec_parse_priority(v@) {
            Ok(fs) => {
                &&& r matches Ok(p)
                &&& p.0 == fs
                &&& p.1@ == spec_payload(v@)
            },
            Err(e) => r == Err::<((u8, u8), Vec<char>), PriorityError>(e),
        },
{
    let n = v.len();
    let i = match find_char(v, '<', 0) {
        Some(i) => i,
        None => {
            return Err(PriorityError::NoDelimiter);
        },
    };
    proof {
        assert(i < n);
    }
    let j = match find_char(v, '>', i + 1) {
        Some(j) => j,
        None => {
            return Err(PriorityError::NoDelimiter);
        },
    };
    let p = match parse_u8_span(v, i + 1, j) {
        Some(p) => p,
        None => {
            return Err(PriorityError::MalformedValue);
        },
    };
    let mut payload: Vec<char> = Vec::new();
    let mut k: usize = j + 1;
    while k < n
        invariant
            j + 1 <= k <= n,
            n == v@.len(),
            payload@ == v@.subrange(j + 1, k as int),
        decreases n - k,
    {
        payload.push(v[k]);
        k = k + 1;
        proof {
            assert(payload@ =~= v@.subrange(j + 1, k as int));
        }
    }
    proof {
        assert(payload@ =~= v@.skip(j + 1));
    }
    Ok(((p >> 3, p & 7), payload))
}

/// The (facility, severity) pair encoded by the PRI value of `v`.
pub fn parse_priority_chars(v: &Vec<char>) -> (r: Result<(u8, u8), PriorityError>)
    ensures
        r == spec_parse_priority(v@),
{
    match parse_datagram_chars(v) {
        Ok(p) => Ok(p.0),
        Err(e) => Err(e),
    }
}

/// Facility and severity partition the PRI value: facility is at most 31,
/// severity at most 7, and together they reconstruct the value.
pub proof fn lemma_priority_split(p: u8)
    ensures
        (p >> 3) <= 31,
        (p & 7) <= 7,
        p == (p >> 3) * 8 + (p & 7),
{
    assert((p >> 3) <= 31 && (p & 7) <= 7 && p == (p >> 3) * 8 + (p & 7)) by (bit_vector);
}

/// Whenever a text parses successfully, the facility is the PRI value
/// shifted right by three and the severity its low three bits, so severity
/// lies in [0, 7] and facility in [0, 31].
pub proof fn lemma_parsed_fields(s: Seq<char>)
    requires
        spec_parse_priority(s) is Ok,
    ensures
        ({
            let (f, sev) = spec_parse_priority(s)->Ok_0;
            let p = spec_pri_value(s)->Ok_0;
            f == p >> 3 && sev == (p & 7) && sev <= 7 && f <= 31 && p == f * 8 + sev
        }),
{
    let p = spec_pri_value(s)->Ok_0;
    lemma_priority_split(p);
}

} // verus!
