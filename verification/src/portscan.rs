//! Parsing of the port-lookup utility's output: newline-separated PIDs,
//! each line trimmed of ASCII whitespace and read as an unsigned decimal
//! number (an optional leading `+` accepted); lines that do not parse are
//! skipped, and a failed invocation yields no PIDs at all.

use vstd::prelude::*;

verus! {

/// ASCII whitespace: space, tab, line feed, vertical tab, form feed,
/// carriage return.
pub open spec fn is_space(b: u8) -> bool {
    b == 32 || (9 <= b && b <= 13)
}

/// ASCII decimal digit.
pub open spec fn is_digit(b: u8) -> bool {
    48 <= b && b <= 57
}

/// Numeric value of an ASCII digit.
pub open spec fn digit_value(b: u8) -> nat
    recommends
        is_digit(b),
{
    (b - 48) as nat
}

pub open spec fn all_digits(s: Seq<u8>) -> bool {
    forall|i: int| 0 <= i < s.len() ==> is_digit(s[i])
}

/// The number a digit string denotes, most significant digit first.
pub open spec fn digits_value(s: Seq<u8>) -> nat
    decreases s.len(),
{
    if s.len() == 0 {
        0
    } else {
        digits_value(s.drop_last()) * 10 + digit_value(s.last())
    }
}

/// How many whitespace bytes the sequence starts with.
pub open spec fn lead_spaces(s: Seq<u8>) -> int
    decreases s.len(),
{
    if s.len() == 0 || !is_space(s[0]) {
        0
    } else {
        1 + lead_spaces(s.drop_first())
    }
}

/// How many whitespace bytes the sequence ends with.
pub open spec fn trail_spaces(s: Seq<u8>) -> int
    decreases s.len(),
{
    if s.len() == 0 || !is_space(s.last()) {
        0
    } else {
        1 + trail_spaces(s.drop_last())
    }
}

/// The sequence with leading and trailing ASCII whitespace removed.
pub open spec fn spec_trim(s: Seq<u8>) -> Seq<u8> {
    if lead_spaces(s) == s.len() {
        Seq::empty()
    } else {
        s.subrange(lead_spaces(s), s.len() - trail_spaces(s))
    }
}

/// The digit part of a line: the line trimmed, an optional leading `+`
/// dropped.
pub open spec fn digits_part(line: Seq<u8>) -> Seq<u8> {
    let t = spec_trim(line);
    if t.len() > 0 && t[0] == 43 {
        t.drop_first()
    } else {
        t
    }
}

/// The number a digit part denotes: one or more digits whose value fits
/// in 32 bits, `None` otherwise.
pub open spec fn pid_of_digits(d: Seq<u8>) -> Option<u32> {
    if d.len() > 0 && all_digits(d) && digits_value(d) <= u32::MAX {
        Some(digits_value(d) as u32)
    } else {
        None
    }
}

/// What one line of the utility's output yields: the line is trimmed, an
/// optional leading `+` dropped, and the rest must be one or more digits
/// denoting a value that fits in 32 bits.
pub open spec fn spec_parse_pid(line: Seq<u8>) -> Option<u32> {
    pid_of_digits(digits_part(line))
}

/// Index of the first line feed, or the length where there is none.
pub open spec fn first_nl(s: Seq<u8>) -> int
    decreases s.len(),
{
    if s.len() == 0 || s[0] == 10 {
        0
    } else {
        1 + first_nl(s.drop_first())
    }
}

/// The PIDs of the whole output: one candidate per parsable line, in
/// order.
pub open spec fn spec_pids(s: Seq<u8>) -> Seq<u32>
    decreases s.len(),
{
    if s.len() == 0 {
        Seq::empty()
    } else {
        let n = first_nl(s);
        let head = match spec_parse_pid(s.subrange(0, n)) {
            Some(p) => seq![p],
            None => Seq::<u32>::empty(),
        };
        if 0 <= n && n < s.len() {
            head + spec_pids(s.subrange(n + 1, s.len() as int))
        } else {
            head
        }
    }
}

pub proof fn lemma_first_nl(s: Seq<u8>)
    ensures
        0 <= first_nl(s) <= s.len(),
        forall|i: int| 0 <= i < first_nl(s) ==> s[i] != 10,
        first_nl(s) < s.len() ==> s[first_nl(s)] == 10,
    decreases s.len(),
{
    if s.len() > 0 && s[0] != 10 {
        lemma_first_nl(s.drop_first());
        assert forall|i: int| 0 <= i < first_nl(s) implies s[i] != 10 by {
            if i > 0 {
                assert(s.drop_first()[i - 1] == s[i]);
            }
        }
        if first_nl(s) < s.len() {
            assert(s.drop_first()[first_nl(s) - 1] == s[first_nl(s)]);
        }
    }
}

proof fn lemma_first_nl_unique(s: Seq<u8>, k: int)
    requires
        0 <= k <= s.len(),
        forall|i: int| 0 <= i < k ==> s[i] != 10,
        k < s.len() ==> s[k] == 10,
    ensures
        first_nl(s) == k,
{
    lemma_first_nl(s);
    if first_nl(s) < k {
        assert(s[first_nl(s)] != 10);
        assert(s[first_nl(s)] == 10);
    }
    if k < first_nl(s) {
        assert(s[k] != 10);
    }
}

pub proof fn lemma_lead_spaces(s: Seq<u8>)
    ensures
        0 <= lead_spaces(s) <= s.len(),
        forall|i: int| 0 <= i < lead_spaces(s) ==> is_space(s[i]),
        lead_spaces(s) < s.len() ==> !is_space(s[lead_spaces(s)]),
    decreases s.len(),
{
    if s.len() > 0 && is_space(s[0]) {
        lemma_lead_spaces(s.drop_first());
        assert forall|i: int| 0 <= i < lead_spaces(s) implies is_space(s[i]) by {
            if i > 0 {
                assert(s.drop_first()[i - 1] == s[i]);
            }
        }
        if lead_spaces(s) < s.len() {
            assert(s.drop_first()[lead_spaces(s) - 1] == s[lead_spaces(s)]);
        }
    }
}

proof fn lemma_lead_spaces_unique(s: Seq<u8>, k: int)
    requires
        0 <= k <= s.len(),
        forall|i: int| 0 <= i < k ==> is_space(s[i]),
        k < s.len() ==> !is_space(s[k]),
    ensures
        lead_spaces(s) == k,
{
    lemma_lead_spaces(s);
    if lead_spaces(s) < k {
        assert(!is_space(s[lead_spaces(s)]));
        assert(is_space(s[lead_spaces(s)]));
    }
    if k < lead_spaces(s) {
        assert(is_space(s[k]));
    }
}

pub proof fn lemma_trail_spaces(s: Seq<u8>)
    ensures
        0 <= trail_spaces(s) <= s.len(),
        forall|i: int| s.len() - trail_spaces(s) <= i < s.len() ==> is_space(s[i]),
        trail_spaces(s) < s.len() ==> !is_space(s[s.len() - trail_spaces(s) - 1]),
    decreases s.len(),
{
    if s.len() > 0 && is_space(s.last()) {
        lemma_trail_spaces(s.drop_last());
        assert forall|i: int| s.len() - trail_spaces(s) <= i < s.len() implies is_space(s[i]) by {
            if i < s.len() - 1 {
                assert(s.drop_last()[i] == s[i]);
            }
        }
        if trail_spaces(s) < s.len() {
            assert(s.drop_last()[s.len() - trail_spaces(s) - 1] == s[s.len() - trail_spaces(s)
                - 1]);
        }
    }
}

proof fn lemma_trail_spaces_unique(s: Seq<u8>, k: int)
    requires
        0 <= k <= s.len(),
        forall|i: int| s.len() - k <= i < s.len() ==> is_space(s[i]),
        k < s.len() ==> !is_space(s[s.len() - k - 1]),
    ensures
        trail_spaces(s) == k,
{
    lemma_trail_spaces(s);
    if trail_spaces(s) < k {
        assert(is_space(s[s.len() - trail_spaces(s) - 1]));
        assert(!is_space(s[s.len() - trail_spaces(s) - 1]));
    }
    if k < trail_spaces(s) {
        assert(is_space(s[s.len() - k - 1]));
    }
}

proof fn lemma_digits_value_prefix(s: Seq<u8>, k: int)
    requires
        0 <= k <= s.len(),
    ensures
        digits_value(s.take(k)) <= digits_value(s),
    decreases s.len() - k,
{
    if k == s.len() {
        assert(s.take(k) =~= s);
    } else {
        lemma_digits_value_prefix(s, k + 1);
        assert(s.take(k + 1).drop_last() =~= s.take(k));
        assert(digits_value(s.take(k + 1)) == digits_value(s.take(k)) * 10 + digit_value(
            s.take(k + 1).last(),
        ));
    }
}

fn byte_is_space(b: u8) -> (r: bool)
    ensures
        r == is_space(b),
{
    b == 32 || (9 <= b && b <= 13)
}

/// Reads the line `bytes[start..end)` as a PID.
fn parse_pid_in(bytes: &Vec<u8>, start: usize, end: usize) -> (r: Option<u32>)
    requires
        start <= end <= bytes@.len(),
    ensures
        r == spec_parse_pid(bytes@.subrange(start as int, end as int)),
{
    let ghost line = bytes@.subrange(start as int, end as int);
    let mut lo = start;
    while lo < end && byte_is_space(bytes[lo])
        invariant
            start <= lo <= end <= bytes@.len(),
            forall|k: int| start <= k < lo ==> is_space(bytes@[k]),
        decreases end - lo,
    {
        lo = lo + 1;
    }
    proof {
        assert forall|i: int| 0 <= i < lo - start implies is_space(line[i]) by {
            assert(line[i] == bytes@[start + i]);
        }
        if lo < end {
            assert(line[lo - start] == bytes@[lo as int]);
        }
        lemma_lead_spaces_unique(line, lo - start);
    }
    if lo == end {
        // all whitespace: the trimmed line is empty
        return None;
    }
    let mut hi = end;
    while hi > lo && byte_is_space(bytes[hi - 1])
        invariant
            start <= lo <= hi <= end <= bytes@.len(),
            forall|k: int| hi <= k < end ==> is_space(bytes@[k]),
        decreases hi,
    {
        hi = hi - 1;
    }
    proof {
        assert(!is_space(bytes@[lo as int]));
        if hi == lo {
            assert(is_space(bytes@[lo as int]));
        }
        assert(hi > lo);
        assert forall|i: int| line.len() - (end - hi) <= i < line.len() implies is_space(
            line[i],
        ) by {
            assert(line[i] == bytes@[start + i]);
        }
        assert(line[line.len() - (end - hi) - 1] == bytes@[hi - 1]);
        lemma_trail_spaces_unique(line, end - hi);
        assert(spec_trim(line) =~= bytes@.subrange(lo as int, hi as int));
    }
    // optional leading '+'
    let num_lo = if bytes[lo] == 43 {
        lo + 1
    } else {
        lo
    };
    let ghost d = digits_part(line);
    proof {
        assert(spec_trim(line)[0] == bytes@[lo as int]);
        assert(d =~= bytes@.subrange(num_lo as int, hi as int));
    }
    if num_lo == hi {
        // nothing after the sign
        return None;
    }
    let mut value: u64 = 0;
    let mut j = num_lo;
    while j < hi
        invariant
            num_lo <= j <= hi <= bytes@.len(),
            num_lo < hi,
            d == digits_part(bytes@.subrange(start as int, end as int)),
            d == bytes@.subrange(num_lo as int, hi as int),
            all_digits(d.take(j - num_lo)),
            value == digits_value(d.take(j - num_lo)),
            value <= u32::MAX,
        decreases hi - j,
    {
        let b = bytes[j];
        proof {
            assert(d[j - num_lo] == bytes@[j as int]);
        }
        if b < 48 || b > 57 {
            // a non-digit byte: the line is not a number
            proof {
                assert(!is_digit(d[j - num_lo]));
                assert(!all_digits(d));
            }
            return None;
        }
        let dv = (b - 48) as u64;
        let nv = value * 10 + dv;
        proof {
            assert(d.take(j - num_lo + 1).drop_last() =~= d.take(j - num_lo));
            assert(d.take(j - num_lo + 1).last() == d[j - num_lo]);
        }
        if nv > 4294967295u64 {
            proof {
                lemma_digits_value_prefix(d, j - num_lo + 1);
                assert(digits_value(d) > u32::MAX);
            }
            return None;
        }
        value = nv;
        j = j + 1;
    }
    proof {
        assert(d.take(hi - num_lo) =~= d);
    }
    Some(value as u32)
}

/// The candidate PIDs from one invocation of the port-lookup utility:
/// empty where the utility failed (`success` false), otherwise one PID
/// per line of its output that reads as a 32-bit decimal number.
pub fn parse_port_pids(success: bool, output: &Vec<u8>) -> (r: Vec<u32>)
    requires
        output@.len() < usize::MAX,
    ensures
        success ==> r@ == spec_pids(output@),
        !success ==> r@ == Seq::<u32>::empty(),
{
    let mut r: Vec<u32> = Vec::new();
    if !success {
        return r;
    }
    let len = output.len();
    let mut cursor: usize = 0;
    proof {
        assert(output@.subrange(0, len as int) =~= output@);
    }
    while cursor <= len
        invariant
            len == output@.len(),
            len < usize::MAX,
            cursor <= len + 1,
            cursor <= len ==> r@ + spec_pids(output@.subrange(cursor as int, len as int))
                == spec_pids(output@),
            cursor == len + 1 ==> r@ == spec_pids(output@),
        decreases len + 1 - cursor,
    {
        let ghost rem = output@.subrange(cursor as int, len as int);
        let mut nl = cursor;
        while nl < len && output[nl] != 10
            invariant
                cursor <= nl <= len,
                len == output@.len(),
                forall|k: int| cursor <= k < nl ==> output@[k] != 10,
            decreases len - nl,
        {
            nl = nl + 1;
        }
        proof {
            assert forall|i: int| 0 <= i < nl - cursor implies rem[i] != 10 by {
                assert(rem[i] == output@[cursor + i]);
            }
            if nl < len {
                assert(rem[nl - cursor] == output@[nl as int]);
            }
            lemma_first_nl_unique(rem, nl - cursor);
            assert(rem.subrange(0, nl - cursor) =~= output@.subrange(cursor as int, nl as int));
        }
        let p = parse_pid_in(output, cursor, nl);
        let ghost head = match spec_parse_pid(output@.subrange(cursor as int, nl as int)) {
            Some(pid) => seq![pid],
            None => Seq::<u32>::empty(),
        };
        let ghost r_before = r@;
        if let Some(pid) = p {
            r.push(pid);
            proof {
                assert(r@ =~= r_before + head);
            }
        }
        proof {
            if nl == len {
                if rem.len() == 0 {
                    assert(spec_pids(rem) =~= head);
                } else {
                    assert(spec_pids(rem) == head);
                }
                assert(r@ =~= r_before + head);
                assert(r@ =~= spec_pids(output@));
            } else {
                assert(rem.subrange(nl - cursor + 1, rem.len() as int) =~= output@.subrange(
                    nl + 1 as int,
                    len as int,
                ));
                assert(spec_pids(rem) == head + spec_pids(
                    output@.subrange(nl + 1 as int, len as int),
                ));
                assert(r@ + spec_pids(output@.subrange(nl + 1 as int, len as int)) =~= r_before
                    + spec_pids(rem));
            }
        }
        cursor = nl + 1;
    }
    r
}

} // verus!
