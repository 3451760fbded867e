//! Replication commands sent by replicas: which command a query is, and the
//! log positions that `START_REPLICATION` names.

use vstd::prelude::*;
use vstd::string::StringSliceAdditionalSpecFns;

verus! {

/// Why a replication command is refused.
#[derive(Clone, Copy, Debug, PartialEq, Eq, Structural)]
pub enum CommandError {
    /// A hexadecimal number is empty, malformed or wider than 32 bits.
    InvalidHex,
    /// `START_REPLICATION` names no log position.
    MissingPosition,
    /// Replication was asked for before any proposer set the segment size.
    NotReady,
}

pub open spec fn is_hex_byte(b: u8) -> bool {
    (48 <= b <= 57) || (65 <= b <= 70) || (97 <= b <= 102)
}

pub open spec fn hex_byte_value(b: u8) -> int {
    if 48 <= b <= 57 {
        b - 48
    } else if 65 <= b <= 70 {
        b - 55
    } else {
        b - 87
    }
}

/// Value of a string of hexadecimal digits, most significant first.
pub open spec fn hex_value(s: Seq<u8>) -> int
    decreases s.len(),
{
    if s.len() == 0 {
        0
    } else {
        hex_value(s.drop_last()) * 16 + hex_byte_value(s.last())
    }
}

pub open spec fn all_hex(s: Seq<u8>) -> bool {
    forall|i: int| 0 <= i < s.len() ==> is_hex_byte(#[trigger] s[i])
}

/// A 32-bit hexadecimal number: an optional `+`, then one or more digits
/// of either case, of value at most `u32::MAX`.
pub open spec fn spec_parse_hex(s: Seq<u8>) -> Option<u64> {
    let d = if s.len() > 1 && s[0] == 43u8 { s.drop_first() } else { s };
    if d.len() == 0 || !all_hex(d) || hex_value(d) > u32::MAX {
        None
    } else {
        Some(hex_value(d) as u64)
    }
}

proof fn lemma_hex_value_step(s: Seq<u8>, i: int)
    requires
        0 <= i < s.len(),
    ensures
        hex_value(s.subrange(0, i + 1)) == hex_value(s.subrange(0, i)) * 16 + hex_byte_value(s[i]),
{
    assert(s.subrange(0, i + 1).drop_last() =~= s.subrange(0, i));
}

proof fn lemma_hex_value_grows(s: Seq<u8>, i: int, j: int)
    requires
        0 <= i <= j <= s.len(),
        all_hex(s),
    ensures
        0 <= hex_value(s.subrange(0, i)) <= hex_value(s.subrange(0, j)),
    decreases j,
{
    if j == 0 {
        assert(s.subrange(0, 0).len() == 0);
    } else if i < j {
        lemma_hex_value_grows(s, i, j - 1);
        lemma_hex_value_step(s, j - 1);
        assert(is_hex_byte(s[j - 1]));
    } else {
        lemma_hex_value_grows(s, i - 1, j - 1);
        lemma_hex_value_step(s, j - 1);
        assert(is_hex_byte(s[j - 1]));
    }
}

fn hex_byte_value_of(b: u8) -> (r: u64)
    requires
        is_hex_byte(b),
    ensures
        r == hex_byte_value(b),
        r < 16,
{
    if 48 <= b && b <= 57 {
        (b - 48) as u64
    } else if 65 <= b && b <= 70 {
        (b - 55) as u64
    } else {
        (b - 87) as u64
    }
}

/// Parses the bytes `s[lo..hi]` as a 32-bit hexadecimal number.
pub fn parse_hex_range(s: &[u8], lo: usize, hi: usize) -> (r: Result<u64, CommandError>)
    requires
        lo <= hi <= s@.len(),
    ensures
        r == (match spec_parse_hex(s@.subrange(lo as int, hi as int)) {
            Some(v) => Ok::<u64, CommandError>(v),
            None => Err(CommandError::InvalidHex),
        }),
        r matches Ok(v) ==> v <= u32::MAX,
{
    let ghost full = s@.subrange(lo as int, hi as int);
    let mut first = lo;
    if hi - lo > 1 && s[lo] == 43u8 {
        first = lo + 1;
    }
    let ghost d = s@.subrange(first as int, hi as int);
    assert(d =~= (if full.len() > 1 && full[0] == 43u8 { full.drop_first() } else { full }));
    if first == hi {
        return Err(CommandError::InvalidHex);
    }
    let mut acc: u64 = 0;
    let mut i = first;
    while i < hi
        invariant
            lo <= first <= i <= hi <= s@.len(),
            d == s@.subrange(first as int, hi as int),
            full == s@.subrange(lo as int, hi as int),
            d == (if full.len() > 1 && full[0] == 43u8 { full.drop_first() } else { full }),
            all_hex(d.subrange(0, i - first)),
            acc == hex_value(d.subrange(0, i - first)),
            acc <= u32::MAX,
        decreases hi - i,
    {
        let b = s[i];
        if !(48 <= b && b <= 57) && !(65 <= b && b <= 70) && !(97 <= b && b <= 102) {
            assert(d[i - first] == b);
            assert(!all_hex(d));
            assert(spec_parse_hex(full) is None);
            return Err(CommandError::InvalidHex);
        }
        assert(d[i - first] == b);
        proof {
            lemma_hex_value_step(d, i - first);
        }
        let next = acc * 16 + hex_byte_value_of(b);
        assert(all_hex(d.subrange(0, i - first + 1))) by {
            assert forall|k: int| 0 <= k < i - first + 1 implies is_hex_byte(
                #[trigger] d.subrange(0, i - first + 1)[k],
            ) by {
                if k < i - first {
                    assert(d.subrange(0, i - first)[k] == d[k]);
                }
            }
        }
        if next > 0xFFFF_FFFFu64 {
            proof {
                if all_hex(d) {
                    lemma_hex_value_grows(d, i - first + 1, d.len() as int);
                    assert(d.subrange(0, d.len() as int) =~= d);
                    assert(hex_value(d) > u32::MAX);
                }
                assert(spec_parse_hex(full) is None);
            }
            return Err(CommandError::InvalidHex);
        }
        acc = next;
        i = i + 1;
    }
    assert(d.subrange(0, i - first) =~= d);
    Ok(acc)
}

/// Parses a 32-bit hexadecimal number, as `u32::from_str_radix(s, 16)` does.
pub fn parse_hex_str(s: &str) -> (r: Result<u64, CommandError>)
    ensures
        r == (match spec_parse_hex(s.spec_bytes()) {
            Some(v) => Ok::<u64, CommandError>(v),
            None => Err(CommandError::InvalidHex),
        }),
{
    let b = s.as_bytes();
    assert(b@.subrange(0, b@.len() as int) =~= b@);
    parse_hex_range(b, 0, b.len())
}

/// Index of the first `/` at or after `from`, or the length if none.
pub open spec fn first_slash(s: Seq<u8>, from: int) -> int
    decreases s.len() - from,
{
    if from >= s.len() {
        s.len() as int
    } else if s[from] == 47u8 {
        from
    } else {
        first_slash(s, from + 1)
    }
}

/// Start of the run of hexadecimal digits that ends at `q`, not before `from`.
pub open spec fn run_start(s: Seq<u8>, from: int, q: int) -> int
    decreases q - from,
{
    if q > from && is_hex_byte(s[q - 1]) {
        run_start(s, from, q - 1)
    } else {
        q
    }
}

/// End of the run of hexadecimal digits that starts at `i`.
pub open spec fn run_end(s: Seq<u8>, i: int) -> int
    decreases s.len() - i,
{
    if 0 <= i < s.len() && is_hex_byte(s[i]) {
        run_end(s, i + 1)
    } else {
        i
    }
}

/// The next position written `H/L` at or after `from`: the digits before
/// and after the first slash there, and where the match ends.
pub open spec fn spec_next_pair(s: Seq<u8>, from: int) -> Option<(Seq<u8>, Seq<u8>, int)> {
    let q = first_slash(s, from);
    if q >= s.len() {
        None
    } else {
        let e = run_end(s, q + 1);
        Some((s.subrange(run_start(s, from, q), q), s.subrange(q + 1, e), e))
    }
}

/// The log position written `H/L`: high and low 32-bit halves in hexadecimal.
pub open spec fn spec_lsn(high: Seq<u8>, low: Seq<u8>) -> Option<u64> {
    match (spec_parse_hex(high), spec_parse_hex(low)) {
        (Some(h), Some(l)) => Some((h * 0x1_0000_0000 + l) as u64),
        _ => None,
    }
}

/// The start and stop positions of a `START_REPLICATION` command: the first
/// position written `H/L` in it, and the next one, or zero if there is none.
pub open spec fn spec_parse_start_replication(s: Seq<u8>) -> Result<(u64, u64), CommandError> {
    match spec_next_pair(s, 0) {
        None => Err(CommandError::MissingPosition),
        Some((h, l, e)) => match spec_lsn(h, l) {
            None => Err(CommandError::InvalidHex),
            Some(start) => match spec_next_pair(s, e) {
                None => Ok((start, 0)),
                Some((h2, l2, _)) => match spec_lsn(h2, l2) {
                    None => Err(CommandError::InvalidHex),
                    Some(stop) => Ok((start, stop)),
                },
            },
        },
    }
}

fn is_hex(b: u8) -> (r: bool)
    ensures
        r == is_hex_byte(b),
{
    (48 <= b && b <= 57) || (65 <= b && b <= 70) || (97 <= b && b <= 102)
}

fn find_next_pair(s: &[u8], from: usize) -> (r: Option<(usize, usize, usize, usize)>)
    requires
        from <= s@.len(),
    ensures
        match spec_next_pair(s@, from as int) {
            None => r is None,
            Some((h, l, e)) => r matches Some((a, q, b, end)) && a <= q < b <= end
                && end <= s@.len() && b == q + 1 && h == s@.subrange(a as int, q as int)
                && l == s@.subrange(b as int, end as int) && e == end,
        },
{
    let n = s.len();
    let mut q = from;
    while q < n && s[q] != 47u8
        invariant
            from <= q <= n == s@.len(),
            first_slash(s@, from as int) == first_slash(s@, q as int),
        decreases n - q,
    {
        q = q + 1;
    }
    if q >= n {
        return None;
    }
    let mut a = q;
    while a > from && is_hex(s[a - 1])
        invariant
            from <= a <= q < n == s@.len(),
            run_start(s@, from as int, q as int) == run_start(s@, from as int, a as int),
        decreases a - from,
    {
        a = a - 1;
    }
    let mut e = q + 1;
    while e < n && is_hex(s[e])
        invariant
            q < e <= n == s@.len(),
            run_end(s@, q + 1) == run_end(s@, e as int),
        decreases n - e,
    {
        e = e + 1;
    }
    Some((a, q, q + 1, e))
}

fn parse_lsn(s: &[u8], a: usize, q: usize, b: usize, e: usize) -> (r: Result<u64, CommandError>)
    requires
        a <= q <= b <= e <= s@.len(),
    ensures
        r == (match spec_lsn(s@.subrange(a as int, q as int), s@.subrange(b as int, e as int)) {
            Some(v) => Ok::<u64, CommandError>(v),
            None => Err(CommandError::InvalidHex),
        }),
{
    let high = match parse_hex_range(s, a, q) {
        Ok(v) => v,
        Err(err) => return Err(err),
    };
    let low = match parse_hex_range(s, b, e) {
        Ok(v) => v,
        Err(err) => return Err(err),
    };
    assert(high <= 0xFFFF_FFFFu64 && low <= 0xFFFF_FFFFu64);
    assert(high * 0x1_0000_0000u64 + low <= u64::MAX) by (nonlinear_arith)
        requires
            high <= 0xFFFF_FFFFu64,
            low <= 0xFFFF_FFFFu64,
    ;
    Ok(high * 0x1_0000_0000u64 + low)
}

/// The start and stop positions named by a `START_REPLICATION` command.
pub fn parse_start_replication(cmd: &[u8]) -> (r: Result<(u64, u64), CommandError>)
    ensures
        r == spec_parse_start_replication(cmd@),
{
    match find_next_pair(cmd, 0) {
        None => Err(CommandError::MissingPosition),
        Some((a, q, b, e)) => {
            let start = match parse_lsn(cmd, a, q, b, e) {
                Ok(v) => v,
                Err(err) => return Err(err),
            };
            match find_next_pair(cmd, e) {
                None => Ok((start, 0)),
                Some((a2, q2, b2, e2)) => {
                    match parse_lsn(cmd, a2, q2, b2, e2) {
                        Ok(stop) => Ok((start, stop)),
                        Err(err) => Err(err),
                    }
                },
            }
        },
    }
}

/// The commands a replica may send.
#[derive(Clone, Copy, Debug, PartialEq, Eq, Structural)]
pub enum QueryKind {
    IdentifySystem,
    StartReplication,
    Unknown,
}

pub open spec fn ascii_upper(b: u8) -> u8 {
    if 97 <= b <= 122 {
        (b - 32) as u8
    } else {
        b
    }
}

/// Whether `s` starts with `prefix` (given in upper case), ignoring the
/// case of ASCII letters.
pub open spec fn starts_with_ignore_case(s: Seq<u8>, prefix: Seq<u8>) -> bool {
    prefix.len() <= s.len() && forall|i: int|
        0 <= i < prefix.len() ==> ascii_upper(#[trigger] s[i]) == prefix[i]
}

pub open spec fn identify_system_word() -> Seq<u8> {
    seq![73u8, 68, 69, 78, 84, 73, 70, 89, 95, 83, 89, 83, 84, 69, 77]
}

pub open spec fn start_replication_word() -> Seq<u8> {
    seq![83u8, 84, 65, 82, 84, 95, 82, 69, 80, 76, 73, 67, 65, 84, 73, 79, 78]
}

pub open spec fn spec_classify_query(s: Seq<u8>) -> QueryKind {
    if starts_with_ignore_case(s, identify_system_word()) {
        QueryKind::IdentifySystem
    } else if starts_with_ignore_case(s, start_replication_word()) {
        QueryKind::StartReplication
    } else {
        QueryKind::Unknown
    }
}

fn has_prefix_ignore_case(s: &[u8], prefix: &Vec<u8>) -> (r: bool)
    ensures
        r == starts_with_ignore_case(s@, prefix@),
{
    if prefix.len() > s.len() {
        return false;
    }
    let mut i: usize = 0;
    while i < prefix.len()
        invariant
            prefix@.len() <= s@.len(),
            i <= prefix@.len(),
            forall|j: int| 0 <= j < i ==> ascii_upper(#[trigger] s@[j]) == prefix@[j],
        decreases prefix@.len() - i,
    {
        let b = s[i];
        let upper = if 97 <= b && b <= 122 {
            b - 32
        } else {
            b
        };
        if upper != prefix[i] {
            return false;
        }
        i = i + 1;
    }
    true
}

/// Which command a query names, by its leading word in any case.
pub fn classify_query(body: &[u8]) -> (r: QueryKind)
    ensures
        r == spec_classify_query(body@),
{
    let identify: Vec<u8> = vec![73u8, 68, 69, 78, 84, 73, 70, 89, 95, 83, 89, 83, 84, 69, 77];
    assert(identify@ =~= identify_system_word());
    if has_prefix_ignore_case(body, &identify) {
        return QueryKind::IdentifySystem;
    }
    let start: Vec<u8> = vec![83u8, 84, 65, 82, 84, 95, 82, 69, 80, 76, 73, 67, 65, 84, 73, 79, 78];
    assert(start@ =~= start_replication_word());
    if has_prefix_ignore_case(body, &start) {
        QueryKind::StartReplication
    } else {
        QueryKind::Unknown
    }
}

} // verus!
