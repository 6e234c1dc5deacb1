//! Queue inspection: classifying the outcome of the external status command
//! and extracting the queue depth from its text output.

use vstd::prelude::*;

verus! {

/// Why an inspection of the queue failed.
#[derive(Clone, Copy, Debug, PartialEq, Eq, Structural)]
pub enum InspectError {
    /// The status command did not finish within the allotted wait.
    Timeout,
    /// The status command could not be run or exited with a failure status.
    CommandFailed,
    /// The command's output did not contain `<label> : <integer>`.
    ParseFailed,
}

/// What became of one invocation of the external status command.
///
/// The surrounding program runs the command under a bounded wait and reports
/// the raw outcome here; everything that follows is verified.
pub enum CommandOutcome {
    /// The bounded wait elapsed before the command finished.
    TimedOut,
    /// The command could not be started at all.
    Failed,
    /// The command ran to completion.
    Finished {
        /// Whether it exited with a success status.
        success: bool,
        /// The bytes it wrote to standard output.
        stdout: Vec<u8>,
    },
}

/// The delimiter between the label and the value in the status line.
pub const DELIMITER: u8 = 58;

/// ASCII whitespace, as trimmed around the value field: space, tab, line
/// feed, vertical tab, form feed, carriage return.
pub open spec fn is_space(b: u8) -> bool {
    b == 32 || (9 <= b && b <= 13)
}

/// An ASCII decimal digit.
pub open spec fn is_digit(b: u8) -> bool {
    48 <= b && b <= 57
}

/// The numeric value of an ASCII digit.
pub open spec fn digit_value(b: u8) -> int {
    b - 48
}

/// Whether every byte of `s` is an ASCII decimal digit.
pub open spec fn all_digits(s: Seq<u8>) -> bool {
    forall|k: int| 0 <= k < s.len() ==> is_digit(s[k])
}

/// The base-10 value of a digit string (0 for the empty string).
pub open spec fn digits_value(s: Seq<u8>) -> int
    decreases s.len(),
{
    if s.len() == 0 {
        0
    } else {
        digits_value(s.drop_last()) * 10 + digit_value(s.last())
    }
}

/// The digit part of an integer literal: everything after a leading `+` or
/// `-` sign, or the whole string when there is no sign.
pub open spec fn literal_digits(s: Seq<u8>) -> Seq<u8> {
    if s.len() > 0 && (s[0] == 43 || s[0] == 45) {
        s.subrange(1, s.len() as int)
    } else {
        s
    }
}

/// A base-10 integer literal: an optional sign followed by at least one
/// digit, and nothing else.
pub open spec fn is_int_literal(s: Seq<u8>) -> bool {
    literal_digits(s).len() > 0 && all_digits(literal_digits(s))
}

/// The mathematical value of an integer literal.
pub open spec fn int_literal_value(s: Seq<u8>) -> int {
    if s.len() > 0 && s[0] == 45 {
        -digits_value(literal_digits(s))
    } else {
        digits_value(literal_digits(s))
    }
}

/// Whether `v` fits in an `i32`.
pub open spec fn in_i32_range(v: int) -> bool {
    -0x8000_0000 <= v <= 0x7fff_ffff
}

/// `s` without its leading whitespace.
pub open spec fn trim_start(s: Seq<u8>) -> Seq<u8>
    decreases s.len(),
{
    if s.len() > 0 && is_space(s[0]) {
        trim_start(s.drop_first())
    } else {
        s
    }
}

/// `s` without its trailing whitespace.
pub open spec fn trim_end(s: Seq<u8>) -> Seq<u8>
    decreases s.len(),
{
    if s.len() > 0 && is_space(s.last()) {
        trim_end(s.drop_last())
    } else {
        s
    }
}

/// `s` without surrounding whitespace.
pub open spec fn trimmed(s: Seq<u8>) -> Seq<u8> {
    trim_end(trim_start(s))
}

/// The index of the first delimiter in `s`, or `s.len()` if there is none.
pub open spec fn first_delim(s: Seq<u8>) -> int
    decreases s.len(),
{
    if s.len() == 0 {
        0
    } else if s[0] == DELIMITER {
        0
    } else {
        1 + first_delim(s.drop_first())
    }
}

/// Whether `s` contains the delimiter at all.
pub open spec fn has_delim(s: Seq<u8>) -> bool {
    first_delim(s) < s.len()
}

/// The second delimiter-separated field of `s`: the bytes strictly between
/// the first delimiter and the next one (or the end).  Meaningful only when
/// `has_delim(s)`.
pub open spec fn second_field(s: Seq<u8>) -> Seq<u8> {
    let rest = s.subrange(first_delim(s) + 1, s.len() as int);
    rest.subrange(0, first_delim(rest))
}

/// What a status line reports: the second delimiter-separated field, trimmed
/// of surrounding whitespace, read as a base-10 integer that fits in an
/// `i32`.  `None` when the line has no delimiter or the field is not such an
/// integer.
pub open spec fn queue_report(s: Seq<u8>) -> Option<int> {
    if has_delim(s) {
        let field = trimmed(second_field(s));
        if is_int_literal(field) && in_i32_range(int_literal_value(field)) {
            Some(int_literal_value(field))
        } else {
            None
        }
    } else {
        None
    }
}

/// What one command outcome observes: a queue depth, or the error that the
/// outcome forces.  Every outcome maps to exactly one observation.
pub open spec fn observation_of(outcome: CommandOutcome) -> Result<int, InspectError> {
    match outcome {
        CommandOutcome::TimedOut => Err(InspectError::Timeout),
        CommandOutcome::Failed => Err(InspectError::CommandFailed),
        CommandOutcome::Finished { success, stdout } => {
            if success {
                match queue_report(stdout@) {
                    Some(depth) => Ok(depth),
                    None => Err(InspectError::ParseFailed),
                }
            } else {
                Err(InspectError::CommandFailed)
            }
        },
    }
}

/// The value of a digit string is never negative.
proof fn lemma_digits_value_nonneg(s: Seq<u8>)
    requires
        all_digits(s),
    ensures
        digits_value(s) >= 0,
    decreases s.len(),
{
    if s.len() > 0 {
        assert(all_digits(s.drop_last()));
        lemma_digits_value_nonneg(s.drop_last());
    }
}

/// Appending digits never shrinks the value: the value of a prefix is at most
/// the value of the whole digit string.
proof fn lemma_digits_prefix_le(s: Seq<u8>, i: int)
    requires
        all_digits(s),
        0 <= i <= s.len(),
    ensures
        digits_value(s.take(i)) <= digits_value(s),
    decreases s.len(),
{
    if i == s.len() {
        assert(s.take(i) =~= s);
    } else {
        assert(all_digits(s.drop_last()));
        assert(s.drop_last().take(i) =~= s.take(i));
        lemma_digits_prefix_le(s.drop_last(), i);
        lemma_digits_value_nonneg(s.drop_last());
    }
}

/// `first_delim` is exactly the index of the first delimiter: if nothing
/// before `i` is a delimiter and `i` is one (or the end), then it is `i`.
proof fn lemma_first_delim_at(s: Seq<u8>, i: int)
    requires
        0 <= i <= s.len(),
        forall|k: int| 0 <= k < i ==> s[k] != DELIMITER,
        i == s.len() || s[i] == DELIMITER,
    ensures
        first_delim(s) == i,
    decreases i,
{
    if i > 0 {
        let rest = s.drop_first();
        assert(forall|k: int| 0 <= k < i - 1 ==> rest[k] == s[k + 1] && rest[k] != DELIMITER);
        assert(i - 1 == rest.len() || rest[i - 1] == s[i]);
        lemma_first_delim_at(rest, i - 1);
    }
}

/// `trim_start` removes exactly the leading whitespace: if everything before
/// `a` is whitespace and `a` is not (or is the end), the result is the
/// suffix from `a`.
proof fn lemma_trim_start_at(s: Seq<u8>, a: int)
    requires
        0 <= a <= s.len(),
        forall|k: int| 0 <= k < a ==> is_space(s[k]),
        a == s.len() || !is_space(s[a]),
    ensures
        trim_start(s) == s.subrange(a, s.len() as int),
    decreases a,
{
    if a == 0 {
        assert(s.subrange(0, s.len() as int) =~= s);
    } else {
        let rest = s.drop_first();
        assert(forall|k: int| 0 <= k < a - 1 ==> rest[k] == s[k + 1] && is_space(rest[k]));
        assert(a - 1 == rest.len() || rest[a - 1] == s[a]);
        lemma_trim_start_at(rest, a - 1);
        assert(rest.subrange(a - 1, rest.len() as int) =~= s.subrange(a, s.len() as int));
    }
}

/// `trim_end` removes exactly the trailing whitespace: if everything from `b`
/// on is whitespace and the byte before `b` is not (or `b` is 0), the result
/// is the prefix up to `b`.
proof fn lemma_trim_end_at(s: Seq<u8>, b: int)
    requires
        0 <= b <= s.len(),
        forall|k: int| b <= k < s.len() ==> is_space(s[k]),
        b == 0 || !is_space(s[b - 1]),
    ensures
        trim_end(s) == s.subrange(0, b),
    decreases s.len(),
{
    if b == s.len() {
        if s.len() > 0 {
            assert(!is_space(s.last()));
        }
        assert(s.subrange(0, b) =~= s);
    } else {
        assert(is_space(s.last()));
        let rest = s.drop_last();
        assert(forall|k: int| b <= k < rest.len() ==> rest[k] == s[k] && is_space(rest[k]));
        lemma_trim_end_at(rest, b);
        assert(rest.subrange(0, b) =~= s.subrange(0, b));
    }
}

/// Whether a byte is ASCII whitespace.
fn byte_is_space(b: u8) -> (r: bool)
    ensures
        r == is_space(b),
{
    b == 32 || (b >= 9 && b <= 13)
}

/// Whether a byte is an ASCII decimal digit.
fn byte_is_digit(b: u8) -> (r: bool)
    ensures
        r == is_digit(b),
{
    b >= 48 && b <= 57
}

/// Strips surrounding ASCII whitespace from a byte string.
fn trim_spaces(s: &[u8]) -> (r: &[u8])
    ensures
        r@ == trimmed(s@),
{
    let n: usize = s.len();
    let mut a: usize = 0;
    while a < n && byte_is_space(s[a])
        invariant
            0 <= a <= n,
            n == s@.len(),
            forall|k: int| 0 <= k < a ==> is_space(s@[k]),
        decreases n - a,
    {
        a = a + 1;
    }
    let mut b: usize = n;
    while b > a && byte_is_space(s[b - 1])
        invariant
            a <= b <= n,
            n == s@.len(),
            forall|k: int| b <= k < n ==> is_space(s@[k]),
        decreases b,
    {
        b = b - 1;
    }
    proof {
        lemma_trim_start_at(s@, a as int);
        let started = s@.subrange(a as int, n as int);
        assert(forall|k: int| b - a <= k < started.len() ==> started[k] == s@[k + a] && is_space(
            started[k],
        ));
        assert(b - a == 0 || started[b - a - 1] == s@[b as int - 1]);
        lemma_trim_end_at(started, b - a);
        assert(started.subrange(0, b - a) =~= s@.subrange(a as int, b as int));
    }
    vstd::slice::slice_subrange(s, a, b)
}

/// Parses a whole byte string as a base-10 `i32`: an optional sign, then at
/// least one digit, and nothing else; `None` when the string is not such a
/// literal or its value does not fit in an `i32`.
fn parse_i32(s: &[u8]) -> (r: Option<i32>)
    ensures
        match r {
            Some(v) => is_int_literal(s@) && in_i32_range(int_literal_value(s@)) && v as int
                == int_literal_value(s@),
            None => !(is_int_literal(s@) && in_i32_range(int_literal_value(s@))),
        },
{
    let n: usize = s.len();
    if n == 0 {
        return None;
    }
    let first = s[0];
    let negative: bool = first == 45;
    let start: usize = if first == 45 || first == 43 {
        1
    } else {
        0
    };
    let ghost t: Seq<u8> = s@.subrange(start as int, n as int);
    proof {
        assert(t =~= literal_digits(s@));
    }
    if start == n {
        // A sign with no digits after it.
        return None;
    }
    let mut acc: u64 = 0;
    let mut j: usize = start;
    while j < n
        invariant
            start <= j <= n,
            start < n,
            n == s@.len(),
            t == s@.subrange(start as int, n as int),
            t == literal_digits(s@),
            forall|k: int| 0 <= k < j - start ==> is_digit(t[k]),
            acc == digits_value(t.take(j - start)),
            acc <= 0x8000_0000u64,
        decreases n - j,
    {
        let c = s[j];
        proof {
            assert(t[j - start] == s@[j as int]);
        }
        if !byte_is_digit(c) {
            assert(!all_digits(t));
            return None;
        }
        let d: u64 = (c - 48) as u64;
        let next: u64 = acc * 10 + d;
        proof {
            let p = t.take(j - start);
            let q = t.take(j - start + 1);
            assert(q.drop_last() =~= p);
            assert(q.last() == t[j - start]);
        }
        if next > 0x8000_0000u64 {
            // Even this prefix of the digits is already too large for an
            // `i32` of either sign, and further digits only grow the value.
            proof {
                if all_digits(t) {
                    lemma_digits_prefix_le(t, j - start + 1);
                }
            }
            return None;
        }
        acc = next;
        j = j + 1;
    }
    proof {
        assert(t.take(n - start) =~= t);
        assert(all_digits(t));
        if negative {
            assert(int_literal_value(s@) == -digits_value(t));
        } else {
            assert(int_literal_value(s@) == digits_value(t));
        }
    }
    let signed: i64 = if negative {
        -(acc as i64)
    } else {
        acc as i64
    };
    if signed < -0x8000_0000i64 || signed > 0x7fff_ffffi64 {
        return None;
    }
    Some(signed as i32)
}

/// Extracts the queue depth from the status command's output: the second
/// delimiter-separated field, trimmed, parsed as a base-10 integer.  Exactly
/// the outputs with no such field or a non-integer field are `ParseFailed`.
pub fn parse_queue_length(output: &[u8]) -> (result: Result<i32, InspectError>)
    ensures
        match result {
            Ok(depth) => queue_report(output@) == Some(depth as int),
            Err(e) => e == InspectError::ParseFailed && queue_report(output@) is None,
        },
{
    let n: usize = output.len();
    let mut i: usize = 0;
    while i < n && output[i] != DELIMITER
        invariant
            0 <= i <= n,
            n == output@.len(),
            forall|k: int| 0 <= k < i ==> output@[k] != DELIMITER,
        decreases n - i,
    {
        i = i + 1;
    }
    proof {
        lemma_first_delim_at(output@, i as int);
    }
    if i == n {
        return Err(InspectError::ParseFailed);
    }
    let mut j: usize = i + 1;
    while j < n && output[j] != DELIMITER
        invariant
            i + 1 <= j <= n,
            n == output@.len(),
            forall|k: int| i + 1 <= k < j ==> output@[k] != DELIMITER,
        decreases n - j,
    {
        j = j + 1;
    }
    let ghost rest = output@.subrange(i + 1, n as int);
    proof {
        assert(forall|k: int| 0 <= k < j - i - 1 ==> rest[k] == output@[k + i + 1] && rest[k]
            != DELIMITER);
        assert(j - i - 1 == rest.len() || rest[j - i - 1] == output@[j as int]);
        lemma_first_delim_at(rest, j - i - 1);
    }
    let field = vstd::slice::slice_subrange(output, i + 1, j);
    proof {
        assert(field@ =~= rest.subrange(0, first_delim(rest)));
        assert(field@ == second_field(output@));
    }
    let value_text = trim_spaces(field);
    match parse_i32(value_text) {
        Some(depth) => Ok(depth),
        None => Err(InspectError::ParseFailed),
    }
}

/// Interprets one outcome of the status command as an observation of the
/// queue: the depth it reported, or the inspection error the outcome forces.
pub fn inspect(outcome: &CommandOutcome) -> (result: Result<i32, InspectError>)
    ensures
        match result {
            Ok(depth) => observation_of(*outcome) == Ok::<int, InspectError>(depth as int),
            Err(e) => observation_of(*outcome) == Err::<int, InspectError>(e),
        },
{
    match outcome {
        CommandOutcome::TimedOut => Err(InspectError::Timeout),
        CommandOutcome::Failed => Err(InspectError::CommandFailed),
        CommandOutcome::Finished { success, stdout } => {
            if *success {
                parse_queue_length(stdout.as_slice())
            } else {
                Err(InspectError::CommandFailed)
            }
        },
    }
}

} // verus!
