//! Extracts frame-count progress from the external encoder's diagnostic
//! output.
//!
//! The encoder reports progress as unstructured text; a line carries a frame
//! count when it contains a `frame=` token followed by optional whitespace
//! and a run of decimal digits.  The grammar is stated over raw bytes: every
//! byte the token grammar cares about is ASCII, so scanning bytes and
//! scanning characters agree.

use vstd::prelude::*;

verus! {

use vstd::string::StringSliceAdditionalSpecFns;

/// An ASCII decimal digit.
pub open spec fn is_ascii_digit(b: u8) -> bool {
    48 <= b <= 57
}

/// An ASCII whitespace byte: space, tab, line feed, vertical tab, form feed
/// or carriage return.
pub open spec fn is_ascii_space(b: u8) -> bool {
    b == 32 || b == 9 || b == 10 || b == 11 || b == 12 || b == 13
}

/// The bytes of the `frame=` token.
pub open spec fn frame_token() -> Seq<u8> {
    seq![102u8, 114u8, 97u8, 109u8, 101u8, 61u8]
}

/// The first position at or after `i` holding a byte that is not ASCII
/// whitespace, or the length of `s` when only whitespace remains.
pub open spec fn skip_spaces(s: Seq<u8>, i: int) -> int
    decreases s.len() - i,
    when 0 <= i <= s.len()
{
    if i == s.len() || !is_ascii_space(s[i]) {
        i
    } else {
        skip_spaces(s, i + 1)
    }
}

/// The first position at or after `i` holding a byte that is not an ASCII
/// digit, or the length of `s` when only digits remain.
pub open spec fn digit_run_end(s: Seq<u8>, i: int) -> int
    decreases s.len() - i,
    when 0 <= i <= s.len()
{
    if i == s.len() || !is_ascii_digit(s[i]) {
        i
    } else {
        digit_run_end(s, i + 1)
    }
}

/// The numeric value of a digit byte; bytes outside the digit range count
/// as zero so the definition is total.
pub open spec fn digit_of(b: u8) -> nat {
    if is_ascii_digit(b) {
        (b - 48) as nat
    } else {
        0
    }
}

/// The value of the decimal digits of `s` between positions `i` and `j`.
pub open spec fn digits_val(s: Seq<u8>, i: int, j: int) -> nat
    decreases j - i,
    when 0 <= i <= j <= s.len()
{
    if i == j {
        0
    } else {
        digits_val(s, i, j - 1) * 10 + digit_of(s[j - 1])
    }
}

/// Whether the full progress pattern matches at position `i`: the `frame=`
/// token, then optional whitespace, then at least one digit.
pub open spec fn matches_at(s: Seq<u8>, i: int) -> bool {
    &&& 0 <= i
    &&& i + 6 <= s.len()
    &&& s.subrange(i, i + 6) == frame_token()
    &&& {
        let j = skip_spaces(s, i + 6);
        j < s.len() && is_ascii_digit(s[j])
    }
}

/// The leftmost position at or after `i` where the progress pattern
/// matches, if any.
pub open spec fn first_match_from(s: Seq<u8>, i: int) -> Option<int>
    decreases s.len() - i,
    when 0 <= i
{
    if i + 6 > s.len() {
        None
    } else if matches_at(s, i) {
        Some(i)
    } else {
        first_match_from(s, i + 1)
    }
}

/// The frame count carried by one line of diagnostic text: the digit run of
/// the leftmost progress pattern, provided its value fits in a `u32`.  A
/// line without the pattern, or with a value too large for `u32`, carries
/// nothing.
pub open spec fn frame_of_line(s: Seq<u8>) -> Option<u32> {
    match first_match_from(s, 0) {
        None => None,
        Some(i) => {
            let j = skip_spaces(s, i + 6);
            let v = digits_val(s, j, digit_run_end(s, j));
            if v <= u32::MAX {
                Some(v as u32)
            } else {
                None
            }
        },
    }
}

/// `digit_run_end` stays between its starting position and the buffer's
/// length.
proof fn lemma_digit_run_end_bounds(s: Seq<u8>, i: int)
    requires
        0 <= i <= s.len(),
    ensures
        i <= digit_run_end(s, i) <= s.len(),
    decreases s.len() - i,
{
    if i < s.len() && is_ascii_digit(s[i]) {
        lemma_digit_run_end_bounds(s, i + 1);
    }
}

/// Extending a digit run to the right never decreases its value.
proof fn lemma_digits_val_monotone(s: Seq<u8>, i: int, j: int, k: int)
    requires
        0 <= i <= j <= k <= s.len(),
    ensures
        digits_val(s, i, j) <= digits_val(s, i, k),
    decreases k - j,
{
    if j < k {
        lemma_digits_val_monotone(s, i, j, k - 1);
        assert(digits_val(s, i, k) == digits_val(s, i, k - 1) * 10 + digit_of(s[k - 1]));
    }
}

/// Scans one line of diagnostic output, given as raw bytes, for the
/// leftmost `frame=<digits>` progress pattern.
pub fn frame_from_bytes(bytes: &[u8]) -> (r: Option<u32>)
    ensures
        r == frame_of_line(bytes@),
{
    let n = bytes.len();
    if n < 6 {
        return None;
    }
    let mut i: usize = 0;
    while i <= n - 6
        invariant
            n == bytes@.len(),
            6 <= n,
            0 <= i <= n,
            first_match_from(bytes@, 0) == first_match_from(bytes@, i as int),
        decreases n - i,
    {
        let token_here = bytes[i] == 102 && bytes[i + 1] == 114 && bytes[i + 2] == 97 && bytes[i
            + 3] == 109 && bytes[i + 4] == 101 && bytes[i + 5] == 61;
        if token_here {
            proof {
                assert(bytes@.subrange(i as int, i + 6) =~= frame_token());
            }
            let mut j = i + 6;
            while j < n && (bytes[j] == 32 || bytes[j] == 9 || bytes[j] == 10 || bytes[j] == 11
                || bytes[j] == 12 || bytes[j] == 13)
                invariant
                    n == bytes@.len(),
                    i + 6 <= j <= n,
                    skip_spaces(bytes@, i + 6) == skip_spaces(bytes@, j as int),
                decreases n - j,
            {
                j = j + 1;
            }
            assert(skip_spaces(bytes@, i + 6) == j);
            if j < n && bytes[j] >= 48 && bytes[j] <= 57 {
                assert(matches_at(bytes@, i as int));
                assert(first_match_from(bytes@, i as int) == Some(i as int));
                // Accumulate the digit run; bail out if the value leaves u32.
                let mut k = j;
                let mut acc: u64 = 0;
                while k < n && bytes[k] >= 48 && bytes[k] <= 57
                    invariant
                        n == bytes@.len(),
                        j <= k <= n,
                        acc == digits_val(bytes@, j as int, k as int),
                        acc <= u32::MAX,
                        digit_run_end(bytes@, j as int) == digit_run_end(bytes@, k as int),
                        first_match_from(bytes@, 0) == Some(i as int),
                        i + 6 <= j,
                        j == skip_spaces(bytes@, i as int + 6),
                    decreases n - k,
                {
                    let d = (bytes[k] - 48) as u64;
                    let next = acc * 10 + d;
                    if next > u32::MAX as u64 {
                        proof {
                            lemma_digit_run_end_bounds(bytes@, k + 1);
                            assert(digit_run_end(bytes@, k as int) == digit_run_end(
                                bytes@,
                                k + 1,
                            ));
                            lemma_digits_val_monotone(
                                bytes@,
                                j as int,
                                k + 1,
                                digit_run_end(bytes@, j as int),
                            );
                            assert(digits_val(bytes@, j as int, k + 1) == acc * 10 + digit_of(
                                bytes@[k as int],
                            ));
                            assert(digits_val(
                                bytes@,
                                j as int,
                                digit_run_end(bytes@, j as int),
                            ) > u32::MAX);
                            assert(frame_of_line(bytes@) is None);
                        }
                        return None;
                    }
                    acc = next;
                    k = k + 1;
                }
                assert(digit_run_end(bytes@, j as int) == k);
                return Some(acc as u32);
            }
        }
        proof {
            assert(!matches_at(bytes@, i as int));
        }
        i = i + 1;
    }
    proof {
        assert(first_match_from(bytes@, i as int) is None);
    }
    None
}

/// Extracts an unsigned frame count from one line of encoder diagnostic
/// text.  Lines without the `frame=` token yield nothing; variable
/// whitespace around the number is tolerated.
pub fn parse_frame_from_line(line: &str) -> (r: Option<u32>)
    ensures
        r == frame_of_line(line.spec_bytes()),
{
    frame_from_bytes(line.as_bytes())
}

/// The first position at or after `i` holding a line feed, or the length of
/// `s` when the rest of `s` is the last line.
pub open spec fn line_end(s: Seq<u8>, i: int) -> int
    decreases s.len() - i,
    when 0 <= i <= s.len()
{
    if i == s.len() || s[i] == 10 {
        i
    } else {
        line_end(s, i + 1)
    }
}

/// `line_end` stays between its starting position and the buffer's length.
pub proof fn lemma_line_end_bounds(s: Seq<u8>, i: int)
    requires
        0 <= i <= s.len(),
    ensures
        i <= line_end(s, i) <= s.len(),
    decreases s.len() - i,
{
    if i < s.len() && s[i] != 10 {
        lemma_line_end_bounds(s, i + 1);
    }
}

/// The frame count of the first line at or after position `i` that carries
/// one, if any line does.
pub open spec fn progress_from(s: Seq<u8>, i: int) -> Option<u32>
    decreases s.len() - i,
    when 0 <= i <= s.len() via progress_from_decreases
{
    let e = line_end(s, i);
    match frame_of_line(s.subrange(i, e)) {
        Some(v) => Some(v),
        None => if e == s.len() {
            None
        } else {
            progress_from(s, e + 1)
        },
    }
}

#[via_fn]
proof fn progress_from_decreases(s: Seq<u8>, i: int) {
    lemma_line_end_bounds(s, i);
}

/// The frame count reported by a buffer of diagnostic output: the first
/// line, in order, that carries a `frame=<digits>` pattern.
pub open spec fn ffmpeg_progress_spec(s: Seq<u8>) -> Option<u32> {
    progress_from(s, 0)
}

/// Extracts a frame count from a captured buffer of encoder diagnostic
/// output, line by line.
pub fn get_ffmpeg_progress(stderr: &[u8]) -> (r: Option<u32>)
    ensures
        r == ffmpeg_progress_spec(stderr@),
{
    let n = stderr.len();
    let mut i: usize = 0;
    loop
        invariant
            n == stderr@.len(),
            0 <= i <= n,
            ffmpeg_progress_spec(stderr@) == progress_from(stderr@, i as int),
        decreases n - i,
    {
        let mut e = i;
        while e < n && stderr[e] != 10
            invariant
                n == stderr@.len(),
                i <= e <= n,
                line_end(stderr@, i as int) == line_end(stderr@, e as int),
            decreases n - e,
        {
            e = e + 1;
        }
        assert(line_end(stderr@, i as int) == e);
        let line = &stderr[i..e];
        if let Some(v) = frame_from_bytes(line) {
            return Some(v);
        }
        if e == n {
            return None;
        }
        i = e + 1;
    }
}

} // verus!
