//! Classification and parsing of the node's free-text fetch errors.
//!
//! The node reports two transient conditions in error text — a skipped
//! slot and a cleaned-up (pruned) block — and, with them, a floor of
//! the form `First available block: <decimal>,`. The tracker advances
//! to that floor. Text that fails to parse is tolerated: the caller
//! falls through to its log-and-continue path.

use vstd::prelude::*;

verus! {

/// The pattern `pat` stands in `s` at position `i`.
pub open spec fn match_at(s: Seq<char>, pat: Seq<char>, i: int) -> bool {
    0 <= i && i + pat.len() <= s.len() && s.subrange(i, i + pat.len()) == pat
}

/// The position of the first occurrence of `pat` in `s` at or after `i`.
pub open spec fn find_from(s: Seq<char>, pat: Seq<char>, i: int) -> Option<int>
    decreases s.len() - i + 1 when 0 <= i
{
    if i + pat.len() > s.len() {
        None
    } else if match_at(s, pat, i) {
        Some(i)
    } else {
        find_from(s, pat, i + 1)
    }
}

/// A decimal digit.
pub open spec fn is_digit(c: char) -> bool {
    48 <= c as u32 && c as u32 <= 57
}

/// The value of a digit sequence read as a decimal number.
pub open spec fn digits_val(s: Seq<char>) -> int
    decreases s.len(),
{
    if s.len() == 0 {
        0
    } else {
        digits_val(s.drop_last()) * 10 + (s.last() as u32 - 48)
    }
}

/// A non-empty sequence of decimal digits.
pub open spec fn all_digits(s: Seq<char>) -> bool {
    s.len() > 0 && forall|i: int| 0 <= i < s.len() ==> is_digit(s[i])
}

/// What parsing a decimal number yields: the value of a non-empty
/// digit sequence that fits in a `u64`, and nothing otherwise.
pub open spec fn spec_parse_u64(s: Seq<char>) -> Option<u64> {
    if all_digits(s) && digits_val(s) <= u64::MAX {
        Some(digits_val(s) as u64)
    } else {
        None
    }
}

/// The error text names one of the two transient conditions.
pub open spec fn spec_is_resync(s: Seq<char>) -> bool {
    find_from(s, "Slot was skipped"@, 0) is Some || find_from(s, "Block cleaned up"@, 0) is Some
}

/// The node-reported floor in the error text: the decimal number
/// between the first occurrence of the label `First available block: `
/// and the first comma at or after that occurrence.
pub open spec fn spec_resync_target(s: Seq<char>) -> Option<u64> {
    match find_from(s, "First available block: "@, 0) {
        None => None,
        Some(i) => match find_from(s, ","@, i) {
            None => None,
            Some(j) => if i + "First available block: "@.len() <= j {
                spec_parse_u64(s.subrange(i + "First available block: "@.len(), j))
            } else {
                None
            },
        },
    }
}

/// The value of a digit sequence is never negative.
proof fn lemma_digits_val_nonneg(s: Seq<char>)
    requires
        forall|i: int| 0 <= i < s.len() ==> is_digit(s[i]),
    ensures
        digits_val(s) >= 0,
    decreases s.len(),
{
    if s.len() > 0 {
        lemma_digits_val_nonneg(s.drop_last());
    }
}

/// A prefix of a digit sequence never has a larger value than the whole.
proof fn lemma_digits_prefix_le(s: Seq<char>, j: int)
    requires
        forall|i: int| 0 <= i < s.len() ==> is_digit(s[i]),
        0 <= j <= s.len(),
    ensures
        digits_val(s.take(j)) <= digits_val(s),
    decreases s.len() - j,
{
    if j == s.len() {
        assert(s.take(j) =~= s);
    } else {
        assert(s.take(j + 1).drop_last() =~= s.take(j));
        assert(forall|i: int| 0 <= i < s.take(j).len() ==> is_digit(s.take(j)[i]));
        lemma_digits_val_nonneg(s.take(j));
        assert(digits_val(s.take(j + 1)) == digits_val(s.take(j)) * 10 + (s[j] as u32 - 48));
        lemma_digits_prefix_le(s, j + 1);
    }
}

/// Decides whether `pat` stands in `s` at position `i`.
fn match_at_exec(s: &str, pat: &str, i: usize) -> (r: bool)
    requires
        i + pat@.len() <= s@.len(),
        s@.len() <= usize::MAX,
    ensures
        r == match_at(s@, pat@, i as int),
{
    let m = pat.unicode_len();
    let mut k: usize = 0;
    while k < m
        invariant
            k <= m,
            m == pat@.len(),
            i + m <= s@.len(),
            s@.len() <= usize::MAX,
            forall|t: int| 0 <= t < k ==> s@[i + t] == pat@[t],
        decreases m - k,
    {
        let a = s.get_char(i + k);
        let b = pat.get_char(k);
        if a != b {
            proof {
                let sub = s@.subrange(i as int, i as int + m as int);
                assert(sub[k as int] == s@[i as int + k as int]);
            }
            return false;
        }
        k += 1;
    }
    proof {
        assert(s@.subrange(i as int, i as int + m as int) =~= pat@);
    }
    true
}

/// Finds the first occurrence of `pat` in `s` at or after `start`.
fn find_pattern_from(s: &str, pat: &str, start: usize) -> (r: Option<usize>)
    requires
        start <= s@.len(),
    ensures
        match r {
            Some(i) => find_from(s@, pat@, start as int) == Some(i as int)
                && i + pat@.len() <= s@.len() <= usize::MAX,
            None => find_from(s@, pat@, start as int) is None,
        },
{
    let n = s.unicode_len();
    let m = pat.unicode_len();
    if m == 0 {
        proof {
            assert(s@.subrange(start as int, start as int) =~= pat@);
        }
        return Some(start);
    }
    if m > n || start > n - m {
        return None;
    }
    let mut i: usize = start;
    while i <= n - m
        invariant
            start <= i,
            1 <= m <= n,
            n == s@.len(),
            m == pat@.len(),
            find_from(s@, pat@, start as int) == find_from(s@, pat@, i as int),
        decreases n - i,
    {
        if match_at_exec(s, pat, i) {
            return Some(i);
        }
        i += 1;
    }
    None
}

/// Parses the character range `[from, to)` of `s` as a decimal `u64`.
fn parse_u64_range(s: &str, from: usize, to: usize) -> (r: Option<u64>)
    requires
        from <= to <= s@.len(),
    ensures
        r == spec_parse_u64(s@.subrange(from as int, to as int)),
{
    let ghost full = s@.subrange(from as int, to as int);
    if from == to {
        return None;
    }
    let mut acc: u64 = 0;
    let mut k: usize = from;
    while k < to
        invariant
            from <= k <= to,
            to <= s@.len(),
            full == s@.subrange(from as int, to as int),
            forall|t: int| 0 <= t < k - from ==> is_digit(full[t]),
            acc == digits_val(full.take(k - from)),
        decreases to - k,
    {
        let c = s.get_char(k);
        let cv = c as u32;
        proof {
            assert(full[k - from] == s@[k as int]);
        }
        if cv < 48 || cv > 57 {
            return None;
        }
        let d: u64 = (cv - 48) as u64;
        proof {
            assert(full.take(k - from + 1).drop_last() =~= full.take(k - from));
            assert(full.take(k - from + 1).last() == full[k - from]);
        }
        if acc > (u64::MAX - d) / 10 {
            proof {
                assert(10 * acc + d > u64::MAX) by (nonlinear_arith)
                    requires
                        acc > (u64::MAX - d) / 10,
                        0 <= d <= 9,
                        0 <= acc,
                ;
                assert(digits_val(full.take(k - from + 1)) == 10 * acc + d);
                if all_digits(full) {
                    lemma_digits_prefix_le(full, k - from + 1);
                }
            }
            return None;
        }
        proof {
            assert(10 * acc + d <= u64::MAX) by (nonlinear_arith)
                requires
                    acc <= (u64::MAX - d) / 10,
                    0 <= d <= 9,
                    0 <= acc,
            ;
        }
        acc = acc * 10 + d;
        k += 1;
    }
    proof {
        assert(full.take(to - from) =~= full);
    }
    Some(acc)
}

/// Decides whether the error text names a transient skipped or
/// cleaned-up slot.
pub fn is_resync_message(msg: &str) -> (r: bool)
    ensures
        r == spec_is_resync(msg@),
{
    let a = find_pattern_from(msg, "Slot was skipped", 0);
    if a.is_some() {
        return true;
    }
    let b = find_pattern_from(msg, "Block cleaned up", 0);
    b.is_some()
}

/// Extracts the node-reported floor from the error text, tolerating
/// text in which the label, the comma or the number is missing or
/// malformed.
pub fn resync_target(msg: &str) -> (r: Option<u64>)
    ensures
        r == spec_resync_target(msg@),
{
    let label = "First available block: ";
    let lab_len = label.unicode_len();
    match find_pattern_from(msg, label, 0) {
        None => None,
        Some(i) => {
            match find_pattern_from(msg, ",", i) {
                None => None,
                Some(j) => {
                    if i + lab_len <= j {
                        parse_u64_range(msg, i + lab_len, j)
                    } else {
                        None
                    }
                },
            }
        },
    }
}

} // verus!
