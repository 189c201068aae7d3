//! Parsing of user-typed input, and the count-driven session behind
//! the list-input dialogs.
//!
//! The input widgets hand back plain text.  Instead of aborting on
//! text that does not parse, the helpers here return a recoverable
//! error and say exactly which texts parse to what.

use crate::error::ErrorKind;
use vstd::prelude::*;

verus! {

/// A character that trimming drops: the Unicode white-space set.
pub open spec fn is_space(c: char) -> bool {
    let u = c as u32;
    u == 0x20 || (0x09 <= u && u <= 0x0d) || u == 0x85 || u == 0xa0 || u == 0x1680 || (0x2000 <= u
        && u <= 0x200a) || u == 0x2028 || u == 0x2029 || u == 0x202f || u == 0x205f || u == 0x3000
}

/// The text with leading white space dropped.
pub open spec fn trim_start_spec(s: Seq<char>) -> Seq<char>
    decreases s.len(),
{
    if s.len() > 0 && is_space(s[0]) {
        trim_start_spec(s.skip(1))
    } else {
        s
    }
}

/// The text with trailing white space dropped.
pub open spec fn trim_end_spec(s: Seq<char>) -> Seq<char>
    decreases s.len(),
{
    if s.len() > 0 && is_space(s.last()) {
        trim_end_spec(s.drop_last())
    } else {
        s
    }
}

/// The text with white space dropped at both ends.
pub open spec fn trim_spec(s: Seq<char>) -> Seq<char> {
    trim_end_spec(trim_start_spec(s))
}

/// A decimal digit.
pub open spec fn is_digit(c: char) -> bool {
    0x30 <= c as u32 && c as u32 <= 0x39
}

/// The value of a decimal digit.
pub open spec fn digit_val(c: char) -> int {
    c as u32 - 0x30
}

/// Every character is a decimal digit.
pub open spec fn all_digits(s: Seq<char>) -> bool {
    forall|i: int| 0 <= i < s.len() ==> is_digit(s[i])
}

/// The value of a run of decimal digits, most significant first.
pub open spec fn digits_val(s: Seq<char>) -> int
    decreases s.len(),
{
    if s.len() == 0 {
        0
    } else {
        10 * digits_val(s.drop_last()) + digit_val(s.last())
    }
}

/// The digits of an optionally signed integer literal.
pub open spec fn int_literal_body(s: Seq<char>) -> Seq<char> {
    if s.len() > 0 && (s[0] == '+' || s[0] == '-') {
        s.skip(1)
    } else {
        s
    }
}

/// The sign of an optionally signed integer literal.
pub open spec fn int_literal_sign(s: Seq<char>) -> int {
    if s.len() > 0 && s[0] == '-' {
        -1
    } else {
        1
    }
}

/// Whether `s` is an integer literal whose value fits an `i64`: an
/// optional sign, then at least one decimal digit, nothing else.
pub open spec fn is_i64_literal(s: Seq<char>) -> bool {
    let body = int_literal_body(s);
    body.len() > 0 && all_digits(body) && i64::MIN <= int_literal_sign(s) * digits_val(body)
        <= i64::MAX
}

/// The value of such a literal.
pub open spec fn i64_literal_val(s: Seq<char>) -> int {
    int_literal_sign(s) * digits_val(int_literal_body(s))
}

/// A run of digits has a non-negative value.
pub proof fn lemma_digits_val_nonneg(s: Seq<char>)
    requires
        all_digits(s),
    ensures
        digits_val(s) >= 0,
    decreases s.len(),
{
    if s.len() > 0 {
        assert forall|i: int| 0 <= i < s.drop_last().len() implies is_digit(
            #[trigger] s.drop_last()[i],
        ) by {
            assert(s.drop_last()[i] == s[i]);
        }
        lemma_digits_val_nonneg(s.drop_last());
    }
}

/// Dropping trailing digits never increases the value.
pub proof fn lemma_digits_val_prefix_le(s: Seq<char>, k: int)
    requires
        all_digits(s),
        0 <= k <= s.len(),
    ensures
        digits_val(s.take(k)) <= digits_val(s),
    decreases s.len() - k,
{
    if k < s.len() {
        assert forall|i: int| 0 <= i < s.take(k).len() implies is_digit(#[trigger] s.take(k)[i]) by {
            assert(s.take(k)[i] == s[i]);
        }
        lemma_digits_val_nonneg(s.take(k));
        assert(s.take(k + 1).drop_last() =~= s.take(k));
        assert(s.take(k + 1).last() == s[k]);
        assert(digits_val(s.take(k + 1)) == 10 * digits_val(s.take(k)) + digit_val(s[k]));
        lemma_digits_val_prefix_le(s, k + 1);
    } else {
        assert(s.take(k) =~= s);
    }
}

/// Whether the character is in the Unicode white-space set.
fn is_space_char(c: char) -> (r: bool)
    ensures
        r == is_space(c),
{
    let u = c as u32;
    u == 0x20 || (0x09 <= u && u <= 0x0d) || u == 0x85 || u == 0xa0 || u == 0x1680 || (0x2000 <= u
        && u <= 0x200a) || u == 0x2028 || u == 0x2029 || u == 0x202f || u == 0x205f || u == 0x3000
}

/// Parse the typed text as an `i64`, the way the integer-input dialog
/// reads its widget: trim white space at both ends, then accept an
/// optional sign followed by decimal digits, valuing them in base ten.
/// Every other text, and every value outside the `i64` range, is
/// rejected as invalid input.
#[verifier::loop_isolation(false)]
pub fn parse_i64(chars: &Vec<char>) -> (r: Result<i64, ErrorKind>)
    ensures
        ({
            let t = trim_spec(chars@);
            match r {
                Ok(v) => is_i64_literal(t) && v == i64_literal_val(t),
                Err(e) => e == ErrorKind::InvalidInput && !is_i64_literal(t),
            }
        }),
{
    let ghost s = chars@;
    let n = chars.len();
    proof {
        assert(s.skip(0) =~= s);
    }
    let mut lo: usize = 0;
    while lo < n && is_space_char(chars[lo])
        invariant
            lo <= n,
            trim_start_spec(s) == trim_start_spec(s.skip(lo as int)),
        decreases n - lo,
    {
        proof {
            assert(s.skip(lo as int)[0] == s[lo as int]);
            assert(s.skip(lo as int).skip(1) =~= s.skip(lo + 1));
        }
        lo += 1;
    }
    proof {
        if lo < n {
            assert(s.skip(lo as int)[0] == s[lo as int]);
        }
        assert(trim_start_spec(s) == s.skip(lo as int));
        assert(s.skip(lo as int) =~= s.subrange(lo as int, n as int));
    }
    let mut hi: usize = n;
    while hi > lo && is_space_char(chars[hi - 1])
        invariant
            lo <= hi <= n,
            trim_end_spec(s.skip(lo as int)) == trim_end_spec(s.subrange(lo as int, hi as int)),
        decreases hi,
    {
        proof {
            assert(s.subrange(lo as int, hi as int).last() == s[hi - 1]);
            assert(s.subrange(lo as int, hi as int).drop_last() =~= s.subrange(
                lo as int,
                hi - 1,
            ));
        }
        hi -= 1;
    }
    let ghost t = s.subrange(lo as int, hi as int);
    proof {
        if hi > lo {
            assert(t.last() == s[hi - 1]);
        }
        assert(trim_spec(s) == t);
    }
    let mut idx: usize = lo;
    let mut neg: bool = false;
    if idx < hi {
        let c = chars[idx];
        proof {
            assert(t[0] == s[lo as int]);
        }
        if c == '+' {
            idx += 1;
        } else if c == '-' {
            neg = true;
            idx += 1;
        }
    }
    let ghost body = s.subrange(idx as int, hi as int);
    proof {
        if idx != lo {
            assert(t.skip(1) =~= s.subrange(lo + 1, hi as int));
        }
        assert(body == int_literal_body(t));
        assert(int_literal_sign(t) == if neg {
            -1int
        } else {
            1int
        });
    }
    if idx == hi {
        return Err(ErrorKind::InvalidInput);
    }
    let mut acc: u64 = 0;
    let mut p: usize = idx;
    while p < hi
        invariant
            idx <= p <= hi,
            all_digits(body.take(p - idx)),
            acc as int == digits_val(body.take(p - idx)),
            acc <= 0x8000_0000_0000_0000u64,
        decreases hi - p,
    {
        let c = chars[p];
        let u = c as u32;
        proof {
            assert(body[p - idx] == s[p as int]);
        }
        if u < 0x30 || u > 0x39 {
            proof {
                assert(!is_digit(body[p - idx]));
            }
            return Err(ErrorKind::InvalidInput);
        }
        let d: u64 = (u - 0x30) as u64;
        let next: u128 = acc as u128 * 10 + d as u128;
        proof {
            assert(body.take(p - idx + 1).drop_last() =~= body.take(p - idx));
            assert(body.take(p - idx + 1).last() == body[p - idx]);
            assert(digits_val(body.take(p - idx + 1)) == next as int);
        }
        if next > 9223372036854775808u128 {
            proof {
                if all_digits(body) {
                    lemma_digits_val_prefix_le(body, p - idx + 1);
                    assert(digits_val(body) > 0x8000_0000_0000_0000);
                    if neg {
                        assert(int_literal_sign(t) * digits_val(body) == -digits_val(body));
                        assert(int_literal_sign(t) * digits_val(body) < i64::MIN);
                    } else {
                        assert(int_literal_sign(t) * digits_val(body) == digits_val(body));
                        assert(int_literal_sign(t) * digits_val(body) > i64::MAX);
                    }
                    assert(!is_i64_literal(t));
                } else {
                    assert(!is_i64_literal(t));
                }
            }
            return Err(ErrorKind::InvalidInput);
        }
        acc = next as u64;
        p += 1;
    }
    proof {
        assert(body.take(hi - idx) =~= body);
        lemma_digits_val_nonneg(body);
    }
    if neg {
        if acc == 9223372036854775808u64 {
            Ok(i64::MIN)
        } else {
            Ok(-(acc as i64))
        }
    } else {
        if acc > 0x7fff_ffff_ffff_ffffu64 {
            return Err(ErrorKind::InvalidInput);
        }
        Ok(acc as i64)
    }
}

/// The first character of the typed text, the way the character-input
/// dialog reads its widget.  Empty text is rejected as invalid input.
pub fn first_char(chars: &Vec<char>) -> (r: Result<char, ErrorKind>)
    ensures
        chars@.len() > 0 ==> r == Ok::<char, ErrorKind>(chars@[0]),
        chars@.len() == 0 ==> r == Err::<char, ErrorKind>(ErrorKind::InvalidInput),
{
    if chars.len() > 0 {
        Ok(chars[0])
    } else {
        Err(ErrorKind::InvalidInput)
    }
}

/// The count-driven session behind the list-input dialogs: the user
/// first gives a count, then is prompted once per remaining slot.  The
/// driver records each entry here and asks `wants_more` before every
/// further prompt.
pub struct CountedSession {
    initial: i64,
    remaining: i64,
    taken: i64,
}

impl CountedSession {
    /// The count the session was opened with.
    pub closed spec fn spec_initial(self) -> int {
        self.initial as int
    }

    /// How many entries are still owed.
    pub closed spec fn spec_remaining(self) -> int {
        self.remaining as int
    }

    /// How many entries were recorded.
    pub closed spec fn spec_taken(self) -> int {
        self.taken as int
    }

    /// Recorded and owed entries always account for the whole count; a
    /// negative count owes nothing.
    pub open spec fn well_formed(self) -> bool {
        if self.spec_initial() >= 0 {
            0 <= self.spec_remaining() <= self.spec_initial() && self.spec_taken()
                == self.spec_initial() - self.spec_remaining()
        } else {
            self.spec_remaining() == self.spec_initial() && self.spec_taken() == 0
        }
    }

    /// Open a session for `count` entries.
    pub fn new(count: i64) -> (session: Self)
        ensures
            session.well_formed(),
            session.spec_initial() == count,
            session.spec_remaining() == count,
            session.spec_taken() == 0,
    {
        CountedSession { initial: count, remaining: count, taken: 0 }
    }

    /// Whether another entry is owed: the loop condition of the
    /// list-input dialogs.
    pub fn wants_more(&self) -> (r: bool)
        ensures
            r == (self.spec_remaining() > 0),
    {
        self.remaining > 0
    }

    /// Record one entry.
    pub fn record(&mut self)
        requires
            old(self).well_formed(),
            old(self).spec_remaining() > 0,
        ensures
            final(self).well_formed(),
            final(self).spec_initial() == old(self).spec_initial(),
            final(self).spec_remaining() == old(self).spec_remaining() - 1,
            final(self).spec_taken() == old(self).spec_taken() + 1,
    {
        self.remaining = self.remaining - 1;
        self.taken = self.taken + 1;
    }

    /// How many entries were recorded so far.
    pub fn taken(&self) -> (r: i64)
        ensures
            r == self.spec_taken(),
    {
        self.taken
    }

    /// A session driven until no entry is owed has recorded exactly
    /// the count it was opened with, or nothing for a count below
    /// zero.
    pub proof fn lemma_finished_session_exact(self)
        requires
            self.well_formed(),
            self.spec_remaining() <= 0,
        ensures
            self.spec_taken() == if self.spec_initial() >= 0 {
                self.spec_initial()
            } else {
                0
            },
    {
    }
}

} // verus!

