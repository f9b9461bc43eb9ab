//! Character-sequence utilities: lexicographic ordering, string equality and
//! decimal integer parsing, each specified against `Seq<char>` views.

use vstd::prelude::*;

verus! {

/// Strict lexicographic order on character sequences, comparing code points.
pub open spec fn lex_lt(a: Seq<char>, b: Seq<char>) -> bool
    decreases a.len(),
{
    if b.len() == 0 {
        false
    } else if a.len() == 0 {
        true
    } else if a[0] != b[0] {
        (a[0] as int) < (b[0] as int)
    } else {
        lex_lt(a.skip(1), b.skip(1))
    }
}

proof fn lemma_skip_one_more(s: Seq<char>, i: int)
    requires
        0 <= i < s.len(),
    ensures
        s.skip(i).skip(1) == s.skip(i + 1),
{
    assert(s.skip(i).skip(1) =~= s.skip(i + 1));
}

/// Dropping an equal prefix from both sides does not change the comparison.
proof fn lemma_lex_lt_skip(a: Seq<char>, b: Seq<char>, i: int)
    requires
        0 <= i <= a.len(),
        i <= b.len(),
        forall|j: int| 0 <= j < i ==> a[j] == b[j],
    ensures
        lex_lt(a, b) == lex_lt(a.skip(i), b.skip(i)),
    decreases i,
{
    if i > 0 {
        assert(a[0] == b[0]);
        lemma_skip_one_more(a, 0);
        lemma_skip_one_more(b, 0);
        assert(lex_lt(a, b) == lex_lt(a.skip(1), b.skip(1)));
        assert(forall|j: int| 0 <= j < i - 1 ==> a.skip(1)[j] == b.skip(1)[j]);
        lemma_lex_lt_skip(a.skip(1), b.skip(1), i - 1);
        lemma_skip_one_more(a, 0);
        assert(a.skip(1).skip(i - 1) =~= a.skip(i));
        assert(b.skip(1).skip(i - 1) =~= b.skip(i));
    } else {
        assert(a.skip(0) =~= a);
        assert(b.skip(0) =~= b);
    }
}

/// `lex_lt` never relates a sequence to itself.
pub proof fn lemma_lex_lt_irreflexive(a: Seq<char>)
    ensures
        !lex_lt(a, a),
    decreases a.len(),
{
    if a.len() > 0 {
        lemma_lex_lt_irreflexive(a.skip(1));
    }
}

/// Exactly one of `lex_lt(a, b)`, `lex_lt(b, a)`, `a == b` holds.
pub proof fn lemma_lex_lt_connected(a: Seq<char>, b: Seq<char>)
    ensures
        a != b ==> lex_lt(a, b) || lex_lt(b, a),
        !(lex_lt(a, b) && lex_lt(b, a)),
    decreases a.len(),
{
    if a.len() > 0 && b.len() > 0 && a[0] == b[0] {
        lemma_lex_lt_connected(a.skip(1), b.skip(1));
        if a.skip(1) == b.skip(1) {
            assert forall|j: int| 0 <= j < a.len() implies a[j] == b[j] by {
                if j > 0 {
                    assert(a[j] == a.skip(1)[j - 1]);
                    assert(b[j] == b.skip(1)[j - 1]);
                }
            }
            assert(a =~= b);
        }
    } else if a.len() == 0 && b.len() == 0 {
        assert(a =~= b);
    }
}

/// `lex_lt` is transitive.
pub proof fn lemma_lex_lt_transitive(a: Seq<char>, b: Seq<char>, c: Seq<char>)
    requires
        lex_lt(a, b),
        lex_lt(b, c),
    ensures
        lex_lt(a, c),
    decreases a.len(),
{
    if a.len() > 0 && b.len() > 0 && c.len() > 0 && a[0] == c[0] {
        if a[0] == b[0] {
            lemma_lex_lt_transitive(a.skip(1), b.skip(1), c.skip(1));
        }
    }
}

/// Whether two strings have the same characters.
pub fn str_eq(a: &str, b: &str) -> (r: bool)
    ensures
        r == (a@ == b@),
{
    let a_len: usize = a.unicode_len();
    let b_len: usize = b.unicode_len();
    if a_len != b_len {
        return false;
    }
    let mut i: usize = 0;
    while i < a_len
        invariant
            i <= a_len,
            a_len == a@.len(),
            a_len == b@.len(),
            forall|j: int| 0 <= j < i ==> a@[j] == b@[j],
        decreases a_len - i,
    {
        if a.get_char(i) != b.get_char(i) {
            return false;
        }
        i = i + 1;
    }
    proof {
        assert(a@ =~= b@);
    }
    true
}

/// Whether `a` comes strictly before `b` in lexicographic order.
pub fn str_lt(a: &str, b: &str) -> (r: bool)
    ensures
        r == lex_lt(a@, b@),
{
    let a_len: usize = a.unicode_len();
    let b_len: usize = b.unicode_len();
    let mut i: usize = 0;
    loop
        invariant
            i <= a_len,
            i <= b_len,
            a_len == a@.len(),
            b_len == b@.len(),
            forall|j: int| 0 <= j < i ==> a@[j] == b@[j],
        decreases a_len - i,
    {
        if i == b_len {
            proof {
                lemma_lex_lt_skip(a@, b@, i as int);
            }
            return false;
        }
        if i == a_len {
            proof {
                lemma_lex_lt_skip(a@, b@, i as int);
            }
            return true;
        }
        let ca: char = a.get_char(i);
        let cb: char = b.get_char(i);
        if ca != cb {
            proof {
                lemma_lex_lt_skip(a@, b@, i as int);
            }
            return (ca as u32) < (cb as u32);
        }
        i = i + 1;
    }
}

/// Whether `c` is a decimal digit.
pub open spec fn is_dec_digit(c: char) -> bool {
    ('0' as int) <= (c as int) && (c as int) <= ('9' as int)
}

pub open spec fn all_dec_digits(s: Seq<char>) -> bool {
    forall|i: int| 0 <= i < s.len() ==> is_dec_digit(s[i])
}

/// Numeric value of a sequence of decimal digits (most significant first).
pub open spec fn digits_val(s: Seq<char>) -> int
    decreases s.len(),
{
    if s.len() == 0 {
        0
    } else {
        digits_val(s.drop_last()) * 10 + (s.last() as int - '0' as int)
    }
}

pub proof fn lemma_digits_val_nonneg(s: Seq<char>)
    requires
        all_dec_digits(s),
    ensures
        digits_val(s) >= 0,
    decreases s.len(),
{
    if s.len() > 0 {
        assert(all_dec_digits(s.drop_last()));
        lemma_digits_val_nonneg(s.drop_last());
    }
}

/// A longer digit string never has a smaller value than its prefix.
proof fn lemma_digits_val_prefix_le(s: Seq<char>, k: int)
    requires
        all_dec_digits(s),
        0 <= k <= s.len(),
    ensures
        digits_val(s.take(k)) <= digits_val(s),
    decreases s.len() - k,
{
    if k < s.len() {
        lemma_digits_val_prefix_le(s, k + 1);
        assert(s.take(k + 1).drop_last() =~= s.take(k));
        assert(all_dec_digits(s.take(k)));
        lemma_digits_val_nonneg(s.take(k));
        assert(digits_val(s.take(k + 1)) == digits_val(s.take(k)) * 10 + (s[k] as int
            - '0' as int));
    } else {
        assert(s.take(k) =~= s);
    }
}

/// The texts accepted as 64-bit signed decimal integers: an optional leading
/// minus sign, then at least one digit, with the value in range.
pub open spec fn valid_i64_text(s: Seq<char>) -> bool {
    if s.len() > 0 && s[0] == '-' {
        s.len() > 1 && all_dec_digits(s.skip(1)) && digits_val(s.skip(1)) <= 0x8000_0000_0000_0000
    } else {
        s.len() > 0 && all_dec_digits(s) && digits_val(s) <= i64::MAX as int
    }
}

/// The value denoted by a valid signed decimal text.
pub open spec fn i64_text_val(s: Seq<char>) -> int {
    if s.len() > 0 && s[0] == '-' {
        -digits_val(s.skip(1))
    } else {
        digits_val(s)
    }
}

/// Parses a signed decimal integer, accepting exactly the texts described by
/// [`valid_i64_text`].
pub fn parse_i64(s: &str) -> (r: Option<i64>)
    ensures
        match r {
            Some(v) => valid_i64_text(s@) && v as int == i64_text_val(s@),
            None => !valid_i64_text(s@),
        },
{
    let len: usize = s.unicode_len();
    if len == 0 {
        return None;
    }
    let neg: bool = s.get_char(0) == '-';
    let start: usize = if neg {
        1
    } else {
        0
    };
    if start == len {
        return None;
    }
    let ghost digits: Seq<char> = s@.skip(start as int);
    let mut i: usize = start;
    let mut acc: u64 = 0;
    while i < len
        invariant
            start <= i <= len,
            start <= 1,
            len == s@.len(),
            start < len,
            neg == (s@[0] == '-'),
            neg ==> start == 1,
            !neg ==> start == 0,
            digits == s@.skip(start as int),
            forall|j: int| start <= j < i ==> is_dec_digit(s@[j]),
            acc as int == digits_val(s@.subrange(start as int, i as int)),
            acc <= 0x8000_0000_0000_0000,
        decreases len - i,
    {
        let c: char = s.get_char(i);
        if (c as u32) < ('0' as u32) || (c as u32) > ('9' as u32) {
            proof {
                assert(!is_dec_digit(digits[i - start]));
            }
            return None;
        }
        let d: u64 = ((c as u32) - ('0' as u32)) as u64;
        proof {
            assert(s@.subrange(start as int, i + 1).drop_last() =~= s@.subrange(
                start as int,
                i as int,
            ));
            assert(s@.subrange(start as int, i + 1).last() == s@[i as int]);
        }
        if acc > (0x8000_0000_0000_0000u64 - d) / 10 {
            // the value of this digit prefix already exceeds every
            // representable magnitude, and appending digits cannot shrink it
            proof {
                let pre = s@.subrange(start as int, i + 1);
                assert(digits_val(pre) == acc * 10 + d);
                assert(acc * 10 + d > 0x8000_0000_0000_0000) by (nonlinear_arith)
                    requires
                        acc > (0x8000_0000_0000_0000u64 - d) / 10,
                        d <= 9,
                        acc <= 0x8000_0000_0000_0000,
                ;
                if valid_i64_text(s@) {
                    if s@[0] == '-' {
                        assert(pre =~= digits.take(i + 1 - start));
                        lemma_digits_val_prefix_le(digits, i + 1 - start);
                    } else {
                        assert(pre =~= s@.take(i + 1));
                        lemma_digits_val_prefix_le(s@, i + 1);
                    }
                }
            }
            return None;
        }
        proof {
            assert(acc * 10 + d <= 0x8000_0000_0000_0000) by (nonlinear_arith)
                requires
                    acc <= (0x8000_0000_0000_0000u64 - d) / 10,
                    d <= 9,
            ;
        }
        acc = acc * 10 + d;
        i = i + 1;
    }
    proof {
        assert(s@.subrange(start as int, len as int) =~= digits);
        if !neg {
            assert(digits =~= s@);
        }
    }
    if neg {
        if acc == 0x8000_0000_0000_0000u64 {
            Some(i64::MIN)
        } else {
            Some(-(acc as i64))
        }
    } else {
        if acc > i64::MAX as u64 {
            return None;
        }
        Some(acc as i64)
    }
}

} // verus!
