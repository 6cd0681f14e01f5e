//! Numbers of A1-style cell references: base-26 column letters and decimal
//! row digits.
use vstd::prelude::*;
use vstd::string::StringSliceAdditionalSpecFns;

verus! {

/// The value of a column letter: its byte minus 64, so `'A'` is 1.
pub open spec fn letter_value(c: char) -> int {
    ((c as u32) % 256) as int - 64
}

/// The bijective base-26 value of a column name, `"A"` being 1 and `"AA"`
/// being 27.
pub open spec fn column_value(s: Seq<char>) -> int
    decreases s.len(),
{
    if s.len() == 0 {
        0
    } else {
        column_value(s.drop_last()) * 26 + letter_value(s.last())
    }
}

/// The decimal value of a sequence of digits.
pub open spec fn decimal_value(s: Seq<u8>) -> int
    decreases s.len(),
{
    if s.len() == 0 {
        0
    } else {
        decimal_value(s.drop_last()) * 10 + s.last()
    }
}

/// Every letter has a value of at least 1.
pub open spec fn letters_ok(s: Seq<char>) -> bool {
    forall|i: int| 0 <= i < s.len() ==> letter_value(#[trigger] s[i]) >= 1
}

proof fn lemma_column_prefix(s: Seq<char>, i: int)
    requires
        letters_ok(s),
        0 <= i <= s.len(),
    ensures
        0 <= column_value(s.take(i)) <= column_value(s),
        i < s.len() ==> column_value(s.take(i + 1)) == column_value(s.take(i)) * 26
            + letter_value(s[i]),
    decreases s.len() - i,
{
    if i < s.len() {
        assert(s.take(i + 1).drop_last() =~= s.take(i));
        lemma_column_prefix(s, i + 1);
    } else {
        assert(s.take(i) =~= s);
    }
    lemma_column_nonneg(s.take(i));
}

proof fn lemma_column_nonneg(s: Seq<char>)
    requires
        letters_ok(s),
    ensures
        column_value(s) >= 0,
        s.len() > 0 ==> column_value(s) >= 1,
    decreases s.len(),
{
    if s.len() > 0 {
        assert(letters_ok(s.drop_last()));
        lemma_column_nonneg(s.drop_last());
    }
}

proof fn lemma_decimal_prefix(s: Seq<u8>, i: int)
    requires
        0 <= i <= s.len(),
    ensures
        0 <= decimal_value(s.take(i)) <= decimal_value(s),
        i < s.len() ==> decimal_value(s.take(i + 1)) == decimal_value(s.take(i)) * 10 + s[i],
    decreases s.len() - i,
{
    if i < s.len() {
        assert(s.take(i + 1).drop_last() =~= s.take(i));
        lemma_decimal_prefix(s, i + 1);
    } else {
        assert(s.take(i) =~= s);
    }
    lemma_decimal_nonneg(s.take(i));
}

proof fn lemma_decimal_nonneg(s: Seq<u8>)
    ensures
        decimal_value(s) >= 0,
    decreases s.len(),
{
    if s.len() > 0 {
        lemma_decimal_nonneg(s.drop_last());
    }
}

/// The zero-based index of a column named by its letters, `"A"` being 0.
pub fn compose_column<const N: usize>(digits: [char; N]) -> (r: u32)
    requires
        N >= 1,
        letters_ok(digits@),
        column_value(digits@) <= u32::MAX,
    ensures
        r == column_value(digits@) - 1,
{
    let mut val: u32 = 0;
    let mut i: usize = 0;
    proof {
        assert(digits@.take(0) =~= Seq::<char>::empty());
    }
    while i < N
        invariant
            digits@.len() == N,
            letters_ok(digits@),
            column_value(digits@) <= u32::MAX,
            i <= N,
            val == column_value(digits@.take(i as int)),
        decreases N - i,
    {
        let digit = digits[i];
        proof {
            lemma_column_prefix(digits@, i + 1);
            lemma_column_prefix(digits@, i as int);
            assert(letter_value(digits@[i as int]) >= 1);
        }
        let code = digit as u32;
        let byte = code as u8;
        assert(byte == code % 256) by (bit_vector)
            requires
                byte == code as u8,
        ;
        val = val * 26;
        val = val + (byte - 65u8 + 1) as u32;
        i = i + 1;
    }
    proof {
        assert(digits@.take(N as int) =~= digits@);
        lemma_column_nonneg(digits@);
    }
    val = val - 1;
    val
}

/// The value of a sequence of decimal digits.
pub fn compose_decimal(digits: &[u8]) -> (r: u32)
    requires
        decimal_value(digits@) <= u32::MAX,
    ensures
        r == decimal_value(digits@),
{
    let mut val: u32 = 0;
    let mut i: usize = 0;
    proof {
        assert(digits@.take(0) =~= Seq::<u8>::empty());
    }
    while i < digits.len()
        invariant
            decimal_value(digits@) <= u32::MAX,
            i <= digits@.len(),
            val == decimal_value(digits@.take(i as int)),
        decreases digits@.len() - i,
    {
        proof {
            lemma_decimal_prefix(digits@, i + 1);
            lemma_decimal_prefix(digits@, i as int);
        }
        val = val * 10;
        val = val + digits[i] as u32;
        i = i + 1;
    }
    proof {
        assert(digits@.take(digits@.len() as int) =~= digits@);
    }
    val
}

/// The value of the decimal digit starting `s`.
pub fn digit(s: &str) -> (r: u8)
    requires
        s.spec_bytes().len() > 0,
        s.spec_bytes()[0] >= 48,
    ensures
        r == s.spec_bytes()[0] - 48,
{
    let bytes = s.as_bytes();
    bytes[0] - 48u8
}

} // verus!
