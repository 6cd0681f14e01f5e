//! Errors of a duplex sponge that follows a declared pattern of absorbs and
//! squeezes, and their text.
use vstd::prelude::*;
use vstd::string::*;

verus! {

/// One step of the pattern of a sponge: absorbing or squeezing `n` elements.
#[derive(Clone, Copy, Debug, PartialEq, Eq, Structural)]
pub enum Pattern {
    Absorb(usize),
    Squeeze(usize),
}

/// The pattern the sponge expected on finishing, and the one it followed.
#[derive(Clone, Debug)]
pub struct Mismatch {
    expected: Vec<Pattern>,
    found: Vec<Pattern>,
}

/// A sponge used against its pattern.
#[derive(Clone, Debug)]
pub enum Error {
    /// An element was squeezed before anything was absorbed.
    SqueezeBeforeAbsorb,
    /// More elements were absorbed or squeezed than the pattern allows.
    PatternOutOfBound,
    /// An absorb came where a squeeze was expected.
    UnexpectedAbsorb,
    /// A squeeze came where an absorb was expected.
    UnexpectedSqueeze,
    /// The pattern followed differs from the one declared.
    FinishMismatch(Box<Mismatch>),
}

/// The character of the decimal digit `d`.
pub open spec fn digit_char(d: nat) -> char {
    (48 + d) as char
}

/// The decimal digits of `n`, most significant first.
pub open spec fn decimal(n: nat) -> Seq<char>
    decreases n,
{
    if n < 10 {
        seq![digit_char(n)]
    } else {
        decimal(n / 10).push(digit_char(n % 10))
    }
}

/// `n` in decimal, padded with a zero to at least two digits.
pub open spec fn two_digits(n: nat) -> Seq<char> {
    if n < 10 {
        seq!['0', digit_char(n)]
    } else {
        decimal(n)
    }
}

/// The text of one step: its letter, its count in at least two digits, and
/// a space.
pub open spec fn step_text(p: Pattern) -> Seq<char> {
    match p {
        Pattern::Absorb(n) => seq!['A'] + two_digits(n as nat) + seq![' '],
        Pattern::Squeeze(n) => seq!['S'] + two_digits(n as nat) + seq![' '],
    }
}

/// The text of a pattern: the texts of its steps, in order.
pub open spec fn pattern_text(p: Seq<Pattern>) -> Seq<char>
    decreases p.len(),
{
    if p.len() == 0 {
        Seq::empty()
    } else {
        pattern_text(p.drop_last()) + step_text(p.last())
    }
}

/// Appends the decimal digit `d`.
fn push_digit(s: &mut String, d: usize)
    requires
        d < 10,
    ensures
        final(s)@ == old(s)@.push(digit_char(d as nat)),
{
    proof {
        reveal_strlit("0");
        reveal_strlit("1");
        reveal_strlit("2");
        reveal_strlit("3");
        reveal_strlit("4");
        reveal_strlit("5");
        reveal_strlit("6");
        reveal_strlit("7");
        reveal_strlit("8");
        reveal_strlit("9");
    }
    let ghost before = s@;
    match d {
        0 => s.append("0"),
        1 => s.append("1"),
        2 => s.append("2"),
        3 => s.append("3"),
        4 => s.append("4"),
        5 => s.append("5"),
        6 => s.append("6"),
        7 => s.append("7"),
        8 => s.append("8"),
        _ => s.append("9"),
    }
    proof {
        assert(s@ =~= before.push(digit_char(d as nat)));
    }
}

/// Appends `n` in decimal.
fn push_decimal(s: &mut String, n: usize)
    ensures
        final(s)@ == old(s)@ + decimal(n as nat),
    decreases n,
{
    if n < 10 {
        push_digit(s, n);
        proof {
            assert(old(s)@.push(digit_char(n as nat)) =~= old(s)@ + decimal(n as nat));
        }
    } else {
        push_decimal(s, n / 10);
        push_digit(s, n % 10);
        proof {
            assert(old(s)@ + decimal(n as nat) =~= (old(s)@ + decimal((n / 10) as nat)).push(
                digit_char((n % 10) as nat),
            ));
        }
    }
}

impl Mismatch {
    /// The expected pattern.
    pub closed spec fn expected(&self) -> Seq<Pattern> {
        self.expected@
    }

    /// The pattern followed.
    pub closed spec fn found(&self) -> Seq<Pattern> {
        self.found@
    }

    /// The mismatch of `found` against `expected`.
    pub fn new(expected: Vec<Pattern>, found: Vec<Pattern>) -> (r: Self)
        ensures
            r.expected() == expected@,
            r.found() == found@,
    {
        Mismatch { expected, found }
    }

    /// The text of a pattern: `A` or `S`, the count in at least two digits,
    /// and a space, for each step.
    pub fn debug_pattern(pattern: &[Pattern]) -> (r: String)
        ensures
            r@ == pattern_text(pattern@),
    {
        proof {
            reveal_strlit("A");
            reveal_strlit("S");
            reveal_strlit("0");
            reveal_strlit(" ");
        }
        let mut text = String::new();
        let mut i: usize = 0;
        proof {
            assert(pattern@.take(0) =~= Seq::<Pattern>::empty());
        }
        while i < pattern.len()
            invariant
                i <= pattern@.len(),
                text@ == pattern_text(pattern@.take(i as int)),
            decreases pattern@.len() - i,
        {
            proof {
                reveal_strlit("A");
                reveal_strlit("S");
                reveal_strlit("0");
                reveal_strlit(" ");
            }
            let ghost before = text@;
            let n = match pattern[i] {
                Pattern::Absorb(n) => {
                    text.append("A");
                    n
                },
                Pattern::Squeeze(n) => {
                    text.append("S");
                    n
                },
            };
            let ghost after_letter = text@;
            proof {
                match pattern@[i as int] {
                    Pattern::Absorb(_) => assert(after_letter =~= before + seq!['A']),
                    Pattern::Squeeze(_) => assert(after_letter =~= before + seq!['S']),
                }
            }
            if n < 10 {
                text.append("0");
                push_digit(&mut text, n);
                proof {
                    assert(text@ =~= after_letter + two_digits(n as nat));
                }
            } else {
                push_decimal(&mut text, n);
            }
            let ghost after_digits = text@;
            text.append(" ");
            proof {
                assert(text@ =~= after_digits + seq![' ']);
                let t = pattern@.take(i + 1);
                assert(t.drop_last() =~= pattern@.take(i as int));
                assert(t.last() == pattern@[i as int]);
                assert(text@ =~= before + step_text(pattern@[i as int]));
            }
            i = i + 1;
        }
        proof {
            assert(pattern@.take(pattern@.len() as int) =~= pattern@);
        }
        text
    }

    /// The debug text of the mismatch:
    /// `Mismatch { expected: "<expected>", found   : "<found>" }`.
    pub fn describe(&self) -> (r: String)
        ensures
            r@ == "Mismatch { expected: \""@ + pattern_text(self.expected()) + "\", found   : \""@
                + pattern_text(self.found()) + "\" }"@,
    {
        let expected = Self::debug_pattern(self.expected.as_slice());
        let found = Self::debug_pattern(self.found.as_slice());
        let mut text = String::from_str("Mismatch { expected: \"");
        text.append(expected.as_str());
        text.append("\", found   : \"");
        text.append(found.as_str());
        text.append("\" }");
        proof {
            assert(text@ =~= "Mismatch { expected: \""@ + pattern_text(self.expected())
                + "\", found   : \""@ + pattern_text(self.found()) + "\" }"@);
        }
        text
    }
}

} // verus!
