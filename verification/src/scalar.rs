//! Scalars: real-valued quantities, held as the numerals that stand for them
//! in a profile's canonical text.
//!
//! The library never computes with a scalar. It carries it, and writes it into
//! the canonical text letter for letter. So a scalar is kept as its numeral, and
//! what the type guards is that the numeral is well formed: a number of the
//! JSON grammar, or the word `null`, which stands for a quantity that is not
//! finite.

use vstd::prelude::*;
use vstd::string::*;

verus! {

/// A decimal digit.
pub open spec fn is_digit(c: char) -> bool {
    '0' <= c && c <= '9'
}

/// The letters of `s` from `from` up to `to` are digits, and there is at least
/// one of them.
pub open spec fn digits_between(s: Seq<char>, from: int, to: int) -> bool {
    &&& 0 <= from < to <= s.len()
    &&& forall|i: int| from <= i < to ==> is_digit(#[trigger] s[i])
}

/// Where the digits of an exponent begin, when the exponent's letter is at `c`:
/// behind the letter, or behind the sign that may follow it.
pub open spec fn exponent_digits_start(s: Seq<char>, c: int) -> int {
    if c + 1 < s.len() && (s[c + 1] == '+' || s[c + 1] == '-') {
        c + 2
    } else {
        c + 1
    }
}

/// `s` is a number whose sign ends at `a`, whose integer part ends at `b` and
/// whose fraction ends at `c`.
///
/// The sign is a minus or nothing. The integer part is a single `0`, or digits
/// that do not begin with `0`. The fraction is nothing, or a point and digits.
/// What follows the fraction is nothing, or `e` or `E`, a sign or none, and
/// digits.
pub open spec fn splits_as_number(s: Seq<char>, a: int, b: int, c: int) -> bool {
    &&& 0 <= a < b <= c <= s.len()
    &&& (a == 0 || (a == 1 && s[0] == '-'))
    &&& digits_between(s, a, b)
    &&& (s[a] == '0' ==> b == a + 1)
    &&& (c == b || (s[b] == '.' && digits_between(s, b + 1, c)))
    &&& (c == s.len() || ((s[c] == 'e' || s[c] == 'E') && digits_between(
        s,
        exponent_digits_start(s, c),
        s.len() as int,
    )))
}

/// `s` is a number of the JSON grammar.
pub open spec fn is_number(s: Seq<char>) -> bool {
    exists|a: int, b: int, c: int| splits_as_number(s, a, b, c)
}

/// The numeral of a quantity that is not finite.
pub open spec fn null_text() -> Seq<char> {
    seq!['n', 'u', 'l', 'l']
}

/// `s` is a numeral that a scalar may hold.
pub open spec fn is_scalar_text(s: Seq<char>) -> bool {
    is_number(s) || s == null_text()
}

/// No letter of a numeral is a comma, a quote, a bracket or a brace: a numeral
/// ends where one of these begins.
pub proof fn lemma_scalar_text_letters(s: Seq<char>, i: int)
    requires
        is_scalar_text(s),
        0 <= i < s.len(),
    ensures
        is_digit(s[i]) || s[i] == '-' || s[i] == '+' || s[i] == '.' || s[i] == 'e' || s[i] == 'E'
            || s[i] == 'n' || s[i] == 'u' || s[i] == 'l',
{
    if is_number(s) {
        let (a, b, c) = choose|a: int, b: int, c: int| splits_as_number(s, a, b, c);
        if i < a {
        } else if i < b {
        } else if i < c {
        } else if i < exponent_digits_start(s, c) {
        } else {
        }
    }
}

/// The letters of `text`, one by one.
fn letters_of(text: &str) -> (letters: Vec<char>)
    ensures
        letters@ == text@,
{
    broadcast use vstd::string::group_string_axioms;

    let mut letters: Vec<char> = Vec::new();
    for c in it: text.chars()
        invariant
            it.seq() == text@,
            letters@ == text@.take(it.index() as int),
    {
        letters.push(c);
        assert(text@.take(it.index() + 1) =~= text@.take(it.index() as int).push(c));
    }
    assert(text@.take(text@.len() as int) =~= text@);
    letters
}

fn digit(c: char) -> (yes: bool)
    ensures
        yes == is_digit(c),
{
    '0' <= c && c <= '9'
}

/// The end of the run of digits that begins at `from`.
fn digits_end(s: &Vec<char>, from: usize) -> (end: usize)
    requires
        from <= s.len(),
    ensures
        from <= end <= s.len(),
        forall|i: int| from <= i < end ==> is_digit(#[trigger] s@[i]),
        end < s.len() ==> !is_digit(s@[end as int]),
{
    let mut end: usize = from;
    while end < s.len() && digit(s[end])
        invariant
            from <= end <= s.len(),
            forall|i: int| from <= i < end ==> is_digit(#[trigger] s@[i]),
        decreases s.len() - end,
    {
        end += 1;
    }
    end
}

/// Whether the letters are a number of the JSON grammar.
fn is_number_letters(s: &Vec<char>) -> (yes: bool)
    ensures
        yes == is_number(s@),
{
    let n: usize = s.len();
    let a: usize = if n > 0 && s[0] == '-' {
        1
    } else {
        0
    };
    let b: usize = digits_end(s, a);
    if b == a || (s[a] == '0' && b != a + 1) {
        assert forall|a2: int, b2: int, c2: int| !splits_as_number(s@, a2, b2, c2) by {
            if splits_as_number(s@, a2, b2, c2) {
                assert(is_digit(s@[a2]));
                assert(a2 == a);
                if b2 < b {
                    assert(is_digit(s@[b2]));
                } else if b < b2 {
                    assert(is_digit(s@[b as int]));
                }
            }
        }
        return false;
    }
    let c: usize = if b < n && s[b] == '.' {
        digits_end(s, b + 1)
    } else {
        b
    };
    let d: usize = if c < n && c + 1 < n && (s[c + 1] == '+' || s[c + 1] == '-') {
        c + 2
    } else if c < n {
        c + 1
    } else {
        c
    };
    let fraction_ok: bool = c == b || c > b + 1;
    let rest_ok: bool = c == n || ((s[c] == 'e' || s[c] == 'E') && d < n && digits_end(s, d) == n);
    if fraction_ok && rest_ok {
        assert(splits_as_number(s@, a as int, b as int, c as int));
        true
    } else {
        assert forall|a2: int, b2: int, c2: int| !splits_as_number(s@, a2, b2, c2) by {
            if splits_as_number(s@, a2, b2, c2) {
                assert(is_digit(s@[a2]));
                assert(a2 == a);
                if b2 < b {
                    assert(is_digit(s@[b2]));
                } else if b < b2 {
                    assert(is_digit(s@[b as int]));
                }
                assert(b2 == b);
                if c2 < c {
                    assert(is_digit(s@[c2]));
                } else if c < c2 {
                    if c > b {
                        assert(is_digit(s@[c as int]));
                    }
                }
                assert(c2 == c);
            }
        }
        false
    }
}

/// A real-valued quantity, as the canonical text writes it.
///
/// Two scalars are the same when their numerals are the same, letter for
/// letter: `1.0` and `1.00` are two scalars, and so are `0.0` and `-0.0`.
#[derive(Debug)]
pub struct Scalar {
    text: String,
}

impl View for Scalar {
    type V = Seq<char>;

    closed spec fn view(&self) -> Seq<char> {
        self.text@
    }
}

impl Scalar {
    #[verifier::type_invariant]
    spec fn well_formed(&self) -> bool {
        is_scalar_text(self.text@)
    }

    /// The scalar with the given numeral, if it is one: a number of the JSON
    /// grammar, or `null`.
    pub fn from_text(text: &str) -> (scalar: Option<Scalar>)
        ensures
            scalar is Some <==> is_scalar_text(text@),
            scalar matches Some(s) ==> s@ == text@,
    {
        let letters = letters_of(text);
        let null: bool = letters.len() == 4 && letters[0] == 'n' && letters[1] == 'u' && letters[2]
            == 'l' && letters[3] == 'l';
        if null {
            assert(text@ =~= null_text());
        }
        if null || is_number_letters(&letters) {
            Some(Scalar { text: text.to_owned() })
        } else {
            None
        }
    }

    /// The numeral.
    pub fn as_str(&self) -> (text: &str)
        ensures
            text@ == self@,
            is_scalar_text(self@),
    {
        proof {
            use_type_invariant(self);
        }
        self.text.as_str()
    }
}

impl Clone for Scalar {
    fn clone(&self) -> (copy: Self)
        ensures
            copy@ == self@,
    {
        proof {
            use_type_invariant(self);
        }
        Scalar { text: self.text.clone() }
    }
}

} // verus!
