//! Character sequences: lexicographic order, comparison and decimal numbers.

use vstd::prelude::*;
use vstd::std_specs::iter::IteratorSpec;

verus! {

/// The code point of a character.
pub open spec fn code(c: char) -> int {
    c as int
}

/// Strict lexicographic order on character sequences, by code point: the
/// first position at which the two differ decides, and a proper prefix comes
/// first.
pub open spec fn lex_less(a: Seq<char>, b: Seq<char>) -> bool
    decreases a.len(),
{
    if b.len() == 0 {
        false
    } else if a.len() == 0 {
        true
    } else if a[0] != b[0] {
        code(a[0]) < code(b[0])
    } else {
        lex_less(a.drop_first(), b.drop_first())
    }
}

/// How two character sequences stand to each other in lexicographic order.
#[derive(Clone, Copy, Debug, PartialEq, Eq, Structural)]
pub enum Standing {
    Before,
    Same,
    After,
}

/// The standing of `a` relative to `b`.
pub open spec fn standing(a: Seq<char>, b: Seq<char>) -> Standing {
    if a == b {
        Standing::Same
    } else if lex_less(a, b) {
        Standing::Before
    } else {
        Standing::After
    }
}

/// No sequence comes before itself.
pub proof fn lemma_lex_irreflexive(a: Seq<char>)
    ensures
        !lex_less(a, a),
    decreases a.len(),
{
    if a.len() > 0 {
        lemma_lex_irreflexive(a.drop_first());
    }
}

/// Of two different sequences exactly one comes before the other.
pub proof fn lemma_lex_total(a: Seq<char>, b: Seq<char>)
    ensures
        a != b ==> (lex_less(a, b) <==> !lex_less(b, a)),
        a == b ==> !lex_less(a, b) && !lex_less(b, a),
    decreases a.len(),
{
    if a == b {
        lemma_lex_irreflexive(a);
    } else if a.len() > 0 && b.len() > 0 {
        if a[0] == b[0] {
            if a.drop_first() == b.drop_first() {
                assert(a =~= seq![a[0]] + a.drop_first());
                assert(b =~= seq![b[0]] + b.drop_first());
            }
            lemma_lex_total(a.drop_first(), b.drop_first());
        }
    } else {
        assert(a.len() == 0 && b.len() == 0 ==> a =~= b);
    }
}

/// The order is transitive.
pub proof fn lemma_lex_transitive(a: Seq<char>, b: Seq<char>, c: Seq<char>)
    requires
        lex_less(a, b),
        lex_less(b, c),
    ensures
        lex_less(a, c),
    decreases a.len(),
{
    if a.len() > 0 {
        if a[0] == b[0] && b[0] == c[0] {
            lemma_lex_transitive(a.drop_first(), b.drop_first(), c.drop_first());
        }
    }
}

/// Two sequences that agree before position `k` and differ at `k` are
/// ordered by their characters at `k`.
pub proof fn lemma_lex_first_difference(a: Seq<char>, b: Seq<char>, k: int)
    requires
        0 <= k < a.len(),
        k < b.len(),
        forall|i: int| 0 <= i < k ==> a[i] == b[i],
        a[k] != b[k],
    ensures
        lex_less(a, b) <==> code(a[k]) < code(b[k]),
    decreases k,
{
    if k > 0 {
        let a1 = a.drop_first();
        let b1 = b.drop_first();
        assert forall|i: int| 0 <= i < k - 1 implies a1[i] == b1[i] by {
            assert(a1[i] == a[i + 1]);
            assert(b1[i] == b[i + 1]);
        }
        lemma_lex_first_difference(a1, b1, k - 1);
    }
}

/// A sequence that agrees with another on all of its own positions comes
/// before it exactly when it is shorter.
pub proof fn lemma_lex_prefix(a: Seq<char>, b: Seq<char>)
    requires
        a.len() <= b.len(),
        forall|i: int| 0 <= i < a.len() ==> a[i] == b[i],
    ensures
        lex_less(a, b) <==> a.len() < b.len(),
        !lex_less(b, a),
        a.len() == b.len() ==> a == b,
    decreases a.len(),
{
    if a.len() > 0 {
        let a1 = a.drop_first();
        let b1 = b.drop_first();
        assert forall|i: int| 0 <= i < a1.len() implies a1[i] == b1[i] by {
            assert(a1[i] == a[i + 1]);
            assert(b1[i] == b[i + 1]);
        }
        lemma_lex_prefix(a1, b1);
    }
    if a.len() == b.len() {
        assert(a =~= b);
    }
}

/// Compares two strings in lexicographic order, character by character.
pub fn compare_text(a: &str, b: &str) -> (r: Standing)
    ensures
        r == standing(a@, b@),
{
    let mut rest_a = a.chars();
    let mut rest_b = b.chars();
    let ghost mut k: int = 0;
    loop
        invariant
            0 <= k <= a@.len(),
            k <= b@.len(),
            rest_a.remaining() == a@.skip(k),
            rest_b.remaining() == b@.skip(k),
            forall|i: int| 0 <= i < k ==> a@[i] == b@[i],
        decreases a@.len() - k,
    {
        let next_a = rest_a.next();
        let next_b = rest_b.next();
        match (next_a, next_b) {
            (None, None) => {
                proof {
                    lemma_lex_prefix(a@, b@);
                }
                return Standing::Same;
            },
            (None, Some(_)) => {
                proof {
                    lemma_lex_prefix(a@, b@);
                }
                return Standing::Before;
            },
            (Some(_), None) => {
                proof {
                    lemma_lex_prefix(b@, a@);
                }
                return Standing::After;
            },
            (Some(x), Some(y)) => {
                if x != y {
                    proof {
                        lemma_lex_first_difference(a@, b@, k);
                    }
                    if x < y {
                        return Standing::Before;
                    } else {
                        return Standing::After;
                    }
                }
            },
        }
        proof {
            k = k + 1;
        }
    }
}

/// Whether two strings hold the same characters.
pub fn same_text(a: &str, b: &str) -> (r: bool)
    ensures
        r == (a@ == b@),
{
    match compare_text(a, b) {
        Standing::Same => true,
        _ => false,
    }
}

/// A name is hidden when it starts with a dot.
pub open spec fn hidden(name: Seq<char>) -> bool {
    name.len() > 0 && name[0] == '.'
}

/// Whether `name` starts with a dot.
pub fn is_hidden(name: &str) -> (r: bool)
    ensures
        r == hidden(name@),
{
    let mut rest = name.chars();
    match rest.next() {
        Some(c) => c == '.',
        None => false,
    }
}

/// The lowercase form of a character sequence, as the standard library's
/// Unicode case mapping gives it.
pub uninterp spec fn lowercase_of(s: Seq<char>) -> Seq<char>;

/// Calls `str::to_lowercase`. The contract only names the result: the
/// mapping follows the Unicode tables of the standard library and is a
/// function of the characters alone.
#[verifier::external_body]
pub(crate) fn lowercase(s: &str) -> (r: String)
    ensures
        r@ == lowercase_of(s@),
{
    s.to_lowercase()
}

/// A decimal digit.
pub open spec fn is_digit(c: char) -> bool {
    48 <= code(c) <= 57
}

/// The number that a decimal digit stands for.
pub open spec fn digit_value(c: char) -> nat {
    (code(c) - 48) as nat
}

/// Whether every character is a decimal digit.
pub open spec fn all_digits(s: Seq<char>) -> bool {
    forall|i: int| 0 <= i < s.len() ==> is_digit(#[trigger] s[i])
}

/// The number that a sequence of decimal digits stands for.
pub open spec fn digits_value(s: Seq<char>) -> nat
    decreases s.len(),
{
    if s.len() == 0 {
        0
    } else {
        digits_value(s.drop_last()) * 10 + digit_value(s.last())
    }
}

/// The text without one leading plus sign.
pub open spec fn unsigned_part(s: Seq<char>) -> Seq<char> {
    if s.len() > 0 && s[0] == '+' {
        s.drop_first()
    } else {
        s
    }
}

/// The number that a text stands for: an optional plus sign, then one or
/// more decimal digits whose value fits the machine word. Anything else
/// stands for no number.
pub open spec fn decimal_value(s: Seq<char>) -> Option<usize> {
    let digits = unsigned_part(s);
    if digits.len() > 0 && all_digits(digits) && digits_value(digits) <= usize::MAX {
        Some(digits_value(digits) as usize)
    } else {
        None
    }
}

/// Reading one more digit multiplies by ten and adds the digit.
pub proof fn lemma_digits_value_step(s: Seq<char>, n: int)
    requires
        0 <= n < s.len(),
    ensures
        digits_value(s.take(n + 1)) == digits_value(s.take(n)) * 10 + digit_value(s[n]),
{
    assert(s.take(n + 1).drop_last() =~= s.take(n));
}

/// The value of a prefix never exceeds the value of a longer prefix.
pub proof fn lemma_digits_value_monotone(s: Seq<char>, n: int, m: int)
    requires
        0 <= n <= m <= s.len(),
    ensures
        digits_value(s.take(n)) <= digits_value(s.take(m)),
    decreases m - n,
{
    if n < m {
        lemma_digits_value_monotone(s, n, m - 1);
        lemma_digits_value_step(s, m - 1);
    }
}

/// Reads a decimal number.
pub fn parse_decimal(s: &str) -> (r: Option<usize>)
    ensures
        r == decimal_value(s@),
{
    let ghost digits = unsigned_part(s@);
    let mut rest = s.chars();
    let mut current = rest.next();
    match current {
        Some(c) => {
            if c == '+' {
                current = rest.next();
            }
        },
        None => {},
    }
    if current.is_none() {
        return None;
    }
    let mut value: usize = 0;
    let ghost mut n: int = 0;
    loop
        invariant
            digits == unsigned_part(s@),
            digits.len() > 0,
            0 <= n <= digits.len(),
            all_digits(digits.take(n)),
            value == digits_value(digits.take(n)),
            current is None ==> n == digits.len(),
            current matches Some(c) ==> n < digits.len() && c == digits[n]
                && rest.remaining() == digits.skip(n + 1),
        decreases digits.len() - n,
    {
        match current {
            None => {
                assert(digits.take(n) =~= digits);
                return Some(value);
            },
            Some(c) => {
                if c < '0' || c > '9' {
                    assert(!is_digit(digits[n]));
                    return None;
                }
                let digit: usize = match c {
                    '0' => 0,
                    '1' => 1,
                    '2' => 2,
                    '3' => 3,
                    '4' => 4,
                    '5' => 5,
                    '6' => 6,
                    '7' => 7,
                    '8' => 8,
                    _ => 9,
                };
                assert(digit == digit_value(c));
                proof {
                    lemma_digits_value_step(digits, n);
                    assert forall|i: int| 0 <= i < n + 1 implies is_digit(
                        #[trigger] digits.take(n + 1)[i],
                    ) by {
                        if i < n {
                            assert(digits.take(n)[i] == digits[i]);
                        }
                    }
                }
                if value > (usize::MAX - digit) / 10 {
                    proof {
                        lemma_digits_value_monotone(digits, n + 1, digits.len() as int);
                        assert(digits.take(digits.len() as int) =~= digits);
                    }
                    return None;
                }
                value = value * 10 + digit;
                proof {
                    n = n + 1;
                }
                current = rest.next();
            },
        }
    }
}

} // verus!
