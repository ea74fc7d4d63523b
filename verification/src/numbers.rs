//! Verified decimal reading and writing of integers: the `int` primitive and
//! the tokenizer parse integer literals, and the display form renders them.

use vstd::prelude::*;

verus! {

// ---------------------------------------------------------------------------
// The decimal model
// ---------------------------------------------------------------------------

pub open spec fn is_digit(c: char) -> bool {
    '0' <= c && c <= '9'
}

pub open spec fn digit_val(c: char) -> int {
    c as int - '0' as int
}

/// The value of a string of decimal digits, most significant first.
pub open spec fn digits_val(s: Seq<char>) -> int
    decreases s.len(),
{
    if s.len() == 0 {
        0
    } else {
        digits_val(s.drop_last()) * 10 + digit_val(s.last())
    }
}

/// An integer literal: an optional sign followed by one or more digits.
pub open spec fn int_literal_body(s: Seq<char>) -> Seq<char> {
    if s.len() > 0 && (s[0] == '+' || s[0] == '-') {
        s.drop_first()
    } else {
        s
    }
}

pub open spec fn is_int_literal(s: Seq<char>) -> bool {
    &&& int_literal_body(s).len() >= 1
    &&& forall|i: int|
        0 <= i < int_literal_body(s).len() ==> is_digit(#[trigger] int_literal_body(s)[i])
}

pub open spec fn int_literal_val(s: Seq<char>) -> int {
    if s.len() > 0 && s[0] == '-' {
        -digits_val(int_literal_body(s))
    } else {
        digits_val(int_literal_body(s))
    }
}

/// What `i64` reads from decimal text: the literal's value when the text is
/// a literal and the value fits, nothing otherwise.
pub open spec fn parse_int(s: Seq<char>) -> Option<i64> {
    if is_int_literal(s) && i64::MIN <= int_literal_val(s) <= i64::MAX {
        Some(int_literal_val(s) as i64)
    } else {
        None
    }
}

pub proof fn lemma_digits_val_nonneg(s: Seq<char>)
    requires
        forall|i: int| 0 <= i < s.len() ==> is_digit(#[trigger] s[i]),
    ensures
        digits_val(s) >= 0,
    decreases s.len(),
{
    if s.len() > 0 {
        lemma_digits_val_nonneg(s.drop_last());
    }
}

pub proof fn lemma_digits_val_extend(s: Seq<char>, i: int)
    requires
        0 <= i < s.len(),
        forall|j: int| 0 <= j < s.len() ==> is_digit(#[trigger] s[j]),
    ensures
        digits_val(s.take(i + 1)) == digits_val(s.take(i)) * 10 + digit_val(s[i]),
        digits_val(s.take(i + 1)) >= digits_val(s.take(i)) >= 0,
{
    assert(s.take(i + 1).drop_last() =~= s.take(i));
    assert(s.take(i + 1).last() == s[i]);
    assert(forall|j: int| 0 <= j < i ==> is_digit(#[trigger] s.take(i)[j]));
    lemma_digits_val_nonneg(s.take(i));
}

/// Appending digits can only grow the value.
pub proof fn lemma_digits_val_grow(s: Seq<char>, i: int)
    requires
        0 <= i <= s.len(),
        forall|j: int| 0 <= j < s.len() ==> is_digit(#[trigger] s[j]),
    ensures
        digits_val(s) >= digits_val(s.take(i)) >= 0,
    decreases s.len() - i,
{
    lemma_digits_val_nonneg(s.take(i));
    if i == s.len() {
        assert(s.take(i) =~= s);
    } else {
        lemma_digits_val_extend(s, i);
        lemma_digits_val_grow(s, i + 1);
    }
}

// ---------------------------------------------------------------------------
// Reading
// ---------------------------------------------------------------------------

/// Reads a decimal 64-bit integer, exactly as the interpreter's `int`
/// primitive and the tokenizer classify integer literals.
pub fn parse_int_exec(s: &String) -> (r: Option<i64>)
    ensures
        r == parse_int(s@),
{
    let text = s.as_str();
    let n = text.unicode_len();
    let ghost sq = s@;
    if n == 0 {
        return None;
    }
    let first = text.get_char(0);
    let negative = first == '-';
    let start: usize = if first == '-' || first == '+' {
        1
    } else {
        0
    };
    let ghost body = int_literal_body(sq);
    proof {
        assert(body =~= sq.subrange(start as int, sq.len() as int));
    }
    if n == start {
        // A bare sign has no digits.
        return None;
    }
    // Accumulate negated, so that the most negative value is reachable.
    let mut acc: i64 = 0;
    let mut i: usize = start;
    while i < n
        invariant
            start <= i <= n,
            n == sq.len(),
            text@ == sq,
            start == 1 ==> (sq[0] == '-' || sq[0] == '+'),
            start == 0 ==> !(sq[0] == '-' || sq[0] == '+'),
            negative == (sq[0] == '-'),
            body == sq.subrange(start as int, sq.len() as int),
            body == int_literal_body(sq),
            sq == s@,
            forall|j: int| start <= j < i ==> is_digit(#[trigger] sq[j]),
            acc == -digits_val(body.take(i - start)),
        decreases n - i,
    {
        let c = text.get_char(i);
        if !(c >= '0' && c <= '9') {
            // Not a digit anywhere in the body: not an integer literal.
            proof {
                assert(body[i - start] == sq[i as int]);
                assert(!is_int_literal(sq));
            }
            return None;
        }
        let d: i64 = (c as u32 as i64) - ('0' as u32 as i64);
        proof {
            assert(forall|j: int| start <= j < i + 1 ==> is_digit(#[trigger] sq[j]));
            assert(forall|j: int| 0 <= j < i + 1 - start ==> is_digit(#[trigger] body.take(
                i + 1 - start,
            )[j]));
            assert(forall|j: int| 0 <= j < body.len() && j < i + 1 - start ==> is_digit(
                #[trigger] body[j],
            ));
        }
        let next = match acc.checked_mul(10) {
            Some(a) => a.checked_sub(d),
            None => None,
        };
        match next {
            Some(a) => {
                acc = a;
            },
            None => {
                // The magnitude has already left the 64-bit range; more
                // digits can only grow it.
                proof {
                    let m = i + 1 - start;
                    assert(forall|j: int| 0 <= j < m ==> is_digit(#[trigger] body.take(m)[j]));
                    assert(body.take(m).take(m - 1) =~= body.take(m - 1));
                    lemma_digits_val_extend(body.take(m), m - 1);
                    assert(digits_val(body.take(m)) > 0x8000_0000_0000_0000);
                    if is_int_literal(sq) {
                        lemma_digits_val_grow(body, m);
                        assert(int_literal_val(sq) > i64::MAX || int_literal_val(sq) < i64::MIN);
                    }
                }
                return None;
            },
        }
        proof {
            let m = i + 1 - start;
            assert(body.take(m).take(m - 1) =~= body.take(m - 1));
            lemma_digits_val_extend(body.take(m), m - 1);
            assert(body.take(m)[m - 1] == sq[i as int]);
        }
        i += 1;
    }
    proof {
        assert(body.take(n - start) =~= body);
        assert(is_int_literal(sq));
    }
    if negative {
        Some(acc)
    } else {
        if acc == i64::MIN {
            // The magnitude is one past the largest positive value.
            return None;
        }
        Some(-acc)
    }
}

// ---------------------------------------------------------------------------
// Writing
// ---------------------------------------------------------------------------

pub open spec fn digit_char(d: int) -> char {
    if d == 0 {
        '0'
    } else if d == 1 {
        '1'
    } else if d == 2 {
        '2'
    } else if d == 3 {
        '3'
    } else if d == 4 {
        '4'
    } else if d == 5 {
        '5'
    } else if d == 6 {
        '6'
    } else if d == 7 {
        '7'
    } else if d == 8 {
        '8'
    } else {
        '9'
    }
}

/// The decimal rendering of a non-negative integer.
pub open spec fn dec_digits(n: int) -> Seq<char>
    decreases n,
{
    if n < 10 {
        seq![digit_char(n)]
    } else {
        dec_digits(n / 10) + seq![digit_char(n % 10)]
    }
}

/// The decimal rendering of an integer, with a sign when negative.
pub open spec fn int_string(x: int) -> Seq<char> {
    if x < 0 {
        seq!['-'] + dec_digits(-x)
    } else {
        dec_digits(x)
    }
}

fn digit_string(d: u64) -> (s: String)
    requires
        d < 10,
    ensures
        s@ == seq![digit_char(d as int)],
{
    let s = if d == 0 {
        let r = String::from_str("0");
        proof {
            reveal_strlit("0");
            assert(r@ =~= seq![digit_char(0)]);
        }
        r
    } else if d == 1 {
        let r = String::from_str("1");
        proof {
            reveal_strlit("1");
            assert(r@ =~= seq![digit_char(1)]);
        }
        r
    } else if d == 2 {
        let r = String::from_str("2");
        proof {
            reveal_strlit("2");
            assert(r@ =~= seq![digit_char(2)]);
        }
        r
    } else if d == 3 {
        let r = String::from_str("3");
        proof {
            reveal_strlit("3");
            assert(r@ =~= seq![digit_char(3)]);
        }
        r
    } else if d == 4 {
        let r = String::from_str("4");
        proof {
            reveal_strlit("4");
            assert(r@ =~= seq![digit_char(4)]);
        }
        r
    } else if d == 5 {
        let r = String::from_str("5");
        proof {
            reveal_strlit("5");
            assert(r@ =~= seq![digit_char(5)]);
        }
        r
    } else if d == 6 {
        let r = String::from_str("6");
        proof {
            reveal_strlit("6");
            assert(r@ =~= seq![digit_char(6)]);
        }
        r
    } else if d == 7 {
        let r = String::from_str("7");
        proof {
            reveal_strlit("7");
            assert(r@ =~= seq![digit_char(7)]);
        }
        r
    } else if d == 8 {
        let r = String::from_str("8");
        proof {
            reveal_strlit("8");
            assert(r@ =~= seq![digit_char(8)]);
        }
        r
    } else {
        let r = String::from_str("9");
        proof {
            reveal_strlit("9");
            assert(r@ =~= seq![digit_char(9)]);
        }
        r
    };
    s
}

/// Renders a non-negative 64-bit integer in decimal.
pub fn u64_string(n: u64) -> (s: String)
    ensures
        s@ == dec_digits(n as int),
    decreases n,
{
    if n < 10 {
        digit_string(n)
    } else {
        let mut s = u64_string(n / 10);
        let d = digit_string(n % 10);
        s.append(d.as_str());
        s
    }
}

/// Renders a 64-bit integer in decimal, with a sign when negative.
pub fn i64_string(x: i64) -> (s: String)
    ensures
        s@ == int_string(x as int),
{
    if x >= 0 {
        u64_string(x as u64)
    } else {
        let m: u64 = if x == i64::MIN {
            9223372036854775808u64
        } else {
            (-x) as u64
        };
        let mut s = String::from_str("-");
        let d = u64_string(m);
        s.append(d.as_str());
        proof {
            reveal_strlit("-");
            assert(s@ =~= seq!['-'] + dec_digits(-(x as int)));
        }
        s
    }
}

/// Renders a count in decimal.
pub fn usize_string(n: usize) -> (s: String)
    ensures
        s@ == dec_digits(n as int),
{
    u64_string(n as u64)
}

} // verus!
