use vstd::prelude::*;

verus! {

/// The character of one decimal digit.
pub open spec fn digit_char(d: nat) -> char {
    if d == 0 {
        '0'
    } else if d == 1 {
        '1'
    } else if d == 2 {
        '2'
    } else if d == 3 {
        '3'
    } else if d == 4 {
        '4'
    } else if d == 5 {
        '5'
    } else if d == 6 {
        '6'
    } else if d == 7 {
        '7'
    } else if d == 8 {
        '8'
    } else {
        '9'
    }
}

/// The decimal digits of `n`, most significant first, no leading zeros
/// (a single `'0'` for zero).
pub open spec fn dec_digits(n: nat) -> Seq<char>
    decreases n,
{
    if n < 10 {
        seq![digit_char(n)]
    } else {
        dec_digits(n / 10).push(digit_char(n % 10))
    }
}

/// Decimal strings are non-empty and consist of digit characters only.
pub proof fn lemma_dec_digits_shape(n: nat)
    ensures
        dec_digits(n).len() >= 1,
        forall|i: int| 0 <= i < dec_digits(n).len() ==> #[trigger] dec_digits(n)[i] != ':',
    decreases n,
{
    if n >= 10 {
        lemma_dec_digits_shape(n / 10);
    }
}

/// Distinct numbers have distinct decimal strings.
pub proof fn lemma_dec_digits_injective(a: nat, b: nat)
    requires
        dec_digits(a) == dec_digits(b),
    ensures
        a == b,
    decreases a + b,
{
    lemma_dec_digits_shape(a);
    lemma_dec_digits_shape(b);
    if a < 10 && b < 10 {
        assert(dec_digits(a)[0] == digit_char(a) && dec_digits(b)[0] == digit_char(b));
    } else if a < 10 {
        assert(dec_digits(b).len() >= 2) by {
            lemma_dec_digits_shape(b / 10);
        }
    } else if b < 10 {
        assert(dec_digits(a).len() >= 2) by {
            lemma_dec_digits_shape(a / 10);
        }
    } else {
        assert(dec_digits(a).last() == digit_char(a % 10));
        assert(dec_digits(b).last() == digit_char(b % 10));
        assert(a % 10 == b % 10);
        assert(dec_digits(a).drop_last() =~= dec_digits(a / 10));
        assert(dec_digits(b).drop_last() =~= dec_digits(b / 10));
        lemma_dec_digits_injective(a / 10, b / 10);
        assert(a == (a / 10) * 10 + a % 10) by (nonlinear_arith);
        assert(b == (b / 10) * 10 + b % 10) by (nonlinear_arith);
    }
}

/// The name of a window fragment: `parent:start:end`.
pub open spec fn window_name(parent: Seq<char>, start: nat, end: nat) -> Seq<char> {
    parent + seq![':'] + dec_digits(start) + seq![':'] + dec_digits(end)
}

/// Fragment names with the same parent and distinct start indices differ.
pub proof fn lemma_window_name_injective(parent: Seq<char>, s1: nat, e1: nat, s2: nat, e2: nat)
    requires
        s1 != s2,
    ensures
        window_name(parent, s1, e1) != window_name(parent, s2, e2),
{
    lemma_dec_digits_shape(s1);
    lemma_dec_digits_shape(s2);
    let n1 = window_name(parent, s1, e1);
    let n2 = window_name(parent, s2, e2);
    let p = parent.len() as int + 1;
    let d1 = dec_digits(s1);
    let d2 = dec_digits(s2);
    if n1 == n2 {
        // The digit runs that start at position `p` must agree, so the two
        // start indices print alike; injectivity then contradicts s1 != s2.
        if d1.len() == d2.len() {
            assert(d1 =~= d2) by {
                assert(forall|i: int|
                    0 <= i < d1.len() ==> d1[i] == n1[p + i] && d2[i] == n2[p + i]);
            }
            lemma_dec_digits_injective(s1, s2);
        } else if d1.len() < d2.len() {
            assert(n1[p + d1.len()] == ':');
            assert(n2[p + d1.len()] == d2[d1.len() as int]);
        } else {
            assert(n2[p + d2.len()] == ':');
            assert(n1[p + d2.len()] == d1[d2.len() as int]);
        }
    }
}

/// One decimal digit as a string slice.
fn digit_str(d: usize) -> (r: &'static str)
    requires
        d < 10,
    ensures
        r@ == seq![digit_char(d as nat)],
{
    proof {
        reveal_strlit("0");
        reveal_strlit("1");
        reveal_strlit("2");
        reveal_strlit("3");
        reveal_strlit("4");
        reveal_strlit("5");
        reveal_strlit("6");
        reveal_strlit("7");
        reveal_strlit("8");
        reveal_strlit("9");
    }
    let r = if d == 0 {
        "0"
    } else if d == 1 {
        "1"
    } else if d == 2 {
        "2"
    } else if d == 3 {
        "3"
    } else if d == 4 {
        "4"
    } else if d == 5 {
        "5"
    } else if d == 6 {
        "6"
    } else if d == 7 {
        "7"
    } else if d == 8 {
        "8"
    } else {
        "9"
    };
    proof {
        assert(r@ =~= seq![digit_char(d as nat)]);
    }
    r
}

/// `n` printed in decimal.
pub fn dec_str(n: usize) -> (r: String)
    ensures
        r@ == dec_digits(n as nat),
    decreases n,
{
    if n < 10 {
        let mut r = String::new();
        r.append(digit_str(n));
        proof {
            assert(r@ =~= dec_digits(n as nat));
        }
        r
    } else {
        let mut r = dec_str(n / 10);
        r.append(digit_str(n % 10));
        proof {
            assert(r@ =~= dec_digits(n as nat));
        }
        r
    }
}

/// Build the name `parent:start:end` of a window fragment.
pub fn make_window_name(parent: &String, start: usize, end: usize) -> (r: String)
    ensures
        r@ == window_name(parent@, start as nat, end as nat),
{
    let mut r = parent.clone();
    proof {
        reveal_strlit(":");
    }
    r.append(":");
    let s = dec_str(start);
    r.append(s.as_str());
    r.append(":");
    let e = dec_str(end);
    r.append(e.as_str());
    proof {
        assert(r@ =~= window_name(parent@, start as nat, end as nat));
    }
    r
}

} // verus!
