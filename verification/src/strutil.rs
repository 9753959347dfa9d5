//! Small verified string helpers shared by the builder and the code
//! generators.
use vstd::prelude::*;

verus! {

/// String-slice equality, decided through `String` comparison so the
/// result is pinned to the views.
pub fn str_eq(a: &str, b: &str) -> (r: bool)
    ensures
        r == (a@ == b@),
{
    let sa = String::from_str(a);
    let sb = String::from_str(b);
    sa == sb
}

/// An owned copy of a string, pinned to the same view.
pub fn clone_string(s: &String) -> (r: String)
    ensures
        r@ == s@,
{
    String::from_str(s.as_str())
}

/// An owned copy of a list of strings, element views preserved.
pub fn clone_strings(v: &Vec<String>) -> (r: Vec<String>)
    ensures
        r@.len() == v@.len(),
        forall|i: int| 0 <= i < v@.len() ==> r@[i]@ == v@[i]@,
{
    let mut r: Vec<String> = Vec::new();
    let mut i: usize = 0;
    while i < v.len()
        invariant
            i <= v@.len(),
            r@.len() == i,
            forall|j: int| 0 <= j < i ==> r@[j]@ == v@[j]@,
        decreases v@.len() - i,
    {
        r.push(clone_string(&v[i]));
        i = i + 1;
    }
    r
}

/// The decimal digit character for `d` in `0..10`.
pub open spec fn dec_digit(d: int) -> char {
    if d == 0 {
        '0'
    } else if d == 1 {
        '1'
    } else if d == 2 {
        '2'
    } else if d == 3 {
        '3'
    } else if d == 4 {
        '4'
    } else if d == 5 {
        '5'
    } else if d == 6 {
        '6'
    } else if d == 7 {
        '7'
    } else if d == 8 {
        '8'
    } else {
        '9'
    }
}

/// The decimal representation of a non-negative integer, most
/// significant digit first, without leading zeros (except for zero
/// itself).
pub open spec fn dec_rep(n: int) -> Seq<char>
    decreases n,
{
    if n < 10 {
        seq![dec_digit(n)]
    } else {
        dec_rep(n / 10).push(dec_digit(n % 10))
    }
}

/// The numeric value a digit character denotes.
pub open spec fn digit_val(c: char) -> int {
    if c == '0' {
        0
    } else if c == '1' {
        1
    } else if c == '2' {
        2
    } else if c == '3' {
        3
    } else if c == '4' {
        4
    } else if c == '5' {
        5
    } else if c == '6' {
        6
    } else if c == '7' {
        7
    } else if c == '8' {
        8
    } else {
        9
    }
}

/// The value a digit sequence denotes, most significant first.
pub open spec fn dec_val(s: Seq<char>) -> int
    decreases s.len(),
{
    if s.len() == 0 {
        0
    } else {
        dec_val(s.drop_last()) * 10 + digit_val(s.last())
    }
}

/// Whether every character of `s` is a decimal digit.
pub open spec fn digits_only(s: Seq<char>) -> bool {
    forall|i: int| 0 <= i < s.len() ==> '0' <= #[trigger] s[i] <= '9'
}

/// Decoding inverts the decimal representation, which is non-empty
/// and all digits.
pub proof fn lemma_dec_rep_val(n: int)
    requires
        n >= 0,
    ensures
        dec_val(dec_rep(n)) == n,
        dec_rep(n).len() >= 1,
        digits_only(dec_rep(n)),
    decreases n,
{
    if n < 10 {
        let s = dec_rep(n);
        assert(s == seq![dec_digit(n)]);
        assert(s.len() == 1 && s.last() == dec_digit(n));
        assert(s.drop_last() =~= Seq::<char>::empty());
        assert(dec_val(Seq::<char>::empty()) == 0);
        assert(dec_val(s) == dec_val(s.drop_last()) * 10 + digit_val(s.last()));
        assert(digit_val(dec_digit(n)) == n);
    } else {
        lemma_dec_rep_val(n / 10);
        let prefix = dec_rep(n / 10);
        let d = dec_digit(n % 10);
        assert(dec_rep(n) == prefix.push(d));
        assert(prefix.push(d).drop_last() =~= prefix);
        assert(prefix.push(d).last() == d);
        assert(digit_val(dec_digit(n % 10)) == n % 10);
        assert(dec_val(dec_rep(n)) == (n / 10) * 10 + n % 10);
        assert((n / 10) * 10 + n % 10 == n) by {
            vstd::arithmetic::div_mod::lemma_fundamental_div_mod(n, 10);
        }
        assert forall|i: int| 0 <= i < dec_rep(n).len() implies '0' <= #[trigger] dec_rep(n)[i]
            <= '9' by {
            if i < prefix.len() {
                assert(dec_rep(n)[i] == prefix[i]);
            } else {
                assert(dec_rep(n)[i] == d);
            }
        }
    }
}

/// Distinct numbers have distinct decimal representations.
pub proof fn lemma_dec_rep_injective(a: int, b: int)
    requires
        a >= 0,
        b >= 0,
        a != b,
    ensures
        dec_rep(a) != dec_rep(b),
{
    lemma_dec_rep_val(a);
    lemma_dec_rep_val(b);
}

/// The one-character string for a digit.
fn digit_str(d: u64) -> (r: String)
    requires
        d < 10,
    ensures
        r@ == seq![dec_digit(d as int)],
{
    let r: String;
    if d == 0 {
        r = String::from_str("0");
        proof {
            reveal_strlit("0");
            assert(r@ =~= seq![dec_digit(0)]);
        }
    } else if d == 1 {
        r = String::from_str("1");
        proof {
            reveal_strlit("1");
            assert(r@ =~= seq![dec_digit(1)]);
        }
    } else if d == 2 {
        r = String::from_str("2");
        proof {
            reveal_strlit("2");
            assert(r@ =~= seq![dec_digit(2)]);
        }
    } else if d == 3 {
        r = String::from_str("3");
        proof {
            reveal_strlit("3");
            assert(r@ =~= seq![dec_digit(3)]);
        }
    } else if d == 4 {
        r = String::from_str("4");
        proof {
            reveal_strlit("4");
            assert(r@ =~= seq![dec_digit(4)]);
        }
    } else if d == 5 {
        r = String::from_str("5");
        proof {
            reveal_strlit("5");
            assert(r@ =~= seq![dec_digit(5)]);
        }
    } else if d == 6 {
        r = String::from_str("6");
        proof {
            reveal_strlit("6");
            assert(r@ =~= seq![dec_digit(6)]);
        }
    } else if d == 7 {
        r = String::from_str("7");
        proof {
            reveal_strlit("7");
            assert(r@ =~= seq![dec_digit(7)]);
        }
    } else if d == 8 {
        r = String::from_str("8");
        proof {
            reveal_strlit("8");
            assert(r@ =~= seq![dec_digit(8)]);
        }
    } else {
        r = String::from_str("9");
        proof {
            reveal_strlit("9");
            assert(r@ =~= seq![dec_digit(9)]);
        }
    }
    r
}

/// Renders a number in decimal; the result is pinned to [`dec_rep`].
pub fn u64_to_dec(n: u64) -> (r: String)
    ensures
        r@ == dec_rep(n as int),
    decreases n,
{
    if n < 10 {
        digit_str(n)
    } else {
        let mut s = u64_to_dec(n / 10);
        let d = digit_str(n % 10);
        s.append(d.as_str());
        proof {
            assert(s@ =~= dec_rep((n / 10) as int).push(dec_digit((n % 10) as int)));
            assert((n as int) / 10 == (n / 10) as int);
            assert((n as int) % 10 == (n % 10) as int);
        }
        s
    }
}

} // verus!
