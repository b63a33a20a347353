//! Line numbering: buffer lines are shown with their 1-based line number in
//! front, so that a selected match can be traced back to its place.

use vstd::prelude::*;

verus! {

/// The character for one decimal digit.
pub open spec fn digit_char(d: nat) -> char
    recommends
        d < 10,
{
    if d == 0 {
        '0'
    } else if d == 1 {
        '1'
    } else if d == 2 {
        '2'
    } else if d == 3 {
        '3'
    } else if d == 4 {
        '4'
    } else if d == 5 {
        '5'
    } else if d == 6 {
        '6'
    } else if d == 7 {
        '7'
    } else if d == 8 {
        '8'
    } else {
        '9'
    }
}

/// The decimal digits of `n`, most significant first, without leading zeros.
pub open spec fn dec_digits(n: nat) -> Seq<char>
    decreases n,
{
    if n < 10 {
        seq![digit_char(n)]
    } else {
        dec_digits(n / 10) + seq![digit_char(n % 10)]
    }
}

fn digit_str(d: usize) -> (r: &'static str)
    requires
        d < 10,
    ensures
        r@ == seq![digit_char(d as nat)],
{
    let r: &'static str = match d {
        0 => "0",
        1 => "1",
        2 => "2",
        3 => "3",
        4 => "4",
        5 => "5",
        6 => "6",
        7 => "7",
        8 => "8",
        _ => "9",
    };
    proof {
        reveal_strlit("0");
        reveal_strlit("1");
        reveal_strlit("2");
        reveal_strlit("3");
        reveal_strlit("4");
        reveal_strlit("5");
        reveal_strlit("6");
        reveal_strlit("7");
        reveal_strlit("8");
        reveal_strlit("9");
        assert(r@ =~= seq![digit_char(d as nat)]);
    }
    r
}

/// Writes `n` in decimal.
fn usize_to_string(n: usize) -> (r: String)
    ensures
        r@ == dec_digits(n as nat),
{
    let mut digits: Vec<usize> = Vec::new();
    let mut m = n;
    while m >= 10
        invariant
            dec_digits(n as nat) =~= dec_digits(m as nat) + Seq::new(
                digits@.len(),
                |i: int| digit_char(digits@[digits@.len() - 1 - i] as nat),
            ),
            forall|i: int| 0 <= i < digits@.len() ==> digits@[i] < 10,
        decreases m,
    {
        let ghost before = digits@;
        digits.push(m % 10);
        proof {
            assert(Seq::new(
                digits@.len(),
                |i: int| digit_char(digits@[digits@.len() - 1 - i] as nat),
            ) =~= seq![digit_char((m % 10) as nat)] + Seq::new(
                before.len(),
                |i: int| digit_char(before[before.len() - 1 - i] as nat),
            ));
            assert(dec_digits(m as nat) == dec_digits((m / 10) as nat) + seq![
                digit_char((m % 10) as nat),
            ]);
        }
        m = m / 10;
    }
    let mut r = String::from_str(digit_str(m));
    let total: usize = digits.len();
    let mut j: usize = 0;
    while j < total
        invariant
            total == digits@.len(),
            j <= total,
            forall|i: int| 0 <= i < digits@.len() ==> digits@[i] < 10,
            m < 10,
            dec_digits(n as nat) =~= dec_digits(m as nat) + Seq::new(
                digits@.len(),
                |i: int| digit_char(digits@[digits@.len() - 1 - i] as nat),
            ),
            r@ =~= dec_digits(m as nat) + Seq::new(
                j as nat,
                |i: int| digit_char(digits@[digits@.len() - 1 - i] as nat),
            ),
        decreases total - j,
    {
        r.append(digit_str(digits[total - 1 - j]));
        j = j + 1;
        proof {
            assert(r@ =~= dec_digits(m as nat) + Seq::new(
                j as nat,
                |i: int| digit_char(digits@[digits@.len() - 1 - i] as nat),
            ));
        }
    }
    proof {
        assert(r@ =~= dec_digits(n as nat));
    }
    r
}

/// Prefixes each line with its 1-based line number and one space, the form in
/// which buffer lines are handed to the filter.
pub fn number_lines(lines: &Vec<String>) -> (r: Vec<String>)
    requires
        lines@.len() < usize::MAX,
    ensures
        r@.len() == lines@.len(),
        forall|i: int|
            0 <= i < lines@.len() ==> #[trigger] r@[i]@ == dec_digits((i + 1) as nat) + seq![' ']
                + lines@[i]@,
{
    let n = lines.len();
    let mut r: Vec<String> = Vec::new();
    let mut i: usize = 0;
    while i < n
        invariant
            n == lines@.len(),
            n < usize::MAX,
            i <= n,
            r@.len() == i,
            forall|k: int|
                0 <= k < i ==> #[trigger] r@[k]@ == dec_digits((k + 1) as nat) + seq![' ']
                    + lines@[k]@,
        decreases n - i,
    {
        let mut s = usize_to_string(i + 1);
        s.append(" ");
        s.append(lines[i].as_str());
        proof {
            reveal_strlit(" ");
            assert(" "@ =~= seq![' ']);
            assert(s@ =~= dec_digits((i + 1) as nat) + seq![' '] + lines@[i as int]@);
        }
        r.push(s);
        i = i + 1;
    }
    r
}

} // verus!
