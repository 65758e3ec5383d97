//! The scoreboard text refresh: projecting the score into its decimal
//! numeral, proved character by character.

use vstd::prelude::*;
use vstd::string::StringExecFns;

verus! {

/// The character for one decimal digit.
pub open spec fn digit_char(d: nat) -> char {
    if d == 0 {
        '0'
    } else if d == 1 {
        '1'
    } else if d == 2 {
        '2'
    } else if d == 3 {
        '3'
    } else if d == 4 {
        '4'
    } else if d == 5 {
        '5'
    } else if d == 6 {
        '6'
    } else if d == 7 {
        '7'
    } else if d == 8 {
        '8'
    } else {
        '9'
    }
}

/// The decimal numeral of `n`: most significant digit first, no leading
/// zeros, a single `'0'` for zero.
pub open spec fn dec_chars(n: nat) -> Seq<char>
    decreases n,
{
    if n < 10 {
        seq![digit_char(n)]
    } else {
        dec_chars(n / 10).push(digit_char(n % 10))
    }
}

/// The characters of a digit sequence read back to front: the loop below
/// collects digits least significant first, so reading them in reverse
/// yields the numeral.
pub open spec fn rev_digit_chars(ds: Seq<u64>) -> Seq<char> {
    Seq::new(ds.len(), |j: int| digit_char(ds[ds.len() - 1 - j] as nat))
}

proof fn lemma_rev_digit_chars_push(ds: Seq<u64>, d: u64)
    ensures
        rev_digit_chars(ds.push(d)) == seq![digit_char(d as nat)] + rev_digit_chars(ds),
{
    let lhs = rev_digit_chars(ds.push(d));
    let rhs = seq![digit_char(d as nat)] + rev_digit_chars(ds);
    assert forall|j: int| 0 <= j < lhs.len() implies lhs[j] == rhs[j] by {
        if j == 0 {
            assert(ds.push(d)[ds.len() as int] == d);
        } else {
            assert(ds.push(d)[ds.len() - j] == ds[ds.len() - j]);
            assert(rhs[j] == rev_digit_chars(ds)[j - 1]);
        }
    }
    assert(lhs =~= rhs);
}

/// The one-character string for a decimal digit.
fn digit_str(d: u64) -> (r: &'static str)
    requires
        d < 10,
    ensures
        r@ == seq![digit_char(d as nat)],
{
    if d == 0 {
        proof {
            reveal_strlit("0");
            assert("0"@ =~= seq![digit_char(0)]);
        }
        "0"
    } else if d == 1 {
        proof {
            reveal_strlit("1");
            assert("1"@ =~= seq![digit_char(1)]);
        }
        "1"
    } else if d == 2 {
        proof {
            reveal_strlit("2");
            assert("2"@ =~= seq![digit_char(2)]);
        }
        "2"
    } else if d == 3 {
        proof {
            reveal_strlit("3");
            assert("3"@ =~= seq![digit_char(3)]);
        }
        "3"
    } else if d == 4 {
        proof {
            reveal_strlit("4");
            assert("4"@ =~= seq![digit_char(4)]);
        }
        "4"
    } else if d == 5 {
        proof {
            reveal_strlit("5");
            assert("5"@ =~= seq![digit_char(5)]);
        }
        "5"
    } else if d == 6 {
        proof {
            reveal_strlit("6");
            assert("6"@ =~= seq![digit_char(6)]);
        }
        "6"
    } else if d == 7 {
        proof {
            reveal_strlit("7");
            assert("7"@ =~= seq![digit_char(7)]);
        }
        "7"
    } else if d == 8 {
        proof {
            reveal_strlit("8");
            assert("8"@ =~= seq![digit_char(8)]);
        }
        "8"
    } else {
        proof {
            reveal_strlit("9");
            assert("9"@ =~= seq![digit_char(9)]);
        }
        "9"
    }
}

/// Refresh the scoreboard text: the user-visible decimal numeral of the
/// current score.
pub fn scoreboard_system(score: u64) -> (text: String)
    ensures
        text@ == dec_chars(score as nat),
{
    let mut ds: Vec<u64> = Vec::new();
    let mut n = score;
    proof {
        if score < 10 {
            assert(rev_digit_chars(seq![score % 10]) =~= seq![digit_char(score as nat)]);
        } else {
            lemma_rev_digit_chars_push(Seq::empty(), score % 10);
            assert(rev_digit_chars(Seq::<u64>::empty()) =~= Seq::<char>::empty());
            assert(Seq::<u64>::empty().push(score % 10) =~= seq![score % 10]);
            assert(dec_chars(score as nat) =~= dec_chars((score / 10) as nat) + seq![digit_char(
                (score % 10) as nat,
            )]);
        }
    }
    ds.push(n % 10);
    n = n / 10;
    while n > 0
        invariant
            ds@.len() >= 1,
            forall|j: int| 0 <= j < ds@.len() ==> (#[trigger] ds@[j]) < 10,
            dec_chars(score as nat) == (if n == 0 {
                Seq::<char>::empty()
            } else {
                dec_chars(n as nat)
            }) + rev_digit_chars(ds@),
        decreases n,
    {
        let d = n % 10;
        proof {
            lemma_rev_digit_chars_push(ds@, d);
            if n < 10 {
                assert(dec_chars(n as nat) =~= Seq::<char>::empty() + (seq![digit_char(d as nat)]
                    + rev_digit_chars(Seq::<u64>::empty())) + Seq::<char>::empty());
                assert(dec_chars(n as nat) + rev_digit_chars(ds@) =~= Seq::<char>::empty() + (seq![
                    digit_char(d as nat),
                ] + rev_digit_chars(ds@)));
            } else {
                assert(dec_chars(n as nat) =~= dec_chars((n / 10) as nat) + seq![digit_char(
                    d as nat,
                )]);
                assert((dec_chars((n / 10) as nat) + seq![digit_char(d as nat)])
                    + rev_digit_chars(ds@) =~= dec_chars((n / 10) as nat) + (seq![digit_char(
                    d as nat,
                )] + rev_digit_chars(ds@)));
            }
        }
        ds.push(d);
        n = n / 10;
    }
    let ghost numeral = rev_digit_chars(ds@);
    proof {
        assert(Seq::<char>::empty() + numeral =~= numeral);
    }
    let mut text = String::new();
    let mut i: usize = ds.len();
    while i > 0
        invariant
            i <= ds@.len(),
            forall|j: int| 0 <= j < ds@.len() ==> (#[trigger] ds@[j]) < 10,
            numeral == rev_digit_chars(ds@),
            dec_chars(score as nat) == numeral,
            text@ == numeral.take(ds@.len() - i),
        decreases i,
    {
        i = i - 1;
        let s = digit_str(ds[i]);
        proof {
            let k = ds@.len() - i - 1;
            assert(numeral[k] == digit_char(ds@[i as int] as nat));
            assert(numeral.take(k + 1) =~= numeral.take(k).push(numeral[k]));
            assert(numeral.take(k).push(numeral[k]) =~= numeral.take(k) + seq![numeral[k]]);
        }
        text.append(s);
    }
    proof {
        assert(numeral.take(ds@.len() as int) =~= numeral);
    }
    text
}

} // verus!
