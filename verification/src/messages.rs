//! The exact texts of the shell's reports: disown results, the
//! backgrounded-process line, and the error prefix.

use vstd::prelude::*;

use crate::dispatch::{all_digits, dec_value, digit_value, is_ascii_digit, spec_parse_u32};
use crate::registry::DisownOutcome;

verus! {

/// The character of one decimal digit.
pub open spec fn digit_char(d: nat) -> char {
    if d == 0 {
        '0'
    } else if d == 1 {
        '1'
    } else if d == 2 {
        '2'
    } else if d == 3 {
        '3'
    } else if d == 4 {
        '4'
    } else if d == 5 {
        '5'
    } else if d == 6 {
        '6'
    } else if d == 7 {
        '7'
    } else if d == 8 {
        '8'
    } else {
        '9'
    }
}

/// The decimal digits of `n`, most significant first, without leading
/// zeros (`0` itself is the single digit `0`).
pub open spec fn spec_dec_digits(n: nat) -> Seq<char>
    decreases n,
{
    if n < 10 {
        seq![digit_char(n)]
    } else {
        spec_dec_digits(n / 10).push(digit_char(n % 10))
    }
}

fn digit_str(d: u32) -> (s: &'static str)
    requires
        d < 10,
    ensures
        s@ == seq![digit_char(d as nat)],
{
    proof {
        reveal_strlit("0");
        reveal_strlit("1");
        reveal_strlit("2");
        reveal_strlit("3");
        reveal_strlit("4");
        reveal_strlit("5");
        reveal_strlit("6");
        reveal_strlit("7");
        reveal_strlit("8");
        reveal_strlit("9");
    }
    if d == 0 {
        proof {
            assert("0"@ =~= seq![digit_char(0)]);
        }
        "0"
    } else if d == 1 {
        proof {
            assert("1"@ =~= seq![digit_char(1)]);
        }
        "1"
    } else if d == 2 {
        proof {
            assert("2"@ =~= seq![digit_char(2)]);
        }
        "2"
    } else if d == 3 {
        proof {
            assert("3"@ =~= seq![digit_char(3)]);
        }
        "3"
    } else if d == 4 {
        proof {
            assert("4"@ =~= seq![digit_char(4)]);
        }
        "4"
    } else if d == 5 {
        proof {
            assert("5"@ =~= seq![digit_char(5)]);
        }
        "5"
    } else if d == 6 {
        proof {
            assert("6"@ =~= seq![digit_char(6)]);
        }
        "6"
    } else if d == 7 {
        proof {
            assert("7"@ =~= seq![digit_char(7)]);
        }
        "7"
    } else if d == 8 {
        proof {
            assert("8"@ =~= seq![digit_char(8)]);
        }
        "8"
    } else {
        proof {
            assert("9"@ =~= seq![digit_char(9)]);
        }
        "9"
    }
}

/// Writes `n` in decimal.
pub fn u32_to_string(n: u32) -> (s: String)
    ensures
        s@ == spec_dec_digits(n as nat),
    decreases n,
{
    if n < 10 {
        String::from_str(digit_str(n))
    } else {
        let mut s = u32_to_string(n / 10);
        let d = digit_str(n % 10);
        s.append(d);
        proof {
            assert(s@ =~= spec_dec_digits((n / 10) as nat).push(digit_char((n % 10) as nat)));
        }
        s
    }
}

/// Law: the decimal text of a number reads back as that number; in
/// particular a reported pid parses back to the pid that was reported.
pub proof fn lemma_dec_digits_round_trip(n: u32)
    ensures
        spec_parse_u32(spec_dec_digits(n as nat)) == Some(n),
{
    lemma_dec_digits_value(n as nat);
    let s = spec_dec_digits(n as nat);
    assert(s[0] != '+');
    assert(crate::dispatch::unsigned_body(s) == s);
}

proof fn lemma_dec_digits_value(n: nat)
    ensures
        spec_dec_digits(n).len() >= 1,
        all_digits(spec_dec_digits(n)),
        dec_value(spec_dec_digits(n)) == n,
        spec_dec_digits(n)[0] != '+',
    decreases n,
{
    if n < 10 {
        assert(is_ascii_digit(digit_char(n)));
        assert(digit_value(digit_char(n)) == n);
        assert(seq![digit_char(n)].drop_last() =~= Seq::<char>::empty());
        assert(seq![digit_char(n)].last() == digit_char(n));
        assert(dec_value(Seq::<char>::empty()) == 0);
        assert(dec_value(spec_dec_digits(n)) == n);
    } else {
        lemma_dec_digits_value(n / 10);
        let s = spec_dec_digits(n);
        let p = spec_dec_digits(n / 10);
        assert(s == p.push(digit_char(n % 10)));
        assert(s.drop_last() =~= p);
        assert(s.last() == digit_char(n % 10));
        assert(is_ascii_digit(digit_char(n % 10)));
        assert(digit_value(digit_char(n % 10)) == n % 10);
        assert forall|j: int| 0 <= j < s.len() implies is_ascii_digit(#[trigger] s[j]) by {
            if j < p.len() {
                assert(s[j] == p[j]);
            }
        }
        assert(dec_value(s) == dec_value(p) * 10 + (n % 10));
        assert(dec_value(s) == (n / 10) * 10 + (n % 10));
        assert(s[0] == p[0]);
    }
}

/// The report a disown request owes: `Disowned process [pid]` for a
/// removed entry, `Error: No such process [pid]` for a miss, and
/// `Disowned all background processes.` after a clear.
pub open spec fn spec_disown_message(o: DisownOutcome) -> Seq<char> {
    match o {
        DisownOutcome::Disowned(p) => "Disowned process ["@ + spec_dec_digits(p as nat) + "]"@,
        DisownOutcome::NoSuchProcess(p) => "Error: No such process ["@ + spec_dec_digits(p as nat)
            + "]"@,
        DisownOutcome::DisownedAll => "Disowned all background processes."@,
    }
}

/// Writes the report a disown outcome owes.
pub fn disown_message(o: &DisownOutcome) -> (s: String)
    ensures
        s@ == spec_disown_message(*o),
{
    match o {
        DisownOutcome::Disowned(p) => {
            let mut s = String::from_str("Disowned process [");
            let digits = u32_to_string(*p);
            s.append(digits.as_str());
            s.append("]");
            proof {
                assert(s@ =~= "Disowned process ["@ + spec_dec_digits(*p as nat) + "]"@);
            }
            s
        }
        DisownOutcome::NoSuchProcess(p) => {
            let mut s = String::from_str("Error: No such process [");
            let digits = u32_to_string(*p);
            s.append(digits.as_str());
            s.append("]");
            proof {
                assert(s@ =~= "Error: No such process ["@ + spec_dec_digits(*p as nat) + "]"@);
            }
            s
        }
        DisownOutcome::DisownedAll => String::from_str("Disowned all background processes."),
    }
}

/// Whether the disown report goes to the error stream.
pub fn disown_message_is_error(o: &DisownOutcome) -> (b: bool)
    ensures
        b == (o matches DisownOutcome::NoSuchProcess(_)),
{
    match o {
        DisownOutcome::NoSuchProcess(_) => true,
        _ => false,
    }
}

/// The line printed when a stage is backgrounded: `[pid] program`.
pub open spec fn spec_background_report(pid: u32, program: Seq<char>) -> Seq<char> {
    "["@ + spec_dec_digits(pid as nat) + "] "@ + program
}

/// Writes the backgrounded-stage line.
pub fn background_report(pid: u32, program: &str) -> (s: String)
    ensures
        s@ == spec_background_report(pid, program@),
{
    let mut s = String::from_str("[");
    let digits = u32_to_string(pid);
    s.append(digits.as_str());
    s.append("] ");
    s.append(program);
    proof {
        assert(s@ =~= "["@ + spec_dec_digits(pid as nat) + "] "@ + program@);
    }
    s
}

/// A diagnostic line: the failure text behind the `Error: ` prefix.
pub fn error_message(msg: &str) -> (s: String)
    ensures
        s@ == "Error: "@ + msg@,
{
    let mut s = String::from_str("Error: ");
    s.append(msg);
    s
}

} // verus!
