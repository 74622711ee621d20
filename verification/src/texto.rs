//! Rendering of counters and ids as decimal text for the event log.

use vstd::prelude::*;

verus! {

use vstd::string::StringExecFns;

/// The decimal digit character for a value below ten.
pub open spec fn digito(d: nat) -> char {
    if d == 0 {
        '0'
    } else if d == 1 {
        '1'
    } else if d == 2 {
        '2'
    } else if d == 3 {
        '3'
    } else if d == 4 {
        '4'
    } else if d == 5 {
        '5'
    } else if d == 6 {
        '6'
    } else if d == 7 {
        '7'
    } else if d == 8 {
        '8'
    } else {
        '9'
    }
}

/// The decimal rendering of a number, most significant digit first.
pub open spec fn decimal_de(n: nat) -> Seq<char>
    decreases n,
{
    if n < 10 {
        seq![digito(n)]
    } else {
        decimal_de(n / 10).push(digito(n % 10))
    }
}

/// The one-character string for a digit.
fn cadena_digito(d: usize) -> (r: &'static str)
    requires
        d < 10,
    ensures
        r@ == seq![digito(d as nat)],
{
    proof {
        reveal_strlit("0");
        reveal_strlit("1");
        reveal_strlit("2");
        reveal_strlit("3");
        reveal_strlit("4");
        reveal_strlit("5");
        reveal_strlit("6");
        reveal_strlit("7");
        reveal_strlit("8");
        reveal_strlit("9");
    }
    let r = match d {
        0 => "0",
        1 => "1",
        2 => "2",
        3 => "3",
        4 => "4",
        5 => "5",
        6 => "6",
        7 => "7",
        8 => "8",
        _ => "9",
    };
    proof {
        assert(r@ =~= seq![digito(d as nat)]);
    }
    r
}

/// Renders a number in decimal.
pub fn decimal(n: usize) -> (r: String)
    ensures
        r@ == decimal_de(n as nat),
    decreases n,
{
    if n < 10 {
        String::from_str(cadena_digito(n))
    } else {
        proof {
            assert(n / 10 < n) by (nonlinear_arith)
                requires
                    n >= 10,
            ;
        }
        let mut r = decimal(n / 10);
        r.append(cadena_digito(n % 10));
        proof {
            assert(decimal_de((n / 10) as nat) + seq![digito((n % 10) as nat)] =~= decimal_de(
                (n / 10) as nat,
            ).push(digito((n % 10) as nat)));
        }
        r
    }
}

} // verus!
