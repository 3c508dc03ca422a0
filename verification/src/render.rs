//! Decimal rendering and small string-building helpers used for run names,
//! artifact paths and repro command lines.

use vstd::prelude::*;
use vstd::string::StringExecFns;

verus! {

/// The decimal digit character for `d`.
pub open spec fn spec_digit(d: nat) -> char {
    if d == 0 {
        '0'
    } else if d == 1 {
        '1'
    } else if d == 2 {
        '2'
    } else if d == 3 {
        '3'
    } else if d == 4 {
        '4'
    } else if d == 5 {
        '5'
    } else if d == 6 {
        '6'
    } else if d == 7 {
        '7'
    } else if d == 8 {
        '8'
    } else {
        '9'
    }
}

/// The decimal rendering of `n`, most significant digit first.
pub open spec fn spec_u64_dec(n: nat) -> Seq<char>
    decreases n,
{
    if n < 10 {
        seq![spec_digit(n)]
    } else {
        spec_u64_dec(n / 10) + seq![spec_digit(n % 10)]
    }
}

/// The decimal rendering of `n`, zero-padded on the left to three characters.
pub open spec fn spec_u64_dec3(n: nat) -> Seq<char> {
    if n < 10 {
        seq!['0', '0'] + spec_u64_dec(n)
    } else if n < 100 {
        seq!['0'] + spec_u64_dec(n)
    } else {
        spec_u64_dec(n)
    }
}

fn digit_str(d: u64) -> (s: &'static str)
    requires
        d < 10,
    ensures
        s@ =~= seq![spec_digit(d as nat)],
{
    let s: &'static str = match d {
        0 => "0",
        1 => "1",
        2 => "2",
        3 => "3",
        4 => "4",
        5 => "5",
        6 => "6",
        7 => "7",
        8 => "8",
        _ => "9",
    };
    proof {
        reveal_strlit("0");
        reveal_strlit("1");
        reveal_strlit("2");
        reveal_strlit("3");
        reveal_strlit("4");
        reveal_strlit("5");
        reveal_strlit("6");
        reveal_strlit("7");
        reveal_strlit("8");
        reveal_strlit("9");
    }
    s
}

/// Render `n` in decimal.
pub fn u64_to_dec(n: u64) -> (s: String)
    ensures
        s@ == spec_u64_dec(n as nat),
    decreases n,
{
    if n < 10 {
        digit_str(n).to_owned()
    } else {
        let mut s = u64_to_dec(n / 10);
        s.append(digit_str(n % 10));
        s
    }
}

/// Render `n` in decimal, zero-padded to width three.
pub fn u64_to_dec3(n: u64) -> (s: String)
    ensures
        s@ == spec_u64_dec3(n as nat),
{
    if n < 10 {
        let mut s = String::new();
        let zz: &'static str = "00";
        proof {
            reveal_strlit("00");
        }
        s.append(zz);
        let d = u64_to_dec(n);
        s.append(d.as_str());
        proof {
            assert(s@ =~= spec_u64_dec3(n as nat));
        }
        s
    } else if n < 100 {
        let mut s = String::new();
        let z: &'static str = "0";
        proof {
            reveal_strlit("0");
        }
        s.append(z);
        let d = u64_to_dec(n);
        s.append(d.as_str());
        proof {
            assert(s@ =~= spec_u64_dec3(n as nat));
        }
        s
    } else {
        u64_to_dec(n)
    }
}

/// The elements of `parts` joined with `sep` between them.
pub open spec fn spec_join_with(parts: Seq<Seq<char>>, sep: Seq<char>) -> Seq<char>
    decreases parts.len(),
{
    if parts.len() == 0 {
        Seq::empty()
    } else if parts.len() == 1 {
        parts[0]
    } else {
        spec_join_with(parts.drop_last(), sep) + sep + parts.last()
    }
}

/// Join strings with a separator.
pub fn join_with(parts: &Vec<String>, sep: &str) -> (s: String)
    ensures
        s@ == spec_join_with(Seq::new(parts@.len(), |i: int| parts@[i]@), sep@),
{
    let ghost model = Seq::new(parts@.len(), |i: int| parts@[i]@);
    let mut s = String::new();
    let mut i: usize = 0;
    while i < parts.len()
        invariant
            i <= parts.len(),
            model == Seq::new(parts@.len(), |k: int| parts@[k]@),
            s@ == spec_join_with(model.take(i as int), sep@),
        decreases parts.len() - i,
    {
        if i > 0 {
            s.append(sep);
        }
        s.append(parts[i].as_str());
        proof {
            assert(model.take(i + 1).drop_last() =~= model.take(i as int));
            assert(model.take(i + 1).last() == model[i as int]);
            if i == 0 {
                assert(s@ =~= spec_join_with(model.take(1), sep@));
            }
        }
        i = i + 1;
    }
    proof {
        assert(model.take(i as int) =~= model);
    }
    s
}

/// The decimal rendering of a signed value: a minus sign for a negative one.
pub open spec fn spec_i32_dec(c: int) -> Seq<char> {
    if c < 0 {
        seq!['-'] + spec_u64_dec((-c) as nat)
    } else {
        spec_u64_dec(c as nat)
    }
}

/// Render a signed value in decimal.
pub fn i32_to_dec(c: i32) -> (s: String)
    ensures
        s@ == spec_i32_dec(c as int),
{
    if c < 0 {
        let mag: u64 = (-(c as i64)) as u64;
        let mut s = String::new();
        let m: &'static str = "-";
        proof {
            reveal_strlit("-");
        }
        s.append(m);
        let d = u64_to_dec(mag);
        s.append(d.as_str());
        proof {
            assert(s@ =~= spec_i32_dec(c as int));
        }
        s
    } else {
        u64_to_dec(c as u64)
    }
}

} // verus!
