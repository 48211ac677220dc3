use vstd::prelude::*;
use crate::error::path_view;

verus! {

/// The character of a decimal digit.
pub open spec fn digit_char(d: nat) -> char {
    if d == 0 {
        '0'
    } else if d == 1 {
        '1'
    } else if d == 2 {
        '2'
    } else if d == 3 {
        '3'
    } else if d == 4 {
        '4'
    } else if d == 5 {
        '5'
    } else if d == 6 {
        '6'
    } else if d == 7 {
        '7'
    } else if d == 8 {
        '8'
    } else {
        '9'
    }
}

/// The decimal digits of a natural number, most significant first, with no
/// leading zeros.
pub open spec fn decimal(n: nat) -> Seq<char>
    decreases n,
{
    if n < 10 {
        seq![digit_char(n)]
    } else {
        decimal(n / 10).push(digit_char(n % 10))
    }
}

/// The text of a decimal digit.
pub(crate) fn digit_text(d: usize) -> (s: &'static str)
    requires
        d < 10,
    ensures
        s@ == seq![digit_char(d as nat)],
{
    proof {
        reveal_strlit("0");
        reveal_strlit("1");
        reveal_strlit("2");
        reveal_strlit("3");
        reveal_strlit("4");
        reveal_strlit("5");
        reveal_strlit("6");
        reveal_strlit("7");
        reveal_strlit("8");
        reveal_strlit("9");
    }
    if d == 0 {
        "0"
    } else if d == 1 {
        "1"
    } else if d == 2 {
        "2"
    } else if d == 3 {
        "3"
    } else if d == 4 {
        "4"
    } else if d == 5 {
        "5"
    } else if d == 6 {
        "6"
    } else if d == 7 {
        "7"
    } else if d == 8 {
        "8"
    } else {
        "9"
    }
}

/// `usize::to_string`: the number written in decimal digits, without sign
/// or leading zeros.
pub(crate) fn usize_to_string(n: usize) -> (s: String)
    ensures
        s@ == decimal(n as nat),
    decreases n,
{
    if n < 10 {
        String::from_str(digit_text(n))
    } else {
        let mut s = usize_to_string(n / 10);
        s.append(digit_text(n % 10));
        proof {
            assert(s@ =~= decimal((n / 10) as nat).push(digit_char((n % 10) as nat)));
        }
        s
    }
}

/// A copy of a path.
pub fn copy_path(path: &Vec<String>) -> (r: Vec<String>)
    ensures
        path_view(r@) == path_view(path@),
{
    let mut out: Vec<String> = Vec::new();
    let mut i: usize = 0;
    while i < path.len()
        invariant
            i <= path.len(),
            path_view(out@) == path_view(path@).take(i as int),
        decreases path.len() - i,
    {
        let s = path[i].clone();
        let ghost before = out@;
        out.push(s);
        proof {
            assert(path_view(out@) =~= path_view(before).push(path@[i as int]@));
            assert(path_view(path@).take(i + 1) =~= path_view(path@).take(i as int).push(
                path@[i as int]@,
            ));
        }
        i += 1;
    }
    proof {
        assert(path_view(path@).take(path.len() as int) =~= path_view(path@));
    }
    out
}

/// A copy of a path with one more segment at its end.
pub fn extend_path(path: &Vec<String>, segment: String) -> (r: Vec<String>)
    ensures
        path_view(r@) == path_view(path@).push(segment@),
{
    let mut out: Vec<String> = Vec::new();
    let mut i: usize = 0;
    while i < path.len()
        invariant
            i <= path.len(),
            path_view(out@) == path_view(path@).take(i as int),
        decreases path.len() - i,
    {
        let s = path[i].clone();
        let ghost before = out@;
        out.push(s);
        proof {
            assert(path_view(out@) =~= path_view(before).push(path@[i as int]@));
            assert(path_view(path@).take(i + 1) =~= path_view(path@).take(i as int).push(
                path@[i as int]@,
            ));
        }
        i += 1;
    }
    let ghost before = out@;
    let ghost seg = segment@;
    out.push(segment);
    proof {
        assert(path_view(path@).take(path.len() as int) =~= path_view(path@));
        assert(path_view(out@) =~= path_view(before).push(seg));
    }
    out
}

} // verus!
