//! The texts that a router reads and writes.
use vstd::prelude::*;

verus! {

/// The character of a decimal digit.
pub open spec fn digit(d: nat) -> char {
    (48 + d) as char
}

/// A number in decimal notation, without leading zeros.
pub open spec fn decimal(n: nat) -> Seq<char>
    decreases n,
{
    if n < 10 {
        seq![digit(n)]
    } else {
        decimal(n / 10).push(digit(n % 10))
    }
}

/// The name of the router that was numbered `n`.
pub open spec fn router_name(n: nat) -> Seq<char> {
    "router"@ + decimal(n)
}

/// What stands before the first slash of a text: all of it, where it has none.
pub open spec fn before_slash(text: Seq<char>) -> Seq<char> {
    match text.index_of_first('/') {
        Some(i) => text.subrange(0, i),
        None => text,
    }
}

/// What stands behind the first slash of a text, if it has one.
pub open spec fn after_slash(text: Seq<char>) -> Option<Seq<char>> {
    match text.index_of_first('/') {
        Some(i) => Some(text.subrange(i + 1, text.len() as int)),
        None => None,
    }
}

/// The text of a decimal digit.
fn digit_text(d: u64) -> (res: &'static str)
    requires
        d < 10,
    ensures
        res@ == seq![digit(d as nat)],
{
    proof {
        reveal_strlit("0");
        reveal_strlit("1");
        reveal_strlit("2");
        reveal_strlit("3");
        reveal_strlit("4");
        reveal_strlit("5");
        reveal_strlit("6");
        reveal_strlit("7");
        reveal_strlit("8");
        reveal_strlit("9");
    }
    let res: &'static str = match d {
        0 => "0",
        1 => "1",
        2 => "2",
        3 => "3",
        4 => "4",
        5 => "5",
        6 => "6",
        7 => "7",
        8 => "8",
        _ => "9",
    };
    assert(res@ =~= seq![digit(d as nat)]);
    res
}

/// Writes a number in decimal notation.
pub fn decimal_text(n: u64) -> (res: String)
    ensures
        res@ == decimal(n as nat),
    decreases n,
{
    if n < 10 {
        digit_text(n).to_owned()
    } else {
        let mut res = decimal_text(n / 10);
        res.append(digit_text(n % 10));
        assert(res@ =~= decimal(n as nat));
        res
    }
}

/// Cuts a text at its first slash.
pub fn cut_at_slash(text: &str) -> (res: (&str, Option<&str>))
    ensures
        res.0@ == before_slash(text@),
        match res.1 {
            Some(rest) => after_slash(text@) == Some(rest@),
            None => after_slash(text@) is None,
        },
{
    let len: usize = text.unicode_len();
    let mut i: usize = 0;
    proof {
        text@.index_of_first_ensures('/');
    }
    while i < len
        invariant
            i <= len,
            len == text@.len(),
            forall|j: int| 0 <= j < i ==> text@[j] != '/',
        decreases len - i,
    {
        if text.get_char(i) == '/' {
            proof {
                text@.index_of_first_ensures('/');
                assert(text@.contains(text@[i as int]));
            }
            return (text.substring_char(0, i), Some(text.substring_char(i + 1, len)));
        }
        i = i + 1;
    }
    (text, None)
}

} // verus!
