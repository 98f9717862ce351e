//! Building the messages: text put together piece by piece, and whole numbers
//! in decimal.

use vstd::prelude::*;

verus! {

/// `String::push_str`: the text grows by `tail`.
#[verifier::external_body]
pub(crate) fn append(text: &mut String, tail: &str)
    ensures
        final(text)@ == old(text)@ + tail@,
{
    text.push_str(tail)
}

/// `String::push`: the text grows by `c`.
#[verifier::external_body]
pub(crate) fn append_char(text: &mut String, c: char)
    ensures
        final(text)@ == old(text)@.push(c),
{
    text.push(c)
}

/// The character for one decimal digit.
pub open spec fn digit(d: int) -> char {
    if d == 0 {
        '0'
    } else if d == 1 {
        '1'
    } else if d == 2 {
        '2'
    } else if d == 3 {
        '3'
    } else if d == 4 {
        '4'
    } else if d == 5 {
        '5'
    } else if d == 6 {
        '6'
    } else if d == 7 {
        '7'
    } else if d == 8 {
        '8'
    } else {
        '9'
    }
}

/// The decimal digits of `n`, without leading zeros.
pub open spec fn decimal(n: nat) -> Seq<char>
    decreases n,
{
    if n < 10 {
        seq![digit(n as int)]
    } else {
        decimal(n / 10).push(digit((n % 10) as int))
    }
}

/// The character for one decimal digit.
fn digit_char(d: u128) -> (c: char)
    requires
        d < 10,
    ensures
        c == digit(d as int),
{
    if d == 0 {
        '0'
    } else if d == 1 {
        '1'
    } else if d == 2 {
        '2'
    } else if d == 3 {
        '3'
    } else if d == 4 {
        '4'
    } else if d == 5 {
        '5'
    } else if d == 6 {
        '6'
    } else if d == 7 {
        '7'
    } else if d == 8 {
        '8'
    } else {
        '9'
    }
}

/// Appends `n` in decimal.
pub fn append_decimal(text: &mut String, n: u128)
    ensures
        final(text)@ == old(text)@ + decimal(n as nat),
{
    let mut rest = n;
    let mut low: Vec<char> = Vec::new();
    assert(decimal(n as nat) =~= decimal(rest as nat) + low@.reverse());
    while rest >= 10
        invariant
            decimal(n as nat) == decimal(rest as nat) + low@.reverse(),
        decreases rest,
    {
        let ghost before = low@;
        let ghost head = decimal((rest / 10) as nat);
        low.push(digit_char(rest % 10));
        proof {
            let d = digit((rest % 10) as int);
            assert(low@ == before.push(d));
            assert(low@.reverse() =~= seq![d] + before.reverse());
            assert(decimal(rest as nat) == head.push(d));
            assert(head.push(d) + before.reverse() =~= head + (seq![d] + before.reverse()));
        }
        rest = rest / 10;
    }
    let ghost start = text@;
    append_char(text, digit_char(rest));
    let mut i: usize = low.len();
    assert(low@.reverse().take(0) =~= Seq::<char>::empty());
    assert(text@ =~= start + decimal(rest as nat) + low@.reverse().take(0));
    while i > 0
        invariant
            i <= low.len(),
            text@ == start + decimal(rest as nat) + low@.reverse().take(low.len() - i),
        decreases i,
    {
        i -= 1;
        let ghost done = low@.reverse().take(low.len() - i - 1);
        append_char(text, low[i]);
        proof {
            let turned = low@.reverse();
            assert(turned[low.len() - i - 1] == low@[i as int]);
            assert(turned.take(low.len() - i) =~= done.push(low@[i as int]));
            assert(text@ =~= start + decimal(rest as nat) + turned.take(low.len() - i));
        }
    }
    proof {
        assert(low@.reverse().take(low.len() as int) =~= low@.reverse());
        assert(text@ =~= start + (decimal(rest as nat) + low@.reverse()));
    }
}

} // verus!
