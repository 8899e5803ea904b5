//! Reading the tool's operands: addresses in hexadecimal, counts in decimal.

use vstd::prelude::*;

use crate::config::{read_unsigned, unsigned};
use crate::text::{chars_of, push_str};

verus! {

/// `s` without every leading repetition of `p`.
pub open spec fn strip_all(s: Seq<char>, p: Seq<char>) -> Seq<char>
    decreases s.len(),
{
    if p.len() > 0 && p.len() <= s.len() && s.take(p.len() as int) == p {
        strip_all(s.skip(p.len() as int), p)
    } else {
        s
    }
}

/// The address `text` names: hexadecimal, after any `0x` and then any `0X`
/// prefixes.
pub open spec fn address_of(text: Seq<char>) -> Option<u64> {
    match unsigned(strip_all(strip_all(text, "0x"@), "0X"@), 16, u64::MAX as nat) {
        Some(n) => Some(n as u64),
        None => None,
    }
}

fn strip_all_exec(s: &[char], a: char, b: char) -> (r: Vec<char>)
    ensures
        r@ == strip_all(s@, seq![a, b]),
{
    let mut i: usize = 0;
    assert(s@.skip(0) =~= s@);
    while i < s.len() && s.len() - i >= 2 && s[i] == a && s[i + 1] == b
        invariant
            i <= s@.len(),
            strip_all(s@, seq![a, b]) == strip_all(s@.skip(i as int), seq![a, b]),
        decreases s@.len() - i,
    {
        let ghost t = s@.skip(i as int);
        assert(t.take(2) =~= seq![a, b]);
        assert(t.skip(2) =~= s@.skip(i + 2));
        i += 2;
    }
    let ghost t = s@.skip(i as int);
    proof {
        if t.len() >= 2 && t.take(2) == seq![a, b] {
            assert(t.take(2)[0] == a && t.take(2)[1] == b);
        }
    }
    let mut out: Vec<char> = Vec::new();
    let mut k: usize = i;
    while k < s.len()
        invariant
            i <= k <= s@.len(),
            out@ == s@.subrange(i as int, k as int),
        decreases s@.len() - k,
    {
        out.push(s[k]);
        k += 1;
        assert(out@ =~= s@.subrange(i as int, k as int));
    }
    assert(out@ =~= t);
    out
}

/// Reads an address in hexadecimal, with or without a `0x` prefix.
pub fn parse_address(text: &str) -> (r: Result<u64, String>)
    ensures
        match address_of(text@) {
            Some(a) => r == Ok::<u64, String>(a),
            None => r matches Err(e) && e@ == "'"@ + text@ + "' is not a hex address"@,
        },
{
    proof {
        reveal_strlit("0x");
        reveal_strlit("0X");
    }
    assert("0x"@ =~= seq!['0', 'x']);
    assert("0X"@ =~= seq!['0', 'X']);
    let chars = chars_of(text);
    let once = strip_all_exec(chars.as_slice(), '0', 'x');
    let twice = strip_all_exec(once.as_slice(), '0', 'X');
    match read_unsigned(twice.as_slice(), 16, u64::MAX) {
        Some(n) => Ok(n),
        None => {
            let mut msg = String::new();
            push_str(&mut msg, "'");
            push_str(&mut msg, text);
            push_str(&mut msg, "' is not a hex address");
            Err(msg)
        },
    }
}

/// A decimal count, as `str::parse::<usize>` reads one.
pub fn parse_count(text: &str) -> (r: Option<usize>)
    ensures
        match unsigned(text@, 10, usize::MAX as nat) {
            Some(n) => r == Some(n as usize),
            None => r is None,
        },
{
    let chars = chars_of(text);
    match read_unsigned(chars.as_slice(), 10, usize::MAX as u64) {
        Some(n) => Some(n as usize),
        None => None,
    }
}

} // verus!
