//! Text as sequences of characters: building strings, finding and replacing
//! markers in them, and writing numbers into them.

use vstd::prelude::*;
use vstd::utf8::{decode_utf8, valid_utf8};

verus! {

/// What `String::from_utf8_lossy` makes of `bytes`.
pub uninterp spec fn utf8_lossy(bytes: Seq<u8>) -> Seq<char>;

/// Text decoded from `bytes`, with invalid sequences replaced (std's
/// `String::from_utf8_lossy`). Valid UTF-8 decodes to exactly its characters,
/// as std documents; what replaces invalid input is left to the name.
#[verifier::external_body]
pub(crate) fn lossy_text(bytes: &[u8]) -> (r: String)
    ensures
        r@ == utf8_lossy(bytes@),
        valid_utf8(bytes@) ==> r@ == decode_utf8(bytes@),
{
    String::from_utf8_lossy(bytes).into_owned()
}

/// Appends `c` (std's `String::push`).
#[verifier::external_body]
pub(crate) fn push_char(s: &mut String, c: char)
    ensures
        final(s)@ == old(s)@.push(c),
{
    s.push(c);
}

/// The characters of `s`, in order.
pub fn chars_of(s: &str) -> (r: Vec<char>)
    ensures
        r@ == s@,
{
    broadcast use vstd::string::axiom_spec_iter;
    let mut out: Vec<char> = Vec::new();
    for c in it: s.chars()
        invariant
            out@ == it.seq().take(it.index() as int),
    {
        out.push(c);
    }
    assert(out@ =~= s@);
    out
}

/// A string of exactly these characters.
pub fn string_of(chars: &[char]) -> (r: String)
    ensures
        r@ == chars@,
{
    let mut out = String::new();
    let mut i: usize = 0;
    while i < chars.len()
        invariant
            i <= chars@.len(),
            out@ == chars@.take(i as int),
        decreases chars@.len() - i,
    {
        push_char(&mut out, chars[i]);
        i += 1;
        assert(out@ =~= chars@.take(i as int));
    }
    assert(chars@.take(chars@.len() as int) =~= chars@);
    out
}

/// Whether `pat` occurs in `s` starting at `at`.
pub open spec fn occurs_at(s: Seq<char>, pat: Seq<char>, at: int) -> bool {
    0 <= at && at + pat.len() <= s.len() && s.subrange(at, at + pat.len()) == pat
}

/// Whether `pat` occurs anywhere in `s`.
pub open spec fn contains(s: Seq<char>, pat: Seq<char>) -> bool {
    exists|at: int| occurs_at(s, pat, at)
}

/// `s` with every occurrence of `from`, found left to right without overlap,
/// replaced by `to`, as `str::replace` does.
pub open spec fn replaced(s: Seq<char>, from: Seq<char>, to: Seq<char>) -> Seq<char>
    decreases s.len(),
{
    if s.len() == 0 || from.len() == 0 {
        s
    } else if occurs_at(s, from, 0) {
        to + replaced(s.skip(from.len() as int), from, to)
    } else {
        seq![s[0]] + replaced(s.skip(1), from, to)
    }
}

/// Whether `pat` occurs in `s` at `at`.
pub fn occurs(s: &[char], pat: &[char], at: usize) -> (r: bool)
    ensures
        r == occurs_at(s@, pat@, at as int),
{
    let n = s.len();
    if at > n || pat.len() > n - at {
        return false;
    }
    let mut k: usize = 0;
    while k < pat.len()
        invariant
            k <= pat@.len(),
            n == s@.len(),
            at + pat@.len() <= n,
            forall|j: int| 0 <= j < k ==> s@[at + j] == pat@[j],
        decreases pat@.len() - k,
    {
        if s[at + k] != pat[k] {
            assert(s@.subrange(at as int, at + pat@.len())[k as int] != pat@[k as int]);
            return false;
        }
        k += 1;
    }
    assert(s@.subrange(at as int, at + pat@.len()) =~= pat@);
    true
}

/// Whether `pat` occurs anywhere in `s`.
pub fn contains_chars(s: &[char], pat: &[char]) -> (r: bool)
    ensures
        r == contains(s@, pat@),
{
    let mut at: usize = 0;
    while at < s.len()
        invariant
            at <= s@.len(),
            forall|j: int| 0 <= j < at ==> !occurs_at(s@, pat@, j),
        decreases s@.len() - at,
    {
        if occurs(s, pat, at) {
            return true;
        }
        at += 1;
    }
    if occurs(s, pat, at) {
        return true;
    }
    assert forall|j: int| !occurs_at(s@, pat@, j) by {
        if 0 <= j < at {
        }
    }
    false
}

proof fn lemma_replaced_step(s: Seq<char>, from: Seq<char>, to: Seq<char>, at: int)
    requires
        0 <= at <= s.len(),
        from.len() > 0,
    ensures
        at < s.len() && !occurs_at(s, from, at) ==> replaced(s.skip(at), from, to) == seq![s[at]] + replaced(
            s.skip(at + 1),
            from,
            to,
        ),
        occurs_at(s, from, at) ==> replaced(s.skip(at), from, to) == to + replaced(
            s.skip(at + from.len()),
            from,
            to,
        ),
        at == s.len() ==> replaced(s.skip(at), from, to) == Seq::<char>::empty(),
{
    let t = s.skip(at);
    if at < s.len() {
        assert(occurs_at(t, from, 0) == occurs_at(s, from, at)) by {
            if at + from.len() <= s.len() {
                assert(t.subrange(0, from.len() as int) =~= s.subrange(at, at + from.len()));
            }
        }
        assert(t.skip(1) =~= s.skip(at + 1));
        if occurs_at(s, from, at) {
            assert(t.skip(from.len() as int) =~= s.skip(at + from.len()));
        }
    } else {
        assert(t =~= Seq::<char>::empty());
    }
}

/// `s` with every occurrence of `from` replaced by `to`. `from` is never
/// empty here.
pub fn replace_chars(s: &[char], from: &[char], to: &[char]) -> (r: Vec<char>)
    requires
        from@.len() > 0,
    ensures
        r@ == replaced(s@, from@, to@),
{
    let mut out: Vec<char> = Vec::new();
    let mut at: usize = 0;
    assert(s@.skip(0) =~= s@);
    assert(out@ + replaced(s@.skip(0), from@, to@) =~= replaced(s@, from@, to@));
    while at < s.len()
        invariant
            at <= s@.len(),
            from@.len() > 0,
            out@ + replaced(s@.skip(at as int), from@, to@) == replaced(s@, from@, to@),
        decreases s@.len() - at,
    {
        proof {
            lemma_replaced_step(s@, from@, to@, at as int);
        }
        if occurs(s, from, at) {
            let ghost before = out@;
            let mut k: usize = 0;
            while k < to.len()
                invariant
                    k <= to@.len(),
                    out@ == before + to@.take(k as int),
                decreases to@.len() - k,
            {
                out.push(to[k]);
                k += 1;
                assert(out@ =~= before + to@.take(k as int));
            }
            assert(to@.take(to@.len() as int) =~= to@);
            assert(before + (to@ + replaced(s@.skip(at + from@.len()), from@, to@)) =~= out@
                + replaced(s@.skip(at + from@.len()), from@, to@));
            at = at + from.len();
        } else {
            let ghost before = out@;
            out.push(s[at]);
            assert(before + (seq![s@[at as int]] + replaced(s@.skip(at + 1), from@, to@)) =~= out@
                + replaced(s@.skip(at + 1), from@, to@));
            at += 1;
        }
    }
    proof {
        lemma_replaced_step(s@, from@, to@, at as int);
    }
    assert(out@ + Seq::<char>::empty() =~= out@);
    out
}

/// The decimal digits of `n`.
pub open spec fn decimal(n: nat) -> Seq<char>
    decreases n,
{
    if n < 10 {
        seq![digit(n)]
    } else {
        decimal(n / 10) + seq![digit(n % 10)]
    }
}

/// The character of a digit below sixteen, upper case.
pub open spec fn digit(d: nat) -> char {
    if d < 10 {
        (('0' as u32) + d) as char
    } else {
        (('A' as u32) + d - 10) as char
    }
}

/// At least two upper-case hexadecimal digits of `n`.
pub open spec fn hex_padded(n: nat) -> Seq<char>
    decreases n,
{
    if n < 256 {
        seq![digit(n / 16), digit(n % 16)]
    } else {
        hex_padded(n / 16) + seq![digit(n % 16)]
    }
}

fn digit_char(d: u64) -> (r: char)
    requires
        d < 16,
    ensures
        r == digit(d as nat),
{
    match d {
        0 => '0',
        1 => '1',
        2 => '2',
        3 => '3',
        4 => '4',
        5 => '5',
        6 => '6',
        7 => '7',
        8 => '8',
        9 => '9',
        10 => 'A',
        11 => 'B',
        12 => 'C',
        13 => 'D',
        14 => 'E',
        _ => 'F',
    }
}

/// Appends the decimal digits of `n`.
pub fn push_decimal(out: &mut String, n: u128)
    ensures
        final(out)@ == old(out)@ + decimal(n as nat),
    decreases n,
{
    if n < 10 {
        push_char(out, digit_char(n as u64));
        assert(final(out)@ =~= old(out)@ + decimal(n as nat));
    } else {
        push_decimal(out, n / 10);
        push_char(out, digit_char((n % 10) as u64));
        assert(final(out)@ =~= old(out)@ + decimal(n as nat));
    }
}

/// Appends at least two upper-case hexadecimal digits of `n`.
pub fn push_hex(out: &mut String, n: u64)
    ensures
        final(out)@ == old(out)@ + hex_padded(n as nat),
    decreases n,
{
    if n < 256 {
        push_char(out, digit_char(n / 16));
        push_char(out, digit_char(n % 16));
        assert(final(out)@ =~= old(out)@ + hex_padded(n as nat));
    } else {
        push_hex(out, n / 16);
        push_char(out, digit_char(n % 16));
        assert(final(out)@ =~= old(out)@ + hex_padded(n as nat));
    }
}

/// Appends the characters of `s`.
pub fn push_str(out: &mut String, s: &str)
    ensures
        final(out)@ == old(out)@ + s@,
{
    let chars = chars_of(s);
    let mut i: usize = 0;
    while i < chars.len()
        invariant
            i <= chars@.len(),
            chars@ == s@,
            out@ == old(out)@ + chars@.take(i as int),
        decreases chars@.len() - i,
    {
        push_char(out, chars[i]);
        i += 1;
        assert(out@ =~= old(out)@ + chars@.take(i as int));
    }
    assert(chars@.take(chars@.len() as int) =~= chars@);
}

/// Whether two character lists are equal.
pub fn same_chars(a: &[char], b: &[char]) -> (r: bool)
    ensures
        r == (a@ == b@),
{
    if a.len() != b.len() {
        assert(a@.len() != b@.len());
        return false;
    }
    let mut i: usize = 0;
    while i < a.len()
        invariant
            i <= a@.len(),
            a@.len() == b@.len(),
            forall|j: int| 0 <= j < i ==> a@[j] == b@[j],
        decreases a@.len() - i,
    {
        if a[i] != b[i] {
            assert(a@[i as int] != b@[i as int]);
            return false;
        }
        i += 1;
    }
    assert(a@ =~= b@);
    true
}

/// Whether `a` spells the literal `word`.
pub fn spells(a: &[char], word: &str) -> (r: bool)
    ensures
        r == (a@ == word@),
{
    let w = chars_of(word);
    same_chars(a, w.as_slice())
}

} // verus!
