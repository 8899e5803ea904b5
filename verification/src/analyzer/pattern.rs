//! Byte-pattern search with wildcards.
//!
//! Some questions are easiest to ask as "where does this instruction encoding
//! appear", without teaching the tool what the instruction means: a struct
//! copy of a known size, or a `lea` with a given displacement.

use vstd::prelude::*;

use crate::analyzer::image::Image;
use crate::analyzer::xref::{group_by_function, grouped, Groups};
use crate::config::{is_white, unsigned, white};
use crate::text::{chars_of, push_char, push_str};

verus! {

/// How far back to search for the start of the enclosing function.
pub const MAX_FUNCTION_SEARCH: u64 = 0x2000;

/// A byte that must match exactly, or `None` for a wildcard.
pub type Pattern = Vec<Option<u8>>;

/// The characters of `s` that are not white space.
pub open spec fn without_white(s: Seq<char>) -> Seq<char>
    decreases s.len(),
{
    if s.len() == 0 {
        s
    } else {
        let rest = without_white(s.drop_last());
        if white(s.last()) {
            rest
        } else {
            rest.push(s.last())
        }
    }
}

/// What a pair of characters stands for as a byte, or nothing.
pub open spec fn pair_byte(a: char, b: char) -> Option<u8> {
    match unsigned(seq![a, b], 16, 255) {
        Some(n) => Some(n as u8),
        None => None,
    }
}

/// The bytes of `c` read in order: `??` or a lone `?` is a wildcard, and
/// any other two characters a hexadecimal byte. The error is the first pair
/// that is no byte, or `None` for a single digit left at the end.
pub open spec fn read_tokens(c: Seq<char>) -> Result<Seq<Option<u8>>, Option<Seq<char>>>
    decreases c.len(),
{
    if c.len() == 0 {
        Ok(seq![])
    } else if c[0] == '?' {
        let used: int = if c.len() >= 2 && c[1] == '?' {
            2
        } else {
            1
        };
        match read_tokens(c.skip(used)) {
            Ok(rest) => Ok(seq![None] + rest),
            Err(e) => Err(e),
        }
    } else if c.len() < 2 {
        Err(None)
    } else {
        match pair_byte(c[0], c[1]) {
            None => Err(Some(seq![c[0], c[1]])),
            Some(x) => match read_tokens(c.skip(2)) {
                Ok(rest) => Ok(seq![Some(x)] + rest),
                Err(e) => Err(e),
            },
        }
    }
}

/// What `parse` gives for `text`.
pub open spec fn parsed(text: Seq<char>) -> Result<Seq<Option<u8>>, Seq<char>> {
    match read_tokens(without_white(text)) {
        Err(None) => Err("'"@ + text + "' has an odd number of hex digits"@),
        Err(Some(pair)) => Err("'"@ + pair + "' is not a hex byte"@),
        Ok(p) => if p.len() == 0 {
            Err("empty pattern"@)
        } else {
            Ok(p)
        },
    }
}

fn hex_pair(a: char, b: char) -> (r: Option<u8>)
    ensures
        r == pair_byte(a, b),
{
    let digits = [a, b];
    assert(digits@ =~= seq![a, b]);
    match crate::config::read_unsigned(digits.as_slice(), 16, 255) {
        Some(n) => Some(n as u8),
        None => None,
    }
}

/// The characters of `text` that are not white space.
fn cleaned(text: &str) -> (r: Vec<char>)
    ensures
        r@ == without_white(text@),
{
    let chars = chars_of(text);
    let mut out: Vec<char> = Vec::new();
    let mut i: usize = 0;
    while i < chars.len()
        invariant
            i <= chars@.len(),
            chars@ == text@,
            out@ == without_white(chars@.take(i as int)),
        decreases chars@.len() - i,
    {
        let c = chars[i];
        proof {
            assert(chars@.take(i + 1).drop_last() =~= chars@.take(i as int));
        }
        if !is_white(c) {
            out.push(c);
            proof {
                assert(out@.drop_last() =~= without_white(chars@.take(i as int)));
            }
        }
        i += 1;
    }
    assert(chars@.take(chars@.len() as int) =~= chars@);
    out
}

/// The bytes of `c`, read as `read_tokens` reads them.
fn tokens_of(c: &[char]) -> (r: Result<Vec<Option<u8>>, Option<Vec<char>>>)
    ensures
        match (r, read_tokens(c@)) {
            (Ok(p), Ok(q)) => p@ == q,
            (Err(None), Err(None)) => true,
            (Err(Some(e)), Err(Some(m))) => e@ == m && e@.len() == 2,
            _ => false,
        },
{
    let mut out: Vec<Option<u8>> = Vec::new();
    let mut k: usize = 0;
    assert(c@.skip(0) =~= c@);
    while k < c.len()
        invariant
            k <= c@.len(),
            match read_tokens(c@) {
                Ok(all) => match read_tokens(c@.skip(k as int)) {
                    Ok(rest) => all == out@ + rest,
                    Err(_) => false,
                },
                Err(e) => read_tokens(c@.skip(k as int)) == Err::<Seq<Option<u8>>, Option<Seq<char>>>(e),
            },
        decreases c@.len() - k,
    {
        let ghost here = c@.skip(k as int);
        let ghost before = out@;
        if c[k] == '?' {
            let used: usize = if k + 1 < c.len() && c[k + 1] == '?' {
                2
            } else {
                1
            };
            assert(here.skip(used as int) =~= c@.skip(k + used));
            out.push(None);
            proof {
                if read_tokens(c@) is Ok {
                    let rest = read_tokens(c@.skip(k + used))->Ok_0;
                    assert(before + (seq![None] + rest) =~= out@ + rest);
                }
            }
            k += used;
        } else if k + 1 >= c.len() {
            return Err(None);
        } else {
            assert(here.skip(2) =~= c@.skip(k + 2));
            match hex_pair(c[k], c[k + 1]) {
                Some(x) => {
                    out.push(Some(x));
                    proof {
                        if read_tokens(c@) is Ok {
                            let rest = read_tokens(c@.skip(k + 2))->Ok_0;
                            assert(before + (seq![Some(x)] + rest) =~= out@ + rest);
                        }
                    }
                    k += 2;
                },
                None => {
                    let mut pair: Vec<char> = Vec::new();
                    pair.push(c[k]);
                    pair.push(c[k + 1]);
                    assert(pair@ =~= seq![c@[k as int], c@[k + 1]]);
                    return Err(Some(pair));
                },
            }
        }
    }
    proof {
        assert(c@.skip(k as int) =~= Seq::<char>::empty());
        assert(out@ + Seq::<Option<u8>>::empty() =~= out@);
    }
    Ok(out)
}

/// Parses a pattern like `8D ?? 60`, `8D??60` or `8D ? 60`. `??` and `?`
/// are wildcards; white space is ignored.
pub fn parse(text: &str) -> (r: Result<Pattern, String>)
    ensures
        match (r, parsed(text@)) {
            (Ok(p), Ok(q)) => p@ == q,
            (Err(e), Err(m)) => e@ == m,
            _ => false,
        },
{
    let c = cleaned(text);
    proof {
        reveal_strlit("'");
    }
    match tokens_of(c.as_slice()) {
        Err(None) => {
            let mut msg = String::new();
            push_str(&mut msg, "'");
            push_str(&mut msg, text);
            push_str(&mut msg, "' has an odd number of hex digits");
            Err(msg)
        },
        Err(Some(pair)) => {
            let mut msg = String::new();
            push_str(&mut msg, "'");
            push_char(&mut msg, pair[0]);
            push_char(&mut msg, pair[1]);
            push_str(&mut msg, "' is not a hex byte");
            assert(pair@ =~= seq![pair@[0], pair@[1]]);
            assert(msg@ =~= "'"@ + pair@ + "' is not a hex byte"@);
            Err(msg)
        },
        Ok(out) => {
            if out.len() == 0 {
                Err("empty pattern".to_owned())
            } else {
                Ok(out)
            }
        },
    }
}

/// Whether `pattern` matches `bytes` at offset `i`.
pub open spec fn matches_at(bytes: Seq<u8>, pattern: Seq<Option<u8>>, i: int) -> bool {
    forall|j: int|
        0 <= j < pattern.len() ==> (#[trigger] pattern[j] matches Some(b) ==> bytes[i + j] == b)
}

/// The addresses of the matches at offsets below `n`, ascending.
pub open spec fn matches_below(bytes: Seq<u8>, base: u64, pattern: Seq<Option<u8>>, n: int) -> Seq<u64>
    decreases n,
{
    if n <= 0 {
        seq![]
    } else {
        let earlier = matches_below(bytes, base, pattern, n - 1);
        if matches_at(bytes, pattern, n - 1) {
            earlier.push((base + n - 1) as u64)
        } else {
            earlier
        }
    }
}

/// Every address at which `pattern` matches the section, ascending.
pub open spec fn find_spec(image: Image, pattern: Seq<Option<u8>>) -> Seq<u64> {
    if image.bytes@.len() < pattern.len() {
        seq![]
    } else {
        matches_below(image.bytes@, image.base, pattern, image.bytes@.len() - pattern.len() + 1)
    }
}

fn matches_here(bytes: &Vec<u8>, pattern: &Pattern, i: usize) -> (r: bool)
    requires
        i + pattern@.len() <= bytes.len(),
    ensures
        r == matches_at(bytes@, pattern@, i as int),
{
    let mut j: usize = 0;
    while j < pattern.len()
        invariant
            j <= pattern@.len(),
            i + pattern@.len() <= bytes.len(),
            forall|q: int|
                0 <= q < j ==> (#[trigger] pattern@[q] matches Some(b) ==> bytes@[i + q] == b),
        decreases pattern@.len() - j,
    {
        if let Some(b) = pattern[j] {
            if bytes[i + j] != b {
                assert(pattern@[j as int] matches Some(b));
                return false;
            }
        }
        j += 1;
    }
    true
}

/// Every address at which `pattern` matches, ascending.
pub fn find(image: &Image, pattern: &Pattern) -> (r: Vec<u64>)
    requires
        image.wf(),
    ensures
        r@ == find_spec(*image, pattern@),
{
    let bytes = &image.bytes;
    let mut out: Vec<u64> = Vec::new();
    if bytes.len() < pattern.len() {
        return out;
    }
    let last = bytes.len() - pattern.len();
    let mut i: usize = 0;
    loop
        invariant_except_break
            out@ == matches_below(bytes@, image.base, pattern@, i as int),
        invariant
            image.wf(),
            bytes == &image.bytes,
            last == bytes@.len() - pattern@.len(),
            last + pattern@.len() == bytes.len(),
            i <= last,
        ensures
            out@ == matches_below(bytes@, image.base, pattern@, last + 1),
        decreases last - i,
    {
        if matches_here(bytes, pattern, i) {
            out.push(image.base + i as u64);
        }
        if i == last {
            break;
        }
        i += 1;
    }
    out
}

/// The matches of a pattern, restricted to a range when one is given, and
/// grouped by enclosing function.
pub struct Survey {
    /// Matches in the whole section.
    pub total: usize,
    /// The matches that fall in the range, ascending.
    pub hits: Vec<u64>,
    pub groups: Groups,
}

/// The addresses of `all` in `[low, high)`, in order.
pub open spec fn within(all: Seq<u64>, low: u64, high: u64) -> Seq<u64>
    decreases all.len(),
{
    if all.len() == 0 {
        seq![]
    } else {
        let earlier = within(all.drop_last(), low, high);
        if low <= all.last() < high {
            earlier.push(all.last())
        } else {
            earlier
        }
    }
}

/// The hits a survey reports.
pub open spec fn hits_spec(image: Image, pattern: Seq<Option<u8>>, range: Option<(u64, u64)>) -> Seq<
    u64,
> {
    match range {
        Some((low, high)) => within(find_spec(image, pattern), low, high),
        None => find_spec(image, pattern),
    }
}

/// Finds the matches, keeps those in `range`, and groups them by function.
pub fn survey(image: &Image, pattern: &Pattern, range: Option<(u64, u64)>) -> (r: Survey)
    requires
        image.wf(),
    ensures
        r.total == find_spec(*image, pattern@).len(),
        r.hits@ == hits_spec(*image, pattern@, range),
        grouped(*image, r.hits@, MAX_FUNCTION_SEARCH, r.groups),
{
    let all = find(image, pattern);
    let hits = match range {
        Some((low, high)) => {
            let mut kept: Vec<u64> = Vec::new();
            let mut i: usize = 0;
            while i < all.len()
                invariant
                    i <= all@.len(),
                    kept@ == within(all@.take(i as int), low, high),
                decreases all@.len() - i,
            {
                proof {
                    assert(all@.take(i + 1).drop_last() =~= all@.take(i as int));
                }
                if low <= all[i] && all[i] < high {
                    kept.push(all[i]);
                }
                i += 1;
            }
            assert(all@.take(all@.len() as int) =~= all@);
            kept
        },
        None => {
            let mut copy: Vec<u64> = Vec::new();
            let mut i: usize = 0;
            while i < all.len()
                invariant
                    i <= all@.len(),
                    copy@ == all@.take(i as int),
                decreases all@.len() - i,
            {
                copy.push(all[i]);
                i += 1;
                assert(copy@ =~= all@.take(i as int));
            }
            assert(all@.take(all@.len() as int) =~= all@);
            copy
        },
    };
    assert(hits@ == hits_spec(*image, pattern@, range));
    let groups = group_by_function(image, hits.as_slice(), MAX_FUNCTION_SEARCH);
    Survey { total: all.len(), hits, groups }
}

proof fn lemma_matches_below(bytes: Seq<u8>, base: u64, pattern: Seq<Option<u8>>, n: int)
    requires
        0 <= n,
        n == 0 || base + n - 1 <= u64::MAX,
    ensures
        forall|k: int|
            0 <= k < matches_below(bytes, base, pattern, n).len() ==> {
                let a = #[trigger] matches_below(bytes, base, pattern, n)[k];
                &&& base <= a < base + n
                &&& matches_at(bytes, pattern, a - base)
            },
    decreases n,
{
    if n > 0 {
        lemma_matches_below(bytes, base, pattern, n - 1);
        let earlier = matches_below(bytes, base, pattern, n - 1);
        let all = matches_below(bytes, base, pattern, n);
        assert forall|k: int| 0 <= k < all.len() implies {
            let a = #[trigger] all[k];
            &&& base <= a < base + n
            &&& matches_at(bytes, pattern, a - base)
        } by {
            if k < earlier.len() {
                assert(all[k] == earlier[k]);
            }
        }
    }
}

/// Every address `find` reports is one at which each byte of the pattern
/// that is not a wildcard matches the section.
pub proof fn law_found_addresses_match(image: Image, pattern: Seq<Option<u8>>)
    requires
        image.wf(),
    ensures
        forall|k: int|
            0 <= k < find_spec(image, pattern).len() ==> {
                let a = #[trigger] find_spec(image, pattern)[k];
                &&& image.base <= a
                &&& a - image.base + pattern.len() <= image.bytes@.len()
                &&& matches_at(image.bytes@, pattern, a - image.base)
            },
{
    if image.bytes@.len() >= pattern.len() {
        lemma_matches_below(
            image.bytes@,
            image.base,
            pattern,
            image.bytes@.len() - pattern.len() + 1,
        );
    }
}

} // verus!
