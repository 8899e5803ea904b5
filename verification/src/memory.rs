//! Searching the process's own memory for a value.
//!
//! Walking the address space and reading it are the host's; what is done with
//! the bytes read, and with the values found, is here.

use vstd::prelude::*;

use crate::bytes::i32_bytes;

verus! {

/// Bottom of user address space; nothing valid is mapped below this.
pub const USER_MIN: usize = 0x0001_0000;

/// Top of user address space for a 32-bit process.
pub const USER_MAX: usize = 0x7FFF_0000;

/// Bytes streamed through a scan at a time.
pub const CHUNK: usize = 1 << 20;

#[derive(Clone, Debug)]
pub struct Region {
    pub base: usize,
    pub size: usize,
    pub protect: u32,
    pub writable: bool,
}

impl Region {
    pub fn end(&self) -> (r: usize)
        requires
            self.base + self.size <= usize::MAX,
        ensures
            r == self.base + self.size,
    {
        self.base + self.size
    }
}

/// The addresses of the 4-byte-aligned places, before offset `n` of a chunk
/// read at `address`, that hold `value`.
pub open spec fn aligned_matches(chunk: Seq<u8>, address: usize, value: i32, n: int) -> Seq<usize>
    decreases n,
{
    if n <= 0 {
        seq![]
    } else {
        let i = n - 1;
        let earlier = aligned_matches(chunk, address, value, i);
        if aligned_match(chunk, value, i) {
            earlier.push((address + i) as usize)
        } else {
            earlier
        }
    }
}

/// How many of `found` matches a scan that already holds `held` hits takes:
/// matches are taken one at a time, and the scan stops after the one that
/// brings the hits to `limit`.
pub open spec fn taken(held: nat, found: nat, limit: nat) -> nat {
    if found == 0 {
        0
    } else if held >= limit {
        1
    } else if found < limit - held {
        found
    } else {
        (limit - held) as nat
    }
}

/// Whether the four bytes at offset `i` are `value`, at an aligned offset.
pub open spec fn aligned_match(chunk: Seq<u8>, value: i32, i: int) -> bool {
    i % 4 == 0 && i + 4 <= chunk.len() && chunk.subrange(i, i + 4) == i32_bytes(value)
}

proof fn lemma_no_match(chunk: Seq<u8>, address: usize, value: i32, i: int, n: int)
    requires
        0 <= i <= n,
        forall|j: int| i <= j < n ==> !aligned_match(chunk, value, j),
    ensures
        aligned_matches(chunk, address, value, n) == aligned_matches(chunk, address, value, i),
    decreases n - i,
{
    if n > i {
        lemma_no_match(chunk, address, value, i, n - 1);
    }
}

proof fn lemma_prefix(chunk: Seq<u8>, address: usize, value: i32, i: int, n: int)
    requires
        0 <= i <= n,
    ensures
        aligned_matches(chunk, address, value, i).len() <= aligned_matches(chunk, address, value, n).len(),
        aligned_matches(chunk, address, value, n).take(
            aligned_matches(chunk, address, value, i).len() as int,
        ) == aligned_matches(chunk, address, value, i),
    decreases n - i,
{
    if n > i {
        lemma_prefix(chunk, address, value, i, n - 1);
        let a = aligned_matches(chunk, address, value, i);
        let b = aligned_matches(chunk, address, value, n - 1);
        let c = aligned_matches(chunk, address, value, n);
        assert(c.take(a.len() as int) =~= b.take(a.len() as int));
    } else {
        let a = aligned_matches(chunk, address, value, i);
        assert(a.take(a.len() as int) =~= a);
    }
}

/// Appends the addresses in `chunk`, read at `address`, that hold `value` at
/// a 4-byte-aligned offset, stopping after the hit that brings `hits` to
/// `limit`. Whether it stopped there.
pub fn scan_chunk(chunk: &[u8], address: usize, value: i32, limit: usize, hits: &mut Vec<usize>) -> (full: bool)
    requires
        address + chunk@.len() <= usize::MAX,
    ensures
        ({
            let found = aligned_matches(chunk@, address, value, chunk@.len() as int);
            let k = taken(old(hits)@.len(), found.len(), limit as nat);
            &&& final(hits)@ == old(hits)@ + found.take(k as int)
            &&& full == (k > 0 && old(hits)@.len() + k >= limit)
        }),
{
    let v = value as u32;
    let needle: [u8; 4] = [
        (v % 256) as u8,
        ((v / 256) % 256) as u8,
        ((v / 65536) % 256) as u8,
        (v / 16777216) as u8,
    ];
    assert(needle@ =~= i32_bytes(value));
    let ghost start = hits@;
    let ghost n = chunk@.len() as int;
    let ghost all = aligned_matches(chunk@, address, value, n);
    let mut i: usize = 0;
    while i < chunk.len() && chunk.len() - i >= 4
        invariant
            i % 4 == 0,
            i <= chunk@.len(),
            start == old(hits)@,
            n == chunk@.len(),
            all == aligned_matches(chunk@, address, value, n),
            address + chunk@.len() <= usize::MAX,
            needle@ == i32_bytes(value),
            hits@ == start + aligned_matches(chunk@, address, value, i as int),
            aligned_matches(chunk@, address, value, i as int).len() == 0 || start.len()
                + aligned_matches(chunk@, address, value, i as int).len() < limit,
        decreases chunk@.len() - i,
    {
        let ghost before = aligned_matches(chunk@, address, value, i as int);
        let same = chunk[i] == needle[0] && chunk[i + 1] == needle[1] && chunk[i + 2] == needle[2]
            && chunk[i + 3] == needle[3];
        proof {
            let w = chunk@.subrange(i as int, i + 4);
            if same {
                assert(w =~= needle@);
            } else if w == needle@ {
                assert(w[0] == needle@[0] && w[1] == needle@[1] && w[2] == needle@[2] && w[3]
                    == needle@[3]);
            }
            assert(aligned_match(chunk@, value, i as int) == same);
            assert forall|j: int| i + 1 <= j < i + 4 implies !aligned_match(chunk@, value, j) by {}
            lemma_no_match(chunk@, address, value, i + 1, i + 4);
            lemma_prefix(chunk@, address, value, i + 4, n);
        }
        if same {
            hits.push(address + i);
            proof {
                assert(aligned_matches(chunk@, address, value, i + 1) == before.push(
                    (address + i) as usize,
                ));
                assert(hits@ =~= start + aligned_matches(chunk@, address, value, i + 4));
            }
            if hits.len() >= limit {
                proof {
                    let c1: int = before.len() as int + 1;
                    assert(aligned_matches(chunk@, address, value, i + 4).len() == c1);
                    assert(all.take(c1) == aligned_matches(chunk@, address, value, i + 4));
                    assert(taken(start.len(), all.len(), limit as nat) == c1);
                }
                return true;
            }
        }
        i += 4;
    }
    proof {
        assert forall|j: int| i <= j < n implies !aligned_match(chunk@, value, j) by {}
        lemma_no_match(chunk@, address, value, i as int, n);
        assert(all.take(all.len() as int) =~= all);
    }
    false
}

/// The addresses of `previous` whose read now gives `value`; `reads[k]` is
/// what reading `previous[k]` gave, `None` where it could not be read.
pub fn narrow(previous: &[usize], reads: &[Option<i32>], value: i32) -> (r: Vec<usize>)
    requires
        reads@.len() == previous@.len(),
    ensures
        r@ == still_holding(previous@, reads@, value),
{
    let mut out: Vec<usize> = Vec::new();
    let mut k: usize = 0;
    while k < previous.len()
        invariant
            k <= previous@.len(),
            reads@.len() == previous@.len(),
            out@ == still_holding(previous@.take(k as int), reads@.take(k as int), value),
        decreases previous@.len() - k,
    {
        proof {
            assert(previous@.take(k + 1).drop_last() =~= previous@.take(k as int));
            assert(reads@.take(k + 1).drop_last() =~= reads@.take(k as int));
        }
        if reads[k] == Some(value) {
            out.push(previous[k]);
        }
        k += 1;
    }
    assert(previous@.take(k as int) =~= previous@);
    assert(reads@.take(k as int) =~= reads@);
    out
}

/// The addresses whose read gave `value`, in order.
pub open spec fn still_holding(addresses: Seq<usize>, reads: Seq<Option<i32>>, value: i32) -> Seq<usize>
    decreases addresses.len(),
{
    if addresses.len() == 0 || reads.len() == 0 {
        seq![]
    } else {
        let earlier = still_holding(addresses.drop_last(), reads.drop_last(), value);
        if reads.last() == Some(value) {
            earlier.push(addresses.last())
        } else {
            earlier
        }
    }
}

proof fn lemma_matches_hold(chunk: Seq<u8>, address: usize, value: i32, n: int)
    requires
        address + chunk.len() <= usize::MAX,
    ensures
        forall|k: int|
            0 <= k < aligned_matches(chunk, address, value, n).len() ==> {
                let a = #[trigger] aligned_matches(chunk, address, value, n)[k];
                &&& address <= a
                &&& aligned_match(chunk, value, a - address)
            },
    decreases n,
{
    if n > 0 {
        lemma_matches_hold(chunk, address, value, n - 1);
        let earlier = aligned_matches(chunk, address, value, n - 1);
        let all = aligned_matches(chunk, address, value, n);
        assert forall|k: int| 0 <= k < all.len() implies {
            let a = #[trigger] all[k];
            &&& address <= a
            &&& aligned_match(chunk, value, a - address)
        } by {
            if k < earlier.len() {
                assert(all[k] == earlier[k]);
            }
        }
    }
}

/// Every address a chunk scan reports holds the value, little-endian, at a
/// 4-byte-aligned offset of the chunk.
pub proof fn law_scan_hits_hold_the_value(chunk: Seq<u8>, address: usize, value: i32)
    requires
        address + chunk.len() <= usize::MAX,
    ensures
        forall|k: int|
            0 <= k < aligned_matches(chunk, address, value, chunk.len() as int).len() ==> {
                let a = #[trigger] aligned_matches(chunk, address, value, chunk.len() as int)[k];
                let i = a - address;
                &&& i % 4 == 0
                &&& 0 <= i && i + 4 <= chunk.len()
                &&& chunk.subrange(i, i + 4) == crate::bytes::i32_bytes(value)
            },
{
    lemma_matches_hold(chunk, address, value, chunk.len() as int);
}

} // verus!
