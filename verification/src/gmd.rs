//! The message file that lives inside the archive.
//!
//! ```text
//! offset  what
//! 0x00    "GMD\0"
//! 0x14    number of labels
//! 0x18    number of strings
//! 0x1C    size of the label block
//! 0x20    size of the string block
//! ```
//!
//! The strings are the last thing in the file, one after another, each ending
//! in a null byte. There is no offset table pointing into them, which is why a
//! string can grow or shrink as long as the size at `0x20` is corrected: every
//! reader walks the block from the front.

use vstd::prelude::*;

use crate::bytes::{le_u32, lemma_u32_bytes_of_read, read_u32, set_u32, u32_bytes};
use crate::text::{lossy_text, push_decimal, push_hex, push_str, utf8_lossy, decimal, hex_padded};

verus! {

/// Offset of the number of strings.
pub const OFFSET_COUNT: usize = 0x18;

/// Offset of the size of the string block.
pub const OFFSET_BLOCK_SIZE: usize = 0x20;

/// How much of the header to report while parts of it are still unnamed.
pub const HEADER_WORDS: usize = 12;

pub struct Gmd {
    /// Everything before the string block, kept exactly as it was read.
    head: Vec<u8>,
    strings: Vec<Vec<u8>>,
}

/// Why a message file was refused, or a string could not be set.
#[derive(Clone, Copy, Debug, PartialEq, Eq, Structural)]
pub enum GmdError {
    /// Too short, or not starting with `GMD\0`.
    NotGmd,
    /// The string block is said to be larger than the file.
    BlockTooLarge { block: u32, len: usize },
    /// The block holds a different number of strings than the header says.
    CountMismatch { found: usize, expected: u32 },
    /// No string at this index.
    NoString(usize),
}

/// The pieces between null bytes, as `<[u8]>::split` gives them: one more
/// than there are nulls.
pub open spec fn pieces(s: Seq<u8>) -> Seq<Seq<u8>>
    decreases s.len(),
{
    if s.len() == 0 {
        seq![Seq::<u8>::empty()]
    } else {
        let p = pieces(s.drop_last());
        if s.last() == 0 {
            p.push(Seq::<u8>::empty())
        } else {
            p.update(p.len() - 1, p.last().push(s.last()))
        }
    }
}

/// The strings of a block: its pieces, without the empty one after the last
/// terminator.
pub open spec fn strings_in(block: Seq<u8>) -> Seq<Seq<u8>> {
    let p = pieces(block);
    if p.last().len() == 0 {
        p.drop_last()
    } else {
        p
    }
}

/// Strings laid end to end, each followed by a null.
pub open spec fn terminated(strings: Seq<Seq<u8>>) -> Seq<u8>
    decreases strings.len(),
{
    if strings.len() == 0 {
        seq![]
    } else {
        terminated(strings.drop_last()) + strings.last() + seq![0u8]
    }
}

pub open spec fn is_gmd(b: Seq<u8>) -> bool {
    &&& b.len() >= OFFSET_BLOCK_SIZE + 4
    &&& b[0] == 0x47
    &&& b[1] == 0x4D
    &&& b[2] == 0x44
    &&& b[3] == 0
}

/// What reading `b` gives: the head and the strings, or why it was refused.
pub open spec fn parsed(b: Seq<u8>) -> Result<(Seq<u8>, Seq<Seq<u8>>), GmdError> {
    if !is_gmd(b) {
        Err(GmdError::NotGmd)
    } else {
        let block = le_u32(b, OFFSET_BLOCK_SIZE as int);
        if block > b.len() {
            Err(GmdError::BlockTooLarge { block, len: b.len() as usize })
        } else {
            let split = b.len() - block;
            let strings = strings_in(b.skip(split));
            let expected = le_u32(b, OFFSET_COUNT as int);
            if strings.len() != expected {
                Err(GmdError::CountMismatch { found: strings.len() as usize, expected })
            } else {
                Ok((b.take(split), strings))
            }
        }
    }
}

/// The file written from `head` and `strings`: the head with the block size
/// corrected, then the block.
pub open spec fn written(head: Seq<u8>, strings: Seq<Seq<u8>>) -> Seq<u8> {
    let block = terminated(strings);
    head.take(OFFSET_BLOCK_SIZE as int) + u32_bytes(block.len() as u32) + head.skip(
        OFFSET_BLOCK_SIZE + 4,
    ) + block
}

impl Gmd {
    pub closed spec fn head_of(&self) -> Seq<u8> {
        self.head@
    }

    pub closed spec fn strings_of(&self) -> Seq<Seq<u8>> {
        self.strings@.map_values(|s: Vec<u8>| s@)
    }

    /// Reads a message file.
    pub fn read(bytes: &[u8]) -> (r: Result<Gmd, GmdError>)
        ensures
            match r {
                Ok(g) => parsed(bytes@) == Ok::<(Seq<u8>, Seq<Seq<u8>>), GmdError>(
                    (g.head_of(), g.strings_of()),
                ),
                Err(e) => parsed(bytes@) == Err::<(Seq<u8>, Seq<Seq<u8>>), GmdError>(e),
            },
    {
        if bytes.len() < OFFSET_BLOCK_SIZE + 4 || !(bytes[0] == 0x47 && bytes[1] == 0x4D && bytes[2]
            == 0x44 && bytes[3] == 0) {
            return Err(GmdError::NotGmd);
        }
        let block = read_u32(bytes, OFFSET_BLOCK_SIZE);
        if block as usize > bytes.len() {
            return Err(GmdError::BlockTooLarge { block, len: bytes.len() });
        }
        let split = bytes.len() - block as usize;
        let mut head: Vec<u8> = Vec::new();
        let mut i: usize = 0;
        while i < split
            invariant
                i <= split,
                split <= bytes@.len(),
                head@ == bytes@.take(i as int),
            decreases split - i,
        {
            head.push(bytes[i]);
            i += 1;
            assert(head@ =~= bytes@.take(i as int));
        }
        let ghost body = bytes@.skip(split as int);
        let mut done: Vec<Vec<u8>> = Vec::new();
        let mut current: Vec<u8> = Vec::new();
        let mut k: usize = split;
        while k < bytes.len()
            invariant
                split <= k <= bytes@.len(),
                body == bytes@.skip(split as int),
                pieces(body.take(k - split)) == done@.map_values(|s: Vec<u8>| s@).push(current@),
            decreases bytes@.len() - k,
        {
            let ghost before = done@.map_values(|s: Vec<u8>| s@).push(current@);
            let b = bytes[k];
            proof {
                assert(body.take(k + 1 - split).drop_last() =~= body.take(k - split));
                assert(body.take(k + 1 - split).last() == b);
            }
            if b == 0 {
                let piece = current;
                done.push(piece);
                current = Vec::new();
                assert(done@.map_values(|s: Vec<u8>| s@).push(current@) =~= before.push(Seq::<u8>::empty()));
            } else {
                current.push(b);
                assert(done@.map_values(|s: Vec<u8>| s@).push(current@) =~= before.update(
                    before.len() - 1,
                    before.last().push(b),
                ));
            }
            k += 1;
        }
        proof {
            assert(body.take(k - split) =~= body);
        }
        let last_empty = current.len() == 0;
        let mut strings = done;
        if !last_empty {
            strings.push(current);
        }
        proof {
            let p = pieces(body);
            assert(strings@.map_values(|s: Vec<u8>| s@) =~= strings_in(body));
        }
        let expected = read_u32(bytes, OFFSET_COUNT);
        if strings.len() != expected as usize {
            return Err(GmdError::CountMismatch { found: strings.len(), expected });
        }
        assert(head@ =~= bytes@.take(split as int));
        Ok(Gmd { head, strings })
    }

    /// How many bytes come before the string block.
    pub fn head_len(&self) -> (r: usize)
        ensures
            r == self.head_of().len(),
    {
        self.head.len()
    }

    /// Every string, decoded.
    pub fn strings(&self) -> (r: Vec<String>)
        ensures
            r@.len() == self.strings_of().len(),
            forall|k: int| 0 <= k < r@.len() ==> (#[trigger] r@[k])@ == utf8_lossy(self.strings_of()[k]),
    {
        let mut out: Vec<String> = Vec::new();
        let mut k: usize = 0;
        while k < self.strings.len()
            invariant
                k <= self.strings@.len(),
                out@.len() == k,
                forall|j: int| 0 <= j < k ==> (#[trigger] out@[j])@ == utf8_lossy(self.strings_of()[j]),
            decreases self.strings@.len() - k,
        {
            out.push(lossy_text(self.strings[k].as_slice()));
            k += 1;
        }
        out
    }

    /// The string at `index`, decoded.
    pub fn get(&self, index: usize) -> (r: Option<String>)
        ensures
            match r {
                Some(s) => index < self.strings_of().len() && s@ == utf8_lossy(self.strings_of()[index as int])
                    && (vstd::utf8::valid_utf8(self.strings_of()[index as int]) ==> s@ == vstd::utf8::decode_utf8(
                    self.strings_of()[index as int],
                )),
                None => index >= self.strings_of().len(),
            },
    {
        if index < self.strings.len() {
            Some(lossy_text(self.strings[index].as_slice()))
        } else {
            None
        }
    }

    /// Replaces one string with the UTF-8 bytes of `text`. The block may
    /// change size; `write` corrects the header for it.
    pub fn set(&mut self, index: usize, text: &str) -> (r: Result<(), GmdError>)
        ensures
            final(self).head_of() == old(self).head_of(),
            match r {
                Ok(()) => index < old(self).strings_of().len() && final(self).strings_of()
                    == old(self).strings_of().update(index as int, vstd::utf8::encode_utf8(text@)),
                Err(e) => e == GmdError::NoString(index) && index >= old(self).strings_of().len()
                    && final(self).strings_of() == old(self).strings_of(),
            },
    {
        if index >= self.strings.len() {
            return Err(GmdError::NoString(index));
        }
        let bytes = text.as_bytes();
        let mut copy: Vec<u8> = Vec::new();
        let mut k: usize = 0;
        while k < bytes.len()
            invariant
                k <= bytes@.len(),
                copy@ == bytes@.take(k as int),
            decreases bytes@.len() - k,
        {
            copy.push(bytes[k]);
            k += 1;
            assert(copy@ =~= bytes@.take(k as int));
        }
        assert(copy@ =~= bytes@);
        let ghost before = self.strings@;
        self.strings.set(index, copy);
        assert(self.strings_of() =~= old(self).strings_of().update(index as int, vstd::utf8::encode_utf8(text@)));
        Ok(())
    }

    /// Writes the file back out, with the string block size corrected. The
    /// head must reach past the size field, where the correction is written.
    pub fn write(&self) -> (r: Vec<u8>)
        requires
            self.head_of().len() >= OFFSET_BLOCK_SIZE + 4,
        ensures
            r@ == written(self.head_of(), self.strings_of()),
    {
        let mut block: Vec<u8> = Vec::new();
        let mut k: usize = 0;
        while k < self.strings.len()
            invariant
                k <= self.strings@.len(),
                block@ == terminated(self.strings_of().take(k as int)),
            decreases self.strings@.len() - k,
        {
            let ghost before = block@;
            let text = &self.strings[k];
            let mut j: usize = 0;
            while j < text.len()
                invariant
                    j <= text@.len(),
                    block@ == before + text@.take(j as int),
                decreases text@.len() - j,
            {
                block.push(text[j]);
                j += 1;
                assert(block@ =~= before + text@.take(j as int));
            }
            block.push(0);
            proof {
                assert(text@.take(text@.len() as int) =~= text@);
                assert(self.strings_of().take(k + 1).drop_last() =~= self.strings_of().take(k as int));
                assert(self.strings_of()[k as int] == text@);
                assert(block@ =~= terminated(self.strings_of().take(k + 1)));
            }
            k += 1;
        }
        assert(self.strings_of().take(self.strings@.len() as int) =~= self.strings_of());
        let mut out: Vec<u8> = Vec::new();
        let mut i: usize = 0;
        while i < self.head.len()
            invariant
                i <= self.head@.len(),
                out@ == self.head@.take(i as int),
            decreases self.head@.len() - i,
        {
            out.push(self.head[i]);
            i += 1;
            assert(out@ =~= self.head@.take(i as int));
        }
        assert(out@ =~= self.head@);
        set_u32(&mut out, OFFSET_BLOCK_SIZE, block.len() as u32);
        let ghost head_fixed = out@;
        let mut b: usize = 0;
        while b < block.len()
            invariant
                b <= block@.len(),
                out@ == head_fixed + block@.take(b as int),
            decreases block@.len() - b,
        {
            out.push(block[b]);
            b += 1;
            assert(out@ =~= head_fixed + block@.take(b as int));
        }
        assert(block@.take(block@.len() as int) =~= block@);
        assert(out@ =~= written(self.head_of(), self.strings_of()));
        out
    }

    /// The size and the header words, for the fields still only known by
    /// their offset: `"{total} bytes, {n} strings\n  header:"`, then
    /// ` [0x{offset:02X}]={value}` for each of the first words of the head.
    pub fn describe(&self, total: usize) -> (r: String)
        ensures
            r@ == described(total as nat, self.strings_of().len(), self.head_of()),
    {
        let mut out = String::new();
        push_decimal(&mut out, total as u128);
        push_str(&mut out, " bytes, ");
        push_decimal(&mut out, self.strings.len() as u128);
        push_str(&mut out, " strings\n  header:");
        proof {
            reveal_strlit(" bytes, ");
            reveal_strlit(" strings\n  header:");
        }
        assert(out@ =~= decimal(total as nat) + bytes_label() + decimal(self.strings_of().len()) + strings_label());
        let mut index: usize = 0;
        while index < HEADER_WORDS
            invariant
                index <= HEADER_WORDS,
                out@ == decimal(total as nat) + bytes_label() + decimal(self.strings_of().len())
                    + strings_label() + words(self.head_of(), index as nat),
            ensures
                index <= HEADER_WORDS,
                index == HEADER_WORDS || 4 * index + 4 > self.head_of().len(),
                out@ == decimal(total as nat) + bytes_label() + decimal(self.strings_of().len())
                    + strings_label() + words(self.head_of(), index as nat),
            decreases HEADER_WORDS - index,
        {
            let at = index * 4;
            if at + 4 > self.head.len() {
                break;
            }
            let ghost before = out@;
            push_str(&mut out, " [0x");
            push_hex(&mut out, at as u64);
            push_str(&mut out, "]=");
            push_decimal(&mut out, read_u32(self.head.as_slice(), at) as u128);
            proof {
                reveal_strlit(" [0x");
                reveal_strlit("]=");
                assert(words(self.head_of(), (index + 1) as nat) =~= words(self.head_of(), index as nat)
                    + word_text(self.head_of(), at as int));
            }
            assert(out@ =~= decimal(total as nat) + bytes_label() + decimal(self.strings_of().len())
                + strings_label() + words(self.head_of(), (index + 1) as nat));
            index += 1;
        }
        proof {
            lemma_words_stop(self.head_of(), index as nat);
        }
        out
    }
}

pub open spec fn bytes_label() -> Seq<char> {
    seq![' ', 'b', 'y', 't', 'e', 's', ',', ' ']
}

pub open spec fn strings_label() -> Seq<char> {
    seq![' ', 's', 't', 'r', 'i', 'n', 'g', 's', '\n', ' ', ' ', 'h', 'e', 'a', 'd', 'e', 'r', ':']
}

/// ` [0x{at:02X}]={value}` for the word of `head` at `at`.
pub open spec fn word_text(head: Seq<u8>, at: int) -> Seq<char> {
    seq![' ', '[', '0', 'x'] + hex_padded(at as nat) + seq![']', '='] + decimal(le_u32(head, at) as nat)
}

/// The first `n` header words that fit in `head`, as text.
pub open spec fn words(head: Seq<u8>, n: nat) -> Seq<char>
    decreases n,
{
    if n == 0 {
        seq![]
    } else if 4 * n > head.len() {
        words(head, (n - 1) as nat)
    } else {
        words(head, (n - 1) as nat) + word_text(head, 4 * (n - 1))
    }
}

/// What `describe` says of a file of `total` bytes.
pub open spec fn described(total: nat, count: nat, head: Seq<u8>) -> Seq<char> {
    decimal(total) + bytes_label() + decimal(count) + strings_label() + words(head, HEADER_WORDS as nat)
}

proof fn lemma_words_stop(head: Seq<u8>, n: nat)
    requires
        n <= HEADER_WORDS,
        n == HEADER_WORDS || 4 * n + 4 > head.len(),
    ensures
        words(head, HEADER_WORDS as nat) == words(head, n),
    decreases HEADER_WORDS - n,
{
    if n < HEADER_WORDS {
        lemma_words_stop(head, n + 1);
    }
}

/// Why rebuilding a message file did not give it back.
#[derive(Clone, Copy, Debug, PartialEq, Eq, Structural)]
pub enum VerifyError {
    /// The file could not be read at all.
    Unreadable(GmdError),
    /// The part before the strings is this many bytes, too short to hold the
    /// size field that writing corrects.
    HeadTooShort { head: usize },
    /// Rebuilt, it came out different: sizes in and out, and where the first
    /// difference is.
    Changed { len_in: usize, len_out: usize, first_difference: usize },
}

/// Where two byte strings first differ, or the shorter length.
pub open spec fn first_difference(a: Seq<u8>, b: Seq<u8>, from: int) -> int
    decreases a.len() - from,
{
    if from >= a.len() || from >= b.len() {
        if a.len() < b.len() {
            a.len() as int
        } else {
            b.len() as int
        }
    } else if a[from] != b[from] {
        from
    } else {
        first_difference(a, b, from + 1)
    }
}

/// Proves a file survives a read and a write unchanged.
///
/// Everything done to a message file rests on the claim that the strings can
/// be walked and rebuilt with nothing else in the file depending on where they
/// sit; this keeps checking it against the player's own files.
pub fn verify(bytes: &[u8]) -> (r: Result<(), VerifyError>)
    ensures
        match parsed(bytes@) {
            Err(e) => r == Err::<(), VerifyError>(VerifyError::Unreadable(e)),
            Ok((head, strings)) => if head.len() < OFFSET_BLOCK_SIZE + 4 {
                r == Err::<(), VerifyError>(VerifyError::HeadTooShort { head: head.len() as usize })
            } else {
                let out = written(head, strings);
                if out == bytes@ {
                    r is Ok
                } else {
                    r == Err::<(), VerifyError>(
                        VerifyError::Changed {
                            len_in: bytes@.len() as usize,
                            len_out: out.len() as usize,
                            first_difference: first_difference(out, bytes@, 0) as usize,
                        },
                    )
                }
            },
        },
{
    let file = match Gmd::read(bytes) {
        Ok(file) => file,
        Err(e) => {
            return Err(VerifyError::Unreadable(e));
        },
    };
    if file.head_len() < OFFSET_BLOCK_SIZE + 4 {
        return Err(VerifyError::HeadTooShort { head: file.head_len() });
    }
    let out = file.write();
    let n = if out.len() < bytes.len() {
        out.len()
    } else {
        bytes.len()
    };
    let mut at: usize = 0;
    while at < n
        invariant
            at <= n,
            n == (if out@.len() < bytes@.len() { out@.len() } else { bytes@.len() }),
            first_difference(out@, bytes@, 0) == first_difference(out@, bytes@, at as int),
            forall|j: int| 0 <= j < at ==> out@[j] == bytes@[j],
            out@ == written(file.head_of(), file.strings_of()),
            file.head_of().len() >= OFFSET_BLOCK_SIZE + 4,
            parsed(bytes@) == Ok::<(Seq<u8>, Seq<Seq<u8>>), GmdError>((file.head_of(), file.strings_of())),
        decreases n - at,
    {
        if out[at] != bytes[at] {
            assert(out@ != bytes@) by {
                assert(out@[at as int] != bytes@[at as int]);
            }
            assert(first_difference(out@, bytes@, at as int) == at as int);
            return Err(VerifyError::Changed { len_in: bytes.len(), len_out: out.len(), first_difference: at });
        }
        at += 1;
    }
    if out.len() == bytes.len() {
        assert(out@ =~= bytes@);
        return Ok(());
    }
    assert(out@.len() != bytes@.len());
    Err(VerifyError::Changed { len_in: bytes.len(), len_out: out.len(), first_difference: n })
}

// --- Reading then writing gives the file back ---

/// The pieces, joined again with a null between each two.
pub open spec fn joined(p: Seq<Seq<u8>>) -> Seq<u8> {
    terminated(p.drop_last()) + p.last()
}

proof fn lemma_pieces_join(s: Seq<u8>)
    ensures
        pieces(s).len() >= 1,
        joined(pieces(s)) == s,
    decreases s.len(),
{
    if s.len() > 0 {
        let init = s.drop_last();
        lemma_pieces_join(init);
        let p = pieces(init);
        let q = pieces(s);
        if s.last() == 0 {
            assert(q.drop_last() =~= p);
            assert(terminated(q.drop_last()) =~= terminated(p.drop_last()) + p.last() + seq![0u8]);
            assert(joined(q) =~= s);
        } else {
            assert(q.drop_last() =~= p.drop_last());
            assert(q.last() =~= p.last().push(s.last()));
            assert(init =~= terminated(p.drop_last()) + p.last());
            assert(s =~= init.push(s.last()));
            assert(joined(q) == terminated(q.drop_last()) + q.last());
            assert(joined(q) =~= terminated(p.drop_last()) + p.last().push(s.last()));
            assert(joined(q) =~= s);
        }
    } else {
        assert(joined(pieces(s)) =~= s);
    }
}

/// Rebuilding a message file reproduces it byte for byte whenever its string
/// block ends in the last string's terminator (or is empty) and the head
/// reaches past the size field.
pub proof fn law_read_then_write_is_identity(b: Seq<u8>)
    requires
        parsed(b) is Ok,
        ({
            let split = b.len() - le_u32(b, OFFSET_BLOCK_SIZE as int);
            &&& split >= OFFSET_BLOCK_SIZE + 4
            &&& split == b.len() || b.last() == 0
        }),
    ensures
        parsed(b) matches Ok((head, strings)) && written(head, strings) == b,
{
    let block = le_u32(b, OFFSET_BLOCK_SIZE as int);
    let split = b.len() - block;
    let body = b.skip(split);
    lemma_pieces_join(body);
    let p = pieces(body);
    if body.len() > 0 {
        assert(body.last() == b.last());
        assert(p.last().len() == 0);
    } else {
        assert(p =~= seq![Seq::<u8>::empty()]);
    }
    assert(terminated(strings_in(body)) =~= body);
    let head = b.take(split);
    lemma_u32_bytes_of_read(b, OFFSET_BLOCK_SIZE as int);
    assert(body.len() == block);
    assert(written(head, strings_in(body)) =~= b);
}

/// What `set` stores, `get` gives back: the text set at `index` reads back
/// as exactly that text, since it was stored as valid UTF-8.
pub proof fn law_set_then_get(strings: Seq<Seq<u8>>, index: int, text: Seq<char>)
    requires
        0 <= index < strings.len(),
    ensures
        vstd::utf8::valid_utf8(strings.update(index, vstd::utf8::encode_utf8(text))[index]),
        vstd::utf8::decode_utf8(strings.update(index, vstd::utf8::encode_utf8(text))[index]) == text,
{
    vstd::utf8::encode_utf8_valid_utf8(text);
    vstd::utf8::encode_utf8_decode_utf8(text);
}

} // verus!
