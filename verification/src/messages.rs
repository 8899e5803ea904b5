//! Reading and rebuilding the game's message archives.
//!
//! The item box needs a third choice on the typewriter prompt, and what the
//! prompt offers is decided by the game's message files. The player's own
//! `msg_<lang>.arc` is only ever read; a copy is edited and written under a
//! different name that the game is redirected to at runtime, so verifying the
//! game files reports nothing and uninstalling is a delete.
//!
//! Finding, reading and writing the files on disk is the host's; this module
//! decides what they are called and what goes into the copy.

use vstd::prelude::*;

use crate::arc::{Archive, EntryView};
use crate::gmd::{parsed, verify, written, Gmd, GmdError, VerifyError, OFFSET_BLOCK_SIZE};
use crate::text::{chars_of, push_str, utf8_lossy};
use crate::typewriter::{
    fallback, offer, selection, translated, with_ribbon, without_ribbon, yes_no, yes_no_use,
    WITH_RIBBON, WITHOUT_RIBBON,
};

verus! {

/// Every language the game ships a message archive for.
pub const LANGUAGES: [&'static str; 8] = ["chS", "chT", "eng", "fre", "ger", "ita", "jpn", "spa"];

/// `_inv`: the suffix of the archives written here. Not `_box`, which another
/// mod writes: both redirect the game to their own copy of the same file, and
/// sharing a name would let whichever loaded last decide what the other's
/// prompt said.
pub open spec fn suffix() -> Seq<char> {
    seq!['_', 'i', 'n', 'v']
}

pub open spec fn prefix() -> Seq<char> {
    seq!['m', 's', 'g', '_']
}

pub open spec fn extension() -> Seq<char> {
    seq!['.', 'a', 'r', 'c']
}

/// The file name of a language's original archive: `msg_<lang>.arc`.
pub fn original(language: &str) -> (r: String)
    ensures
        r@ == prefix() + language@ + extension(),
{
    let mut out = String::new();
    push_str(&mut out, "msg_");
    push_str(&mut out, language);
    push_str(&mut out, ".arc");
    proof {
        reveal_strlit("msg_");
        reveal_strlit(".arc");
    }
    assert(out@ =~= prefix() + language@ + extension());
    out
}

/// The file name of a language's rebuilt archive: `msg_<lang>_inv.arc`.
pub fn patched_path(language: &str) -> (r: String)
    ensures
        r@ == prefix() + language@ + suffix() + extension(),
{
    let mut out = String::new();
    push_str(&mut out, "msg_");
    push_str(&mut out, language);
    push_str(&mut out, "_inv.arc");
    proof {
        reveal_strlit("msg_");
        reveal_strlit("_inv.arc");
    }
    assert(out@ =~= prefix() + language@ + suffix() + extension());
    out
}

/// Whether writing a message file read from `data` back out is possible: the
/// head reaches past the size field that is corrected there.
pub open spec fn rebuildable(data: Seq<u8>) -> bool {
    parsed(data) matches Ok((head, _)) ==> head.len() >= OFFSET_BLOCK_SIZE + 4
}

/// Whether `data` is a message file that can be written back out.
pub fn is_rebuildable(data: &[u8]) -> (r: bool)
    ensures
        r == rebuildable(data@),
{
    match Gmd::read(data) {
        Ok(file) => file.head_len() >= OFFSET_BLOCK_SIZE + 4,
        Err(_) => true,
    }
}

/// `message\`: the folder of the message files inside an archive.
pub open spec fn message_folder() -> Seq<char> {
    seq!['m', 'e', 's', 's', 'a', 'g', 'e', '\\']
}

pub open spec fn is_message(name: Seq<char>) -> bool {
    name.len() >= 8 && name.take(8) == message_folder()
}

/// The message files of an archive that did not rebuild unchanged.
pub open spec fn failures(entries: Seq<EntryView>) -> Seq<(int, VerifyError)>
    decreases entries.len(),
{
    if entries.len() == 0 {
        seq![]
    } else {
        let i = entries.len() - 1;
        let rest = failures(entries.drop_last());
        if is_message(entries.last().name) {
            match verified(entries.last().data) {
                Ok(_) => rest,
                Err(e) => rest.push((i, e)),
            }
        } else {
            rest
        }
    }
}

/// How many message files an archive holds.
pub open spec fn message_count(entries: Seq<EntryView>) -> nat
    decreases entries.len(),
{
    if entries.len() == 0 {
        0
    } else {
        message_count(entries.drop_last()) + if is_message(entries.last().name) {
            1nat
        } else {
            0nat
        }
    }
}

/// What `gmd::verify` says of `data`.
pub open spec fn verified(data: Seq<u8>) -> Result<(), VerifyError> {
    match parsed(data) {
        Err(e) => Err(VerifyError::Unreadable(e)),
        Ok((head, strings)) => if head.len() < OFFSET_BLOCK_SIZE + 4 {
            Err(VerifyError::HeadTooShort { head: head.len() as usize })
        } else {
            let out = written(head, strings);
            if out == data {
                Ok(())
            } else {
                Err(
                    VerifyError::Changed {
                        len_in: data.len() as usize,
                        len_out: out.len() as usize,
                        first_difference: crate::gmd::first_difference(out, data, 0) as usize,
                    },
                )
            }
        },
    }
}

fn is_message_name(name: &String) -> (r: bool)
    ensures
        r == is_message(name@),
{
    let chars = chars_of(name.as_str());
    let folder = chars_of("message\\");
    proof {
        reveal_strlit("message\\");
    }
    assert(folder@ =~= message_folder());
    if chars.len() < 8 {
        return false;
    }
    let mut i: usize = 0;
    while i < 8
        invariant
            i <= 8,
            chars@ == name@,
            chars@.len() >= 8,
            folder@ == message_folder(),
            forall|j: int| 0 <= j < i ==> chars@[j] == folder@[j],
        decreases 8 - i,
    {
        if chars[i] != folder[i] {
            assert(chars@.take(8)[i as int] != message_folder()[i as int]);
            return false;
        }
        i += 1;
    }
    assert(chars@.take(8) =~= message_folder());
    true
}

/// Rebuilds every message file of an archive and reports which did not come
/// back unchanged: how many were checked, and the index and reason of each
/// failure. A format misread here is one this library has no business
/// editing.
pub fn check_archive(archive: &Archive) -> (r: (usize, Vec<(usize, VerifyError)>))
    ensures
        r.0 == message_count(archive.entries_view()),
        r.1@.len() == failures(archive.entries_view()).len(),
        forall|k: int|
            0 <= k < r.1@.len() ==> (#[trigger] r.1@[k]).0 == failures(archive.entries_view())[k].0
                && r.1@[k].1 == failures(archive.entries_view())[k].1,
{
    let mut checked: usize = 0;
    let mut failed: Vec<(usize, VerifyError)> = Vec::new();
    let mut i: usize = 0;
    while i < archive.entries.len()
        invariant
            i <= archive.entries@.len(),
            archive.entries_view().len() == archive.entries@.len(),
            checked == message_count(archive.entries_view().take(i as int)),
            checked <= i,
            failed@.len() == failures(archive.entries_view().take(i as int)).len(),
            forall|k: int|
                0 <= k < failed@.len() ==> (#[trigger] failed@[k]).0 == failures(
                    archive.entries_view().take(i as int),
                )[k].0 && failed@[k].1 == failures(archive.entries_view().take(i as int))[k].1,
        decreases archive.entries@.len() - i,
    {
        let entry = &archive.entries[i];
        let ghost prefix = archive.entries_view().take(i + 1);
        proof {
            assert(prefix.drop_last() =~= archive.entries_view().take(i as int));
            assert(prefix.last() == entry@);
            assert(archive.entries_view()[i as int] == entry@);
        }
        if is_message_name(&entry.name) {
            checked += 1;
            match verify(entry.data.as_slice()) {
                Ok(()) => {},
                Err(e) => {
                    failed.push((i, e));
                },
            }
        }
        i += 1;
    }
    assert(archive.entries_view().take(archive.entries@.len() as int) =~= archive.entries_view());
    (checked, failed)
}

/// Why a language's archive could not be rebuilt.
#[derive(Clone, Copy, Debug, PartialEq, Eq, Structural)]
pub enum BuildError {
    /// The archive has no common message file for the language.
    NoEntry,
    /// The message file could not be read or changed.
    Gmd(GmdError),
    /// The message file is shorter than expected.
    Short,
    /// The prompt is not the one expected.
    NotExpected,
}

/// `message\message_commonmsg_<lang>`: the entry holding the prompts.
pub open spec fn common_messages(language: Seq<char>) -> Seq<char> {
    message_folder() + seq!['m', 'e', 's', 's', 'a', 'g', 'e', '_', 'c', 'o', 'm', 'm', 'o', 'n', 'm', 's', 'g', '_']
        + language
}

fn common_messages_name(language: &str) -> (r: String)
    ensures
        r@ == common_messages(language@),
{
    let mut out = String::new();
    push_str(&mut out, "message\\message_commonmsg_");
    push_str(&mut out, language);
    proof {
        reveal_strlit("message\\message_commonmsg_");
    }
    assert(out@ =~= common_messages(language@));
    out
}

/// What was done to message 13, for the report.
#[derive(Clone, Copy, Debug, PartialEq, Eq, Structural)]
pub enum SecondPrompt {
    /// The page offering the box was added.
    Offered,
    /// The language has no sentence of its own; nothing was added.
    NotTranslated,
    /// The message already carries a selection.
    AlreadyOffers,
}

/// Whether entry `i` is the first of `entries` named `name`.
pub open spec fn first_named(entries: Seq<EntryView>, name: Seq<char>, i: int) -> bool {
    &&& entries[i].name == name
    &&& forall|j: int| 0 <= j < i ==> #[trigger] entries[j].name != name
}

/// Why the message file `data` cannot be patched, if it cannot: it does not
/// read; it has no message 12; message 12 is not the prompt expected; it has
/// no message 13.
pub open spec fn patch_refusal(data: Seq<u8>) -> Option<BuildError> {
    match parsed(data) {
        Err(e) => Some(BuildError::Gmd(e)),
        Ok((head, strings)) => if strings.len() <= WITH_RIBBON {
            Some(BuildError::Short)
        } else {
            let twelve = utf8_lossy(strings[WITH_RIBBON as int]);
            if crate::text::contains(twelve, yes_no_use()) || !crate::text::contains(twelve, yes_no()) {
                Some(BuildError::NotExpected)
            } else if strings.len() <= WITHOUT_RIBBON {
                Some(BuildError::Short)
            } else {
                None
            }
        },
    }
}

/// What patching a message file that can be patched reports of message 13:
/// the page was added; or, where it already asks, that the language has no
/// sentence of its own, or that it already offers the box.
pub open spec fn second_report(data: Seq<u8>, language: Seq<char>) -> SecondPrompt {
    match parsed(data) {
        Ok((head, strings)) => {
            let twelve = utf8_lossy(strings[WITH_RIBBON as int]);
            let first = vstd::utf8::encode_utf8(crate::text::replaced(twelve, yes_no(), yes_no_use()));
            let thirteen_now = utf8_lossy(strings.update(WITH_RIBBON as int, first)[WITHOUT_RIBBON as int]);
            if !crate::text::contains(thirteen_now, selection()) {
                SecondPrompt::Offered
            } else if language != fallback() {
                SecondPrompt::NotTranslated
            } else {
                SecondPrompt::AlreadyOffers
            }
        },
        Err(_) => SecondPrompt::Offered,
    }
}

/// Patches a language's archive in memory: message 12 offers the box as a
/// third choice, and message 13 gains a page asking. The first entry named
/// `message\message_commonmsg_<lang>` is the one changed, and its rebuilt
/// file replaces its data.
pub fn patch_archive(archive: &mut Archive, language: &str) -> (r: Result<SecondPrompt, BuildError>)
    requires
        forall|i: int|
            0 <= i < old(archive).entries_view().len() && old(archive).entries_view()[i].name
                == common_messages(language@) ==> rebuildable(
                #[trigger] old(archive).entries_view()[i].data,
            ),
    ensures
        final(archive).version == old(archive).version,
        final(archive).entries@.len() == old(archive).entries@.len(),
        r is Err ==> final(archive).entries_view() == old(archive).entries_view(),
        (forall|j: int|
            0 <= j < old(archive).entries_view().len() ==> #[trigger] old(archive).entries_view()[j].name
                != common_messages(language@)) ==> r == Err::<SecondPrompt, BuildError>(BuildError::NoEntry),
        forall|i: int|
            #![trigger old(archive).entries_view()[i]]
            0 <= i < old(archive).entries_view().len() && first_named(
                old(archive).entries_view(),
                common_messages(language@),
                i,
            ) ==> match patch_refusal(old(archive).entries_view()[i].data) {
                Some(e) => r == Err::<SecondPrompt, BuildError>(e),
                None => r == Ok::<SecondPrompt, BuildError>(
                    second_report(old(archive).entries_view()[i].data, language@),
                ) && patched(
                    old(archive).entries_view()[i].data,
                    final(archive).entries_view()[i].data,
                    r->Ok_0,
                ) && forall|j: int|
                    0 <= j < old(archive).entries_view().len() && j != i
                        ==> #[trigger] final(archive).entries_view()[j] == old(archive).entries_view()[j],
            },
{
    let name = common_messages_name(language);
    let index = match archive.find(name.as_str()) {
        Some(index) => index,
        None => {
            return Err(BuildError::NoEntry);
        },
    };
    proof {
        assert(archive.entries_view()[index as int] == archive.entries@[index as int]@);
        assert(rebuildable(archive.entries_view()[index as int].data));
    }
    let mut file = match Gmd::read(archive.entries[index].data.as_slice()) {
        Ok(file) => file,
        Err(e) => {
            return Err(BuildError::Gmd(e));
        },
    };
    let ghost start = file;
    proof {
        assert forall|i: int|
            0 <= i < archive.entries_view().len() && first_named(
                archive.entries_view(),
                common_messages(language@),
                i,
            ) implies i == index by {
            if i < index {
                assert(archive.entries_view()[i] == archive.entries@[i]@);
            } else if i > index {
                assert(archive.entries_view()[index as int].name == common_messages(language@));
            }
        }
    }
    let current = match file.get(WITH_RIBBON) {
        Some(current) => current,
        None => {
            assert(patch_refusal(archive.entries_view()[index as int].data) == Some(BuildError::Short));
            return Err(BuildError::Short);
        },
    };
    let first = match with_ribbon(current.as_str()) {
        Some(first) => first,
        None => {
            assert(patch_refusal(archive.entries_view()[index as int].data) == Some(
                BuildError::NotExpected,
            ));
            return Err(BuildError::NotExpected);
        },
    };
    let _ = file.set(WITH_RIBBON, first.as_str());
    let current = match file.get(WITHOUT_RIBBON) {
        Some(current) => current,
        None => {
            return Err(BuildError::Short);
        },
    };
    let second = match without_ribbon(current.as_str(), language) {
        Some(second) => {
            let _ = file.set(WITHOUT_RIBBON, second.as_str());
            SecondPrompt::Offered
        },
        None => if !translated(language) {
            SecondPrompt::NotTranslated
        } else {
            SecondPrompt::AlreadyOffers
        },
    };
    let data = file.write();
    archive.set_data(index, data);
    Ok(second)
}

/// What patching the message file `before` into `after` did, as `second`
/// reports: message 12 offers the box; message 13 gains the page asking,
/// unless it already asks.
pub open spec fn patched(before: Seq<u8>, after: Seq<u8>, second: SecondPrompt) -> bool {
    parsed(before) matches Ok((head, strings)) && strings.len() > WITHOUT_RIBBON && ({
        let twelve = utf8_lossy(strings[WITH_RIBBON as int]);
        let thirteen = utf8_lossy(strings[WITHOUT_RIBBON as int]);
        let first = vstd::utf8::encode_utf8(crate::text::replaced(twelve, yes_no(), yes_no_use()));
        let once = strings.update(WITH_RIBBON as int, first);
        let thirteen_now = utf8_lossy(once[WITHOUT_RIBBON as int]);
        &&& !crate::text::contains(twelve, yes_no_use())
        &&& crate::text::contains(twelve, yes_no())
        &&& match second {
            SecondPrompt::Offered => !crate::text::contains(thirteen_now, selection()) && after
                == written(
                head,
                once.update(
                    WITHOUT_RIBBON as int,
                    vstd::utf8::encode_utf8(thirteen_now + offer() + yes_no()),
                ),
            ),
            _ => crate::text::contains(thirteen_now, selection()) && after == written(head, once),
        }
    })
}

/// The languages to build, by index: each whose original archive is there
/// and whose patched archive is not, in order.
pub open spec fn missing(original: Seq<bool>, patched: Seq<bool>) -> Seq<usize>
    decreases original.len(),
{
    if original.len() == 0 {
        seq![]
    } else {
        let i = original.len() - 1;
        let rest = missing(original.drop_last(), patched);
        if original[i] && !(i < patched.len() && patched[i]) {
            rest.push(i as usize)
        } else {
            rest
        }
    }
}

/// Which languages need their patched archive built, given for each
/// language whether its original and its patched archive exist.
pub fn missing_languages(original: &[bool], patched: &[bool]) -> (r: Vec<usize>)
    ensures
        r@ == missing(original@, patched@),
{
    let mut out: Vec<usize> = Vec::new();
    let mut i: usize = 0;
    while i < original.len()
        invariant
            i <= original@.len(),
            out@ == missing(original@.take(i as int), patched@),
        decreases original@.len() - i,
    {
        assert(original@.take(i + 1).drop_last() =~= original@.take(i as int));
        if original[i] && !(i < patched.len() && patched[i]) {
            out.push(i);
        }
        i += 1;
    }
    assert(original@.take(original@.len() as int) =~= original@);
    out
}

} // verus!
