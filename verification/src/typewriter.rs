//! The change made to the typewriter prompt.
//!
//! Two messages, picked by whether the player carries an ink ribbon:
//!
//! ```text
//! 12  ...There is a typewriter.<PAGE>Record data?<SEL Yes_No>
//! 13  ...There is a typewriter.<PAGE>If you have an ink ribbon, you can save.
//! ```
//!
//! `<SEL Yes_No>` names a set of choices the game resolves itself;
//! `<SEL Yes_No_Use>` is another set it knows, with a third choice on the end.
//! Swapping one for the other is the whole change to message 12, so it works
//! in every language. Message 13 asks nothing, so offering the box there means
//! adding the sentence that asks; languages it has not been written in get the
//! English sentence.

use vstd::prelude::*;

use crate::text::{chars_of, contains, contains_chars, push_str, replace_chars, replaced, string_of};

verus! {

/// Index of the message shown while carrying an ink ribbon.
pub const WITH_RIBBON: usize = 12;

/// Index of the message shown without one.
pub const WITHOUT_RIBBON: usize = 13;

/// `<SEL Yes_No>`: the selection set for a yes-or-no question.
pub open spec fn yes_no() -> Seq<char> {
    seq!['<', 'S', 'E', 'L', ' ', 'Y', 'e', 's', '_', 'N', 'o', '>']
}

/// `<SEL Yes_No_Use>`: the same set with a third choice on the end.
pub open spec fn yes_no_use() -> Seq<char> {
    seq!['<', 'S', 'E', 'L', ' ', 'Y', 'e', 's', '_', 'N', 'o', '_', 'U', 's', 'e', '>']
}

/// `<SEL`: what every selection starts with.
pub open spec fn selection() -> Seq<char> {
    seq!['<', 'S', 'E', 'L']
}

/// The language every other one falls back on: `eng`.
pub open spec fn fallback() -> Seq<char> {
    seq!['e', 'n', 'g']
}

/// The extra page offering the box, in English: a page break, the question,
/// and the line ends the surrounding messages use.
pub open spec fn offer() -> Seq<char> {
    seq![
        '<', 'P', 'A', 'G', 'E', '>', '\r', '\n', 'U', 's', 'e', ' ', 't', 'h', 'e', ' ', 'i', 't',
        'e', 'm', ' ', 'b', 'o', 'x', '?', '\r', '\n',
    ]
}

fn yes_no_chars() -> (r: Vec<char>)
    ensures
        r@ == yes_no(),
{
    let r = chars_of("<SEL Yes_No>");
    proof {
        reveal_strlit("<SEL Yes_No>");
    }
    assert(r@ =~= yes_no());
    r
}

fn yes_no_use_chars() -> (r: Vec<char>)
    ensures
        r@ == yes_no_use(),
{
    let r = chars_of("<SEL Yes_No_Use>");
    proof {
        reveal_strlit("<SEL Yes_No_Use>");
    }
    assert(r@ =~= yes_no_use());
    r
}

fn selection_chars() -> (r: Vec<char>)
    ensures
        r@ == selection(),
{
    let r = chars_of("<SEL");
    proof {
        reveal_strlit("<SEL");
    }
    assert(r@ =~= selection());
    r
}

/// Rewrites message 12 so the prompt offers a third choice.
///
/// `None` when the message is not the one expected: it has been patched
/// already, or it is from a build this was not worked out against.
pub fn with_ribbon(current: &str) -> (r: Option<String>)
    ensures
        match r {
            Some(s) => !contains(current@, yes_no_use()) && contains(current@, yes_no()) && s@
                == replaced(current@, yes_no(), yes_no_use()),
            None => contains(current@, yes_no_use()) || !contains(current@, yes_no()),
        },
{
    let text = chars_of(current);
    let with_use = yes_no_use_chars();
    if contains_chars(text.as_slice(), with_use.as_slice()) {
        return None;
    }
    let plain = yes_no_chars();
    if !contains_chars(text.as_slice(), plain.as_slice()) {
        return None;
    }
    let out = replace_chars(text.as_slice(), plain.as_slice(), with_use.as_slice());
    Some(string_of(out.as_slice()))
}

/// Appends a page to message 13 asking whether to open the box.
///
/// `None` for a message that already carries a selection.
pub fn without_ribbon(current: &str, language: &str) -> (r: Option<String>)
    ensures
        match r {
            Some(s) => !contains(current@, selection()) && s@ == current@ + offer() + yes_no(),
            None => contains(current@, selection()),
        },
{
    let text = chars_of(current);
    let sel = selection_chars();
    if contains_chars(text.as_slice(), sel.as_slice()) {
        return None;
    }
    let mut out = string_of(text.as_slice());
    push_str(&mut out, offer_for(language));
    push_str(&mut out, "<SEL Yes_No>");
    proof {
        reveal_strlit("<SEL Yes_No>");
    }
    assert(out@ =~= current@ + offer() + yes_no());
    Some(out)
}

/// Whether the sentence has been written in `language`, or English stands in.
pub fn translated(language: &str) -> (r: bool)
    ensures
        r == (language@ == fallback()),
{
    let text = chars_of(language);
    proof {
        reveal_strlit("eng");
    }
    let eng = chars_of("eng");
    assert(eng@ =~= fallback());
    if text.len() != eng.len() {
        assert(text@.len() != fallback().len());
        return false;
    }
    let mut i: usize = 0;
    while i < text.len()
        invariant
            i <= text@.len(),
            text@.len() == eng@.len(),
            text@ == language@,
            eng@ == fallback(),
            forall|j: int| 0 <= j < i ==> text@[j] == eng@[j],
        decreases text@.len() - i,
    {
        if text[i] != eng[i] {
            assert(text@[i as int] != eng@[i as int]);
            return false;
        }
        i += 1;
    }
    assert(text@ =~= eng@);
    true
}

/// Whether a patched message 13 is one this version would write: it asks.
///
/// Earlier versions left the message alone in every language but English, and
/// an archive written by one of them is on disk under the same name.
pub fn asks(patched: &str) -> (r: bool)
    ensures
        r == contains(patched@, selection()),
{
    let text = chars_of(patched);
    let sel = selection_chars();
    contains_chars(text.as_slice(), sel.as_slice())
}

/// The page offering the box in `language`. Only English has been written, so
/// every language gets it.
fn offer_for(language: &str) -> (r: &'static str)
    ensures
        r@ == offer(),
{
    let r = "<PAGE>\r\nUse the item box?\r\n";
    proof {
        reveal_strlit("<PAGE>\r\nUse the item box?\r\n");
    }
    assert(r@ =~= offer());
    r
}

proof fn lemma_replacement_occurs(c: Seq<char>, from: Seq<char>, to: Seq<char>)
    requires
        from.len() > 0,
        contains(c, from),
    ensures
        contains(replaced(c, from, to), to),
    decreases c.len(),
{
    let at = choose|at: int| crate::text::occurs_at(c, from, at);
    if crate::text::occurs_at(c, from, 0) {
        let r = replaced(c, from, to);
        assert(r.subrange(0, to.len() as int) =~= to);
        assert(crate::text::occurs_at(r, to, 0));
    } else {
        assert(at >= 1);
        let t = c.skip(1);
        assert(t.subrange(at - 1, at - 1 + from.len()) =~= c.subrange(at, at + from.len()));
        assert(crate::text::occurs_at(t, from, at - 1));
        lemma_replacement_occurs(t, from, to);
        let rt = replaced(t, from, to);
        let j = choose|j: int| crate::text::occurs_at(rt, to, j);
        let r = replaced(c, from, to);
        assert(r =~= seq![c[0]] + rt);
        assert(r.subrange(j + 1, j + 1 + to.len()) =~= rt.subrange(j, j + to.len()));
        assert(crate::text::occurs_at(r, to, j + 1));
    }
}

/// Message 12 is patched at most once: once it offers the third choice,
/// patching it again is refused.
pub proof fn law_with_ribbon_patches_once(current: Seq<char>)
    requires
        !contains(current, yes_no_use()),
        contains(current, yes_no()),
    ensures
        contains(replaced(current, yes_no(), yes_no_use()), yes_no_use()),
{
    lemma_replacement_occurs(current, yes_no(), yes_no_use());
}

/// A patched message 13 asks, whatever the language, so patching it again is
/// refused and it reads as one this version wrote.
pub proof fn law_without_ribbon_asks(current: Seq<char>)
    ensures
        contains(current + offer() + yes_no(), selection()),
{
    let s = current + offer() + yes_no();
    let at: int = (current.len() + offer().len()) as int;
    assert(s.subrange(at, at + 4) =~= selection());
    assert(crate::text::occurs_at(s, selection(), at));
}

} // verus!
