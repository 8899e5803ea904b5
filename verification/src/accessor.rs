//! What the replaced bag accessors answer.
//!
//! The game asks for a bag every time it needs one, and uses whatever comes
//! back. Each of the game's accessors reads a global holding the current characters, asks it
//! which character this is, and returns that character's bag at `+0x20` or
//! `+0x60` of the object it was called on. The host asks the game those
//! questions; this module decides, from the answers, which bag to hand out: the
//! item box's view, a store's view for `owner + offset`, or nothing.

use vstd::prelude::*;

verus! {

/// Character ids whose bag lives at `+0x20`.
pub const FIRST_BAG_IDS: [i32; 3] = [1, 2, 3];

/// Character ids whose bag lives at `+0x60`.
pub const SECOND_BAG_IDS: [i32; 2] = [5, 7];

pub const FIRST_BAG_OFFSET: usize = 0x20;

pub const SECOND_BAG_OFFSET: usize = 0x60;

/// What the game's accessors return for an id they do not recognise.
pub const NO_BAG: usize = 0;

/// The stretch of code that is the inventory screen: its state machine at
/// `0x005E1D10`, the panel drawing at `0x005E7240`, and the screen's setup
/// below both.
pub const MENU_CODE_START: usize = 0x005D_0000;

pub const MENU_CODE_END: usize = 0x005F_0000;

/// Which bag an accessor hands out.
#[derive(Clone, Copy, Debug, PartialEq, Eq, Structural)]
pub enum BagAnswer {
    /// Null, as the game answers for an unknown character.
    Nothing,
    /// The item box's view.
    ItemBox(usize),
    /// The store for the bag at `owner + offset`: its view when the registry
    /// has one, else the game's own bag.
    Store { owner: usize, offset: usize },
}

pub open spec fn first_bag_id(id: i32) -> bool {
    id == 1 || id == 2 || id == 3
}

pub open spec fn second_bag_id(id: i32) -> bool {
    id == 5 || id == 7
}

pub open spec fn bag_offset_of(id: i32) -> Option<usize> {
    if first_bag_id(id) {
        Some(FIRST_BAG_OFFSET)
    } else if second_bag_id(id) {
        Some(SECOND_BAG_OFFSET)
    } else {
        None
    }
}

/// Which of the two inline bags a character id refers to. Straight from the
/// game's accessors, all of which compare against the same five ids and
/// answer with the same two offsets.
pub fn offset_for_id(id: i32) -> (r: Option<usize>)
    ensures
        r == bag_offset_of(id),
{
    let mut k: usize = 0;
    while k < FIRST_BAG_IDS.len()
        invariant
            k <= 3,
            forall|j: int| 0 <= j < k ==> FIRST_BAG_IDS@[j] != id,
            FIRST_BAG_IDS@ == seq![1i32, 2, 3],
        decreases 3 - k,
    {
        if FIRST_BAG_IDS[k] == id {
            return Some(FIRST_BAG_OFFSET);
        }
        k += 1;
    }
    let mut k: usize = 0;
    while k < SECOND_BAG_IDS.len()
        invariant
            k <= 2,
            !first_bag_id(id),
            forall|j: int| 0 <= j < k ==> SECOND_BAG_IDS@[j] != id,
            SECOND_BAG_IDS@ == seq![5i32, 7],
        decreases 2 - k,
    {
        if SECOND_BAG_IDS[k] == id {
            return Some(SECOND_BAG_OFFSET);
        }
        k += 1;
    }
    None
}

/// Whether `address` belongs to the inventory screen's code.
pub fn is_menu_code(address: usize) -> (r: bool)
    ensures
        r == (MENU_CODE_START <= address < MENU_CODE_END),
{
    MENU_CODE_START <= address && address < MENU_CODE_END
}

/// An object the bags can be read from: not null, and aligned as every game
/// object is.
pub open spec fn usable_owner(owner: usize) -> bool {
    owner != 0 && owner % 4 == 0
}

/// Whether the item box may answer a call made from `called_from`: only
/// while it shows, and only to the inventory screen. The same accessors answer
/// questions out in the world, and those are about the real characters.
pub open spec fn box_answers(box_view: Option<usize>, called_from: usize) -> bool {
    box_view is Some && MENU_CODE_START <= called_from < MENU_CODE_END
}

/// Whether the host needs the played character's id to answer a call by id:
/// only when the box could be the answer.
pub fn needs_played_id(box_view: Option<usize>, called_from: usize) -> (r: bool)
    ensures
        r == box_answers(box_view, called_from),
{
    box_view.is_some() && is_menu_code(called_from)
}

/// The store answer for `owner` and character `id`, as the game's accessors decide:
/// nothing for an unusable object or a character nobody recognises.
pub open spec fn resolved_answer(owner: usize, id: Option<i32>) -> BagAnswer {
    if !usable_owner(owner) {
        BagAnswer::Nothing
    } else {
        match id {
            None => BagAnswer::Nothing,
            Some(i) => match bag_offset_of(i) {
                None => BagAnswer::Nothing,
                Some(offset) => BagAnswer::Store { owner, offset },
            },
        }
    }
}

/// The played character's or the partner's bag of `owner`, the game having
/// said that the character is `id` (`None` when there is no character).
pub fn resolve(owner: usize, id: Option<i32>) -> (r: BagAnswer)
    ensures
        r == resolved_answer(owner, id),
{
    if owner == 0 || owner % 4 != 0 {
        return BagAnswer::Nothing;
    }
    match id {
        None => BagAnswer::Nothing,
        Some(i) => match offset_for_id(i) {
            None => BagAnswer::Nothing,
            Some(offset) => BagAnswer::Store { owner, offset },
        },
    }
}

pub open spec fn partner_answer(
    owner: usize,
    partner_id: Option<i32>,
    called_from: usize,
    box_view: Option<usize>,
) -> BagAnswer {
    if box_answers(box_view, called_from) {
        BagAnswer::ItemBox(box_view->0)
    } else {
        resolved_answer(owner, partner_id)
    }
}

pub open spec fn character_answer(
    owner: usize,
    character_id: i32,
    called_from: usize,
    box_view: Option<usize>,
    played: Option<i32>,
) -> BagAnswer {
    if !usable_owner(owner) {
        BagAnswer::Nothing
    } else if box_answers(box_view, called_from) && (played matches Some(p) && p != character_id) {
        BagAnswer::ItemBox(box_view->0)
    } else {
        resolved_answer(owner, Some(character_id))
    }
}

/// The partner's bag: the box's view when the inventory screen asks while
/// the box shows, else the partner's store.
pub fn partner_bag(owner: usize, partner_id: Option<i32>, called_from: usize, box_view: Option<usize>) -> (r:
    BagAnswer)
    ensures
        r == partner_answer(owner, partner_id, called_from, box_view),
{
    if let Some(view) = box_view {
        if is_menu_code(called_from) {
            return BagAnswer::ItemBox(view);
        }
    }
    resolve(owner, partner_id)
}

/// The bag of character `character_id`, asked for by id. The inventory
/// screen reaches the other half this way too, and moving an item between
/// the halves is one of the paths that does: while the box shows, any
/// character other than the one played is the box. `played` is the played
/// character's id, which the host asks for only when `needs_played_id`.
pub fn character_bag(
    owner: usize,
    character_id: i32,
    called_from: usize,
    box_view: Option<usize>,
    played: Option<i32>,
) -> (r: BagAnswer)
    ensures
        r == character_answer(owner, character_id, called_from, box_view, played),
{
    if owner == 0 || owner % 4 != 0 {
        return BagAnswer::Nothing;
    }
    if needs_played_id(box_view, called_from) {
        if let Some(p) = played {
            if p != character_id {
                if let Some(view) = box_view {
                    return BagAnswer::ItemBox(view);
                }
            }
        }
    }
    resolve(owner, Some(character_id))
}

/// Out in the world the box is never the answer: a call made from outside
/// the inventory screen's code gets the real character's bag from both
/// accessors, whatever the panel is showing.
pub proof fn law_the_world_never_sees_the_box(
    owner: usize,
    character_id: i32,
    partner_id: Option<i32>,
    called_from: usize,
    box_view: Option<usize>,
    played: Option<i32>,
)
    requires
        !(MENU_CODE_START <= called_from < MENU_CODE_END),
    ensures
        partner_answer(owner, partner_id, called_from, box_view) == resolved_answer(owner, partner_id),
        character_answer(owner, character_id, called_from, box_view, played) == resolved_answer(
            owner,
            Some(character_id),
        ),
{
}

/// The box never stands in for the character being played: asked by id for
/// the played character, the accessor answers with that character's store.
pub proof fn law_the_played_character_keeps_its_bag(
    owner: usize,
    character_id: i32,
    called_from: usize,
    box_view: Option<usize>,
)
    ensures
        character_answer(owner, character_id, called_from, box_view, Some(character_id))
            == resolved_answer(owner, Some(character_id)),
{
}

} // verus!
