//! The two hash tables that the collecting pass keeps: where each player's
//! record stands, and which mod combinations each player has used.
//!
//! Both are `hashbrown` tables. Their contents are known to the verifier only
//! through the contracts below, which are taken on trust.

use vstd::prelude::*;

verus! {

/// From a user id to the position of that player's record.
///
/// Holds a `hashbrown::HashMap<u32, usize>`, whose declaration the verifier
/// cannot read.
#[verifier::external_body]
pub struct PlayerIndex {
    table: hashbrown::HashMap<u32, usize>,
}

/// The pairs of user id and mod combination seen so far.
///
/// Holds a `hashbrown::HashSet<(u32, u32)>`, whose declaration the verifier
/// cannot read.
#[verifier::external_body]
pub struct ComboSet {
    table: hashbrown::HashSet<(u32, u32)>,
}

/// What a `PlayerIndex` maps.
pub uninterp spec fn index_entries(index: PlayerIndex) -> Map<u32, usize>;

/// What a `ComboSet` holds.
pub uninterp spec fn combo_members(set: ComboSet) -> Set<(u32, u32)>;

/// `hashbrown::HashMap::new`: the new map is empty.
#[verifier::external_body]
pub(crate) fn index_new() -> (fresh: PlayerIndex)
    ensures
        index_entries(fresh).dom() == Set::<u32>::empty(),
{
    PlayerIndex { table: hashbrown::HashMap::new() }
}

/// `hashbrown::HashMap::get`: the value stored under `user_id`, if there is
/// one.
#[verifier::external_body]
pub(crate) fn index_get(index: &PlayerIndex, user_id: u32) -> (position: Option<usize>)
    ensures
        position == (if index_entries(*index).contains_key(user_id) {
            Some(index_entries(*index)[user_id])
        } else {
            None
        }),
{
    index.table.get(&user_id).copied()
}

/// `hashbrown::HashMap::insert`: afterwards `user_id` maps to `position`, and
/// every other key is as before.
#[verifier::external_body]
pub(crate) fn index_insert(index: &mut PlayerIndex, user_id: u32, position: usize)
    ensures
        index_entries(*final(index)) == index_entries(*old(index)).insert(user_id, position),
{
    index.table.insert(user_id, position);
}

/// `hashbrown::HashSet::new`: the new set is empty.
#[verifier::external_body]
pub(crate) fn combos_new() -> (fresh: ComboSet)
    ensures
        combo_members(fresh) == Set::<(u32, u32)>::empty(),
{
    ComboSet { table: hashbrown::HashSet::new() }
}

/// `hashbrown::HashSet::insert`: afterwards the pair is a member, and the
/// result tells whether it was absent before.
#[verifier::external_body]
pub(crate) fn combos_insert(set: &mut ComboSet, user_id: u32, combination: u32) -> (fresh: bool)
    ensures
        combo_members(*final(set)) == combo_members(*old(set)).insert((user_id, combination)),
        fresh == !combo_members(*old(set)).contains((user_id, combination)),
{
    set.table.insert((user_id, combination))
}

} // verus!
