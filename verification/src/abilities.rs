//! Which special abilities of a ship are active.
use vstd::prelude::*;

verus! {

/// Whether the boost is active in a set of abilities, where bit 1 stands for it.
///
/// Calls `oort_api::ActiveAbilities::get_ability` for `oort_api::Ability::Boost`, which masks
/// out the bit with the number of the ability and tells whether it is set.
#[verifier::external_body]
pub(crate) fn boost_active(abilities: u64) -> (active: bool)
    ensures
        active == (abilities & 2 != 0),
{
    oort_api::ActiveAbilities(abilities).get_ability(oort_api::Ability::Boost)
}

} // verus!
