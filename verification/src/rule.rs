//! The rule table: how three parent cells decide the state of a child.
use vstd::prelude::*;

verus! {

/// The neighbourhood code of three parents, the left one most significant.
pub open spec fn pattern_of(left: bool, top: bool, right: bool) -> nat {
    ((if left { 4nat } else { 0nat }) + (if top { 2nat } else { 0nat }) + (if right { 1nat } else { 0nat })) as nat
}

/// Bit `pattern` of `ruleset`.
pub open spec fn rule_bit(ruleset: u8, pattern: nat) -> bool {
    (ruleset >> (pattern as u8)) & 1u8 == 1u8
}

/// The state that `ruleset` gives to a cell with these three parents.
pub open spec fn rule_output(ruleset: u8, left: bool, top: bool, right: bool) -> bool {
    rule_bit(ruleset, pattern_of(left, top, right))
}

/// Packs three parents into their neighbourhood code.
pub fn parent_pattern(left: bool, top: bool, right: bool) -> (pattern: u8)
    ensures
        pattern == pattern_of(left, top, right),
        pattern < 8,
{
    let l: u8 = if left { 4 } else { 0 };
    let t: u8 = if top { 2 } else { 0 };
    let r: u8 = if right { 1 } else { 0 };
    l + t + r
}

/// Looks up the next state of a cell in the rule table.
pub fn apply_rule(ruleset: u8, left: bool, top: bool, right: bool) -> (alive: bool)
    ensures
        alive == rule_output(ruleset, left, top, right),
{
    let pattern: u8 = parent_pattern(left, top, right);
    assert(((ruleset >> pattern) % 2u8 != 0u8) == ((ruleset >> pattern) & 1u8 == 1u8))
        by (bit_vector);
    (ruleset >> pattern) % 2 != 0
}

} // verus!
