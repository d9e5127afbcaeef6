//! Variable identity.
//!
//! A variable is one of a closed set of three shapes: a decision variable
//! (`Normal`, identified by a stable hash of its name), a slack variable
//! introduced during standardization (`Slack`, identified by the position
//! of the constraint it came from), and the `Object` sentinel that marks
//! the objective row of a tableau.  Equality is structural over the shape
//! and the identifier; variables of different shapes are never equal.

use vstd::prelude::*;

verus! {

use vstd::string::StrSliceExecFns;

#[allow(inconsistent_fields)]
#[derive(Clone, Copy, Debug, PartialEq, Eq, Structural)]
pub enum Variable {
    Normal { id: u64 },
    Slack { id: usize },
    Object,
}

impl Variable {
    /// Whether this is a decision variable.
    pub fn is_normal(&self) -> (r: bool)
        ensures
            r == (self is Normal),
    {
        matches!(self, Variable::Normal { .. })
    }

    /// Whether this is a slack variable.
    pub fn is_slack(&self) -> (r: bool)
        ensures
            r == (self is Slack),
    {
        matches!(self, Variable::Slack { .. })
    }
}

/// One step of the FNV-1a hash: fold one character's code point into the
/// running 64-bit state.
pub open spec fn fnv1a_step(h: u64, c: char) -> u64 {
    (((h ^ (c as u64)) * 0x100_0000_01b3) % 0x1_0000_0000_0000_0000) as u64
}

/// The FNV-1a hash of a name, character by character.  It is a pure
/// function of the characters, so the same name always denotes the same
/// variable, in every process and on every run.
pub open spec fn fnv1a(s: Seq<char>) -> u64
    decreases s.len(),
{
    if s.len() == 0 {
        0xcbf2_9ce4_8422_2325u64
    } else {
        fnv1a_step(fnv1a(s.drop_last()), s.last())
    }
}

/// The decision variable named `name`, identified by the stable hash of
/// the name.
pub fn var(name: &str) -> (v: Variable)
    ensures
        v == (Variable::Normal { id: fnv1a(name@) }),
{
    let len = name.unicode_len();
    let mut h: u64 = 0xcbf2_9ce4_8422_2325u64;
    let mut i: usize = 0;
    while i < len
        invariant
            len == name@.len(),
            i <= len,
            h == fnv1a(name@.take(i as int)),
        decreases len - i,
    {
        let c = name.get_char(i);
        proof {
            lemma_fnv1a_product_fits(h, c);
        }
        let prod: u128 = ((h ^ (c as u64)) as u128) * 0x100_0000_01b3u128;
        h = (prod % 0x1_0000_0000_0000_0000u128) as u64;
        proof {
            assert(name@.take(i as int + 1).drop_last() =~= name@.take(i as int));
            assert(name@.take(i as int + 1).last() == name@[i as int]);
        }
        i += 1;
    }
    proof {
        assert(name@.take(len as int) =~= name@);
    }
    Variable::Normal { id: h }
}

/// The hashing step stays comfortably inside `u128`.
proof fn lemma_fnv1a_product_fits(h: u64, c: char)
    by (nonlinear_arith)
    ensures
        ((h ^ (c as u64)) as int) * 0x100_0000_01b3 < 0x1_0000_0000_0000_0000_0000_0000_0000,
{
}

/// The slack variable with the given raw identifier.
pub fn slack(id: usize) -> (v: Variable)
    ensures
        v == (Variable::Slack { id }),
{
    Variable::Slack { id }
}

/// The slack variable introduced for the constraint at `position`
/// (0-based); identifiers are 1-based, derived from the constraint
/// position alone, so standardization is pure and reproducible.
pub fn new_slack(position: usize) -> (v: Variable)
    requires
        position < usize::MAX,
    ensures
        v == (Variable::Slack { id: (position + 1) as usize }),
{
    Variable::Slack { id: position + 1 }
}

} // verus!
