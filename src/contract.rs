use vstd::prelude::*;

verus! {

/// The message that a migration of the token contract carries: it holds
/// nothing.
#[derive(Clone, Copy, Debug, PartialEq, Eq, Structural)]
pub struct MigrateMsg {}

} // verus!
