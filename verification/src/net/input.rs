//! Wire representation of a player input.

use crate::input::{sanitized_bits, PlayerInput};
use vstd::prelude::*;

verus! {

/// Session input type: the 16-bit command of a [`PlayerInput`].
#[derive(Clone, Copy, Debug, Default, PartialEq, Eq, Hash, Structural)]
pub struct NetInput(pub u16);

/// A wire input becomes a sanitized player input: bits from a peer are untrusted.
impl From<NetInput> for PlayerInput {
    fn from(v: NetInput) -> (r: PlayerInput) {
        PlayerInput(v.0).sanitized()
    }
}

impl vstd::std_specs::convert::FromSpecImpl<NetInput> for PlayerInput {
    open spec fn obeys_from_spec() -> bool {
        true
    }

    open spec fn from_spec(v: NetInput) -> PlayerInput {
        PlayerInput(sanitized_bits(v.0))
    }
}

/// Session address: the remote player's handle (0..4). The host maps it to a transport.
#[derive(Clone, Copy, Debug, PartialEq, Eq, Hash, PartialOrd, Ord, Structural)]
pub struct PeerSlot(pub u8);

} // verus!
