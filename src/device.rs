//! Device states as a set of bit flags.
use vstd::prelude::*;

verus! {

/// A set of device states, one bit per state: active (1), disabled (2), not
/// present (4), unplugged (8).
#[derive(Clone, Copy, Debug, PartialEq, Eq, Structural)]
pub struct DeviceState(pub u32);

impl DeviceState {
    /// Whether every state of `flag` is in this set.
    pub fn has(self, flag: DeviceState) -> (r: bool)
        ensures
            r == ((self.0 & flag.0) == flag.0),
    {
        let a = self.0;
        let b = flag.0;
        let r = (a | b) == a;
        assert(((a | b) == a) == ((a & b) == b)) by (bit_vector);
        r
    }

    /// The name of a set that holds exactly one state.
    pub fn label(self) -> (r: Option<&'static str>)
        ensures
            self.0 == 1 ==> r == Some("Active"),
            self.0 == 2 ==> r == Some("Disabled"),
            self.0 == 4 ==> r == Some("Not Present"),
            self.0 == 8 ==> r == Some("Unplugged"),
            !(self.0 == 1 || self.0 == 2 || self.0 == 4 || self.0 == 8) ==> r is None,
    {
        if self.0 == 1 {
            Some("Active")
        } else if self.0 == 2 {
            Some("Disabled")
        } else if self.0 == 4 {
            Some("Not Present")
        } else if self.0 == 8 {
            Some("Unplugged")
        } else {
            None
        }
    }
}

} // verus!
