//! Device identity and the cross-device copy decision.
//!
//! Each backend instance is identified by a device-family tag plus its native
//! context address.  Resetting a tensor from another tensor picks one of
//! three transfer paths from the two identities: the same context allows a
//! direct device-to-device copy; another context of the same family is read
//! through a mapped region; anything else goes through a host-side vector.

use vstd::prelude::*;

verus! {

/// A backend identity: whether it is an OpenCL context, and which one.
pub struct DeviceIdent {
    /// True when the identity names this backend's device family.
    pub opencl: bool,
    /// The native context address distinguishing instances of the family.
    pub context: u64,
}

/// How a tensor's contents travel from a source device to this backend.
pub enum CopyRoute {
    /// Same context: a device-to-device buffer copy.
    DeviceToDevice,
    /// Same family, different context: map the source for reading and write
    /// the mapped slice into the destination.
    MappedThroughHost,
    /// Foreign device: read back into a host vector, then write it.
    HostRoundTrip,
}

/// Decide the transfer path for resetting a tensor of this backend (`dst`)
/// from a tensor living on `src`.
pub fn copy_route(src: &DeviceIdent, dst: &DeviceIdent) -> (r: CopyRoute)
    requires
        dst.opencl,
    ensures
        (r matches CopyRoute::DeviceToDevice)
            <==> (src.opencl && src.context == dst.context),
        (r matches CopyRoute::MappedThroughHost)
            <==> (src.opencl && src.context != dst.context),
        (r matches CopyRoute::HostRoundTrip) <==> !src.opencl,
{
    if src.opencl && src.context == dst.context {
        CopyRoute::DeviceToDevice
    } else if src.opencl {
        CopyRoute::MappedThroughHost
    } else {
        CopyRoute::HostRoundTrip
    }
}

} // verus!
