//! The isolated environment on the remote host.

use vstd::prelude::*;
use crate::session::Request;
use crate::session::RequestModel;

verus! {

/// The request that bootstraps the isolated environment under `/opt/chroot`.
pub fn prepare_chroot() -> (r: Request)
    ensures
        r@ == (RequestModel::Execute {
            command: "debootstrap --variant=buildd hirsute /opt/chroot"@,
        }),
{
    Request::Execute {
        command: String::from_str("debootstrap --variant=buildd hirsute /opt/chroot"),
    }
}

} // verus!
