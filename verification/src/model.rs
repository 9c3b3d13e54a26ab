//! The host model shared by the collectors, the application state and the views.
use vstd::prelude::*;

verus! {

/// Where a host is measured from.
#[derive(Clone, Copy, Debug, PartialEq, Eq, Structural)]
pub enum HostType {
    Local,
    Remote,
}

/// The state of the last measurement of a host.
#[derive(Clone, Copy, Debug, PartialEq, Eq, Structural)]
pub enum HostStatus {
    Online,
    Loading,
    Unreachable,
    Error,
}

/// The identity of a host, fixed for the life of its collector.
#[derive(Clone, Debug)]
pub struct HostDescriptor {
    pub id: String,
    pub alias: String,
    pub display_name: String,
    pub host_type: HostType,
}

/// A running container as the views list it.
#[derive(Clone, Debug)]
pub struct DockerContainerInfo {
    pub image: String,
    pub created: String,
    pub status: String,
}

/// What is known of a host. `data` holds the measurements and the time they were taken;
/// nothing in this library reads it.
#[derive(Debug)]
pub struct HostInfo<D> {
    pub id: String,
    pub alias: String,
    pub display_name: String,
    pub host_type: HostType,
    pub status: HostStatus,
    pub data: D,
    pub last_error: Option<String>,
}

impl<D> HostInfo<D> {
    /// A host whose first measurement has not arrived yet; `data` stands for "no measurement".
    pub fn loading(descriptor: HostDescriptor, data: D) -> (h: Self)
        ensures
            h.id == descriptor.id,
            h.alias == descriptor.alias,
            h.display_name == descriptor.display_name,
            h.host_type == descriptor.host_type,
            h.status == HostStatus::Loading,
            h.data == data,
            h.last_error is None,
    {
        HostInfo {
            id: descriptor.id,
            alias: descriptor.alias,
            display_name: descriptor.display_name,
            host_type: descriptor.host_type,
            status: HostStatus::Loading,
            data,
            last_error: None,
        }
    }
}

} // verus!
