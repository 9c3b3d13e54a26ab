//! The local host: how it is named, and which of its disks are shown.
use vstd::prelude::*;
use crate::config::AppConfig;
use crate::model::{HostDescriptor, HostType};
use crate::text::str_eq;

verus! {

/// What the local collector decides by: the host it reports as, and which mount points it
/// shows. The program around it holds the system handle that is measured.
#[derive(Clone, Debug)]
pub struct LocalCollector {
    pub descriptor: HostDescriptor,
    pub show_all_disks: bool,
    pub include_mountpoints: Vec<String>,
    pub exclude_mountpoints: Vec<String>,
}

pub open spec fn listed(items: Seq<String>, s: Seq<char>) -> bool {
    exists|i: int| 0 <= i < items.len() && (#[trigger] items[i])@ == s
}

/// A disk is shown unless its mount point is excluded; then, all disks are shown, or only
/// those whose mount point is included.
pub open spec fn keeps_disk(c: LocalCollector, mount_point: Seq<char>) -> bool {
    !listed(c.exclude_mountpoints@, mount_point) && (c.show_all_disks || listed(
        c.include_mountpoints@,
        mount_point,
    ))
}

fn is_listed(items: &Vec<String>, s: &str) -> (b: bool)
    ensures
        b == listed(items@, s@),
{
    let mut i: usize = 0;
    while i < items.len()
        invariant
            i <= items@.len(),
            forall|k: int| 0 <= k < i ==> (#[trigger] items@[k])@ != s@,
        decreases items@.len() - i,
    {
        if str_eq(items[i].as_str(), s) {
            return true;
        }
        i += 1;
    }
    false
}

impl LocalCollector {
    /// The collector of the machine named `host_name` (if it has a name), with the disk
    /// selection of the settings.
    pub fn new(config: &AppConfig, host_name: Option<String>) -> (c: Self)
        ensures
            c.descriptor.id@ == "local"@,
            c.descriptor.alias@ == "local"@,
            c.descriptor.display_name@ == match host_name {
                Some(h) => h@,
                None => "localhost"@,
            },
            c.descriptor.host_type == HostType::Local,
            c.show_all_disks == config.show_all_disks,
            c.include_mountpoints@.len() == config.disk_include_mountpoints@.len(),
            c.exclude_mountpoints@.len() == config.disk_exclude_mountpoints@.len(),
            forall|i: int| 0 <= i < c.include_mountpoints@.len() ==> (#[trigger] c.include_mountpoints@[i])@ == config.disk_include_mountpoints@[i]@,
            forall|i: int| 0 <= i < c.exclude_mountpoints@.len() ==> (#[trigger] c.exclude_mountpoints@[i])@ == config.disk_exclude_mountpoints@[i]@,
    {
        LocalCollector {
            descriptor: local_descriptor(host_name),
            show_all_disks: config.show_all_disks,
            include_mountpoints: copy_strings(&config.disk_include_mountpoints),
            exclude_mountpoints: copy_strings(&config.disk_exclude_mountpoints),
        }
    }

    /// The host this collector measures.
    pub fn descriptor(&self) -> (d: HostDescriptor)
        ensures
            d.id@ == self.descriptor.id@,
            d.alias@ == self.descriptor.alias@,
            d.display_name@ == self.descriptor.display_name@,
            d.host_type == self.descriptor.host_type,
    {
        HostDescriptor {
            id: self.descriptor.id.clone(),
            alias: self.descriptor.alias.clone(),
            display_name: self.descriptor.display_name.clone(),
            host_type: self.descriptor.host_type,
        }
    }

    /// Whether the disk mounted at `mount_point` is shown.
    pub fn should_keep_disk(&self, mount_point: &str) -> (b: bool)
        ensures
            b == keeps_disk(*self, mount_point@),
    {
        if is_listed(&self.exclude_mountpoints, mount_point) {
            return false;
        }
        if self.show_all_disks {
            return true;
        }
        is_listed(&self.include_mountpoints, mount_point)
    }
}

fn copy_strings(v: &Vec<String>) -> (r: Vec<String>)
    ensures
        r@.len() == v@.len(),
        forall|i: int| 0 <= i < r@.len() ==> (#[trigger] r@[i])@ == v@[i]@,
{
    let mut r: Vec<String> = Vec::new();
    let mut i: usize = 0;
    while i < v.len()
        invariant
            i <= v@.len(),
            r@.len() == i,
            forall|k: int| 0 <= k < i ==> (#[trigger] r@[k])@ == v@[k]@,
        decreases v@.len() - i,
    {
        r.push(v[i].clone());
        i += 1;
    }
    r
}

/// The bytes in use on a disk: its size less the space available, 0 if more is available.
pub fn disk_used_bytes(total_bytes: u64, available_bytes: u64) -> (used: u64)
    ensures
        used == if total_bytes >= available_bytes {
            total_bytes - available_bytes
        } else {
            0
        },
{
    total_bytes.saturating_sub(available_bytes)
}

/// The local host, shown under its host name, or `localhost` when it has none.
pub fn local_descriptor(host_name: Option<String>) -> (d: HostDescriptor)
    ensures
        d.id@ == "local"@,
        d.alias@ == "local"@,
        d.display_name@ == match host_name {
            Some(h) => h@,
            None => "localhost"@,
        },
        d.host_type == HostType::Local,
{
    let display_name = match host_name {
        Some(h) => h,
        None => String::from_str("localhost"),
    };
    HostDescriptor {
        id: String::from_str("local"),
        alias: String::from_str("local"),
        display_name,
        host_type: HostType::Local,
    }
}

} // verus!
