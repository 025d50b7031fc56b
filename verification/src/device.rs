//! Devices discovered on the local network: the peers that shares are
//! announced to and downloads are sourced from.  Discovery itself is
//! network work done elsewhere; these records only carry what it reports.

use vstd::prelude::*;

verus! {

/// A device seen on the network.
pub struct Device {
    pub name: String,
    pub ip: String,
    pub port: u16,
    pub is_online: bool,
    /// Rendered timestamp of the last sighting, supplied by the caller.
    pub last_seen: String,
}

impl Device {
    /// A freshly sighted device is online.
    pub fn new(name: String, ip: String, port: u16, last_seen: String) -> (r: Device)
        ensures
            r.name@ == name@,
            r.ip@ == ip@,
            r.port == port,
            r.is_online,
            r.last_seen@ == last_seen@,
    {
        Device { name, ip, port, is_online: true, last_seen }
    }

    /// A new sighting refreshes the timestamp and brings the device online.
    pub fn update_last_seen(&mut self, now: String)
        ensures
            final(self).name@ == old(self).name@,
            final(self).ip@ == old(self).ip@,
            final(self).port == old(self).port,
            final(self).is_online,
            final(self).last_seen@ == now@,
    {
        self.last_seen = now;
        self.is_online = true;
    }

    /// Marking a device offline changes nothing else about it.
    pub fn mark_offline(&mut self)
        ensures
            final(self).name@ == old(self).name@,
            final(self).ip@ == old(self).ip@,
            final(self).port == old(self).port,
            !final(self).is_online,
            final(self).last_seen@ == old(self).last_seen@,
    {
        self.is_online = false;
    }
}

/// What discovery reports about a device, with a numeric sighting time.
pub struct DeviceInfo {
    pub name: String,
    pub ip: String,
    pub port: u16,
    pub services: Vec<String>,
    /// Seconds since the epoch of the last sighting.
    pub last_seen: u64,
}

impl DeviceInfo {
    /// Whether the device has gone unseen for longer than `max_age`
    /// seconds: the rule by which stale devices are cleaned up.
    pub fn is_stale(&self, now: u64, max_age: u64) -> (r: bool)
        ensures
            r == (self.last_seen + max_age < now),
    {
        now > max_age && self.last_seen < now - max_age
    }
}

} // verus!
