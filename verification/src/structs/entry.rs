//! What a server knows of one neighbour.

use vstd::prelude::*;

use crate::structs::message::MessageV1;
use crate::text::{centi_text, decimal, hyphenated, push_centi, push_decimal, uuid_text};
use crate::{format_time, time_text};

verus! {

/// A neighbour as the table holds it: what its last announcement said, the
/// address it came from, and when (seconds since the Unix epoch) it was last
/// heard. The load averages are held in hundredths.
#[derive(Debug)]
pub struct Entry {
    pub unique_id: [u8; 16],
    pub system_name: String,
    pub system_platform: String,
    pub system_version: String,
    pub keepalive_timer: u16,
    pub address: String,
    pub last_seen: u64,
    pub uptime: u32,
    pub load: [u16; 3],
}

/// Seconds since the Unix epoch by the system clock (`SystemTime::now`);
/// a clock set before the epoch reads as 0. Nothing is promised of the value.
#[verifier::external_body]
pub fn unix_now() -> u64 {
    std::time::SystemTime::now().duration_since(std::time::UNIX_EPOCH).unwrap_or_default().as_secs()
}

/// The distance between two instants.
pub open spec fn abs_diff(a: u64, b: u64) -> nat {
    if a >= b {
        (a - b) as nat
    } else {
        (b - a) as nat
    }
}

/// The entry that an announcement from `address`, heard at `now`, creates.
pub open spec fn entry_of(msg: MessageV1, address: String, now: u64) -> Entry {
    Entry {
        unique_id: msg.unique_id,
        system_name: msg.system_name,
        system_platform: msg.system_platform,
        system_version: msg.system_version,
        keepalive_timer: msg.keepalive_timer,
        address,
        last_seen: now,
        uptime: msg.uptime,
        load: msg.load,
    }
}

/// The text block that describes an entry at time `now`.
pub open spec fn entry_text(e: Entry, now: u64) -> Seq<char> {
    "Entry: "@ + e.system_name@ + " ("@ + hyphenated(e.unique_id@) + ")\n"@
        + " \u{25aa} Address: "@ + e.address@ + "\n"@
        + " \u{25aa} Platform: "@ + e.system_platform@ + "\n"@
        + " \u{25aa} System version: "@ + e.system_version@ + "\n"@
        + " \u{25aa} Keepalive timer: "@ + decimal(e.keepalive_timer as nat) + "s\n"@
        + " \u{25aa} Last seen: "@ + time_text(abs_diff(now, e.last_seen)) + "\n"@
        + " \u{25aa} Uptime: "@ + time_text(e.uptime as nat) + "\n"@
        + " \u{25aa} Load: "@ + centi_text(e.load[0] as nat) + " "@ + centi_text(e.load[1] as nat)
        + " "@ + centi_text(e.load[2] as nat)
}

impl Entry {
    /// Describes the entry, with the time since it was last heard as read
    /// from the clock now.
    pub fn format(&self) -> (s: String)
        ensures
            exists|now: u64| s@ == entry_text(*self, now),
    {
        let now = unix_now();
        self.format_at(now)
    }

    /// Describes the entry as seen at time `now`.
    pub fn format_at(&self, now: u64) -> (s: String)
        ensures
            s@ == entry_text(*self, now),
    {
        let mut s = String::new();
        s.append("Entry: ");
        s.append(self.system_name.as_str());
        s.append(" (");
        let id = uuid_text(self.unique_id);
        s.append(id.as_str());
        s.append(")\n");
        s.append(" \u{25aa} Address: ");
        s.append(self.address.as_str());
        s.append("\n");
        s.append(" \u{25aa} Platform: ");
        s.append(self.system_platform.as_str());
        s.append("\n");
        s.append(" \u{25aa} System version: ");
        s.append(self.system_version.as_str());
        s.append("\n");
        s.append(" \u{25aa} Keepalive timer: ");
        push_decimal(&mut s, self.keepalive_timer as u64);
        s.append("s\n");
        s.append(" \u{25aa} Last seen: ");
        let since = if now >= self.last_seen {
            now - self.last_seen
        } else {
            self.last_seen - now
        };
        let seen = format_time(since);
        s.append(seen.as_str());
        s.append("\n");
        s.append(" \u{25aa} Uptime: ");
        let up = format_time(self.uptime as u64);
        s.append(up.as_str());
        s.append("\n");
        s.append(" \u{25aa} Load: ");
        push_centi(&mut s, self.load[0]);
        s.append(" ");
        push_centi(&mut s, self.load[1]);
        s.append(" ");
        push_centi(&mut s, self.load[2]);
        s
    }

    /// The entry that an announcement from `address` creates, stamped with
    /// the clock now.
    pub fn from_message(msg: MessageV1, address: String) -> (e: Self)
        ensures
            exists|now: u64| e == entry_of(msg, address, now),
            e.unique_id == msg.unique_id,
            e.system_name == msg.system_name,
            e.system_platform == msg.system_platform,
            e.system_version == msg.system_version,
            e.keepalive_timer == msg.keepalive_timer,
            e.address == address,
            e.uptime == msg.uptime,
            e.load == msg.load,
    {
        let now = unix_now();
        Self::from_message_at(msg, address, now)
    }

    /// The entry that an announcement from `address`, heard at `now`, creates.
    pub fn from_message_at(msg: MessageV1, address: String, now: u64) -> (e: Self)
        ensures
            e == entry_of(msg, address, now),
            e.unique_id == msg.unique_id,
            e.system_name == msg.system_name,
            e.system_platform == msg.system_platform,
            e.system_version == msg.system_version,
            e.keepalive_timer == msg.keepalive_timer,
            e.address == address,
            e.last_seen == now,
            e.uptime == msg.uptime,
            e.load == msg.load,
    {
        Entry {
            unique_id: msg.unique_id,
            system_name: msg.system_name,
            system_platform: msg.system_platform,
            system_version: msg.system_version,
            keepalive_timer: msg.keepalive_timer,
            address,
            last_seen: now,
            uptime: msg.uptime,
            load: msg.load,
        }
    }
}

/// An entry made from an announcement holds, field by field, what the
/// announcement said (id, name, platform, system version, keepalive, uptime,
/// load), the address it came from, and the time it was heard.
pub proof fn lemma_entry_of_fields(msg: MessageV1, address: String, now: u64)
    ensures
        entry_of(msg, address, now).unique_id == msg.unique_id,
        entry_of(msg, address, now).system_name == msg.system_name,
        entry_of(msg, address, now).system_platform == msg.system_platform,
        entry_of(msg, address, now).system_version == msg.system_version,
        entry_of(msg, address, now).keepalive_timer == msg.keepalive_timer,
        entry_of(msg, address, now).address == address,
        entry_of(msg, address, now).last_seen == now,
        entry_of(msg, address, now).uptime == msg.uptime,
        entry_of(msg, address, now).load == msg.load,
{
}

} // verus!
