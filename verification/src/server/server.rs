//! The decisions of an MSDP server: when to announce itself, what it
//! announces, which datagrams it takes, and how its neighbour table changes
//! when an announcement arrives.

use vstd::prelude::*;

use crate::structs::entry::{entry_of, unix_now, Entry};
use crate::structs::message::{
    decode, encode, frame_complete, lemma_decode_encode, MessageV1, MessageV1View,
};

verus! {

/// An entry is kept while it was heard within twice the keepalive period.
pub open spec fn is_recent(e: Entry, now: u64, keepalive_timer: u16) -> bool {
    e.last_seen + 2 * keepalive_timer >= now
}

/// The entry and the announcement are of the same server.
pub open spec fn same_server(e: Entry, msg: MessageV1) -> bool {
    e.unique_id@ == msg.unique_id@
}

/// An entry brought up to date by a new announcement of its server heard at
/// `now`: the address and the texts stay as they were.
pub open spec fn refreshed(e: Entry, msg: MessageV1, now: u64) -> Entry {
    Entry {
        unique_id: e.unique_id,
        system_name: e.system_name,
        system_platform: e.system_platform,
        system_version: e.system_version,
        keepalive_timer: msg.keepalive_timer,
        address: e.address,
        last_seen: now,
        uptime: msg.uptime,
        load: msg.load,
    }
}

/// The table with every entry of the announcing server refreshed.
pub open spec fn refresh_all(es: Seq<Entry>, msg: MessageV1, now: u64) -> Seq<Entry> {
    es.map_values(|e: Entry| if same_server(e, msg) { refreshed(e, msg, now) } else { e })
}

/// Some entry of the table is of the announcing server.
pub open spec fn knows(es: Seq<Entry>, msg: MessageV1) -> bool {
    exists|i: int| 0 <= i < es.len() && same_server(es[i], msg)
}

/// The table once an announcement is recorded: its server's entries are
/// refreshed, or a new entry is appended for a server not yet known.
pub open spec fn recorded(es: Seq<Entry>, msg: MessageV1, address: String, now: u64) -> Seq<
    Entry,
> {
    if knows(es, msg) {
        refresh_all(es, msg, now)
    } else {
        es.push(entry_of(msg, address, now))
    }
}

/// The recent entries of a table, in their order.
pub open spec fn recent_only(es: Seq<Entry>, now: u64, keepalive_timer: u16) -> Seq<Entry> {
    es.filter(recent_at(now, keepalive_timer))
}

/// The test [`is_recent`] at a given time, as a predicate on entries.
pub open spec fn recent_at(now: u64, keepalive_timer: u16) -> spec_fn(Entry) -> bool {
    |e: Entry| is_recent(e, now, keepalive_timer)
}

/// The table after an announcement from `address` is heard at `now`.
pub open spec fn table_after(
    es: Seq<Entry>,
    msg: MessageV1,
    address: String,
    now: u64,
    keepalive_timer: u16,
) -> Seq<Entry> {
    recent_only(recorded(es, msg, address, now), now, keepalive_timer)
}

fn same_unique_id(a: &[u8; 16], b: &[u8; 16]) -> (r: bool)
    ensures
        r == (a@ == b@),
{
    let mut i: usize = 0;
    while i < 16
        invariant
            i <= 16,
            forall|j: int| 0 <= j < i ==> a@[j] == b@[j],
        decreases 16 - i,
    {
        if a[i] != b[i] {
            return false;
        }
        i = i + 1;
    }
    assert(a@ =~= b@);
    true
}

/// Whether an entry last heard at `last_seen` is still kept at `now`.
pub fn is_recent_at(last_seen: u64, now: u64, keepalive_timer: u16) -> (r: bool)
    ensures
        r == (last_seen + 2 * keepalive_timer >= now),
{
    last_seen >= now || now - last_seen <= 2 * (keepalive_timer as u64)
}

/// Drops the entries that are no longer recent, keeping the order of the
/// others.
pub fn retain_recent(entries: &mut Vec<Entry>, now: u64, keepalive_timer: u16)
    ensures
        final(entries)@ == recent_only(old(entries)@, now, keepalive_timer),
{
    let ghost orig = entries@;
    let ghost pred = recent_at(now, keepalive_timer);
    let mut i: usize = 0;
    let ghost mut j: int = 0;
    assert(orig.take(0).filter(pred) =~= Seq::<Entry>::empty()) by {
        reveal_with_fuel(Seq::<_>::filter, 1);
    }
    assert(orig.skip(0) =~= orig);
    while i < entries.len()
        invariant
            0 <= j <= orig.len(),
            i == orig.take(j).filter(pred).len(),
            entries@ =~= orig.take(j).filter(pred) + orig.skip(j),
            pred == recent_at(now, keepalive_timer),
        decreases orig.len() - j,
    {
        assert(entries@[i as int] == orig[j]);
        assert(orig.take(j + 1).drop_last() =~= orig.take(j));
        assert(orig.take(j + 1).last() == orig[j]);
        reveal_with_fuel(Seq::<_>::filter, 1);
        if is_recent_at(entries[i].last_seen, now, keepalive_timer) {
            i = i + 1;
        } else {
            entries.remove(i);
        }
        proof {
            j = j + 1;
        }
        assert(entries@ =~= orig.take(j).filter(pred) + orig.skip(j));
    }
    assert(j == orig.len()) by {
        if j < orig.len() {
            assert(entries@.len() > i);
        }
    }
    assert(orig.take(j) =~= orig);
}

/// Records an announcement from `address` heard at `now`: every entry of its
/// server is refreshed (or a new entry added), then the entries not heard
/// within twice `keepalive_timer` are dropped.
pub fn process_message_at(
    entries: &mut Vec<Entry>,
    msg: MessageV1,
    address: String,
    now: u64,
    keepalive_timer: u16,
)
    ensures
        final(entries)@ == table_after(old(entries)@, msg, address, now, keepalive_timer),
{
    let ghost orig = entries@;
    let mut found = false;
    let mut i: usize = 0;
    while i < entries.len()
        invariant
            i <= entries@.len(),
            entries@.len() == orig.len(),
            forall|j: int|
                0 <= j < i ==> entries@[j] == (if same_server(orig[j], msg) {
                    refreshed(orig[j], msg, now)
                } else {
                    orig[j]
                }),
            forall|j: int| i <= j < orig.len() ==> entries@[j] == orig[j],
            found == (exists|j: int| 0 <= j < i && same_server(orig[j], msg)),
        decreases orig.len() - i,
    {
        assert(entries@[i as int] == orig[i as int]);
        if same_unique_id(&entries[i].unique_id, &msg.unique_id) {
            assert(same_server(orig[i as int], msg));
            found = true;
            let mut e = entries.remove(i);
            e.last_seen = now;
            e.uptime = msg.uptime;
            e.load = msg.load;
            e.keepalive_timer = msg.keepalive_timer;
            entries.insert(i, e);
        } else {
            assert(!same_server(orig[i as int], msg));
        }
        i = i + 1;
    }
    assert(entries@ =~= refresh_all(orig, msg, now));
    if !found {
        entries.push(Entry::from_message_at(msg, address, now));
    }
    assert(entries@ =~= recorded(orig, msg, address, now));
    retain_recent(entries, now, keepalive_timer);
}

/// Records an announcement from `address`, stamped with the clock now.
pub fn process_message(
    entries: &mut Vec<Entry>,
    msg: MessageV1,
    address: String,
    keepalive_timer: u16,
)
    ensures
        exists|now: u64|
            final(entries)@ == table_after(old(entries)@, msg, address, now, keepalive_timer),
{
    let now = unix_now();
    process_message_at(entries, msg, address, now, keepalive_timer);
}

/// Seconds to wait for a datagram before turning back to the send schedule:
/// half the keepalive period.
pub fn read_timeout_secs(keepalive_timer: u16) -> (secs: u64)
    ensures
        secs == keepalive_timer / 2,
{
    (keepalive_timer / 2) as u64
}

/// An announcement is due once a whole keepalive period has passed since the
/// last one.
pub fn keepalive_due(elapsed_secs: u64, keepalive_timer: u16) -> (due: bool)
    ensures
        due == (elapsed_secs >= keepalive_timer),
{
    elapsed_secs >= keepalive_timer as u64
}

/// A text the system did not report reads as `Unknown`.
pub open spec fn or_unknown(t: Option<String>) -> Seq<char> {
    match t {
        Some(s) => s@,
        None => "Unknown"@,
    }
}

/// The announcement a server makes of itself.
pub open spec fn own_announcement(
    unique_id: Seq<u8>,
    hostname: Option<String>,
    os_type: Option<String>,
    os_release: Option<String>,
    keepalive_timer: u16,
    uptime_secs: Option<u64>,
    load: Option<[u16; 3]>,
) -> MessageV1View {
    MessageV1View {
        version: 1,
        unique_id,
        system_name: or_unknown(hostname),
        system_platform: or_unknown(os_type),
        system_version: or_unknown(os_release),
        keepalive_timer,
        uptime: (match uptime_secs {
            Some(s) => s % 0x1_0000_0000,
            None => 0,
        }) as u32,
        load: match load {
            Some(l) => l@,
            None => seq![0u16, 0u16, 0u16],
        },
    }
}

fn text_or_unknown(t: Option<String>) -> (s: String)
    ensures
        s@ == or_unknown(t),
{
    match t {
        Some(s) => s,
        None => "Unknown".to_owned(),
    }
}

/// The bytes a server multicasts to announce itself. What the system did not
/// report is sent as `Unknown`, an uptime of 0 and loads of 0; the uptime is
/// cut to 32 bits.
pub fn announcement(
    unique_id: [u8; 16],
    hostname: Option<String>,
    os_type: Option<String>,
    os_release: Option<String>,
    keepalive_timer: u16,
    uptime_secs: Option<u64>,
    load: Option<[u16; 3]>,
) -> (bytes: Vec<u8>)
    ensures
        bytes@ == encode(
            own_announcement(
                unique_id@,
                hostname,
                os_type,
                os_release,
                keepalive_timer,
                uptime_secs,
                load,
            ),
        ),
{
    let uptime: u32 = match uptime_secs {
        Some(s) => (s % 0x1_0000_0000) as u32,
        None => 0,
    };
    let loads: [u16; 3] = match load {
        Some(l) => l,
        None => [0, 0, 0],
    };
    let message = MessageV1::new(
        unique_id,
        text_or_unknown(hostname),
        text_or_unknown(os_type),
        text_or_unknown(os_release),
        keepalive_timer,
        uptime,
        loads,
    );
    let bytes = message.to_bytes();
    assert(message@ =~= own_announcement(
        unique_id@,
        hostname,
        os_type,
        os_release,
        keepalive_timer,
        uptime_secs,
        load,
    ));
    bytes
}

/// What a server makes of a datagram.
pub enum Received {
    /// An announcement of another server.
    Announcement(MessageV1),
    /// The server's own announcement, come back.
    OwnAnnouncement,
    /// A frame that does not read as an announcement.
    Unreadable,
}

/// Classifies a received frame: an announcement of another server is taken,
/// the server's own and unreadable frames are ignored.
pub fn classify_datagram(own_id: &[u8; 16], datagram: &[u8]) -> (r: Received)
    requires
        frame_complete(datagram@),
    ensures
        match decode(datagram@) {
            Err(_) => r is Unreadable,
            Ok(m) => if m.unique_id == own_id@ {
                r is OwnAnnouncement
            } else {
                r matches Received::Announcement(msg) && msg@ == m
            },
        },
{
    match MessageV1::parse(datagram) {
        Ok(msg) => {
            if same_unique_id(&msg.unique_id, own_id) {
                Received::OwnAnnouncement
            } else {
                Received::Announcement(msg)
            }
        },
        Err(_) => Received::Unreadable,
    }
}

/// A server knows its own announcement when it comes back: the bytes it
/// multicasts form a complete frame that reads as a message with its own id
/// (so [`classify_datagram`] answers `OwnAnnouncement`), as long as its texts
/// fit their length prefixes.
pub proof fn lemma_own_announcement_recognized(
    unique_id: Seq<u8>,
    hostname: Option<String>,
    os_type: Option<String>,
    os_release: Option<String>,
    keepalive_timer: u16,
    uptime_secs: Option<u64>,
    load: Option<[u16; 3]>,
)
    requires
        unique_id.len() == 16,
        own_announcement(
            unique_id,
            hostname,
            os_type,
            os_release,
            keepalive_timer,
            uptime_secs,
            load,
        ).texts_fit(),
    ensures
        ({
            let m = own_announcement(
                unique_id,
                hostname,
                os_type,
                os_release,
                keepalive_timer,
                uptime_secs,
                load,
            );
            &&& frame_complete(encode(m))
            &&& decode(encode(m)) == Ok::<MessageV1View, u32>(m)
            &&& m.unique_id == unique_id
        }),
{
    let m = own_announcement(
        unique_id,
        hostname,
        os_type,
        os_release,
        keepalive_timer,
        uptime_secs,
        load,
    );
    match load {
        Some(l) => assert(l@.len() == 3),
        None => assert(m.load.len() == 3),
    }
    lemma_decode_encode(m);
}

/// No two entries of the table are of the same server.
pub open spec fn unique_servers(es: Seq<Entry>) -> bool {
    forall|i: int, j: int| 0 <= i < j < es.len() ==> es[i].unique_id@ != es[j].unique_id@
}

proof fn lemma_filter_all<A>(s: Seq<A>, p: spec_fn(A) -> bool)
    requires
        forall|i: int| 0 <= i < s.len() ==> p(s[i]),
    ensures
        s.filter(p) == s,
    decreases s.len(),
{
    reveal_with_fuel(Seq::<_>::filter, 1);
    if s.len() > 0 {
        lemma_filter_all(s.drop_last(), p);
        assert(s.drop_last().push(s.last()) =~= s);
    }
}

proof fn lemma_filter_unique(es: Seq<Entry>, p: spec_fn(Entry) -> bool)
    requires
        unique_servers(es),
    ensures
        unique_servers(es.filter(p)),
    decreases es.len(),
{
    reveal_with_fuel(Seq::<_>::filter, 1);
    if es.len() > 0 {
        let rest = es.drop_last();
        lemma_filter_unique(rest, p);
        if p(es.last()) {
            let f = rest.filter(p);
            assert forall|i: int| 0 <= i < f.len() implies f[i].unique_id@ != es.last().unique_id@ by {
                assert(f.contains(f[i]));
                rest.lemma_filter_contains_rev(p, f[i]);
                let k = choose|k: int| 0 <= k < rest.len() && rest[k] == f[i];
                assert(es[k] == rest[k]);
            }
        }
    }
}

/// The entry for the announcing server, as the recorded table holds it.
proof fn lemma_recorded_has_sender(es: Seq<Entry>, msg: MessageV1, address: String, now: u64) -> (i:
    int)
    ensures
        ({
            let r = recorded(es, msg, address, now);
            &&& 0 <= i < r.len()
            &&& same_server(r[i], msg)
            &&& r[i].last_seen == now
            &&& r[i].uptime == msg.uptime
            &&& r[i].load == msg.load
            &&& r[i].keepalive_timer == msg.keepalive_timer
            &&& !knows(es, msg) ==> r[i] == entry_of(msg, address, now)
        }),
{
    if knows(es, msg) {
        choose|i: int| 0 <= i < es.len() && same_server(es[i], msg)
    } else {
        es.len() as int
    }
}

/// Every entry of the table after an announcement was heard within twice the
/// keepalive period.
pub proof fn lemma_table_recent(
    es: Seq<Entry>,
    msg: MessageV1,
    address: String,
    now: u64,
    keepalive_timer: u16,
)
    ensures
        forall|i: int|
            0 <= i < table_after(es, msg, address, now, keepalive_timer).len() ==> is_recent(
                #[trigger] table_after(es, msg, address, now, keepalive_timer)[i],
                now,
                keepalive_timer,
            ),
{
    let r = recorded(es, msg, address, now);
    let p = recent_at(now, keepalive_timer);
    assert forall|i: int| 0 <= i < r.filter(p).len() implies p(#[trigger] r.filter(p)[i]) by {
        r.lemma_filter_pred(p, i);
    }
}

/// Entry `i` of `t` is of the announcing server, stamped with `now`, and
/// carries the uptime, load and keepalive that it announced.
pub open spec fn lists_announcement(t: Seq<Entry>, i: int, msg: MessageV1, now: u64) -> bool {
    &&& 0 <= i < t.len()
    &&& same_server(t[i], msg)
    &&& t[i].last_seen == now
    &&& t[i].uptime == msg.uptime
    &&& t[i].load == msg.load
    &&& t[i].keepalive_timer == msg.keepalive_timer
}

/// After an announcement, the table lists its server, stamped with the time
/// it was heard and carrying the uptime, load and keepalive it announced; a
/// server heard for the first time is listed with the announcing address.
pub proof fn lemma_sender_listed(
    es: Seq<Entry>,
    msg: MessageV1,
    address: String,
    now: u64,
    keepalive_timer: u16,
)
    ensures
        exists|i: int|
            #[trigger] lists_announcement(
                table_after(es, msg, address, now, keepalive_timer),
                i,
                msg,
                now,
            ) && (!knows(es, msg) ==> table_after(es, msg, address, now, keepalive_timer)[i]
                == entry_of(msg, address, now)) && (!knows(es, msg) ==> {
                let e = table_after(es, msg, address, now, keepalive_timer)[i];
                &&& e.address == address
                &&& e.system_name == msg.system_name
                &&& e.system_platform == msg.system_platform
                &&& e.system_version == msg.system_version
            }),
{
    let r = recorded(es, msg, address, now);
    let p = recent_at(now, keepalive_timer);
    let i = lemma_recorded_has_sender(es, msg, address, now);
    r.lemma_filter_contains(p, i);
    let t = r.filter(p);
    assert(t.contains(r[i]));
    let k = choose|k: int| 0 <= k < t.len() && t[k] == r[i];
    assert(t == table_after(es, msg, address, now, keepalive_timer));
    assert(lists_announcement(t, k, msg, now));
    assert(!knows(es, msg) ==> t[k] == entry_of(msg, address, now));
}

/// A table in which no server has two entries keeps that property.
pub proof fn lemma_unique_servers_kept(
    es: Seq<Entry>,
    msg: MessageV1,
    address: String,
    now: u64,
    keepalive_timer: u16,
)
    requires
        unique_servers(es),
    ensures
        unique_servers(table_after(es, msg, address, now, keepalive_timer)),
{
    let r = recorded(es, msg, address, now);
    assert(unique_servers(r)) by {
        if !knows(es, msg) {
            assert forall|i: int, j: int| 0 <= i < j < r.len() implies r[i].unique_id@
                != r[j].unique_id@ by {
                if j == es.len() {
                    assert(!same_server(es[i], msg));
                }
            }
        }
    }
    lemma_filter_unique(r, recent_at(now, keepalive_timer));
}

/// An announcement changes no entry of another server: each of them is an
/// entry the table had before.
pub proof fn lemma_others_untouched(
    es: Seq<Entry>,
    msg: MessageV1,
    address: String,
    now: u64,
    keepalive_timer: u16,
    e: Entry,
)
    requires
        table_after(es, msg, address, now, keepalive_timer).contains(e),
        !same_server(e, msg),
    ensures
        es.contains(e),
{
    let r = recorded(es, msg, address, now);
    let p = recent_at(now, keepalive_timer);
    r.lemma_filter_contains_rev(p, e);
    let k = choose|k: int| 0 <= k < r.len() && r[k] == e;
    if knows(es, msg) {
        assert(!same_server(es[k], msg));
        assert(es[k] == e);
    } else {
        assert(k < es.len());
        assert(es[k] == e);
    }
}

/// Hearing the same announcement again at the same instant changes nothing.
pub proof fn lemma_repeat_is_noop(
    es: Seq<Entry>,
    msg: MessageV1,
    address: String,
    now: u64,
    keepalive_timer: u16,
)
    ensures
        ({
            let t = table_after(es, msg, address, now, keepalive_timer);
            table_after(t, msg, address, now, keepalive_timer) == t
        }),
{
    let t = table_after(es, msg, address, now, keepalive_timer);
    let r = recorded(es, msg, address, now);
    let p = recent_at(now, keepalive_timer);
    lemma_sender_listed(es, msg, address, now, keepalive_timer);
    assert(knows(t, msg));
    assert forall|i: int| 0 <= i < t.len() implies #[trigger] refresh_all(t, msg, now)[i]
        == t[i] by {
        if same_server(t[i], msg) {
            assert(t.contains(t[i]));
            r.lemma_filter_contains_rev(p, t[i]);
            let k = choose|k: int| 0 <= k < r.len() && r[k] == t[i];
            if knows(es, msg) {
                assert(same_server(es[k], msg));
            } else if k < es.len() {
                assert(!same_server(es[k], msg));
            }
        }
    }
    assert(refresh_all(t, msg, now) =~= t);
    lemma_table_recent(es, msg, address, now, keepalive_timer);
    lemma_filter_all(t, p);
}

} // verus!
