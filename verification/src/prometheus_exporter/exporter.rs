//! The Prometheus exporter: the neighbour tables of several proxies as
//! metrics in the Prometheus text format.

use vstd::prelude::*;
use vstd::utf8::encode_utf8;

use crate::structs::entry::Entry;
use crate::text::{centi_short_text, decimal, push_centi_short, push_char, push_decimal};

verus! {

/// The labels that name a neighbour of proxy `name`, without the closing
/// brace.
pub open spec fn labels(name: Seq<char>, e: Entry) -> Seq<char> {
    "{proxy_server_name=\""@ + name + "\", address=\""@ + e.address@ + "\", system_name=\""@
        + e.system_name@.push('"')
}

/// The uptime sample of a neighbour.
pub open spec fn uptime_line(name: Seq<char>, e: Entry) -> Seq<char> {
    "msdp_entry_uptime"@ + labels(name, e) + "} "@ + decimal(e.uptime as nat) + "\n"@
}

/// A load-average sample of a neighbour; `kind` closes the labels with the
/// averaging period.
pub open spec fn load_line(name: Seq<char>, e: Entry, kind: Seq<char>, c: nat) -> Seq<char> {
    "msdp_entry_load"@ + labels(name, e) + kind + centi_short_text(c) + "\n"@
}

/// The four samples of one neighbour: its uptime and its three load averages
/// (over 5, 10 and 15 minutes, as labelled).
pub open spec fn entry_metrics(name: Seq<char>, e: Entry) -> Seq<char> {
    uptime_line(name, e) + load_line(name, e, ", type=\"5\"} "@, e.load[0] as nat) + load_line(
        name,
        e,
        ", type=\"10\"} "@,
        e.load[1] as nat,
    ) + load_line(name, e, ", type=\"15\"} "@, e.load[2] as nat)
}

/// The samples of the neighbours of proxy `name`, in table order.
pub open spec fn group_metrics(name: Seq<char>, es: Seq<Entry>) -> Seq<char>
    decreases es.len(),
{
    if es.len() == 0 {
        seq![]
    } else {
        group_metrics(name, es.drop_last()) + entry_metrics(name, es.last())
    }
}

/// The samples of every proxy's neighbours, proxy after proxy.
pub open spec fn groups_metrics(gs: Seq<(String, Vec<Entry>)>) -> Seq<char>
    decreases gs.len(),
{
    if gs.len() == 0 {
        seq![]
    } else {
        groups_metrics(gs.drop_last()) + group_metrics(gs.last().0@, gs.last().1@)
    }
}

/// The metric descriptions that open the exposition.
pub open spec fn metrics_header() -> Seq<char> {
    "# HELP msdp_entry_uptime Uptime of a server\n"@ + "# TYPE msdp_entry_uptime counter\n"@
        + "# HELP msdp_entry_load Uptime of a server\n"@ + "# TYPE msdp_entry_load gauge\n"@
}

/// The exposition of the neighbour tables `gs` (proxy name, entries).
pub open spec fn exposition_text(gs: Seq<(String, Vec<Entry>)>) -> Seq<char> {
    metrics_header() + groups_metrics(gs)
}

/// The HTTP response that carries an exposition; the length header counts its
/// UTF-8 bytes.
pub open spec fn metrics_response_text(body: Seq<char>) -> Seq<char> {
    "HTTP/1.1 200 OK\r\n"@ + "Content-Type: text/plain; version=0.0.4\r\n"@
        + "Connection: close\r\n"@ + "Content-Length: "@ + decimal(encode_utf8(body).len())
        + "\r\n\r\n"@ + body
}

fn push_labels(s: &mut String, name: &String, e: &Entry)
    ensures
        final(s)@ == old(s)@ + labels(name@, *e),
{
    let ghost start = s@;
    s.append("{proxy_server_name=\"");
    s.append(name.as_str());
    s.append("\", address=\"");
    s.append(e.address.as_str());
    s.append("\", system_name=\"");
    s.append(e.system_name.as_str());
    push_char(s, '"');
    assert(s@ =~= start + labels(name@, *e));
}

fn push_uptime_line(s: &mut String, name: &String, e: &Entry)
    ensures
        final(s)@ == old(s)@ + uptime_line(name@, *e),
{
    let ghost start = s@;
    s.append("msdp_entry_uptime");
    push_labels(s, name, e);
    s.append("} ");
    push_decimal(s, e.uptime as u64);
    s.append("\n");
    assert(s@ =~= start + uptime_line(name@, *e));
}

fn push_load_line(s: &mut String, name: &String, e: &Entry, kind: &str, c: u16)
    ensures
        final(s)@ == old(s)@ + load_line(name@, *e, kind@, c as nat),
{
    let ghost start = s@;
    s.append("msdp_entry_load");
    push_labels(s, name, e);
    s.append(kind);
    push_centi_short(s, c);
    s.append("\n");
    assert(s@ =~= start + load_line(name@, *e, kind@, c as nat));
}

fn push_entry_metrics(s: &mut String, name: &String, e: &Entry)
    ensures
        final(s)@ == old(s)@ + entry_metrics(name@, *e),
{
    let ghost start = s@;
    push_uptime_line(s, name, e);
    push_load_line(s, name, e, ", type=\"5\"} ", e.load[0]);
    push_load_line(s, name, e, ", type=\"10\"} ", e.load[1]);
    push_load_line(s, name, e, ", type=\"15\"} ", e.load[2]);
    assert(s@ =~= start + entry_metrics(name@, *e));
}

/// The samples of proxy `g` follow those of the proxies before it and are
/// labelled with proxy `g`'s own name: the samples of the first `g + 1`
/// proxies are those of the first `g`, then the group samples of
/// (`gs[g].0`, `gs[g].1`).
pub proof fn lemma_groups_metrics_step(gs: Seq<(String, Vec<Entry>)>, g: int)
    requires
        0 <= g < gs.len(),
    ensures
        groups_metrics(gs.take(g + 1)) == groups_metrics(gs.take(g)) + group_metrics(
            gs[g].0@,
            gs[g].1@,
        ),
{
    let t = gs.take(g + 1);
    assert(t.drop_last() =~= gs.take(g));
    assert(t.last() == gs[g]);
}

/// Within a proxy's group, the samples of entry `k` follow those of the
/// entries before it and describe entry `k` under the group's name.
pub proof fn lemma_group_metrics_step(name: Seq<char>, es: Seq<Entry>, k: int)
    requires
        0 <= k < es.len(),
    ensures
        group_metrics(name, es.take(k + 1)) == group_metrics(name, es.take(k)) + entry_metrics(
            name,
            es[k],
        ),
{
    let t = es.take(k + 1);
    assert(t.drop_last() =~= es.take(k));
    assert(t.last() == es[k]);
}

/// Each of the four samples of an entry carries the proxy name, the entry's
/// address and the entry's system name as its labels.
pub proof fn lemma_entry_metrics_labels(name: Seq<char>, e: Entry)
    ensures
        labels(name, e) == "{proxy_server_name=\""@ + name + "\", address=\""@ + e.address@
            + "\", system_name=\""@ + e.system_name@.push('"'),
        entry_metrics(name, e) == "msdp_entry_uptime"@ + labels(name, e) + "} "@ + decimal(
            e.uptime as nat,
        ) + "\n"@ + ("msdp_entry_load"@ + labels(name, e) + ", type=\"5\"} "@ + centi_short_text(
            e.load[0] as nat,
        ) + "\n"@) + ("msdp_entry_load"@ + labels(name, e) + ", type=\"10\"} "@
            + centi_short_text(e.load[1] as nat) + "\n"@) + ("msdp_entry_load"@ + labels(name, e)
            + ", type=\"15\"} "@ + centi_short_text(e.load[2] as nat) + "\n"@),
{
}

/// The exposition of the neighbour tables `groups` (proxy name, entries), in
/// the order given.
pub fn exposition(groups: &Vec<(String, Vec<Entry>)>) -> (s: String)
    ensures
        s@ == exposition_text(groups@),
{
    let mut s = String::new();
    s.append("# HELP msdp_entry_uptime Uptime of a server\n");
    s.append("# TYPE msdp_entry_uptime counter\n");
    s.append("# HELP msdp_entry_load Uptime of a server\n");
    s.append("# TYPE msdp_entry_load gauge\n");
    let mut g: usize = 0;
    while g < groups.len()
        invariant
            g <= groups@.len(),
            s@ == metrics_header() + groups_metrics(groups@.take(g as int)),
        decreases groups@.len() - g,
    {
        let ghost before = s@;
        let name = &groups[g].0;
        let entries = &groups[g].1;
        let mut i: usize = 0;
        while i < entries.len()
            invariant
                i <= entries@.len(),
                s@ == before + group_metrics(name@, entries@.take(i as int)),
            decreases entries@.len() - i,
        {
            push_entry_metrics(&mut s, name, &entries[i]);
            i = i + 1;
            assert(entries@.take(i as int).drop_last() =~= entries@.take(i - 1));
        }
        assert(entries@.take(entries@.len() as int) =~= entries@);
        g = g + 1;
        assert(groups@.take(g as int).drop_last() =~= groups@.take(g - 1));
    }
    assert(groups@.take(groups@.len() as int) =~= groups@);
    s
}

/// The HTTP response that carries the exposition `body`.
pub fn metrics_response(body: &String) -> (r: String)
    ensures
        r@ == metrics_response_text(body@),
{
    let mut r = String::new();
    r.append("HTTP/1.1 200 OK\r\n");
    r.append("Content-Type: text/plain; version=0.0.4\r\n");
    r.append("Connection: close\r\n");
    r.append("Content-Length: ");
    let n = body.as_str().as_bytes().len();
    push_decimal(&mut r, n as u64);
    r.append("\r\n\r\n");
    r.append(body.as_str());
    r
}

/// Where to read a proxy's table and under which name to show it: the
/// address is `ip:port`, the name the configured one or else the key.
pub fn scrape_target(key: &String, ip: &String, port: &String, name: Option<&String>) -> (r: (
    String,
    String,
))
    ensures
        r.0@ == (match name {
            Some(n) => n@,
            None => key@,
        }),
        r.1@ == ip@.push(':') + port@,
{
    let shown = match name {
        Some(n) => n.clone(),
        None => key.clone(),
    };
    let mut addr = String::new();
    addr.append(ip.as_str());
    push_char(&mut addr, ':');
    addr.append(port.as_str());
    (shown, addr)
}

/// No two tables carry the same proxy name.
pub open spec fn unique_names(gs: Seq<(String, Vec<Entry>)>) -> bool {
    forall|i: int, j: int| 0 <= i < j < gs.len() ==> gs[i].0@ != gs[j].0@
}

/// The tables gathered so far with the table of proxy `name` set: it takes
/// the place of an earlier table of that name, or is added at the end.
pub fn record_group(groups: &mut Vec<(String, Vec<Entry>)>, name: String, entries: Vec<Entry>)
    ensures
        forall|k: int|
            0 <= k < old(groups)@.len() && #[trigger] old(groups)@[k].0@ == name@ && (forall|j: int|
                0 <= j < k ==> old(groups)@[j].0@ != name@) ==> final(groups)@ == old(
                groups,
            )@.update(k, (name, entries)),
        !(exists|k: int| 0 <= k < old(groups)@.len() && old(groups)@[k].0@ == name@)
            ==> final(groups)@ == old(groups)@.push((name, entries)),
        unique_names(old(groups)@) ==> unique_names(final(groups)@),
{
    let mut i: usize = 0;
    while i < groups.len()
        invariant
            i <= groups@.len(),
            groups@ == old(groups)@,
            forall|j: int| 0 <= j < i ==> groups@[j].0@ != name@,
        decreases groups@.len() - i,
    {
        if groups[i].0 == name {
            let ghost before = groups@;
            groups.remove(i);
            groups.insert(i, (name, entries));
            assert(groups@ =~= before.update(i as int, (name, entries)));
            return;
        }
        i = i + 1;
    }
    groups.push((name, entries));
}

} // verus!
