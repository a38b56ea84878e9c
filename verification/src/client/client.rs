//! What a client shows of a server's neighbour table.

use vstd::prelude::*;

use crate::structs::entry::{entry_text, unix_now, Entry};

verus! {

/// The text blocks of the entries, as seen at time `now`, one after the
/// other with a line break between two blocks.
pub open spec fn entries_text(es: Seq<Entry>, now: u64) -> Seq<char>
    decreases es.len(),
{
    if es.len() == 0 {
        seq![]
    } else if es.len() == 1 {
        entry_text(es[0], now)
    } else {
        entries_text(es.drop_last(), now).push('\n') + entry_text(es.last(), now)
    }
}

/// A reader of a server's neighbour table.
pub struct Client {}

impl Client {
    /// Describes every entry, with the times since they were last heard as
    /// read from the clock now.
    pub fn format_entries(entries: &Vec<Entry>) -> (s: String)
        ensures
            exists|now: u64| s@ == entries_text(entries@, now),
    {
        let now = unix_now();
        Self::format_entries_at(entries, now)
    }

    /// Describes every entry as seen at time `now`.
    pub fn format_entries_at(entries: &Vec<Entry>, now: u64) -> (s: String)
        ensures
            s@ == entries_text(entries@, now),
    {
        let mut s = String::new();
        let mut i: usize = 0;
        while i < entries.len()
            invariant
                i <= entries@.len(),
                s@ == entries_text(entries@.take(i as int), now),
            decreases entries@.len() - i,
        {
            let ghost before = s@;
            if i > 0 {
                crate::text::push_char(&mut s, '\n');
            }
            let block = entries[i].format_at(now);
            s.append(block.as_str());
            i = i + 1;
            assert(entries@.take(i as int).drop_last() =~= entries@.take(i - 1));
            assert(entries@.take(i as int).last() == entries@[i - 1]);
            if i == 1 {
                assert(entries@.take(1) =~= seq![entries@[0]]);
                assert(before =~= Seq::<char>::empty());
                assert(s@ =~= entries_text(entries@.take(i as int), now));
            }
        }
        assert(entries@.take(entries@.len() as int) =~= entries@);
        s
    }
}

/// Block `k` of a listing describes entry `k`: the listing of the first
/// `k + 1` entries is the listing of the first `k`, a line break when `k > 0`,
/// and the text of entry `k`.
pub proof fn lemma_entries_text_block(es: Seq<Entry>, k: int, now: u64)
    requires
        0 <= k < es.len(),
    ensures
        entries_text(es.take(k + 1), now) == (if k == 0 {
            Seq::<char>::empty()
        } else {
            entries_text(es.take(k), now).push('\n')
        }) + entry_text(es[k], now),
{
    let t = es.take(k + 1);
    assert(t.drop_last() =~= es.take(k));
    assert(t.last() == es[k]);
    if k == 0 {
        assert(t.len() == 1);
        assert(t[0] == es[0]);
        assert(Seq::<char>::empty() + entry_text(es[0], now) =~= entry_text(es[0], now));
    }
}

/// The listing of a whole table is made of one block per entry, in order:
/// the listing of `es + [e]` is the listing of `es`, a line break when `es`
/// is not empty, and the text of `e`.
pub proof fn lemma_entries_text_append(es: Seq<Entry>, e: Entry, now: u64)
    ensures
        entries_text(es.push(e), now) == (if es.len() == 0 {
            Seq::<char>::empty()
        } else {
            entries_text(es, now).push('\n')
        }) + entry_text(e, now),
{
    lemma_entries_text_block(es.push(e), es.len() as int, now);
    assert(es.push(e).take(es.len() as int + 1) =~= es.push(e));
    assert(es.push(e).take(es.len() as int) =~= es);
}

} // verus!
