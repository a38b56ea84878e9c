//! Multicast Server Discovery Protocol: the announcement wire format, the
//! neighbour table that a server keeps, and the text and HTTP renderings of it.

use vstd::prelude::*;

pub mod client;
pub mod prometheus_exporter;
pub mod server;
pub mod structs;
pub mod text;

use crate::text::{decimal, digit, pad2, push_char, push_decimal, push_pad2};

verus! {

/// The rendering of a duration of `duration` seconds: `hh:mm:ss`, or
/// `Nd hh:mm:ss` once the hours exceed 24.
pub open spec fn time_text(duration: nat) -> Seq<char> {
    let seconds = duration % 60;
    let minutes = (duration / 60) % 60;
    let hours = (duration / 60) / 60;
    if hours > 24 {
        decimal(hours / 24).push('d').push(' ') + pad2(hours % 24) + seq![':'] + pad2(minutes)
            + seq![':'] + pad2(seconds)
    } else {
        pad2(hours) + seq![':'] + pad2(minutes) + seq![':'] + pad2(seconds)
    }
}

/// Formats a number of seconds as `hh:mm:ss`, switching to `Nd hh:mm:ss`
/// when the hours exceed 24.
pub fn format_time(duration: u64) -> (s: String)
    ensures
        s@ == time_text(duration as nat),
{
    let seconds = duration % 60;
    let minutes = (duration / 60) % 60;
    let hours = (duration / 60) / 60;
    let mut s = String::new();
    if hours > 24 {
        let days = hours / 24;
        let hours = hours % 24;
        push_decimal(&mut s, days);
        push_char(&mut s, 'd');
        push_char(&mut s, ' ');
        push_pad2(&mut s, hours);
    } else {
        push_pad2(&mut s, hours);
    }
    push_char(&mut s, ':');
    push_pad2(&mut s, minutes);
    push_char(&mut s, ':');
    push_pad2(&mut s, seconds);
    s
}

/// The number that a string of decimal digits spells (the empty string
/// spells 0, and leading zeros are allowed).
pub open spec fn digits_value(s: Seq<char>) -> nat
    decreases s.len(),
{
    if s.len() == 0 {
        0
    } else {
        digits_value(s.drop_last()) * 10 + ((s.last() as nat) - 48) as nat
    }
}

/// The duration that a rendering of [`time_text`] reads back to: `hh:mm:ss`
/// when it is 8 characters long, else `Nd hh:mm:ss`.
pub open spec fn time_value(t: Seq<char>) -> nat {
    let k = t.len() - 8;
    let hms = digits_value(t.subrange(k, k + 2)) * 3600 + digits_value(t.subrange(k + 3, k + 5))
        * 60 + digits_value(t.subrange(k + 6, k + 8));
    if t.len() == 8 {
        hms
    } else {
        digits_value(t.subrange(0, k - 2)) * 86400 + hms
    }
}

proof fn lemma_digit_value(d: nat)
    requires
        d < 10,
    ensures
        (digit(d) as nat) - 48 == d,
{
}

proof fn lemma_decimal_value(n: nat)
    ensures
        digits_value(decimal(n)) == n,
        decimal(n).len() >= 1,
    decreases n,
{
    if n < 10 {
        lemma_digit_value(n);
        let s = decimal(n);
        assert(s.drop_last() =~= Seq::<char>::empty());
        assert(digits_value(Seq::<char>::empty()) == 0);
        assert(s.last() == digit(n));
        assert(digits_value(s) == digits_value(s.drop_last()) * 10 + ((s.last() as nat) - 48) as nat);
    } else {
        lemma_decimal_value(n / 10);
        lemma_digit_value(n % 10);
        let s = decimal(n);
        assert(s.drop_last() =~= decimal(n / 10));
        assert(s.last() == digit(n % 10));
        assert(digits_value(s) == digits_value(s.drop_last()) * 10 + ((s.last() as nat) - 48) as nat);
        assert(n == (n / 10) * 10 + n % 10);
    }
}

proof fn lemma_pad2_value(n: nat)
    requires
        n < 100,
    ensures
        digits_value(pad2(n)) == n,
        pad2(n).len() == 2,
{
    lemma_decimal_value(n);
    if n < 10 {
        lemma_digit_value(n);
        lemma_digit_value(0);
        let s = pad2(n);
        assert(s.drop_last() =~= seq!['0']);
        assert(seq!['0'].drop_last() =~= Seq::<char>::empty());
        assert(digits_value(Seq::<char>::empty()) == 0);
        assert(digit(0) == '0');
        assert(digits_value(seq!['0']) == digits_value(seq!['0'].drop_last()) * 10 + (('0' as nat)
            - 48) as nat);
        assert(digits_value(seq!['0']) == 0);
        assert(s.last() == digit(n));
        assert(digits_value(s) == digits_value(s.drop_last()) * 10 + ((s.last() as nat) - 48) as nat);
    } else {
        lemma_decimal_value(n / 10);
        assert(decimal(n / 10).len() == 1);
    }
}

/// `h:m:s` rendered with two-digit fields reads back to its three numbers.
proof fn lemma_hms_value(p: Seq<char>, h: nat, m: nat, s: nat)
    requires
        h < 100,
        m < 60,
        s < 60,
    ensures
        ({
            let t = p + pad2(h) + seq![':'] + pad2(m) + seq![':'] + pad2(s);
            let k = p.len() as int;
            &&& t.len() == k + 8
            &&& t.subrange(0, k) == p
            &&& digits_value(t.subrange(k, k + 2)) == h
            &&& digits_value(t.subrange(k + 3, k + 5)) == m
            &&& digits_value(t.subrange(k + 6, k + 8)) == s
        }),
{
    lemma_pad2_value(h);
    lemma_pad2_value(m);
    lemma_pad2_value(s);
    let t = p + pad2(h) + seq![':'] + pad2(m) + seq![':'] + pad2(s);
    let k = p.len() as int;
    assert(t.subrange(0, k) =~= p);
    assert(t.subrange(k, k + 2) =~= pad2(h));
    assert(t.subrange(k + 3, k + 5) =~= pad2(m));
    assert(t.subrange(k + 6, k + 8) =~= pad2(s));
}

/// The rendering of a duration reads back to that duration.
pub proof fn lemma_time_text_reads_back(duration: nat)
    ensures
        time_value(time_text(duration)) == duration,
{
    let seconds = duration % 60;
    let minutes = (duration / 60) % 60;
    let hours = (duration / 60) / 60;
    assert(duration == hours * 3600 + minutes * 60 + seconds);
    if hours > 24 {
        let days = hours / 24;
        let p = decimal(days).push('d').push(' ');
        lemma_decimal_value(days);
        lemma_hms_value(p, hours % 24, minutes, seconds);
        let t = time_text(duration);
        assert(t == p + pad2(hours % 24) + seq![':'] + pad2(minutes) + seq![':'] + pad2(seconds));
        assert(t.subrange(0, p.len() - 2) =~= decimal(days)) by {
            assert(t.subrange(0, p.len() as int).subrange(0, p.len() - 2) =~= t.subrange(
                0,
                p.len() - 2,
            ));
            assert(p.subrange(0, p.len() - 2) =~= decimal(days));
        }
        assert(hours == days * 24 + hours % 24);
    } else {
        lemma_hms_value(Seq::<char>::empty(), hours, minutes, seconds);
        assert(time_text(duration) =~= Seq::<char>::empty() + pad2(hours) + seq![':'] + pad2(
            minutes,
        ) + seq![':'] + pad2(seconds));
    }
}

/// Two durations with the same rendering are the same duration.
pub proof fn lemma_time_text_injective(a: nat, b: nat)
    requires
        time_text(a) == time_text(b),
    ensures
        a == b,
{
    lemma_time_text_reads_back(a);
    lemma_time_text_reads_back(b);
}

} // verus!
