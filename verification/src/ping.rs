//! Latency measurement: which address of a PoP is pinged, how the pings
//! are batched, and how the round-trip time is read from `ping` output.

use vstd::prelude::*;
use crate::text::{chars_of, find, first_occurrence, lemma_first_occurrence, str_views, string_of, string_views};
use crate::sdr::{codes_of, PoP, PopMap};
use crate::firewall::{ran, CommandExecutor, CommandOutput, Exchange};

verus! {

// ---------------------------------------------------------------------
// Reading the round-trip time
// ---------------------------------------------------------------------

/// The marker that precedes the round-trip time in `ping` output.
pub open spec fn time_marker() -> Seq<char> {
    "time="@
}

pub open spec fn is_digit(c: char) -> bool {
    '0' <= c && c <= '9'
}

/// A character that may belong to the number after the marker.
pub open spec fn is_number_char(c: char) -> bool {
    is_digit(c) || c == '.'
}

/// The longest prefix of `t` made of digits and dots.
pub open spec fn numeric_run(t: Seq<char>) -> Seq<char>
    decreases t.len(),
{
    if t.len() > 0 && is_number_char(t[0]) {
        seq![t[0]] + numeric_run(t.drop_first())
    } else {
        Seq::empty()
    }
}

pub open spec fn digit_value(c: char) -> nat {
    (c as int - '0' as int) as nat
}

/// The value of a string of decimal digits (0 for the empty string).
pub open spec fn digits_value(ds: Seq<char>) -> nat
    decreases ds.len(),
{
    if ds.len() == 0 {
        0
    } else {
        digits_value(ds.drop_last()) * 10 + digit_value(ds.last())
    }
}

/// The number of dots in `n`.
pub open spec fn dot_count(n: Seq<char>) -> nat
    decreases n.len(),
{
    if n.len() == 0 {
        0
    } else {
        dot_count(n.drop_last()) + if n.last() == '.' { 1nat } else { 0nat }
    }
}

/// The position of the dot in `n`, or its length when there is none.
pub open spec fn dot_position(n: Seq<char>) -> int
    decreases n.len(),
{
    if n.len() == 0 {
        0
    } else if n[0] == '.' {
        0
    } else {
        1 + dot_position(n.drop_first())
    }
}

/// The first 26 digits after the point, padded with zeros.
pub open spec fn padded_fraction(frac: Seq<char>) -> Seq<char> {
    Seq::new(26, |k: int| if k < frac.len() { frac[k] } else { '0' })
}

/// `2^floor(log2 n)` for `n >= 1`: the highest power of two not above `n`.
pub open spec fn top_bit(n: nat) -> nat
    decreases n,
{
    if n < 2 {
        1
    } else {
        2 * top_bit(n / 2)
    }
}

/// Half the distance, scaled by `10^26`, from `n + 1/2` to the nearest
/// `f32` value below it.
pub open spec fn half_gap(n: nat) -> nat {
    if n == 0 {
        1490116119384765625
    } else {
        4 * 1490116119384765625 * top_bit(n)
    }
}

/// The value that parsing the decimal `whole.fraction` as an `f32`,
/// rounding it half away from zero and converting it to `u16` (which
/// saturates) gives; `scaled_fraction` is the fraction times `10^26`,
/// truncated to 26 digits.
pub open spec fn rounded_ping(whole: nat, scaled_fraction: nat) -> u16 {
    if whole >= 65535 {
        65535
    } else if scaled_fraction + half_gap(whole) >= 50000000000000000000000000 {
        (whole + 1) as u16
    } else {
        whole as u16
    }
}

/// The round-trip time that a run of digits and dots denotes: `None` unless
/// it has at most one dot and at least one digit.
pub open spec fn number_value(n: Seq<char>) -> Option<u16> {
    if dot_count(n) <= 1 && n.len() > dot_count(n) {
        let d = dot_position(n);
        let whole = n.take(d);
        let frac = if d < n.len() { n.skip(d + 1) } else { Seq::empty() };
        Some(rounded_ping(digits_value(whole), digits_value(padded_fraction(frac))))
    } else {
        None
    }
}

/// The round-trip time, in whole milliseconds, that `ping` output reports
/// after the first `time=`.
pub open spec fn ping_time_value(stdout: Seq<char>) -> Option<u16> {
    match first_occurrence(stdout, time_marker()) {
        Some(p) => number_value(numeric_run(stdout.skip(p + 5))),
        None => None,
    }
}

proof fn lemma_numeric_run_prefix(t: Seq<char>, k: int)
    requires
        0 <= k <= t.len(),
        forall|j: int| 0 <= j < k ==> is_number_char(t[j]),
        k == t.len() || !is_number_char(t[k]),
    ensures
        numeric_run(t) == t.take(k),
    decreases t.len(),
{
    if t.len() > 0 && is_number_char(t[0]) {
        lemma_numeric_run_prefix(t.drop_first(), k - 1);
        assert(seq![t[0]] + t.drop_first().take(k - 1) =~= t.take(k));
    } else {
        assert(t.take(k) =~= Seq::<char>::empty());
    }
}

proof fn lemma_dot_count_push(n: Seq<char>, c: char)
    ensures
        dot_count(n.push(c)) == dot_count(n) + if c == '.' { 1nat } else { 0nat },
{
    assert(n.push(c).drop_last() =~= n);
}

proof fn lemma_digits_value_push(ds: Seq<char>, c: char)
    ensures
        digits_value(ds.push(c)) == digits_value(ds) * 10 + digit_value(c),
{
    assert(ds.push(c).drop_last() =~= ds);
}

proof fn lemma_dot_position_none(n: Seq<char>)
    requires
        forall|j: int| 0 <= j < n.len() ==> n[j] != '.',
    ensures
        dot_position(n) == n.len(),
    decreases n.len(),
{
    if n.len() > 0 {
        lemma_dot_position_none(n.drop_first());
    }
}

proof fn lemma_dot_position_at(n: Seq<char>, d: int)
    requires
        0 <= d < n.len(),
        n[d] == '.',
        forall|j: int| 0 <= j < d ==> n[j] != '.',
    ensures
        dot_position(n) == d,
    decreases n.len(),
{
    if d > 0 {
        lemma_dot_position_at(n.drop_first(), d - 1);
    }
}

proof fn lemma_top_bit_bounds(n: nat)
    requires
        n >= 1,
    ensures
        1 <= top_bit(n) <= n,
    decreases n,
{
    if n >= 2 {
        lemma_top_bit_bounds(n / 2);
    }
}

/// The highest power of two not above `n` (executable, `1 <= n < 65535`).
fn top_bit_of(n: u32) -> (t: u32)
    requires
        1 <= n < 65535,
    ensures
        t == top_bit(n as nat),
{
    let mut m: u32 = n;
    let mut t: u32 = 1;
    proof { lemma_top_bit_bounds(n as nat); }
    while m >= 2
        invariant
            1 <= m <= n < 65535,
            t >= 1,
            t * top_bit(m as nat) == top_bit(n as nat),
            top_bit(n as nat) <= n,
        decreases m,
    {
        proof {
            lemma_top_bit_bounds((m / 2) as nat);
            let x = top_bit((m / 2) as nat);
            assert(top_bit(m as nat) == 2 * x);
            assert(t * (2 * x) == (2 * t) * x) by (nonlinear_arith);
            assert((2 * t) * x >= 2 * t) by (nonlinear_arith)
                requires x >= 1, t >= 1;
        }
        m = m / 2;
        t = t * 2;
    }
    assert(top_bit(m as nat) == 1);
    assert(t * top_bit(m as nat) == t) by (nonlinear_arith)
        requires top_bit(m as nat) == 1;
    t
}

/// Rounds `whole.fraction` the way the `f32` parse, `round` and `as u16`
/// of `ping` output do; `whole` is the integer part, saturated at 65535.
fn round_reading(whole: u32, fraction: &Vec<char>) -> (r: u16)
    requires
        whole <= 65535,
        forall|j: int| 0 <= j < fraction@.len() ==> is_digit(fraction@[j]),
    ensures
        r == rounded_ping(whole as nat, digits_value(padded_fraction(fraction@))),
{
    if whole >= 65535 {
        return 65535;
    }
    let ghost padded = padded_fraction(fraction@);
    let mut scaled: u128 = 0;
    let mut k: usize = 0;
    while k < 26
        invariant
            k <= 26,
            padded == padded_fraction(fraction@),
            forall|j: int| 0 <= j < fraction@.len() ==> is_digit(fraction@[j]),
            scaled == digits_value(padded.take(k as int)),
            scaled < pow10_u(k as nat),
        decreases 26 - k,
    {
        let c = if k < fraction.len() { fraction[k] } else { '0' };
        assert(c == padded[k as int]);
        let d = (c as u32 - '0' as u32) as u128;
        proof {
            lemma_digits_value_push(padded.take(k as int), c);
            assert(padded.take(k as int).push(c) =~= padded.take(k + 1));
            assert(scaled * 10 + d < pow10_u(k as nat) * 10) by (nonlinear_arith)
                requires scaled < pow10_u(k as nat), d < 10;
            lemma_pow10_small(k as nat + 1);
        }
        scaled = scaled * 10 + d;
        k = k + 1;
    }
    assert(padded.take(26) =~= padded);
    proof { lemma_pow10_small(26); }
    let gap: u128 = if whole == 0 {
        1490116119384765625
    } else {
        let t = top_bit_of(whole);
        proof { lemma_top_bit_bounds(whole as nat); }
        4 * 1490116119384765625 * (t as u128)
    };
    if scaled + gap >= 50000000000000000000000000 {
        (whole + 1) as u16
    } else {
        whole as u16
    }
}

pub open spec fn pow10_u(k: nat) -> nat
    decreases k,
{
    if k == 0 {
        1
    } else {
        10 * pow10_u((k - 1) as nat)
    }
}

proof fn lemma_pow10_monotone(k: nat, m: nat)
    requires
        k <= m,
    ensures
        pow10_u(k) <= pow10_u(m),
    decreases m,
{
    if k < m {
        lemma_pow10_monotone(k, (m - 1) as nat);
    }
}

proof fn lemma_pow10_small(k: nat)
    requires
        k <= 26,
    ensures
        pow10_u(k) <= 100000000000000000000000000,
{
    lemma_pow10_monotone(k, 26);
    assert(pow10_u(26) == 100000000000000000000000000) by {
        reveal_with_fuel(pow10_u, 27);
    }
}

} // verus!

verus! {

pub open spec fn capped(v: nat) -> nat {
    if v >= 65535 { 65535 } else { v }
}

/// Reads the round-trip time from the output of `ping`: the number after
/// the first `time=`, rounded to whole milliseconds.
pub fn parse_ping_time(stdout: &str) -> (r: Option<u16>)
    ensures
        r == ping_time_value(stdout@),
{
    let s = chars_of(stdout);
    let marker = chars_of("time=");
    proof {
        reveal_strlit("time=");
        lemma_first_occurrence(s@, marker@);
    }
    let pos = match find(&s, &marker) {
        None => return None,
        Some(p) => p,
    };
    let n = s.len();
    proof {
        assert(crate::text::occurs_at(s@, marker@, pos as int));
        assert(marker@.len() == 5);
        assert(pos + 5 <= n);
    }
    let start = pos + 5;
    let ghost rest = s@.skip(start as int);
    let mut i: usize = start;
    let mut dots: usize = 0;
    let ghost mut dpos: int = 0;
    let mut whole: u32 = 0;
    let mut frac: Vec<char> = Vec::new();
    while i < s.len() && (s[i] == '.' || ('0' <= s[i] && s[i] <= '9'))
        invariant
            start <= i <= s@.len(),
            rest == s@.skip(start as int),
            forall|j: int| start <= j < i ==> is_number_char(s@[j]),
            dots == dot_count(s@.subrange(start as int, i as int)),
            dots <= i - start,
            dots == 0 ==> forall|j: int| start <= j < i ==> s@[j] != '.',
            dots == 0 ==> whole == capped(digits_value(s@.subrange(start as int, i as int))),
            dots == 0 ==> frac@.len() == 0,
            dots >= 1 ==> start <= dpos < i && s@[dpos] == '.'
                && forall|j: int| start <= j < dpos ==> s@[j] != '.',
            dots >= 1 ==> whole == capped(digits_value(s@.subrange(start as int, dpos))),
            dots == 1 ==> frac@ == s@.subrange(dpos + 1, i as int),
            dots == 1 ==> forall|j: int| dpos < j < i ==> s@[j] != '.',
            whole <= 65535,
        decreases s@.len() - i,
    {
        let c = s[i];
        proof {
            assert(s@.subrange(start as int, i + 1) =~= s@.subrange(start as int, i as int).push(c));
            lemma_dot_count_push(s@.subrange(start as int, i as int), c);
        }
        if c == '.' {
            if dots == 0 {
                proof { dpos = i as int; }
            }
            dots = dots + 1;
        } else {
            let d = c as u32 - '0' as u32;
            if dots == 0 {
                proof {
                    lemma_digits_value_push(s@.subrange(start as int, i as int), c);
                }
                let next = whole * 10 + d;
                whole = if next >= 65535 { 65535 } else { next };
            } else if dots == 1 {
                proof {
                    assert(s@.subrange(dpos + 1, i + 1) =~= s@.subrange(dpos + 1, i as int).push(c));
                }
                frac.push(c);
            }
        }
        i = i + 1;
    }
    proof {
        let run = s@.subrange(start as int, i as int);
        assert(rest.len() == s@.len() - start);
        assert forall|j: int| 0 <= j < i - start implies is_number_char(rest[j]) by {
            assert(rest[j] == s@[start + j]);
        }
        if i < s@.len() {
            assert(rest[i - start] == s@[i as int]);
        }
        lemma_numeric_run_prefix(rest, i - start);
        assert(rest.take(i - start) =~= run);
        if dots == 0 {
            lemma_dot_position_none(run);
        } else {
            assert(run[dpos - start] == '.');
            lemma_dot_position_at(run, dpos - start);
            assert(run.take(dpos - start) =~= s@.subrange(start as int, dpos));
        }
        if dots == 0 {
            assert(run.take(run.len() as int) =~= run);
        }
    }
    if dots <= 1 && i - start > dots {
        proof {
            let run = s@.subrange(start as int, i as int);
            if dots == 1 {
                assert(run.skip(dpos - start + 1) =~= frac@);
            } else {
                assert(padded_fraction(frac@) =~= padded_fraction(Seq::<char>::empty()));
            }
            assert forall|j: int| 0 <= j < frac@.len() implies is_digit(frac@[j]) by {
                if dots == 1 {
                    assert(frac@[j] == s@[dpos + 1 + j]);
                    assert(is_number_char(s@[dpos + 1 + j]));
                }
            }
        }
        Some(round_reading(whole, &frac))
    } else {
        None
    }
}

} // verus!

verus! {

// ---------------------------------------------------------------------
// What is pinged
// ---------------------------------------------------------------------

/// The position of the first `/` in `s`, or its length.
pub open spec fn slash_position(s: Seq<char>) -> int
    decreases s.len(),
{
    if s.len() == 0 {
        0
    } else if s[0] == '/' {
        0
    } else {
        1 + slash_position(s.drop_first())
    }
}

/// The address part of a relay subnet: what precedes the first `/`.
pub open spec fn host_of(subnet: Seq<char>) -> Seq<char> {
    subnet.take(slash_position(subnet))
}

proof fn lemma_slash_position_at(s: Seq<char>, k: int)
    requires
        0 <= k <= s.len(),
        k < s.len() ==> s[k] == '/',
        forall|j: int| 0 <= j < k ==> s[j] != '/',
    ensures
        slash_position(s) == k,
    decreases s.len(),
{
    if s.len() > 0 && k > 0 {
        lemma_slash_position_at(s.drop_first(), k - 1);
    }
}

/// The address to ping for a relay subnet such as `192.69.96.0/22`.
pub fn relay_host(subnet: &str) -> (host: String)
    ensures
        host@ == host_of(subnet@),
{
    let s = chars_of(subnet);
    let mut k: usize = 0;
    while k < s.len() && s[k] != '/'
        invariant
            k <= s@.len(),
            forall|j: int| 0 <= j < k ==> s@[j] != '/',
        decreases s@.len() - k,
    {
        k = k + 1;
    }
    proof { lemma_slash_position_at(s@, k as int); }
    let mut h: Vec<char> = Vec::new();
    let mut j: usize = 0;
    while j < k
        invariant
            j <= k <= s@.len(),
            h@ == s@.take(j as int),
        decreases k - j,
    {
        h.push(s[j]);
        j = j + 1;
        assert(h@ =~= s@.take(j as int));
    }
    string_of(h.as_slice())
}

/// The ping target of a PoP: the address of its first relay, if it has one.
pub open spec fn pop_target(pop: PoP) -> Option<Seq<char>> {
    match pop.relays {
        Some(r) => if r@.len() > 0 { Some(host_of(r@[0].ipv4@)) } else { None },
        None => None,
    }
}

/// The (code, address) pairs to ping, in the order of `entries`: one per
/// PoP that has a relay.
pub open spec fn targets_of(entries: Seq<(String, PoP)>) -> Seq<(Seq<char>, Seq<char>)>
    decreases entries.len(),
{
    if entries.len() == 0 {
        Seq::empty()
    } else {
        let rest = targets_of(entries.drop_last());
        match pop_target(entries.last().1) {
            Some(ip) => rest.push((entries.last().0@, ip)),
            None => rest,
        }
    }
}

/// The text views of (code, address) pairs.
pub open spec fn pair_views(v: Seq<(String, String)>) -> Seq<(Seq<char>, Seq<char>)> {
    v.map_values(|p: (String, String)| (p.0@, p.1@))
}

/// The (code, address) pairs that the pinger measures.
pub fn ping_targets(pops: &PopMap) -> (v: Vec<(String, String)>)
    ensures
        pair_views(v@) == targets_of(pops@),
{
    let codes = pops.codes();
    let mut v: Vec<(String, String)> = Vec::new();
    let mut i: usize = 0;
    let ghost entries = pops@;
    assert(codes@.len() == string_views(codes@).len());
    assert(entries.len() == codes_of(entries).len());
    while i < codes.len()
        invariant
            i <= codes@.len(),
            codes@.len() == entries.len(),
            entries == pops@,
            string_views(codes@) == codes_of(entries),
            pair_views(v@) == targets_of(entries.take(i as int)),
        decreases codes@.len() - i,
    {
        proof {
            assert(entries.take(i + 1).drop_last() =~= entries.take(i as int));
            assert(string_views(codes@)[i as int] == codes_of(entries)[i as int]);
        }
        let code = &codes[i];
        let entry = pops.entry_at(i);
        let ghost before = v@;
        match &entry.relays {
            Some(relays) => {
                if relays.len() > 0 {
                    let host = relay_host(relays[0].ipv4.as_str());
                    v.push((code.clone(), host));
                    assert(pair_views(v@) =~= pair_views(before).push((entries[i as int].0@, host@)));
                }
            },
            None => {},
        }
        i = i + 1;
    }
    assert(entries.take(i as int) =~= entries);
    v
}

// ---------------------------------------------------------------------
// Batches
// ---------------------------------------------------------------------

/// All elements of the chunks, in order.
pub open spec fn flatten<T>(chunks: Seq<Vec<T>>) -> Seq<T>
    decreases chunks.len(),
{
    if chunks.len() == 0 {
        Seq::empty()
    } else {
        flatten(chunks.drop_last()) + chunks.last()@
    }
}

/// Splits `items` into consecutive chunks of `size` (`slice::chunks`): all
/// full but the last, which holds the rest.
pub fn chunks_of<T>(items: Vec<T>, size: usize) -> (chunks: Vec<Vec<T>>)
    requires
        size > 0,
    ensures
        flatten(chunks@) == items@,
        forall|k: int| 0 <= k < chunks@.len() - 1 ==> #[trigger] chunks@[k]@.len() == size,
        forall|k: int| 0 <= k < chunks@.len() ==> 1 <= #[trigger] chunks@[k]@.len() <= size,
{
    let ghost all = items@;
    let mut chunks: Vec<Vec<T>> = Vec::new();
    let mut current: Vec<T> = Vec::new();
    for x in it: items.into_iter()
        invariant
            size > 0,
            all == it.seq(),
            flatten(chunks@) + current@ == all.take(it.index() as int),
            current@.len() < size,
            forall|k: int| 0 <= k < chunks@.len() ==> #[trigger] chunks@[k]@.len() == size,
    {
        let ghost k = it.index();
        let ghost before = current@;
        current.push(x);
        assert(flatten(chunks@) + current@ =~= all.take(k + 1)) by {
            assert(all.take(k + 1) =~= all.take(k as int).push(x));
        }
        if current.len() == size {
            let ghost prev = chunks@;
            let full = current;
            current = Vec::new();
            chunks.push(full);
            assert(chunks@.drop_last() =~= prev);
            assert(flatten(chunks@) + current@ =~= all.take(k + 1));
        }
    }
    if current.len() > 0 {
        let ghost prev = chunks@;
        chunks.push(current);
        assert(chunks@.drop_last() =~= prev);
    } else {
        assert(flatten(chunks@) + current@ =~= flatten(chunks@));
    }
    assert(all.take(all.len() as int) =~= all);
    chunks
}

/// The size of a batch of concurrent pings.
pub const PING_BATCH_SIZE: usize = 5;

/// The targets grouped into the batches that are pinged together.
pub fn ping_batches(targets: Vec<(String, String)>) -> (batches: Vec<Vec<(String, String)>>)
    ensures
        flatten(batches@) == targets@,
        forall|k: int| 0 <= k < batches@.len() - 1 ==> #[trigger] batches@[k]@.len() == 5,
        forall|k: int| 0 <= k < batches@.len() ==> 1 <= #[trigger] batches@[k]@.len() <= 5,
{
    chunks_of(targets, PING_BATCH_SIZE)
}

} // verus!

verus! {

// ---------------------------------------------------------------------
// Pinging one address
// ---------------------------------------------------------------------

/// The arguments of one `ping` of `ip` with a one-second timeout.
pub open spec fn ping_args(ip: Seq<char>, windows: bool) -> Seq<Seq<char>> {
    if windows {
        seq!["-n"@, "1"@, "-w"@, "1000"@, ip]
    } else {
        seq!["-c"@, "1"@, "-W"@, "1"@, ip]
    }
}

/// The round-trip time that a reply to `ping` reports: none when it could
/// not be run or did not succeed.
pub open spec fn reply_time_value(reply: Result<CommandOutput, String>) -> Option<u16> {
    match reply {
        Err(_) => None,
        Ok(o) => if o.success { ping_time_value(o.stdout@) } else { None },
    }
}

/// The round-trip time that a reply to `ping` reports.
pub fn reply_time(reply: &Result<CommandOutput, String>) -> (t: Option<u16>)
    ensures
        t == reply_time_value(*reply),
{
    match reply {
        Err(_) => None,
        Ok(out) => {
            if !out.success {
                None
            } else {
                parse_ping_time(out.stdout.as_str())
            }
        },
    }
}

/// Pings `ip` once through `executor` (with the Windows flags when
/// `windows`), and returns the time read from the reply together with the
/// command that ran and its reply.
pub fn ping_ip_with_executor<E: CommandExecutor>(ip: &str, windows: bool, executor: &mut E) -> (r: (Option<u16>, Ghost<Exchange>))
    ensures
        ran(r.1@, "ping"@, ping_args(ip@, windows)),
        r.0 == reply_time_value(r.1@.2),
{
    let args = if windows {
        vec!["-n", "1", "-w", "1000", ip]
    } else {
        vec!["-c", "1", "-W", "1", ip]
    };
    assert(str_views(args@) =~= ping_args(ip@, windows));
    let reply = executor.execute("ping", args.as_slice());
    let t = reply_time(&reply);
    (t, Ghost(("ping"@, str_views(args@), reply)))
}

} // verus!

verus! {

proof fn lemma_no_dots(n: Seq<char>)
    requires
        forall|j: int| 0 <= j < n.len() ==> is_digit(n[j]),
    ensures
        dot_count(n) == 0,
    decreases n.len(),
{
    if n.len() > 0 {
        lemma_no_dots(n.drop_last());
        assert(is_digit(n[n.len() - 1]));
    }
}

proof fn lemma_zeros_value(z: Seq<char>)
    requires
        forall|j: int| 0 <= j < z.len() ==> z[j] == '0',
    ensures
        digits_value(z) == 0,
    decreases z.len(),
{
    if z.len() > 0 {
        lemma_zeros_value(z.drop_last());
        assert(z[z.len() - 1] == '0');
    }
}

/// A reading without a fractional part is the number itself, saturated at
/// 65535: `time=42` gives 42.
pub proof fn lemma_whole_reading(n: Seq<char>)
    requires
        n.len() > 0,
        forall|j: int| 0 <= j < n.len() ==> is_digit(n[j]),
    ensures
        number_value(n) == Some(if digits_value(n) >= 65535 { 65535u16 } else { digits_value(n) as u16 }),
{
    lemma_no_dots(n);
    assert forall|j: int| 0 <= j < n.len() implies n[j] != '.' by {
        assert(is_digit(n[j]));
    }
    lemma_dot_position_none(n);
    assert(n.take(n.len() as int) =~= n);
    let z = padded_fraction(Seq::<char>::empty());
    lemma_zeros_value(z);
    let w = digits_value(n);
    if w < 65535 {
        if w > 0 {
            lemma_top_bit_bounds(w);
            assert(half_gap(w) <= 4 * 1490116119384765625 * 65535) by (nonlinear_arith)
                requires
                    half_gap(w) == 4 * 1490116119384765625 * top_bit(w),
                    top_bit(w) <= w,
                    w < 65535;
        }
    }
}

} // verus!
