//! The state of the terminal UI: the list of PoPs grouped by region, the
//! selection, the blocked set, and what each key does to them.

pub mod ui;

use vstd::prelude::*;
use crate::text::{chars_of, clone_strings, seq_eq, strings_contain, string_views};
use crate::firewall::{
    add_new, block_request, clear_request, collect_code, lemma_add_new_no_repeats, list_request, no_repeats,
    unblock_request, asked_once, done_answer, lemma_asked_once, listed_answer, Answer, Call, FirewallDriver,
    Request, RequestKind,
};
use crate::sdr::{
    codes_of, distinct_codes, first_position, get_region_for_pop, lemma_position_of, lemma_relay_subnets, lowercase,
    position_of, region_name, relay_subnets, PoP, PopMap, Relay,
};
use crate::config::{ConfigManager, Settings};

verus! {

// ---------------------------------------------------------------------
// Ordering of the PoP list
// ---------------------------------------------------------------------

/// Lexicographic order on text (`str`'s `<=`: by characters, a prefix first).
pub open spec fn lex_le(a: Seq<char>, b: Seq<char>) -> bool
    decreases a.len(),
{
    if a.len() == 0 {
        true
    } else if b.len() == 0 {
        false
    } else if a[0] != b[0] {
        (a[0] as int) < (b[0] as int)
    } else {
        lex_le(a.drop_first(), b.drop_first())
    }
}

/// The order on texts is `str`'s: a text comes before every text it is a
/// prefix of, after every proper prefix of it, and otherwise the first
/// position where the two differ decides, by the characters' code points.
pub proof fn lemma_lex_order(a: Seq<char>, b: Seq<char>)
    ensures
        a.len() <= b.len() && b.take(a.len() as int) == a ==> lex_le(a, b),
        b.len() < a.len() && a.take(b.len() as int) == b ==> !lex_le(a, b),
        forall|k: int| #![trigger a[k], b[k]]
            0 <= k < a.len() && k < b.len() && a.take(k) == b.take(k) && a[k] != b[k]
            ==> (lex_le(a, b) <==> (a[k] as int) < (b[k] as int)),
    decreases a.len(),
{
    if a.len() > 0 && b.len() > 0 {
        lemma_lex_order(a.drop_first(), b.drop_first());
        if a.len() <= b.len() && b.take(a.len() as int) == a {
            assert(b[0] == a[0]) by {
                assert(b.take(a.len() as int)[0] == b[0]);
            }
            assert(b.drop_first().take(a.drop_first().len() as int) =~= a.drop_first()) by {
                assert forall|j: int| 0 <= j < a.len() - 1 implies b.drop_first()[j] == a.drop_first()[j] by {
                    assert(b.take(a.len() as int)[j + 1] == b[j + 1]);
                }
            }
        }
        if b.len() < a.len() && a.take(b.len() as int) == b {
            assert(a[0] == b[0]) by {
                assert(a.take(b.len() as int)[0] == a[0]);
            }
            assert(a.drop_first().take(b.drop_first().len() as int) =~= b.drop_first()) by {
                assert forall|j: int| 0 <= j < b.len() - 1 implies a.drop_first()[j] == b.drop_first()[j] by {
                    assert(a.take(b.len() as int)[j + 1] == a[j + 1]);
                }
            }
        }
        assert forall|k: int| #![trigger a[k], b[k]]
            0 <= k < a.len() && k < b.len() && a.take(k) == b.take(k) && a[k] != b[k]
            implies (lex_le(a, b) <==> (a[k] as int) < (b[k] as int)) by {
            if k > 0 {
                assert(a[0] == b[0]) by {
                    assert(a.take(k)[0] == a[0]);
                    assert(b.take(k)[0] == b[0]);
                }
                assert(a.drop_first().take(k - 1) =~= b.drop_first().take(k - 1)) by {
                    assert forall|j: int| 0 <= j < k - 1 implies a.drop_first()[j] == b.drop_first()[j] by {
                        assert(a.take(k)[j + 1] == a[j + 1]);
                        assert(b.take(k)[j + 1] == b[j + 1]);
                    }
                }
                assert(a.drop_first()[k - 1] == a[k]);
                assert(b.drop_first()[k - 1] == b[k]);
            }
        }
    }
}

/// Any two texts are ordered one way or the other.
pub proof fn lemma_lex_total(a: Seq<char>, b: Seq<char>)
    ensures
        lex_le(a, b) || lex_le(b, a),
    decreases a.len(),
{
    if a.len() > 0 && b.len() > 0 && a[0] == b[0] {
        lemma_lex_total(a.drop_first(), b.drop_first());
    }
}

/// Texts ordered both ways are equal.
pub proof fn lemma_lex_antisymmetric(a: Seq<char>, b: Seq<char>)
    requires
        lex_le(a, b),
        lex_le(b, a),
    ensures
        a == b,
    decreases a.len(),
{
    if a.len() == 0 {
        assert(b.len() == 0);
        assert(a =~= b);
    } else {
        lemma_lex_antisymmetric(a.drop_first(), b.drop_first());
        assert(a =~= seq![a[0]] + a.drop_first());
        assert(b =~= seq![b[0]] + b.drop_first());
    }
}

/// The order on texts is transitive.
pub proof fn lemma_lex_transitive(a: Seq<char>, b: Seq<char>, c: Seq<char>)
    requires
        lex_le(a, b),
        lex_le(b, c),
    ensures
        lex_le(a, c),
    decreases a.len(),
{
    if a.len() > 0 && b.len() > 0 && c.len() > 0 && a[0] == b[0] && b[0] == c[0] {
        lemma_lex_transitive(a.drop_first(), b.drop_first(), c.drop_first());
    }
}

/// An entry of the list: a PoP code and its region.
pub type ListEntry = (Seq<char>, Seq<char>);

/// The list order: by region, then by code.
pub open spec fn entry_le(x: ListEntry, y: ListEntry) -> bool {
    if x.1 != y.1 {
        lex_le(x.1, y.1)
    } else {
        lex_le(x.0, y.0)
    }
}

proof fn lemma_entry_total(x: ListEntry, y: ListEntry)
    ensures
        entry_le(x, y) || entry_le(y, x),
{
    lemma_lex_total(x.1, y.1);
    lemma_lex_total(x.0, y.0);
}

proof fn lemma_entry_transitive(x: ListEntry, y: ListEntry, z: ListEntry)
    requires
        entry_le(x, y),
        entry_le(y, z),
    ensures
        entry_le(x, z),
{
    if x.1 != y.1 && y.1 != z.1 {
        lemma_lex_transitive(x.1, y.1, z.1);
        if x.1 == z.1 {
            lemma_lex_antisymmetric(x.1, y.1);
        }
    } else if x.1 != y.1 {
    } else if y.1 != z.1 {
    } else {
        lemma_lex_transitive(x.0, y.0, z.0);
    }
}

/// `s` is in list order.
pub open spec fn sorted_entries(s: Seq<ListEntry>) -> bool {
    forall|i: int, j: int| 0 <= i < j < s.len() ==> entry_le(s[i], s[j])
}

/// The list entry of a code: the code with the region of its lower-case form.
pub open spec fn entry_of(code: Seq<char>) -> ListEntry {
    (code, region_name(lowercase(code)))
}

/// The text views of the list.
pub open spec fn list_views(v: Seq<(String, &'static str)>) -> Seq<ListEntry> {
    v.map_values(|e: (String, &'static str)| (e.0@, e.1@))
}

/// Whether `a <= b` lexicographically (executable).
fn lex_le_exec(a: &[char], b: &[char]) -> (r: bool)
    ensures
        r == lex_le(a@, b@),
{
    let mut i: usize = 0;
    assert(a@.skip(0) =~= a@);
    assert(b@.skip(0) =~= b@);
    while i < a.len() && i < b.len() && a[i] == b[i]
        invariant
            i <= a@.len(),
            i <= b@.len(),
            lex_le(a@, b@) == lex_le(a@.skip(i as int), b@.skip(i as int)),
        decreases a@.len() - i,
    {
        proof {
            let sa = a@.skip(i as int);
            let sb = b@.skip(i as int);
            assert(sa.drop_first() =~= a@.skip(i + 1));
            assert(sb.drop_first() =~= b@.skip(i + 1));
        }
        i = i + 1;
    }
    proof {
        let sa = a@.skip(i as int);
        let sb = b@.skip(i as int);
        if i < a@.len() {
            assert(sa[0] == a@[i as int]);
        }
        if i < b@.len() {
            assert(sb[0] == b@[i as int]);
        }
    }
    if i == a.len() {
        true
    } else if i == b.len() {
        false
    } else {
        a[i] < b[i]
    }
}

fn entry_le_exec(x: &(String, &'static str), y: &(String, &'static str)) -> (r: bool)
    ensures
        r == entry_le((x.0@, x.1@), (y.0@, y.1@)),
{
    let xr = chars_of(x.1);
    let yr = chars_of(y.1);
    if !seq_eq(&xr, &yr) {
        lex_le_exec(&xr, &yr)
    } else {
        let xc = chars_of(x.0.as_str());
        let yc = chars_of(y.0.as_str());
        lex_le_exec(&xc, &yc)
    }
}

/// A sorted list puts regions in text order and, within a region, codes in
/// text order.
pub proof fn lemma_sorted_by_region_then_code(s: Seq<ListEntry>)
    requires
        sorted_entries(s),
    ensures
        forall|i: int, j: int| 0 <= i < j < s.len() && s[i].1 != s[j].1 ==> #[trigger] lex_le(s[i].1, s[j].1),
        forall|i: int, j: int| 0 <= i < j < s.len() && s[i].1 == s[j].1 ==> #[trigger] lex_le(s[i].0, s[j].0),
{
    assert forall|i: int, j: int| 0 <= i < j < s.len() && s[i].1 != s[j].1 implies #[trigger] lex_le(s[i].1, s[j].1) by {
        assert(entry_le(s[i], s[j]));
    }
    assert forall|i: int, j: int| 0 <= i < j < s.len() && s[i].1 == s[j].1 implies #[trigger] lex_le(s[i].0, s[j].0) by {
        assert(entry_le(s[i], s[j]));
    }
}

/// The selectable list: every code of `pops` with its region, sorted by
/// region and then by code.
pub fn selectable_list(pops: &PopMap) -> (v: Vec<(String, &'static str)>)
    ensures
        sorted_entries(list_views(v@)),
        list_views(v@).to_multiset() == codes_of(pops@).map_values(|c: Seq<char>| entry_of(c)).to_multiset(),
{
    let codes = pops.codes();
    let ghost input = string_views(codes@).map_values(|c: Seq<char>| entry_of(c));
    assert(string_views(codes@) == codes_of(pops@));
    let mut out: Vec<(String, &'static str)> = Vec::new();
    let mut i: usize = 0;
    assert(list_views(out@) =~= input.take(0));
    while i < codes.len()
        invariant
            i <= codes@.len(),
            input == string_views(codes@).map_values(|c: Seq<char>| entry_of(c)),
            sorted_entries(list_views(out@)),
            list_views(out@).to_multiset() == input.take(i as int).to_multiset(),
        decreases codes@.len() - i,
    {
        let code = codes[i].clone();
        let region = get_region_for_pop(code.as_str());
        let x = (code, region);
        assert((x.0@, x.1@) == input[i as int]);
        let mut j: usize = 0;
        while j < out.len() && entry_le_exec(&out[j], &x)
            invariant
                j <= out@.len(),
                forall|k: int| 0 <= k < j ==> entry_le(list_views(out@)[k], (x.0@, x.1@)),
            decreases out@.len() - j,
        {
            j = j + 1;
        }
        let ghost before = list_views(out@);
        let ghost xv = (x.0@, x.1@);
        out.insert(j, x);
        proof {
            assert(list_views(out@) =~= before.insert(j as int, xv));
            before.insert_ensures(j as int, xv);
            vstd::seq_lib::to_multiset_insert(before, j as int, xv);
            assert(input.take(i + 1) =~= input.take(i as int).push(xv));
            input.take(i as int).to_multiset_ensures();
            let now = list_views(out@);
            if j < before.len() {
                lemma_entry_total(before[j as int], xv);
            }
            assert forall|a: int, b: int| 0 <= a < b < now.len() implies entry_le(now[a], now[b]) by {
                if b < j {
                } else if b == j {
                } else if a < j {
                    // now[a] = before[a] <= x <= before[j] <= before[b-1]
                    lemma_entry_total(before[j as int], xv);
                    if j < b - 1 {
                        lemma_entry_transitive(xv, before[j as int], before[b - 1]);
                    }
                    lemma_entry_transitive(before[a], xv, before[b - 1]);
                } else if a == j {
                    lemma_entry_total(before[j as int], xv);
                    if j < b - 1 {
                        lemma_entry_transitive(xv, before[j as int], before[b - 1]);
                    }
                } else {
                }
            }
        }
        i = i + 1;
    }
    assert(input.take(i as int) =~= input);
    out
}

/// A list holding the entries of `codes` (as a multiset) lists only codes
/// of `codes`.
proof fn lemma_listed_codes_known(v: Seq<(String, &'static str)>, codes: Seq<Seq<char>>)
    requires
        list_views(v).to_multiset() == codes.map_values(|c: Seq<char>| entry_of(c)).to_multiset(),
    ensures
        forall|i: int| 0 <= i < v.len() ==> #[trigger] codes.contains(v[i].0@),
{
    let entries = codes.map_values(|c: Seq<char>| entry_of(c));
    list_views(v).to_multiset_ensures();
    entries.to_multiset_ensures();
    assert forall|i: int| 0 <= i < v.len() implies #[trigger] codes.contains(v[i].0@) by {
        let e = list_views(v)[i];
        assert(list_views(v).contains(e));
        assert(list_views(v).to_multiset().count(e) > 0);
        assert(entries.to_multiset().count(e) > 0);
        assert(entries.contains(e));
        let k = choose|k: int| 0 <= k < entries.len() && entries[k] == e;
        assert(codes[k] == v[i].0@);
    }
}

} // verus!

verus! {

// ---------------------------------------------------------------------
// The blocked set
// ---------------------------------------------------------------------

/// The elements of `s` in order of first appearance, each once.
pub open spec fn dedup(s: Seq<Seq<char>>) -> Seq<Seq<char>>
    decreases s.len(),
{
    if s.len() == 0 {
        Seq::empty()
    } else {
        add_new(dedup(s.drop_last()), s.last())
    }
}

/// Keeps what differs from `c`.
pub open spec fn other_than(c: Seq<char>) -> spec_fn(Seq<char>) -> bool {
    |x: Seq<char>| x != c
}

/// `s` without `c`.
pub open spec fn without(s: Seq<Seq<char>>, c: Seq<char>) -> Seq<Seq<char>> {
    s.filter(other_than(c))
}

/// `s` with `c` removed when present and added when absent.
pub open spec fn toggled(s: Seq<Seq<char>>, c: Seq<char>) -> Seq<Seq<char>> {
    if s.contains(c) {
        without(s, c)
    } else {
        s.push(c)
    }
}

/// `v` with `s` added unless present.
fn add_string(v: &mut Vec<String>, s: &str)
    ensures
        string_views(final(v)@) == add_new(string_views(old(v)@), s@),
{
    let c = chars_of(s);
    collect_code(v, c.as_slice());
}

/// `v` without the strings equal to `s`.
fn remove_string(v: &Vec<String>, s: &str) -> (r: Vec<String>)
    ensures
        string_views(r@) == without(string_views(v@), s@),
{
    let c = chars_of(s);
    let ghost all = string_views(v@);
    let mut r: Vec<String> = Vec::new();
    let mut i: usize = 0;
    assert(all.take(0) =~= Seq::<Seq<char>>::empty());
    while i < v.len()
        invariant
            i <= v@.len(),
            all == string_views(v@),
            c@ == s@,
            string_views(r@) == all.take(i as int).filter(other_than(s@)),
        decreases v@.len() - i,
    {
        proof {
            assert(all.take(i + 1) =~= all.take(i as int).push(all[i as int]));
            all.take(i as int).lemma_filter_push(all[i as int], other_than(s@));
        }
        let x = chars_of(v[i].as_str());
        if !seq_eq(&x, c.as_slice()) {
            let ghost before = r@;
            r.push(v[i].clone());
            assert(string_views(r@) =~= string_views(before).push(all[i as int]));
        }
        i = i + 1;
    }
    assert(all.take(i as int) =~= all);
    r
}

/// `v` without repeats, in order of first appearance.
pub fn dedup_strings(v: &Vec<String>) -> (r: Vec<String>)
    ensures
        string_views(r@) == dedup(string_views(v@)),
{
    let ghost all = string_views(v@);
    let mut r: Vec<String> = Vec::new();
    let mut i: usize = 0;
    assert(all.take(0) =~= Seq::<Seq<char>>::empty());
    while i < v.len()
        invariant
            i <= v@.len(),
            all == string_views(v@),
            string_views(r@) == dedup(all.take(i as int)),
        decreases v@.len() - i,
    {
        proof {
            assert(all.take(i + 1).drop_last() =~= all.take(i as int));
        }
        add_string(&mut r, v[i].as_str());
        i = i + 1;
    }
    assert(all.take(i as int) =~= all);
    r
}

/// `dedup` leaves no repeats and keeps every element.
pub proof fn lemma_dedup_no_repeats(s: Seq<Seq<char>>)
    ensures
        no_repeats(dedup(s)),
        forall|y: Seq<char>| #[trigger] dedup(s).contains(y) <==> s.contains(y),
    decreases s.len(),
{
    if s.len() > 0 {
        lemma_dedup_no_repeats(s.drop_last());
        lemma_add_new_no_repeats(dedup(s.drop_last()), s.last());
        assert forall|y: Seq<char>| #[trigger] dedup(s).contains(y) <==> s.contains(y) by {
            if s.contains(y) && !s.drop_last().contains(y) {
                let k = choose|k: int| 0 <= k < s.len() && s[k] == y;
                if k < s.len() - 1 {
                    assert(s.drop_last()[k] == y);
                }
            }
            if s.drop_last().contains(y) {
                let k = choose|k: int| 0 <= k < s.drop_last().len() && s.drop_last()[k] == y;
                assert(s[k] == y);
            }
        }
    }
}

/// Removing a code keeps a sequence free of repeats, and removes exactly
/// that code.
pub proof fn lemma_without_no_repeats(s: Seq<Seq<char>>, c: Seq<char>)
    requires
        no_repeats(s),
    ensures
        no_repeats(without(s, c)),
        !without(s, c).contains(c),
        forall|y: Seq<char>| #[trigger] without(s, c).contains(y) <==> s.contains(y) && y != c,
    decreases s.len(),
{
    reveal_with_fuel(Seq::filter, 1);
    if s.len() > 0 {
        let rest = s.drop_last();
        assert(no_repeats(rest));
        lemma_without_no_repeats(rest, c);
        let x = s.last();
        assert(s == rest.push(x));
        rest.lemma_filter_push(x, other_than(c));
        let fr = without(rest, c);
        assert(!rest.contains(x)) by {
            if rest.contains(x) {
                let k = choose|k: int| 0 <= k < rest.len() && rest[k] == x;
                assert(s[k] == s[s.len() - 1]);
            }
        }
        assert forall|y: Seq<char>| #[trigger] without(s, c).contains(y) <==> s.contains(y) && y != c by {
            if s.contains(y) {
                let k = choose|k: int| 0 <= k < s.len() && s[k] == y;
                if k < s.len() - 1 {
                    assert(rest[k] == y);
                }
            }
            if rest.contains(y) {
                let k = choose|k: int| 0 <= k < rest.len() && rest[k] == y;
                assert(s[k] == y);
            }
            if x != c {
                assert(without(s, c) == fr.push(x));
                if fr.push(x).contains(y) {
                    let k = choose|k: int| 0 <= k < fr.push(x).len() && fr.push(x)[k] == y;
                    if k < fr.len() {
                        assert(fr[k] == y);
                    }
                }
                if fr.contains(y) {
                    let k = choose|k: int| 0 <= k < fr.len() && fr[k] == y;
                    assert(fr.push(x)[k] == y);
                }
                assert(fr.push(x)[fr.len() as int] == x);
            }
        }
        if x != c {
            assert(without(s, c) == fr.push(x));
            assert(!fr.contains(x));
            assert forall|i: int, j: int| 0 <= i < fr.push(x).len() && 0 <= j < fr.push(x).len() && i != j implies fr.push(x)[i] != fr.push(x)[j] by {
                if i < fr.len() && j < fr.len() {
                } else if i < fr.len() {
                    assert(fr.contains(fr[i]));
                } else if j < fr.len() {
                    assert(fr.contains(fr[j]));
                }
            }
        }
    }
}

} // verus!

verus! {

// ---------------------------------------------------------------------
// Application state
// ---------------------------------------------------------------------

/// Everything the UI shows and changes, over a firewall driver `F`.
pub struct AppState<F: FirewallDriver> {
    pub pops: PopMap,
    /// (PoP code, region), sorted by region and then by code.
    pub selectable_pops: Vec<(String, &'static str)>,
    pub selected_index: usize,
    pub firewall: F,
    pub config_manager: ConfigManager,
    pub settings: Settings,
    /// The PoPs currently blocked, each once.
    pub blocked_pops: Vec<String>,
    pub show_settings: bool,
    pub should_quit: bool,
}

/// The relay subnets of a PoP (none when it has no relay list).
pub fn relay_ips(pop: &PoP) -> (v: Vec<String>)
    ensures
        string_views(v@) == relay_subnets(*pop),
        pop.relays is None ==> v@.len() == 0,
        pop.relays matches Some(r) ==> v@.len() == r@.len()
            && forall|k: int| 0 <= k < r@.len() ==> #[trigger] v@[k]@ == r@[k].ipv4@,
{
    let mut v: Vec<String> = Vec::new();
    match &pop.relays {
        None => {
            assert(string_views(v@) =~= relay_subnets(*pop));
        },
        Some(relays) => {
            let ghost subnets = relays@.map_values(|r: Relay| r.ipv4@);
            let mut i: usize = 0;
            while i < relays.len()
                invariant
                    i <= relays@.len(),
                    subnets == relays@.map_values(|r: Relay| r.ipv4@),
                    string_views(v@) == subnets.take(i as int),
                decreases relays@.len() - i,
            {
                let s = relays[i].ipv4.clone();
                let ghost before = v@;
                v.push(s);
                assert(string_views(v@) =~= subnets.take(i + 1)) by {
                    assert(string_views(v@) =~= string_views(before).push(s@));
                }
                i = i + 1;
            }
            assert(subnets.take(i as int) =~= subnets);
        },
    }
    proof {
        lemma_relay_subnets(*pop);
        assert(string_views(v@).len() == v@.len());
        assert forall|k: int| 0 <= k < v@.len() implies #[trigger] v@[k]@ == relay_subnets(*pop)[k] by {
            assert(string_views(v@)[k] == v@[k]@);
        }
    }
    v
}

/// The relay subnets of the PoP stored under `code` (none when no PoP is).
pub open spec fn subnets_of(pops: Seq<(String, PoP)>, code: Seq<char>) -> Seq<Seq<char>> {
    match position_of(pops, code) {
        Some(i) => relay_subnets(pops[i].1),
        None => Seq::empty(),
    }
}

/// The requests that blocking `codes` again at start-up makes: one block of
/// its relay subnets for each code that names a known PoP, in order.
pub open spec fn reblock_requests(pops: Seq<(String, PoP)>, codes: Seq<Seq<char>>) -> Seq<Request>
    decreases codes.len(),
{
    if codes.len() == 0 {
        Seq::empty()
    } else {
        let rest = reblock_requests(pops, codes.drop_last());
        if codes_of(pops).contains(codes.last()) {
            rest.push(block_request(codes.last(), subnets_of(pops, codes.last())))
        } else {
            rest
        }
    }
}

/// The blocked set that starting up arrives at, given the firewall's answer
/// to the listing: what it reported (nothing when it could not say), then
/// the saved blocks, each once.
pub open spec fn startup_blocked(answer: Answer, saved: Seq<Seq<char>>) -> Seq<Seq<char>> {
    match answer {
        Ok(codes) => dedup(codes + saved),
        Err(_) => dedup(saved),
    }
}

/// The requests of a sequence of calls.
pub open spec fn requests_of(calls: Seq<Call>) -> Seq<Request> {
    calls.map_values(|c: Call| c.0)
}

/// Merges the PoPs that the firewall reported blocked with the saved ones.
pub fn merge_blocked(reported: Result<Vec<String>, String>, saved: &Vec<String>) -> (r: Vec<String>)
    ensures
        string_views(r@) == startup_blocked(listed_answer(reported), string_views(saved@)),
{
    let mut all: Vec<String> = match reported {
        Ok(v) => v,
        Err(_) => Vec::new(),
    };
    let ghost first = string_views(all@);
    let mut i: usize = 0;
    while i < saved.len()
        invariant
            i <= saved@.len(),
            string_views(all@) == first + string_views(saved@).take(i as int),
        decreases saved@.len() - i,
    {
        let s = saved[i].clone();
        let ghost before = all@;
        all.push(s);
        assert(string_views(all@) =~= first + string_views(saved@).take(i + 1)) by {
            assert(string_views(all@) =~= string_views(before).push(s@));
        }
        i = i + 1;
    }
    assert(string_views(saved@).take(i as int) =~= string_views(saved@));
    proof {
        if reported is Err {
            assert(first + string_views(saved@) =~= string_views(saved@));
        }
    }
    dedup_strings(&all)
}

impl<F: FirewallDriver> AppState<F> {
    /// The selection is on the list (at 0 when it is empty), every listed
    /// code names a known PoP, and no PoP is blocked twice.
    pub open spec fn wf(&self) -> bool {
        &&& (self.selectable_pops@.len() == 0 ==> self.selected_index == 0)
        &&& (self.selectable_pops@.len() > 0 ==> self.selected_index < self.selectable_pops@.len())
        &&& forall|i: int| 0 <= i < self.selectable_pops@.len()
            ==> #[trigger] codes_of(self.pops@).contains(self.selectable_pops@[i].0@)
        &&& no_repeats(string_views(self.blocked_pops@))
    }

    /// The state over the given parts: the PoPs listed by region and code,
    /// the saved blocks taken as the blocked set, nothing selected but the
    /// first entry, no overlay.
    pub fn with_components(pops: PopMap, firewall: F, config_manager: ConfigManager, settings: Settings) -> (s: Self)
        ensures
            s.wf(),
            s.pops@ == pops@,
            distinct_codes(s.pops@),
            s.firewall == firewall,
            s.config_manager == config_manager,
            s.settings == settings,
            sorted_entries(list_views(s.selectable_pops@)),
            list_views(s.selectable_pops@).to_multiset() == codes_of(pops@).map_values(|c: Seq<char>| entry_of(c)).to_multiset(),
            s.selected_index == 0,
            string_views(s.blocked_pops@) == dedup(string_views(settings.blocked_pops@)),
            !s.show_settings,
            !s.should_quit,
    {
        proof {
            use_type_invariant(&pops);
            pops.lemma_codes_unique();
        }
        let selectable_pops = selectable_list(&pops);
        let blocked_pops = dedup_strings(&settings.blocked_pops);
        proof {
            lemma_dedup_no_repeats(string_views(settings.blocked_pops@));
            lemma_listed_codes_known(selectable_pops@, codes_of(pops@));
        }
        AppState {
            pops,
            selectable_pops,
            selected_index: 0,
            firewall,
            config_manager,
            settings,
            blocked_pops,
            show_settings: false,
            should_quit: false,
        }
    }

    /// Starts the UI state: asks the firewall which PoPs are blocked, adds
    /// the saved blocks, and blocks each of them that is a known PoP again
    /// (ignoring failures) so that the firewall matches the state.
    pub fn new(pops: PopMap, firewall: F, config_manager: ConfigManager, settings: Settings) -> (s: Self)
        ensures
            s.wf(),
            s.pops@ == pops@,
            distinct_codes(s.pops@),
            s.config_manager == config_manager,
            s.settings == settings,
            sorted_entries(list_views(s.selectable_pops@)),
            list_views(s.selectable_pops@).to_multiset() == codes_of(pops@).map_values(|c: Seq<char>| entry_of(c)).to_multiset(),
            s.selected_index == 0,
            s.firewall.calls().len() > firewall.calls().len(),
            s.firewall.calls().take(firewall.calls().len() as int) == firewall.calls(),
            s.firewall.calls()[firewall.calls().len() as int].0 == list_request(),
            string_views(s.blocked_pops@) == startup_blocked(
                s.firewall.calls()[firewall.calls().len() as int].1, string_views(settings.blocked_pops@)),
            requests_of(s.firewall.calls().skip(firewall.calls().len() as int + 1))
                == reblock_requests(pops@, string_views(s.blocked_pops@)),
            !s.show_settings,
            !s.should_quit,
    {
        proof {
            use_type_invariant(&pops);
            pops.lemma_codes_unique();
        }
        let ghost c0 = firewall.calls();
        let ghost n: int = c0.len() as int;
        let mut firewall = firewall;
        let reported = firewall.get_blocked_pops();
        let ghost rep = reported;
        let ghost first = firewall.calls();
        let blocked_pops = merge_blocked(reported, &settings.blocked_pops);
        let ghost codes = string_views(blocked_pops@);
        let mut i: usize = 0;
        assert(codes.take(0) =~= Seq::<Seq<char>>::empty());
        assert(firewall.calls().take(n + 1) =~= first);
        assert(requests_of(firewall.calls().skip(n + 1)) =~= reblock_requests(pops@, codes.take(0)));
        while i < blocked_pops.len()
            invariant
                i <= blocked_pops@.len(),
                codes == string_views(blocked_pops@),
                first == c0.push((list_request(), listed_answer(rep))),
                n == c0.len(),
                firewall.calls().len() >= n + 1,
                firewall.calls().take(n + 1) == first,
                requests_of(firewall.calls().skip(n + 1)) == reblock_requests(pops@, codes.take(i as int)),
            decreases blocked_pops@.len() - i,
        {
            let code = blocked_pops[i].as_str();
            assert(codes.take(i + 1).drop_last() =~= codes.take(i as int));
            assert(codes.take(i + 1).last() == code@);
            match pops.get(code) {
                Some(pop) => {
                    let ghost before = firewall.calls();
                    let ips = relay_ips(pop);
                    let r = firewall.block_pop(code, ips.as_slice());
                    let ghost call = (block_request(code@, string_views(ips@)), done_answer(r));
                    assert(firewall.calls() == before.push(call));
                    assert(before.len() >= n + 1);
                    assert forall|k: int| 0 <= k < n + 1 implies #[trigger] firewall.calls()[k] == before[k] by {
                        assert(before.push(call)[k] == before[k]);
                    }
                    assert(firewall.calls().take(n + 1) =~= before.take(n + 1));
                    assert forall|k: int| 0 <= k < before.len() - (n + 1) implies
                        #[trigger] firewall.calls().skip(n + 1)[k] == before.skip(n + 1)[k] by {
                        assert(before.push(call)[n + 1 + k] == before[n + 1 + k]);
                    }
                    assert(firewall.calls().skip(n + 1) =~= before.skip(n + 1).push(call));
                    assert(requests_of(firewall.calls().skip(n + 1)) =~= reblock_requests(pops@, codes.take(i + 1)));
                },
                None => {},
            }
            i = i + 1;
        }
        assert(codes.take(i as int) =~= codes);
        assert(firewall.calls()[n] == firewall.calls().take(n + 1)[n]);
        assert(firewall.calls().take(n) =~= c0) by {
            assert(firewall.calls().take(n) =~= firewall.calls().take(n + 1).take(n));
        }
        let selectable_pops = selectable_list(&pops);
        proof {
            lemma_listed_codes_known(selectable_pops@, codes_of(pops@));
            match rep {
                Ok(v) => lemma_dedup_no_repeats(string_views(v@) + string_views(settings.blocked_pops@)),
                Err(_) => lemma_dedup_no_repeats(string_views(settings.blocked_pops@)),
            }
        }
        AppState {
            pops,
            selectable_pops,
            selected_index: 0,
            firewall,
            config_manager,
            settings,
            blocked_pops,
            show_settings: false,
            should_quit: false,
        }
    }
}

} // verus!

verus! {

/// The code of the selected list entry, if the list is not empty.
pub open spec fn selected_code<F: FirewallDriver>(s: AppState<F>) -> Option<Seq<char>> {
    if s.selectable_pops@.len() > 0 && s.selected_index < s.selectable_pops@.len() {
        Some(s.selectable_pops@[s.selected_index as int].0@)
    } else {
        None
    }
}

/// What toggling the selected PoP does: asks the firewall to block it if it
/// is allowed and to unblock it if it is blocked; when the firewall answers
/// Ok the PoP changes side. Then the blocked set becomes the settings' list.
/// Nothing happens when nothing is selected or the selected code names no PoP.
pub open spec fn toggled_selected<F: FirewallDriver>(o: AppState<F>, f: AppState<F>) -> bool {
    &&& f.wf()
    &&& f.pops == o.pops
    &&& f.selectable_pops == o.selectable_pops
    &&& f.selected_index == o.selected_index
    &&& f.config_manager == o.config_manager
    &&& f.settings.persist_rules_on_exit == o.settings.persist_rules_on_exit
    &&& f.show_settings == o.show_settings
    &&& f.should_quit == o.should_quit
    &&& match selected_code(o) {
        Some(c) => if codes_of(o.pops@).contains(c) {
            &&& asked_once(o.firewall.calls(), f.firewall.calls(),
                if string_views(o.blocked_pops@).contains(c) {
                    unblock_request(c, subnets_of(o.pops@, c))
                } else {
                    block_request(c, subnets_of(o.pops@, c))
                })
            &&& string_views(f.blocked_pops@) == if f.firewall.calls().last().1 is Ok {
                toggled(string_views(o.blocked_pops@), c)
            } else {
                string_views(o.blocked_pops@)
            }
            &&& string_views(f.settings.blocked_pops@) == string_views(f.blocked_pops@)
        } else {
            f.firewall == o.firewall && f.blocked_pops == o.blocked_pops && f.settings == o.settings
        },
        None => f.firewall == o.firewall && f.blocked_pops == o.blocked_pops && f.settings == o.settings,
    }
}

/// What resetting does: the firewall is asked to clear every rule, and
/// nothing is blocked or saved as blocked any more.
pub open spec fn unblocked_all<F: FirewallDriver>(o: AppState<F>, f: AppState<F>) -> bool {
    &&& f.wf()
    &&& asked_once(o.firewall.calls(), f.firewall.calls(), clear_request())
    &&& f.blocked_pops@.len() == 0
    &&& f.settings.blocked_pops@.len() == 0
    &&& f.settings.persist_rules_on_exit == o.settings.persist_rules_on_exit
    &&& f.pops == o.pops
    &&& f.selectable_pops == o.selectable_pops
    &&& f.selected_index == o.selected_index
    &&& f.config_manager == o.config_manager
    &&& f.show_settings == o.show_settings
    &&& f.should_quit == o.should_quit
}

/// What toggling the persistence setting does: flips it, nothing else.
pub open spec fn toggled_persist<F: FirewallDriver>(o: AppState<F>, f: AppState<F>) -> bool {
    &&& f.wf()
    &&& f.settings.persist_rules_on_exit == !o.settings.persist_rules_on_exit
    &&& f.settings.blocked_pops == o.settings.blocked_pops
    &&& f.blocked_pops == o.blocked_pops
    &&& f.pops == o.pops
    &&& f.selectable_pops == o.selectable_pops
    &&& f.selected_index == o.selected_index
    &&& f.firewall == o.firewall
    &&& f.config_manager == o.config_manager
    &&& f.show_settings == o.show_settings
    &&& f.should_quit == o.should_quit
}

impl<F: FirewallDriver> AppState<F> {
    /// Records the outcome of blocking (`was_blocked` false) or unblocking
    /// (`was_blocked` true) `code`: when the firewall call succeeded the PoP
    /// changes side; either way the saved list becomes the blocked set.
    pub fn record_toggle(&mut self, code: &str, was_blocked: bool, succeeded: bool)
        requires
            old(self).wf(),
            was_blocked == string_views(old(self).blocked_pops@).contains(code@),
        ensures
            final(self).wf(),
            string_views(final(self).blocked_pops@) == if succeeded {
                toggled(string_views(old(self).blocked_pops@), code@)
            } else {
                string_views(old(self).blocked_pops@)
            },
            string_views(final(self).settings.blocked_pops@) == string_views(final(self).blocked_pops@),
            final(self).settings.persist_rules_on_exit == old(self).settings.persist_rules_on_exit,
            final(self).pops == old(self).pops,
            final(self).selectable_pops == old(self).selectable_pops,
            final(self).selected_index == old(self).selected_index,
            final(self).firewall == old(self).firewall,
            final(self).config_manager == old(self).config_manager,
            final(self).show_settings == old(self).show_settings,
            final(self).should_quit == old(self).should_quit,
    {
        if succeeded {
            if was_blocked {
                let kept = remove_string(&self.blocked_pops, code);
                proof { lemma_without_no_repeats(string_views(self.blocked_pops@), code@); }
                self.blocked_pops = kept;
            } else {
                proof { lemma_add_new_no_repeats(string_views(self.blocked_pops@), code@); }
                add_string(&mut self.blocked_pops, code);
            }
        }
        self.settings.blocked_pops = clone_strings(&self.blocked_pops);
    }

    /// Blocks the selected PoP if it is allowed, unblocks it if it is
    /// blocked, and makes the saved list the blocked set. Nothing happens
    /// when the list is empty or the selected code names no PoP.
    pub fn toggle_selected(&mut self)
        requires
            old(self).wf(),
        ensures
            toggled_selected(*old(self), *final(self)),
    {
        if self.selectable_pops.len() == 0 {
            return;
        }
        let code = self.selectable_pops[self.selected_index].0.clone();
        let ips = match self.pops.get(code.as_str()) {
            Some(pop) => {
                proof {
                    let k = choose|k: int| 0 <= k < self.pops@.len() && self.pops@[k].0@ == code@ && self.pops@[k].1 == *pop;
                    assert(codes_of(self.pops@)[k] == code@);
                }
                relay_ips(pop)
            },
            None => return,
        };
        assert(selected_code(*old(self)) == Some(code@));
        let c = chars_of(code.as_str());
        let was_blocked = strings_contain(self.blocked_pops.as_slice(), c.as_slice());
        let ghost before = self.firewall.calls();
        let succeeded = if was_blocked {
            let r = self.firewall.unblock_pop(code.as_str(), ips.as_slice());
            proof { lemma_asked_once(before, unblock_request(code@, string_views(ips@)), done_answer(r)); }
            r.is_ok()
        } else {
            let r = self.firewall.block_pop(code.as_str(), ips.as_slice());
            proof { lemma_asked_once(before, block_request(code@, string_views(ips@)), done_answer(r)); }
            r.is_ok()
        };
        self.record_toggle(code.as_str(), was_blocked, succeeded);
    }

    /// Clears every rule of the application and empties the blocked set and
    /// the saved list.
    pub fn unblock_all(&mut self)
        requires
            old(self).wf(),
        ensures
            unblocked_all(*old(self), *final(self)),
    {
        let ghost before = self.firewall.calls();
        let r = self.firewall.clear_all();
        proof { lemma_asked_once(before, clear_request(), done_answer(r)); }
        self.blocked_pops.clear();
        self.settings.blocked_pops.clear();
        assert(string_views(self.blocked_pops@) =~= Seq::<Seq<char>>::empty());
    }

    /// Flips whether firewall rules persist after exit.
    pub fn toggle_persist_setting(&mut self)
        requires
            old(self).wf(),
        ensures
            toggled_persist(*old(self), *final(self)),
    {
        self.settings.persist_rules_on_exit = !self.settings.persist_rules_on_exit;
    }
}

} // verus!

verus! {

// ---------------------------------------------------------------------
// Keys
// ---------------------------------------------------------------------

/// The keys the UI reacts to (any other key is `Other`).
#[derive(Debug, Clone, Copy, PartialEq, Eq, Structural)]
pub enum KeyCode {
    Char(char),
    Esc,
    Up,
    Down,
    Enter,
    Other,
}

/// A key press, with whether Control was held.
#[derive(Debug, Clone, Copy, PartialEq, Eq, Structural)]
pub struct KeyPress {
    pub code: KeyCode,
    pub ctrl: bool,
}

/// What a key press did.
#[derive(Debug, Clone, Copy, PartialEq, Eq, Structural)]
pub enum KeyAction {
    /// The key does nothing in this state.
    Ignored,
    /// The settings overlay was closed.
    SettingsClosed,
    /// The program should quit.
    Quit,
    /// The settings overlay was opened or closed.
    SettingsToggled,
    /// The selection moved, or stayed at the end of the list.
    Moved,
    /// The selected PoP was toggled, or its toggle failed (either way the
    /// settings should be saved).
    PopToggled,
    /// The persistence setting was toggled (the settings should be saved).
    PersistToggled,
    /// Every block was removed (the settings should be saved).
    AllUnblocked,
}

impl KeyAction {
    /// Whether the action changed the settings, which are then saved.
    pub fn changes_settings(&self) -> (b: bool)
        ensures
            b == (*self == KeyAction::PopToggled || *self == KeyAction::PersistToggled
                || *self == KeyAction::AllUnblocked),
    {
        match self {
            KeyAction::PopToggled | KeyAction::PersistToggled | KeyAction::AllUnblocked => true,
            _ => false,
        }
    }
}

/// `q`, `Q` or Esc: closes the settings overlay, or quits.
pub open spec fn is_quit_key(k: KeyPress) -> bool {
    k.code == KeyCode::Char('q') || k.code == KeyCode::Char('Q') || k.code == KeyCode::Esc
}

pub open spec fn is_interrupt_key(k: KeyPress) -> bool {
    k.code == KeyCode::Char('c') && k.ctrl
}

pub open spec fn is_settings_key(k: KeyPress) -> bool {
    k.code == KeyCode::Char('s') || k.code == KeyCode::Char('S')
}

pub open spec fn is_up_key(k: KeyPress) -> bool {
    k.code == KeyCode::Up || k.code == KeyCode::Char('k')
}

pub open spec fn is_down_key(k: KeyPress) -> bool {
    k.code == KeyCode::Down || k.code == KeyCode::Char('j')
}

pub open spec fn is_toggle_key(k: KeyPress) -> bool {
    k.code == KeyCode::Char(' ') || k.code == KeyCode::Enter
}

pub open spec fn is_reset_key(k: KeyPress) -> bool {
    k.code == KeyCode::Char('r') || k.code == KeyCode::Char('R')
}

/// Only the view fields (overlay, quit flag, selection) may have changed.
pub open spec fn same_data<F: FirewallDriver>(o: AppState<F>, f: AppState<F>) -> bool {
    &&& f.pops == o.pops
    &&& f.selectable_pops == o.selectable_pops
    &&& f.firewall == o.firewall
    &&& f.config_manager == o.config_manager
    &&& f.settings == o.settings
    &&& f.blocked_pops == o.blocked_pops
}

/// The state and action that a key press leads to.
pub open spec fn key_step<F: FirewallDriver>(o: AppState<F>, k: KeyPress, f: AppState<F>, a: KeyAction) -> bool {
    if is_quit_key(k) {
        &&& same_data(o, f)
        &&& f.selected_index == o.selected_index
        &&& !f.show_settings
        &&& f.should_quit == (o.should_quit || !o.show_settings)
        &&& a == if o.show_settings { KeyAction::SettingsClosed } else { KeyAction::Quit }
    } else if is_interrupt_key(k) {
        same_data(o, f) && f.selected_index == o.selected_index && f.show_settings == o.show_settings
            && f.should_quit && a == KeyAction::Quit
    } else if is_settings_key(k) {
        same_data(o, f) && f.selected_index == o.selected_index && f.show_settings == !o.show_settings
            && f.should_quit == o.should_quit && a == KeyAction::SettingsToggled
    } else if is_up_key(k) || is_down_key(k) {
        &&& same_data(o, f)
        &&& f.show_settings == o.show_settings
        &&& f.should_quit == o.should_quit
        &&& if o.show_settings || o.selectable_pops@.len() == 0 {
            f.selected_index == o.selected_index && a == KeyAction::Ignored
        } else if is_up_key(k) {
            f.selected_index == (if o.selected_index > 0 { o.selected_index - 1 } else { 0 }) && a == KeyAction::Moved
        } else {
            f.selected_index == (if o.selected_index + 1 < o.selectable_pops@.len() { o.selected_index + 1 } else { o.selected_index as int })
                && a == KeyAction::Moved
        }
    } else if is_toggle_key(k) {
        if o.show_settings {
            toggled_persist(o, f) && a == KeyAction::PersistToggled
        } else if o.selectable_pops@.len() == 0 {
            same_data(o, f) && f.selected_index == o.selected_index && f.show_settings == o.show_settings
                && f.should_quit == o.should_quit && a == KeyAction::Ignored
        } else {
            toggled_selected(o, f) && a == KeyAction::PopToggled
        }
    } else if is_reset_key(k) {
        if o.show_settings {
            same_data(o, f) && f.selected_index == o.selected_index && f.show_settings == o.show_settings
                && f.should_quit == o.should_quit && a == KeyAction::Ignored
        } else {
            unblocked_all(o, f) && a == KeyAction::AllUnblocked
        }
    } else {
        same_data(o, f) && f.selected_index == o.selected_index && f.show_settings == o.show_settings
            && f.should_quit == o.should_quit && a == KeyAction::Ignored
    }
}

/// `r` and `R` reset: with the overlay closed the firewall is asked to clear
/// its rules and nothing stays blocked or saved as blocked; with the overlay
/// open the key does nothing.
pub proof fn lemma_reset_keys<F: FirewallDriver>(o: AppState<F>, k: KeyPress, f: AppState<F>, a: KeyAction)
    requires
        key_step(o, k, f, a),
        k.code == KeyCode::Char('r') || k.code == KeyCode::Char('R'),
    ensures
        !o.show_settings ==> a == KeyAction::AllUnblocked
            && f.firewall.calls().len() == o.firewall.calls().len() + 1
            && f.firewall.calls().last().0 == (RequestKind::ClearAll, Seq::<char>::empty(), Seq::<Seq<char>>::empty())
            && f.blocked_pops@.len() == 0 && f.settings.blocked_pops@.len() == 0
            && f.selected_index == o.selected_index && f.should_quit == o.should_quit,
        o.show_settings ==> a == KeyAction::Ignored && f.firewall == o.firewall
            && f.blocked_pops == o.blocked_pops && f.settings == o.settings && f.show_settings,
{
}

/// `q`, `Q` and Esc close the settings overlay when it is open, and
/// otherwise quit; Ctrl+C quits in any case. Neither changes the blocks.
pub proof fn lemma_quit_keys<F: FirewallDriver>(o: AppState<F>, k: KeyPress, f: AppState<F>, a: KeyAction)
    requires
        key_step(o, k, f, a),
        k.code == KeyCode::Char('q') || k.code == KeyCode::Char('Q') || k.code == KeyCode::Esc
            || (k.code == KeyCode::Char('c') && k.ctrl),
    ensures
        f.blocked_pops == o.blocked_pops,
        f.firewall == o.firewall,
        f.settings == o.settings,
        k.code == KeyCode::Char('c') ==> f.should_quit && a == KeyAction::Quit,
        k.code != KeyCode::Char('c') && o.show_settings ==> !f.show_settings && f.should_quit == o.should_quit
            && a == KeyAction::SettingsClosed,
        k.code != KeyCode::Char('c') && !o.show_settings ==> f.should_quit && a == KeyAction::Quit,
{
}

/// `s` and `S` open or close the settings overlay, and change nothing else.
pub proof fn lemma_settings_keys<F: FirewallDriver>(o: AppState<F>, k: KeyPress, f: AppState<F>, a: KeyAction)
    requires
        key_step(o, k, f, a),
        k.code == KeyCode::Char('s') || k.code == KeyCode::Char('S'),
    ensures
        f.show_settings == !o.show_settings,
        a == KeyAction::SettingsToggled,
        f.blocked_pops == o.blocked_pops && f.firewall == o.firewall && f.settings == o.settings,
        f.selected_index == o.selected_index && f.should_quit == o.should_quit,
{
}

/// Up and `k` move the selection one entry up, Down and `j` one entry down,
/// staying on the list; with the overlay open or an empty list they do
/// nothing.
pub proof fn lemma_navigation_keys<F: FirewallDriver>(o: AppState<F>, k: KeyPress, f: AppState<F>, a: KeyAction)
    requires
        key_step(o, k, f, a),
        k.code == KeyCode::Up || k.code == KeyCode::Char('k') || k.code == KeyCode::Down
            || k.code == KeyCode::Char('j'),
    ensures
        f.blocked_pops == o.blocked_pops && f.firewall == o.firewall && f.settings == o.settings,
        f.show_settings == o.show_settings && f.should_quit == o.should_quit,
        o.show_settings || o.selectable_pops@.len() == 0 ==> f.selected_index == o.selected_index
            && a == KeyAction::Ignored,
        !o.show_settings && o.selectable_pops@.len() > 0 ==> a == KeyAction::Moved,
        !o.show_settings && o.selectable_pops@.len() > 0 && (k.code == KeyCode::Up || k.code == KeyCode::Char('k'))
            ==> f.selected_index == if o.selected_index > 0 { o.selected_index - 1 } else { 0 },
        !o.show_settings && o.selectable_pops@.len() > 0 && (k.code == KeyCode::Down || k.code == KeyCode::Char('j'))
            ==> f.selected_index == if o.selected_index + 1 < o.selectable_pops@.len() {
                o.selected_index + 1
            } else {
                o.selected_index as int
            },
{
}

/// Space and Enter flip the persistence setting when the overlay is open;
/// otherwise, on a non-empty list, they ask the firewall to unblock the
/// selected PoP if it is blocked and to block it if not.
pub proof fn lemma_toggle_keys<F: FirewallDriver>(o: AppState<F>, k: KeyPress, f: AppState<F>, a: KeyAction)
    requires
        o.wf(),
        key_step(o, k, f, a),
        k.code == KeyCode::Char(' ') || k.code == KeyCode::Enter,
    ensures
        o.show_settings ==> a == KeyAction::PersistToggled
            && f.settings.persist_rules_on_exit == !o.settings.persist_rules_on_exit
            && f.blocked_pops == o.blocked_pops && f.firewall == o.firewall,
        !o.show_settings && o.selectable_pops@.len() == 0 ==> a == KeyAction::Ignored
            && f.blocked_pops == o.blocked_pops && f.firewall == o.firewall && f.settings == o.settings,
        !o.show_settings && o.selectable_pops@.len() > 0 ==> a == KeyAction::PopToggled
            && f.firewall.calls().len() == o.firewall.calls().len() + 1
            && f.firewall.calls().last().0.1 == o.selectable_pops@[o.selected_index as int].0@
            && f.firewall.calls().last().0.0 == if string_views(o.blocked_pops@).contains(
                o.selectable_pops@[o.selected_index as int].0@) {
                RequestKind::Unblock
            } else {
                RequestKind::Block
            },
{
}

impl<F: FirewallDriver> AppState<F> {
    /// Reacts to a key press as the UI loop does.
    pub fn handle_key(&mut self, key: KeyPress) -> (a: KeyAction)
        requires
            old(self).wf(),
        ensures
            final(self).wf(),
            key_step(*old(self), key, *final(self), a),
    {
        let c = key.code;
        if c == KeyCode::Char('q') || c == KeyCode::Char('Q') || c == KeyCode::Esc {
            if self.show_settings {
                self.show_settings = false;
                KeyAction::SettingsClosed
            } else {
                self.should_quit = true;
                KeyAction::Quit
            }
        } else if c == KeyCode::Char('c') && key.ctrl {
            self.should_quit = true;
            KeyAction::Quit
        } else if c == KeyCode::Char('s') || c == KeyCode::Char('S') {
            self.show_settings = !self.show_settings;
            KeyAction::SettingsToggled
        } else if c == KeyCode::Up || c == KeyCode::Char('k') {
            if !self.show_settings && self.selectable_pops.len() > 0 {
                if self.selected_index > 0 {
                    self.selected_index = self.selected_index - 1;
                }
                KeyAction::Moved
            } else {
                KeyAction::Ignored
            }
        } else if c == KeyCode::Down || c == KeyCode::Char('j') {
            if !self.show_settings && self.selectable_pops.len() > 0 {
                if self.selected_index < self.selectable_pops.len() - 1 {
                    self.selected_index = self.selected_index + 1;
                }
                KeyAction::Moved
            } else {
                KeyAction::Ignored
            }
        } else if c == KeyCode::Char(' ') || c == KeyCode::Enter {
            if self.show_settings {
                self.toggle_persist_setting();
                KeyAction::PersistToggled
            } else if self.selectable_pops.len() == 0 {
                KeyAction::Ignored
            } else {
                self.toggle_selected();
                KeyAction::PopToggled
            }
        } else if c == KeyCode::Char('r') || c == KeyCode::Char('R') {
            if !self.show_settings {
                self.unblock_all();
                KeyAction::AllUnblocked
            } else {
                KeyAction::Ignored
            }
        } else {
            KeyAction::Ignored
        }
    }
}

} // verus!

verus! {

// ---------------------------------------------------------------------
// Laws of the blocked set
// ---------------------------------------------------------------------

proof fn lemma_filter_keeps_all(s: Seq<Seq<char>>, c: Seq<char>)
    requires
        !s.contains(c),
    ensures
        without(s, c) == s,
    decreases s.len(),
{
    reveal_with_fuel(Seq::filter, 1);
    if s.len() > 0 {
        let rest = s.drop_last();
        assert(!rest.contains(c)) by {
            if rest.contains(c) {
                let k = choose|k: int| 0 <= k < rest.len() && rest[k] == c;
                assert(s[k] == c);
            }
        }
        lemma_filter_keeps_all(rest, c);
        assert(s.last() != c) by {
            assert(s[s.len() - 1] == s.last());
        }
        assert(rest.push(s.last()) =~= s);
    }
}

/// Toggling a PoP twice, both firewall calls succeeding, blocks the same
/// PoPs as before; when the PoP was allowed, the list is exactly as before.
pub proof fn lemma_toggle_twice(s: Seq<Seq<char>>, c: Seq<char>)
    requires
        no_repeats(s),
    ensures
        toggled(toggled(s, c), c).to_set() == s.to_set(),
        !s.contains(c) ==> toggled(toggled(s, c), c) == s,
{
    if s.contains(c) {
        lemma_without_no_repeats(s, c);
        let w = without(s, c);
        assert(toggled(s, c) == w);
        assert(toggled(w, c) == w.push(c));
        assert forall|y: Seq<char>| #[trigger] w.push(c).to_set().contains(y) == s.to_set().contains(y) by {
            if w.push(c).contains(y) {
                let k = choose|k: int| 0 <= k < w.push(c).len() && w.push(c)[k] == y;
                if k < w.len() {
                    assert(w.contains(y));
                }
            }
            if s.contains(y) && y != c {
                assert(w.contains(y));
                let k = choose|k: int| 0 <= k < w.len() && w[k] == y;
                assert(w.push(c)[k] == y);
            }
            if y == c {
                assert(w.push(c)[w.len() as int] == c);
            }
        }
        assert(toggled(toggled(s, c), c).to_set() =~= s.to_set());
    } else {
        let p = s.push(c);
        assert(p[s.len() as int] == c);
        assert(toggled(s, c) == p);
        assert(toggled(p, c) == without(p, c));
        reveal_with_fuel(Seq::filter, 1);
        assert(p.drop_last() =~= s);
        lemma_filter_keeps_all(s, c);
        assert(without(p, c) == without(s, c));
    }
}

/// Toggling the selected PoP hands the firewall the PoP's code and the IPv4
/// subnet of every one of its relays, in order.
pub proof fn lemma_toggle_hands_all_relays<F: FirewallDriver>(o: AppState<F>, f: AppState<F>, i: int)
    requires
        o.wf(),
        distinct_codes(o.pops@),
        toggled_selected(o, f),
        0 <= i < o.pops@.len(),
        selected_code(o) == Some(o.pops@[i].0@),
    ensures
        f.firewall.calls().len() == o.firewall.calls().len() + 1,
        f.firewall.calls().last().0.1 == o.pops@[i].0@,
        o.pops@[i].1.relays is None ==> f.firewall.calls().last().0.2.len() == 0,
        o.pops@[i].1.relays matches Some(r) ==> f.firewall.calls().last().0.2.len() == r@.len()
            && forall|k: int| 0 <= k < r@.len() ==> #[trigger] f.firewall.calls().last().0.2[k] == r@[k].ipv4@,
{
    let c = o.pops@[i].0@;
    assert(first_position(o.pops@, c, i));
    lemma_position_of(o.pops@, c, i);
    assert(codes_of(o.pops@)[i] == c);
    lemma_relay_subnets(o.pops@[i].1);
}

/// Toggling the selected PoP twice, the firewall answering Ok both times,
/// blocks the same PoPs as before, and asks the firewall first to block (or
/// unblock) the PoP's relay subnets and then to undo it with the same
/// subnets.
pub proof fn lemma_toggle_selected_twice<F: FirewallDriver>(s0: AppState<F>, s1: AppState<F>, s2: AppState<F>, c: Seq<char>)
    requires
        s0.wf(),
        toggled_selected(s0, s1),
        toggled_selected(s1, s2),
        selected_code(s0) == Some(c),
        codes_of(s0.pops@).contains(c),
        s1.firewall.calls().last().1 is Ok,
        s2.firewall.calls().last().1 is Ok,
    ensures
        string_views(s2.blocked_pops@).to_set() == string_views(s0.blocked_pops@).to_set(),
        string_views(s2.settings.blocked_pops@) == string_views(s2.blocked_pops@),
        s2.firewall.calls().len() == s0.firewall.calls().len() + 2,
        s2.firewall.calls().take(s0.firewall.calls().len() as int) == s0.firewall.calls(),
        requests_of(s2.firewall.calls().skip(s0.firewall.calls().len() as int)) == if string_views(s0.blocked_pops@).contains(c) {
            seq![unblock_request(c, subnets_of(s0.pops@, c)), block_request(c, subnets_of(s0.pops@, c))]
        } else {
            seq![block_request(c, subnets_of(s0.pops@, c)), unblock_request(c, subnets_of(s0.pops@, c))]
        },
{
    let b0 = string_views(s0.blocked_pops@);
    lemma_toggle_twice(b0, c);
    if b0.contains(c) {
        lemma_without_no_repeats(b0, c);
    } else {
        assert(b0.push(c)[b0.len() as int] == c);
    }
    assert(selected_code(s1) == Some(c));
    let c0 = s0.firewall.calls();
    let c1 = s1.firewall.calls();
    let c2 = s2.firewall.calls();
    assert(c1 =~= c0.push(c1.last()));
    assert(c2 =~= c1.push(c2.last()));
    assert(c2.take(c0.len() as int) =~= c0);
    assert(c2.skip(c0.len() as int) =~= seq![c1.last(), c2.last()]);
    assert(requests_of(c2.skip(c0.len() as int)) =~= seq![c1.last().0, c2.last().0]);
}

} // verus!

verus! {

impl<F: FirewallDriver> AppState<F> {
    /// On exit, clears the application's firewall rules unless the settings
    /// say they persist; returns whether it cleared them.
    pub fn clean_up_on_exit(&mut self) -> (cleared: bool)
        requires
            old(self).wf(),
        ensures
            final(self).wf(),
            cleared == !old(self).settings.persist_rules_on_exit,
            cleared ==> asked_once(old(self).firewall.calls(), final(self).firewall.calls(), clear_request()),
            !cleared ==> final(self).firewall == old(self).firewall,
            final(self).pops == old(self).pops,
            final(self).selectable_pops == old(self).selectable_pops,
            final(self).selected_index == old(self).selected_index,
            final(self).config_manager == old(self).config_manager,
            final(self).settings == old(self).settings,
            final(self).blocked_pops == old(self).blocked_pops,
            final(self).show_settings == old(self).show_settings,
            final(self).should_quit == old(self).should_quit,
    {
        if !self.settings.persist_rules_on_exit {
            let ghost before = self.firewall.calls();
            let r = self.firewall.clear_all();
            proof { lemma_asked_once(before, clear_request(), done_answer(r)); }
            true
        } else {
            false
        }
    }
}

} // verus!
