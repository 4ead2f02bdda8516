//! Steam Datagram Relay points of presence (PoPs): their data, the
//! filtering of a fetched configuration, and their grouping by region.

use vstd::prelude::*;
use crate::text::{chars_of, seq_eq, string_views};

verus! {

// ---------------------------------------------------------------------
// Regions
// ---------------------------------------------------------------------

pub open spec fn north_america_codes() -> Seq<Seq<char>> {
    seq![
        "sea"@, "ord"@, "lax"@, "dfw"@, "atl"@, "iad"@, "pdx"@, "phx"@, "mco"@, "den"@,
        "eat"@, "ord2"@, "iad2"@, "sea2"@, "lax2"@,
    ]
}

pub open spec fn europe_codes() -> Seq<Seq<char>> {
    seq![
        "ams"@, "fra"@, "lhr"@, "cdg"@, "mad"@, "sto"@, "vie"@, "waw"@, "par"@, "muc"@,
        "hel"@, "gva"@, "prg"@, "bud"@, "fsn"@, "ams2"@, "fra2"@, "sto2"@,
    ]
}

pub open spec fn asia_codes() -> Seq<Seq<char>> {
    seq![
        "hkg"@, "sgp"@, "tyo"@, "sel"@, "bom"@, "dxb"@, "shb"@, "shh"@, "can"@, "wuh"@,
        "tsn"@, "pek"@, "bom2"@, "maa2"@, "seo"@, "sgp2"@, "tyo2"@, "sel2"@, "dxb2"@, "hkg2"@,
        "pekm"@, "pekt"@, "peku"@, "ctum"@, "ctut"@, "ctuu"@, "pvgm"@, "pvgt"@, "pvgu"@,
        "tgdm"@, "tgdt"@, "tgdu"@, "pwg"@, "pww"@, "pvg"@,
    ]
}

pub open spec fn south_america_codes() -> Seq<Seq<char>> {
    seq!["gru"@, "scl"@, "lim"@, "eze"@, "bue"@, "gru2"@, "scl2"@, "lim2"@]
}

pub open spec fn oceania_codes() -> Seq<Seq<char>> {
    seq!["syd"@, "akl"@, "syd2"@, "akl2"@]
}

pub open spec fn africa_codes() -> Seq<Seq<char>> {
    seq!["jnb"@, "cpt"@, "jnb2"@, "cpt2"@]
}

/// The region that a (lower-case) PoP code belongs to.
pub open spec fn region_name(code: Seq<char>) -> Seq<char> {
    if north_america_codes().contains(code) {
        "North America"@
    } else if europe_codes().contains(code) {
        "Europe"@
    } else if asia_codes().contains(code) {
        "Asia"@
    } else if south_america_codes().contains(code) {
        "South America"@
    } else if oceania_codes().contains(code) {
        "Oceania"@
    } else if africa_codes().contains(code) {
        "Africa"@
    } else {
        "Other / Unknown"@
    }
}

/// What `str::to_lowercase` returns for a string (Unicode lower-case mapping).
pub uninterp spec fn lowercase(s: Seq<char>) -> Seq<char>;

/// Whether every character of `s` is ASCII.
pub open spec fn ascii_text(s: Seq<char>) -> bool {
    forall|i: int| 0 <= i < s.len() ==> (s[i] as int) < 128
}

/// An ASCII upper-case letter made lower case; any other character as it is.
pub open spec fn ascii_lower_char(c: char) -> char {
    if 'A' <= c && c <= 'Z' { ((c as int) + 32) as char } else { c }
}

/// `s` with its ASCII upper-case letters made lower case.
pub open spec fn ascii_lowered(s: Seq<char>) -> Seq<char> {
    s.map_values(|c: char| ascii_lower_char(c))
}

/// Calls `str::to_lowercase`. The contract names the result `lowercase` of
/// the argument (a function of the argument alone), and states what the
/// documentation gives for ASCII text: upper-case letters become lower
/// case, everything else stays.
#[verifier::external_body]
fn to_lowercase(s: &str) -> (r: String)
    ensures
        r@ == lowercase(s@),
        ascii_text(s@) ==> r@ == ascii_lowered(s@),
{
    s.to_lowercase()
}

/// Whether `code` is one of the codes of `list`.
fn code_listed(code: &[char], list: Vec<&'static str>) -> (r: bool)
    ensures
        r == list@.map_values(|s: &str| s@).contains(code@),
{
    let ghost views = list@.map_values(|s: &str| s@);
    let mut i: usize = 0;
    while i < list.len()
        invariant
            i <= list@.len(),
            views == list@.map_values(|s: &str| s@),
            forall|j: int| 0 <= j < i ==> views[j] != code@,
        decreases list@.len() - i,
    {
        let c = chars_of(list[i]);
        if seq_eq(&c, code) {
            assert(views[i as int] == code@);
            return true;
        }
        i = i + 1;
    }
    proof {
        if views.contains(code@) {
            let k = choose|k: int| 0 <= k < views.len() && views[k] == code@;
            assert(views[k] != code@);
        }
    }
    false
}

/// The region of a PoP code that is already in lower case.
pub fn region_of_lowercase(code: &str) -> (r: &'static str)
    ensures
        r@ == region_name(code@),
{
    let c = chars_of(code);
    let na = vec![
        "sea", "ord", "lax", "dfw", "atl", "iad", "pdx", "phx", "mco", "den",
        "eat", "ord2", "iad2", "sea2", "lax2",
    ];
    assert(na@.map_values(|s: &str| s@) =~= north_america_codes());
    if code_listed(&c, na) {
        return "North America";
    }
    let eu = vec![
        "ams", "fra", "lhr", "cdg", "mad", "sto", "vie", "waw", "par", "muc",
        "hel", "gva", "prg", "bud", "fsn", "ams2", "fra2", "sto2",
    ];
    assert(eu@.map_values(|s: &str| s@) =~= europe_codes());
    if code_listed(&c, eu) {
        return "Europe";
    }
    let asia = vec![
        "hkg", "sgp", "tyo", "sel", "bom", "dxb", "shb", "shh", "can", "wuh",
        "tsn", "pek", "bom2", "maa2", "seo", "sgp2", "tyo2", "sel2", "dxb2", "hkg2",
        "pekm", "pekt", "peku", "ctum", "ctut", "ctuu", "pvgm", "pvgt", "pvgu",
        "tgdm", "tgdt", "tgdu", "pwg", "pww", "pvg",
    ];
    assert(asia@.map_values(|s: &str| s@) =~= asia_codes());
    if code_listed(&c, asia) {
        return "Asia";
    }
    let sa = vec!["gru", "scl", "lim", "eze", "bue", "gru2", "scl2", "lim2"];
    assert(sa@.map_values(|s: &str| s@) =~= south_america_codes());
    if code_listed(&c, sa) {
        return "South America";
    }
    let oc = vec!["syd", "akl", "syd2", "akl2"];
    assert(oc@.map_values(|s: &str| s@) =~= oceania_codes());
    if code_listed(&c, oc) {
        return "Oceania";
    }
    let af = vec!["jnb", "cpt", "jnb2", "cpt2"];
    assert(af@.map_values(|s: &str| s@) =~= africa_codes());
    if code_listed(&c, af) {
        return "Africa";
    }
    "Other / Unknown"
}

/// Maps a PoP code, in any letter case, to its geographical region.
pub fn get_region_for_pop(code: &str) -> (r: &'static str)
    ensures
        r@ == region_name(lowercase(code@)),
        ascii_text(code@) ==> r@ == region_name(ascii_lowered(code@)),
{
    let lower = to_lowercase(code);
    region_of_lowercase(lower.as_str())
}

/// The region of an ASCII code does not depend on letter case: the lower-case
/// form is ASCII and already lower case, so looking it up gives the region
/// of the code itself.
pub proof fn lemma_region_ignores_case(code: Seq<char>)
    requires
        ascii_text(code),
    ensures
        ascii_text(ascii_lowered(code)),
        ascii_lowered(ascii_lowered(code)) == ascii_lowered(code),
        region_name(ascii_lowered(ascii_lowered(code))) == region_name(ascii_lowered(code)),
{
    let l = ascii_lowered(code);
    assert forall|i: int| 0 <= i < l.len() implies (l[i] as int) < 128 by {
        assert(l[i] == ascii_lower_char(code[i]));
    }
    assert forall|i: int| 0 <= i < l.len() implies #[trigger] ascii_lowered(l)[i] == l[i] by {
        assert(l[i] == ascii_lower_char(code[i]));
    }
    assert(ascii_lowered(l) =~= l);
}

/// Every code falls in one of the seven regions.
pub proof fn lemma_region_names(code: Seq<char>)
    ensures
        region_name(code) == "North America"@ || region_name(code) == "Europe"@ || region_name(code) == "Asia"@
            || region_name(code) == "South America"@ || region_name(code) == "Oceania"@
            || region_name(code) == "Africa"@ || region_name(code) == "Other / Unknown"@,
{
}

} // verus!

verus! {

// ---------------------------------------------------------------------
// Relay configuration
// ---------------------------------------------------------------------

/// One relay of a PoP: an IPv4 subnet and, optionally, its port range.
#[derive(Debug, Clone)]
pub struct Relay {
    pub ipv4: String,
    pub port_range: Option<Vec<u32>>,
}

/// A point of presence: its description and relays.
#[derive(Debug, Clone)]
pub struct PoP {
    pub desc: String,
    pub aliases: Option<Vec<String>>,
    pub relays: Option<Vec<Relay>>,
}

/// PoPs keyed by their code, each code at most once (the JSON object of
/// the SDR configuration), in the order they were first stored.
#[derive(Debug)]
pub struct PopMap {
    entries: Vec<(String, PoP)>,
}

/// The configuration document that Valve's SDR API returns.
#[derive(Debug)]
pub struct SdrConfig {
    pub pops: PopMap,
    pub success: bool,
}

/// The codes of a sequence of entries, in order.
pub open spec fn codes_of(entries: Seq<(String, PoP)>) -> Seq<Seq<char>> {
    entries.map_values(|e: (String, PoP)| e.0@)
}

/// No code occurs twice.
pub open spec fn distinct_codes(entries: Seq<(String, PoP)>) -> bool {
    forall|i: int, j: int|
        0 <= i < entries.len() && 0 <= j < entries.len() && i != j ==> entries[i].0@ != entries[j].0@
}

/// Whether position `i` holds the first entry for `code`.
pub open spec fn first_position(entries: Seq<(String, PoP)>, code: Seq<char>, i: int) -> bool {
    0 <= i < entries.len() && entries[i].0@ == code && forall|j: int| 0 <= j < i ==> entries[j].0@ != code
}

/// The position of the first entry for `code`, if there is one.
pub open spec fn position_of(entries: Seq<(String, PoP)>, code: Seq<char>) -> Option<int> {
    if exists|i: int| first_position(entries, code, i) {
        Some(choose|i: int| first_position(entries, code, i))
    } else {
        None
    }
}

/// `position_of` names the first entry for `code`, and is `None` exactly
/// when no entry has that code.
pub proof fn lemma_position_of(entries: Seq<(String, PoP)>, code: Seq<char>, i: int)
    requires
        first_position(entries, code, i),
    ensures
        position_of(entries, code) == Some(i),
{
    let k = choose|k: int| first_position(entries, code, k);
    assert(first_position(entries, code, k));
    if k < i {
        assert(entries[k].0@ != code);
    }
    if i < k {
        assert(entries[i].0@ != code);
    }
}

/// Whether a PoP has at least one relay.
pub open spec fn has_relays(pop: PoP) -> bool {
    pop.relays matches Some(r) && r@.len() > 0
}

/// The IPv4 subnets of a PoP's relays, in order (none when it has no relay list).
pub open spec fn relay_subnets(pop: PoP) -> Seq<Seq<char>> {
    match pop.relays {
        Some(r) => r@.map_values(|relay: Relay| relay.ipv4@),
        None => Seq::empty(),
    }
}

/// The subnets of a PoP are the IPv4 subnet of every one of its relays,
/// in order, and none when it has no relay list.
pub proof fn lemma_relay_subnets(pop: PoP)
    ensures
        pop.relays is None ==> relay_subnets(pop).len() == 0,
        pop.relays matches Some(r) ==> relay_subnets(pop).len() == r@.len()
            && forall|k: int| 0 <= k < r@.len() ==> #[trigger] relay_subnets(pop)[k] == r@[k].ipv4@,
{
}

/// The entries after storing `pop` under `code`: the first entry for the
/// code is replaced, or the pair is added at the end.
pub open spec fn inserted(entries: Seq<(String, PoP)>, code: String, pop: PoP) -> Seq<(String, PoP)> {
    match position_of(entries, code@) {
        Some(i) => entries.update(i, (code, pop)),
        None => entries.push((code, pop)),
    }
}

/// Looking a code up after storing a PoP under it gives that PoP, and
/// leaves the lookups of the other codes as they were.
pub proof fn lemma_lookup_after_insert(entries: Seq<(String, PoP)>, code: String, pop: PoP, other: Seq<char>)
    requires
        other != code@,
    ensures
        position_of(inserted(entries, code, pop), code@) matches Some(i)
            && inserted(entries, code, pop)[i] == (code, pop),
        match (position_of(inserted(entries, code, pop), other), position_of(entries, other)) {
            (Some(i), Some(j)) => i == j && inserted(entries, code, pop)[i] == entries[j],
            (None, None) => true,
            _ => false,
        },
{
    let after = inserted(entries, code, pop);
    match position_of(entries, code@) {
        Some(i) => {
            let k = choose|k: int| first_position(entries, code@, k);
            assert(first_position(entries, code@, k));
            lemma_position_of(entries, code@, k);
            assert(first_position(after, code@, i));
            lemma_position_of(after, code@, i);
        },
        None => {
            assert forall|k: int| 0 <= k < entries.len() implies entries[k].0@ != code@ by {
                if entries[k].0@ == code@ {
                    lemma_least_entry(entries, code@, k);
                }
            }
            assert(first_position(after, code@, entries.len() as int));
            lemma_position_of(after, code@, entries.len() as int);
        },
    }
    match position_of(entries, other) {
        Some(j) => {
            let k = choose|k: int| first_position(entries, other, k);
            assert(first_position(entries, other, k));
            assert(first_position(after, other, k));
            lemma_position_of(after, other, k);
            lemma_position_of(entries, other, k);
        },
        None => {
            if exists|k: int| first_position(after, other, k) {
                let k = choose|k: int| first_position(after, other, k);
                assert(after[k].0@ == other);
                if k < entries.len() {
                    assert(entries[k].0@ == other);
                    lemma_least_entry(entries, other, k);
                }
            }
        },
    }
}

/// When some entry has `code`, a first one does.
pub proof fn lemma_least_entry(entries: Seq<(String, PoP)>, code: Seq<char>, w: int)
    requires
        0 <= w < entries.len(),
        entries[w].0@ == code,
    ensures
        exists|i: int| first_position(entries, code, i),
    decreases w,
{
    if exists|j: int| 0 <= j < w && entries[j].0@ == code {
        let j = choose|j: int| 0 <= j < w && entries[j].0@ == code;
        lemma_least_entry(entries, code, j);
    } else {
        assert(first_position(entries, code, w));
    }
}

impl View for PopMap {
    type V = Seq<(String, PoP)>;

    closed spec fn view(&self) -> Seq<(String, PoP)> {
        self.entries@
    }
}

impl PopMap {
    /// No code is stored twice.
    #[verifier::type_invariant]
    pub closed spec fn codes_unique(self) -> bool {
        distinct_codes(self.entries@)
    }

    /// The invariant says that the view holds each code once.
    pub proof fn lemma_codes_unique(self)
        requires
            self.codes_unique(),
        ensures
            distinct_codes(self@),
    {
    }

    /// An empty map.
    pub fn new() -> (m: PopMap)
        ensures
            m@ == Seq::<(String, PoP)>::empty(),
    {
        PopMap { entries: Vec::new() }
    }

    /// The number of PoPs; each code is stored once.
    pub fn len(&self) -> (n: usize)
        ensures
            n == self@.len(),
            distinct_codes(self@),
    {
        proof { use_type_invariant(self); }
        self.entries.len()
    }

    /// Whether there is no PoP.
    pub fn is_empty(&self) -> (b: bool)
        ensures
            b == (self@.len() == 0),
    {
        self.entries.len() == 0
    }

    /// The position of `code` among the entries (executable).
    fn find_code(&self, code: &[char]) -> (r: Option<usize>)
        ensures
            match r {
                Some(i) => i < self@.len() && self@[i as int].0@ == code@
                    && forall|j: int| 0 <= j < i ==> self@[j].0@ != code@,
                None => forall|j: int| 0 <= j < self@.len() ==> self@[j].0@ != code@,
            },
    {
        let mut i: usize = 0;
        while i < self.entries.len()
            invariant
                i <= self@.len(),
                forall|j: int| 0 <= j < i ==> self@[j].0@ != code@,
            decreases self@.len() - i,
        {
            let k = chars_of(self.entries[i].0.as_str());
            if seq_eq(&k, code) {
                return Some(i);
            }
            i = i + 1;
        }
        None
    }

    /// Whether a PoP with this code is present.
    pub fn contains_key(&self, code: &str) -> (b: bool)
        ensures
            b == codes_of(self@).contains(code@),
    {
        let c = chars_of(code);
        let r = self.find_code(&c);
        proof {
            if codes_of(self@).contains(code@) {
                let k = choose|k: int| 0 <= k < codes_of(self@).len() && codes_of(self@)[k] == code@;
                assert(self@[k].0@ == code@);
            }
            if r is Some {
                assert(codes_of(self@)[r->0 as int] == code@);
            }
        }
        r.is_some()
    }

    /// The PoP stored under `code`, if any.
    pub fn get(&self, code: &str) -> (r: Option<&PoP>)
        ensures
            match (r, position_of(self@, code@)) {
                (Some(p), Some(i)) => self@[i].1 == *p,
                (None, None) => true,
                _ => false,
            },
            r is None <==> !codes_of(self@).contains(code@),
            distinct_codes(self@),
    {
        proof { use_type_invariant(self); }
        let c = chars_of(code);
        match self.find_code(&c) {
            Some(i) => {
                proof {
                    lemma_position_of(self@, code@, i as int);
                    assert(codes_of(self@)[i as int] == code@);
                }
                Some(&self.entries[i].1)
            },
            None => {
                proof {
                    if codes_of(self@).contains(code@) {
                        let k = choose|k: int| 0 <= k < codes_of(self@).len() && codes_of(self@)[k] == code@;
                        assert(self@[k].0@ == code@);
                    }
                    if exists|k: int| first_position(self@, code@, k) {
                        let k = choose|k: int| first_position(self@, code@, k);
                        assert(self@[k].0@ == code@);
                    }
                }
                None
            },
        }
    }

    /// Stores `pop` under `code`, replacing the PoP stored there before.
    pub fn insert(&mut self, code: String, pop: PoP)
        ensures
            final(self)@ == inserted(old(self)@, code, pop),
            distinct_codes(final(self)@),
    {
        proof { use_type_invariant(&*self); }
        let c = chars_of(code.as_str());
        let found = self.find_code(&c);
        let mut entries: Vec<(String, PoP)> = Vec::new();
        std::mem::swap(&mut entries, &mut self.entries);
        match found {
            Some(i) => {
                proof {
                    lemma_position_of(old(self)@, code@, i as int);
                }
                entries.set(i, (code, pop));
            },
            None => {
                proof {
                    if exists|k: int| first_position(old(self)@, code@, k) {
                        let k = choose|k: int| first_position(old(self)@, code@, k);
                        assert(old(self)@[k].0@ == code@);
                    }
                }
                entries.push((code, pop));
            },
        }
        self.entries = entries;
    }

    /// The PoP of the entry at position `i`.
    pub fn entry_at(&self, i: usize) -> (p: &PoP)
        requires
            i < self@.len(),
        ensures
            *p == self@[i as int].1,
    {
        &self.entries[i].1
    }

    /// The entries, consumed.
    pub fn into_entries(self) -> (v: Vec<(String, PoP)>)
        ensures
            v@ == self@,
            distinct_codes(v@),
    {
        proof { use_type_invariant(&self); }
        self.entries
    }

    /// The codes of the PoPs, in the order of the entries, each once.
    pub fn codes(&self) -> (v: Vec<String>)
        ensures
            string_views(v@) == codes_of(self@),
            distinct_codes(self@),
    {
        proof { use_type_invariant(self); }
        let mut v: Vec<String> = Vec::new();
        let mut i: usize = 0;
        while i < self.entries.len()
            invariant
                i <= self@.len(),
                string_views(v@) == codes_of(self@).take(i as int),
            decreases self@.len() - i,
        {
            let c = self.entries[i].0.clone();
            let ghost before = v@;
            v.push(c);
            proof {
                assert(v@ == before.push(c));
                assert(string_views(before).len() == i);
                assert forall|j: int| 0 <= j <= i implies #[trigger] string_views(v@)[j] == codes_of(self@)[j] by {
                    if j < i {
                        assert(string_views(before)[j] == codes_of(self@).take(i as int)[j]);
                    }
                }
                assert(string_views(v@) =~= codes_of(self@).take(i + 1));
            }
            i = i + 1;
        }
        assert(codes_of(self@).take(i as int) =~= codes_of(self@));
        v
    }
}

} // verus!

verus! {

/// The entries that the relay configuration keeps: those with a relay.
pub open spec fn usable_entry() -> spec_fn((String, PoP)) -> bool {
    |e: (String, PoP)| has_relays(e.1)
}

fn pop_has_relays(pop: &PoP) -> (b: bool)
    ensures
        b == has_relays(*pop),
{
    match &pop.relays {
        Some(r) => r.len() > 0,
        None => false,
    }
}

impl SdrConfig {
    /// The PoPs of the configuration that have at least one relay, in their
    /// order; the others cannot be blocked or pinged and are dropped.
    pub fn into_usable_pops(self) -> (m: PopMap)
        ensures
            m@ == self.pops@.filter(usable_entry()),
            distinct_codes(m@),
    {
        let entries = self.pops.into_entries();
        let ghost all = entries@;
        let mut kept: Vec<(String, PoP)> = Vec::new();
        for e in it: entries.into_iter()
            invariant
                all == it.seq(),
                kept@ == all.take(it.index() as int).filter(usable_entry()),
        {
            let ghost k = it.index();
            proof {
                assert(all.take(k + 1) == all.take(k as int).push(e));
                all.take(k as int).lemma_filter_push(e, usable_entry());
            }
            if pop_has_relays(&e.1) {
                kept.push(e);
            }
        }
        proof {
            assert(all.take(all.len() as int) == all);
            if distinct_codes(all) {
                let f = all.filter(usable_entry());
                assert forall|i: int, j: int| 0 <= i < f.len() && 0 <= j < f.len() && i != j implies f[i].0@ != f[j].0@ by {
                    lemma_filter_keeps_distinct(all, i, j);
                }
            }
        }
        PopMap { entries: kept }
    }
}

proof fn lemma_filter_keeps_distinct(all: Seq<(String, PoP)>, i: int, j: int)
    requires
        distinct_codes(all),
        0 <= i < all.filter(usable_entry()).len(),
        0 <= j < all.filter(usable_entry()).len(),
        i != j,
    ensures
        all.filter(usable_entry())[i].0@ != all.filter(usable_entry())[j].0@,
    decreases all.len(),
{
    let f = all.filter(usable_entry());
    reveal_with_fuel(Seq::filter, 1);
    if all.len() > 0 {
        let rest = all.drop_last();
        let x = all.last();
        assert(all == rest.push(x));
        rest.lemma_filter_push(x, usable_entry());
        assert(distinct_codes(rest));
        let fr = rest.filter(usable_entry());
        if usable_entry()(x) {
            assert(f == fr.push(x));
            if i < fr.len() && j < fr.len() {
                lemma_filter_keeps_distinct(rest, i, j);
            } else {
                let other = if i < fr.len() { i } else { j };
                assert(fr.contains(fr[other]));
                rest.lemma_filter_contains_rev(usable_entry(), fr[other]);
                assert(rest.contains(fr[other]));
                let k = choose|k: int| 0 <= k < rest.len() && rest[k] == fr[other];
                assert(all[k] == rest[k]);
                assert(all[all.len() - 1] == x);
            }
        } else {
            assert(f == fr);
            lemma_filter_keeps_distinct(rest, i, j);
        }
    }
}

} // verus!

verus! {

fn relay_of(subnet: &str) -> (r: Relay)
    ensures
        r.ipv4@ == subnet@,
        r.port_range is None,
{
    Relay { ipv4: String::from_str(subnet), port_range: None }
}

/// The PoP table used when Valve's API cannot be reached.
pub fn get_fallback_sdr_config() -> (m: PopMap)
    ensures
        codes_of(m@) == seq!["sea"@, "fra"@],
        m@[0].1.desc@ == "Seattle (Washington)"@,
        relay_subnets(m@[0].1) == seq!["192.69.96.0/22"@],
        m@[1].1.desc@ == "Frankfurt (Germany)"@,
        relay_subnets(m@[1].1) == seq!["155.133.226.0/24"@],
        distinct_codes(m@),
{
    let mut pops = PopMap::new();
    let sea = PoP {
        desc: String::from_str("Seattle (Washington)"),
        aliases: None,
        relays: Some(vec![relay_of("192.69.96.0/22")]),
    };
    let fra = PoP {
        desc: String::from_str("Frankfurt (Germany)"),
        aliases: None,
        relays: Some(vec![relay_of("155.133.226.0/24")]),
    };
    proof {
        reveal_strlit("sea");
        reveal_strlit("fra");
    }
    pops.insert(String::from_str("sea"), sea);
    assert(pops@.len() == 1);
    assert(pops@[0].0@ == "sea"@);
    assert(!exists|i: int| first_position(pops@, "fra"@, i)) by {
        assert("sea"@[0] != "fra"@[0]);
    }
    pops.insert(String::from_str("fra"), fra);
    assert(pops@.len() == 2);
    let config = SdrConfig { pops, success: true };
    let ghost before = config.pops@;
    let m = config.into_usable_pops();
    proof {
        reveal_with_fuel(Seq::filter, 3);
        assert(before.drop_last().drop_last() =~= Seq::<(String, PoP)>::empty());
        assert(has_relays(before[0].1));
        assert(has_relays(before[1].1));
        assert(m@ =~= before);
        assert(codes_of(m@) =~= seq!["sea"@, "fra"@]);
        assert(relay_subnets(m@[0].1) =~= seq!["192.69.96.0/22"@]);
        assert(relay_subnets(m@[1].1) =~= seq!["155.133.226.0/24"@]);
    }
    m
}

} // verus!

verus! {

// ---------------------------------------------------------------------
// The region table
// ---------------------------------------------------------------------

/// Whether `c` is in `list` at position `i` or later.
spec fn listed_from(list: Seq<Seq<char>>, c: Seq<char>, i: int) -> bool
    decreases list.len() - i,
{
    if i < 0 || i >= list.len() {
        false
    } else {
        list[i] == c || listed_from(list, c, i + 1)
    }
}

proof fn lemma_listed_from(list: Seq<Seq<char>>, c: Seq<char>, i: int)
    requires
        0 <= i <= list.len(),
    ensures
        listed_from(list, c, i) <==> exists|j: int| i <= j < list.len() && list[j] == c,
    decreases list.len() - i,
{
    if i < list.len() {
        lemma_listed_from(list, c, i + 1);
    }
}

/// Each North America code of the table maps to "North America".
pub proof fn lemma_north_america_region()
    ensures
        region_name("sea"@) == "North America"@,
        region_name("ord"@) == "North America"@,
        region_name("lax"@) == "North America"@,
        region_name("dfw"@) == "North America"@,
        region_name("atl"@) == "North America"@,
        region_name("iad"@) == "North America"@,
        region_name("pdx"@) == "North America"@,
        region_name("phx"@) == "North America"@,
        region_name("mco"@) == "North America"@,
        region_name("den"@) == "North America"@,
        region_name("eat"@) == "North America"@,
        region_name("ord2"@) == "North America"@,
        region_name("iad2"@) == "North America"@,
        region_name("sea2"@) == "North America"@,
        region_name("lax2"@) == "North America"@,
{
    reveal_strlit("sea");
    assert("sea"@ =~= seq!['s', 'e', 'a']);
    reveal_strlit("ord");
    assert("ord"@ =~= seq!['o', 'r', 'd']);
    reveal_strlit("lax");
    assert("lax"@ =~= seq!['l', 'a', 'x']);
    reveal_strlit("dfw");
    assert("dfw"@ =~= seq!['d', 'f', 'w']);
    reveal_strlit("atl");
    assert("atl"@ =~= seq!['a', 't', 'l']);
    reveal_strlit("iad");
    assert("iad"@ =~= seq!['i', 'a', 'd']);
    reveal_strlit("pdx");
    assert("pdx"@ =~= seq!['p', 'd', 'x']);
    reveal_strlit("phx");
    assert("phx"@ =~= seq!['p', 'h', 'x']);
    reveal_strlit("mco");
    assert("mco"@ =~= seq!['m', 'c', 'o']);
    reveal_strlit("den");
    assert("den"@ =~= seq!['d', 'e', 'n']);
    reveal_strlit("eat");
    assert("eat"@ =~= seq!['e', 'a', 't']);
    reveal_strlit("ord2");
    assert("ord2"@ =~= seq!['o', 'r', 'd', '2']);
    reveal_strlit("iad2");
    assert("iad2"@ =~= seq!['i', 'a', 'd', '2']);
    reveal_strlit("sea2");
    assert("sea2"@ =~= seq!['s', 'e', 'a', '2']);
    reveal_strlit("lax2");
    assert("lax2"@ =~= seq!['l', 'a', 'x', '2']);
    reveal_with_fuel(listed_from, 17);
    assert(region_name("sea"@) == "North America"@) by {
        lemma_listed_from(north_america_codes(), "sea"@, 0);
    }
    assert(region_name("ord"@) == "North America"@) by {
        lemma_listed_from(north_america_codes(), "ord"@, 0);
    }
    assert(region_name("lax"@) == "North America"@) by {
        lemma_listed_from(north_america_codes(), "lax"@, 0);
    }
    assert(region_name("dfw"@) == "North America"@) by {
        lemma_listed_from(north_america_codes(), "dfw"@, 0);
    }
    assert(region_name("atl"@) == "North America"@) by {
        lemma_listed_from(north_america_codes(), "atl"@, 0);
    }
    assert(region_name("iad"@) == "North America"@) by {
        lemma_listed_from(north_america_codes(), "iad"@, 0);
    }
    assert(region_name("pdx"@) == "North America"@) by {
        lemma_listed_from(north_america_codes(), "pdx"@, 0);
    }
    assert(region_name("phx"@) == "North America"@) by {
        lemma_listed_from(north_america_codes(), "phx"@, 0);
    }
    assert(region_name("mco"@) == "North America"@) by {
        lemma_listed_from(north_america_codes(), "mco"@, 0);
    }
    assert(region_name("den"@) == "North America"@) by {
        lemma_listed_from(north_america_codes(), "den"@, 0);
    }
    assert(region_name("eat"@) == "North America"@) by {
        lemma_listed_from(north_america_codes(), "eat"@, 0);
    }
    assert(region_name("ord2"@) == "North America"@) by {
        lemma_listed_from(north_america_codes(), "ord2"@, 0);
    }
    assert(region_name("iad2"@) == "North America"@) by {
        lemma_listed_from(north_america_codes(), "iad2"@, 0);
    }
    assert(region_name("sea2"@) == "North America"@) by {
        lemma_listed_from(north_america_codes(), "sea2"@, 0);
    }
    assert(region_name("lax2"@) == "North America"@) by {
        lemma_listed_from(north_america_codes(), "lax2"@, 0);
    }
}

/// Each Europe code of the table maps to "Europe".
pub proof fn lemma_europe_region()
    ensures
        region_name("ams"@) == "Europe"@,
        region_name("fra"@) == "Europe"@,
        region_name("lhr"@) == "Europe"@,
        region_name("cdg"@) == "Europe"@,
        region_name("mad"@) == "Europe"@,
        region_name("sto"@) == "Europe"@,
        region_name("vie"@) == "Europe"@,
        region_name("waw"@) == "Europe"@,
        region_name("par"@) == "Europe"@,
        region_name("muc"@) == "Europe"@,
        region_name("hel"@) == "Europe"@,
        region_name("gva"@) == "Europe"@,
        region_name("prg"@) == "Europe"@,
        region_name("bud"@) == "Europe"@,
        region_name("fsn"@) == "Europe"@,
        region_name("ams2"@) == "Europe"@,
        region_name("fra2"@) == "Europe"@,
        region_name("sto2"@) == "Europe"@,
{
    reveal_strlit("sea");
    assert("sea"@ =~= seq!['s', 'e', 'a']);
    reveal_strlit("ord");
    assert("ord"@ =~= seq!['o', 'r', 'd']);
    reveal_strlit("lax");
    assert("lax"@ =~= seq!['l', 'a', 'x']);
    reveal_strlit("dfw");
    assert("dfw"@ =~= seq!['d', 'f', 'w']);
    reveal_strlit("atl");
    assert("atl"@ =~= seq!['a', 't', 'l']);
    reveal_strlit("iad");
    assert("iad"@ =~= seq!['i', 'a', 'd']);
    reveal_strlit("pdx");
    assert("pdx"@ =~= seq!['p', 'd', 'x']);
    reveal_strlit("phx");
    assert("phx"@ =~= seq!['p', 'h', 'x']);
    reveal_strlit("mco");
    assert("mco"@ =~= seq!['m', 'c', 'o']);
    reveal_strlit("den");
    assert("den"@ =~= seq!['d', 'e', 'n']);
    reveal_strlit("eat");
    assert("eat"@ =~= seq!['e', 'a', 't']);
    reveal_strlit("ord2");
    assert("ord2"@ =~= seq!['o', 'r', 'd', '2']);
    reveal_strlit("iad2");
    assert("iad2"@ =~= seq!['i', 'a', 'd', '2']);
    reveal_strlit("sea2");
    assert("sea2"@ =~= seq!['s', 'e', 'a', '2']);
    reveal_strlit("lax2");
    assert("lax2"@ =~= seq!['l', 'a', 'x', '2']);
    reveal_strlit("ams");
    assert("ams"@ =~= seq!['a', 'm', 's']);
    reveal_strlit("fra");
    assert("fra"@ =~= seq!['f', 'r', 'a']);
    reveal_strlit("lhr");
    assert("lhr"@ =~= seq!['l', 'h', 'r']);
    reveal_strlit("cdg");
    assert("cdg"@ =~= seq!['c', 'd', 'g']);
    reveal_strlit("mad");
    assert("mad"@ =~= seq!['m', 'a', 'd']);
    reveal_strlit("sto");
    assert("sto"@ =~= seq!['s', 't', 'o']);
    reveal_strlit("vie");
    assert("vie"@ =~= seq!['v', 'i', 'e']);
    reveal_strlit("waw");
    assert("waw"@ =~= seq!['w', 'a', 'w']);
    reveal_strlit("par");
    assert("par"@ =~= seq!['p', 'a', 'r']);
    reveal_strlit("muc");
    assert("muc"@ =~= seq!['m', 'u', 'c']);
    reveal_strlit("hel");
    assert("hel"@ =~= seq!['h', 'e', 'l']);
    reveal_strlit("gva");
    assert("gva"@ =~= seq!['g', 'v', 'a']);
    reveal_strlit("prg");
    assert("prg"@ =~= seq!['p', 'r', 'g']);
    reveal_strlit("bud");
    assert("bud"@ =~= seq!['b', 'u', 'd']);
    reveal_strlit("fsn");
    assert("fsn"@ =~= seq!['f', 's', 'n']);
    reveal_strlit("ams2");
    assert("ams2"@ =~= seq!['a', 'm', 's', '2']);
    reveal_strlit("fra2");
    assert("fra2"@ =~= seq!['f', 'r', 'a', '2']);
    reveal_strlit("sto2");
    assert("sto2"@ =~= seq!['s', 't', 'o', '2']);
    reveal_with_fuel(listed_from, 20);
    assert(region_name("ams"@) == "Europe"@) by {
        lemma_listed_from(north_america_codes(), "ams"@, 0);
        lemma_listed_from(europe_codes(), "ams"@, 0);
    }
    assert(region_name("fra"@) == "Europe"@) by {
        lemma_listed_from(north_america_codes(), "fra"@, 0);
        lemma_listed_from(europe_codes(), "fra"@, 0);
    }
    assert(region_name("lhr"@) == "Europe"@) by {
        lemma_listed_from(north_america_codes(), "lhr"@, 0);
        lemma_listed_from(europe_codes(), "lhr"@, 0);
    }
    assert(region_name("cdg"@) == "Europe"@) by {
        lemma_listed_from(north_america_codes(), "cdg"@, 0);
        lemma_listed_from(europe_codes(), "cdg"@, 0);
    }
    assert(region_name("mad"@) == "Europe"@) by {
        lemma_listed_from(north_america_codes(), "mad"@, 0);
        lemma_listed_from(europe_codes(), "mad"@, 0);
    }
    assert(region_name("sto"@) == "Europe"@) by {
        lemma_listed_from(north_america_codes(), "sto"@, 0);
        lemma_listed_from(europe_codes(), "sto"@, 0);
    }
    assert(region_name("vie"@) == "Europe"@) by {
        lemma_listed_from(north_america_codes(), "vie"@, 0);
        lemma_listed_from(europe_codes(), "vie"@, 0);
    }
    assert(region_name("waw"@) == "Europe"@) by {
        lemma_listed_from(north_america_codes(), "waw"@, 0);
        lemma_listed_from(europe_codes(), "waw"@, 0);
    }
    assert(region_name("par"@) == "Europe"@) by {
        lemma_listed_from(north_america_codes(), "par"@, 0);
        lemma_listed_from(europe_codes(), "par"@, 0);
    }
    assert(region_name("muc"@) == "Europe"@) by {
        lemma_listed_from(north_america_codes(), "muc"@, 0);
        lemma_listed_from(europe_codes(), "muc"@, 0);
    }
    assert(region_name("hel"@) == "Europe"@) by {
        lemma_listed_from(north_america_codes(), "hel"@, 0);
        lemma_listed_from(europe_codes(), "hel"@, 0);
    }
    assert(region_name("gva"@) == "Europe"@) by {
        lemma_listed_from(north_america_codes(), "gva"@, 0);
        lemma_listed_from(europe_codes(), "gva"@, 0);
    }
    assert(region_name("prg"@) == "Europe"@) by {
        lemma_listed_from(north_america_codes(), "prg"@, 0);
        lemma_listed_from(europe_codes(), "prg"@, 0);
    }
    assert(region_name("bud"@) == "Europe"@) by {
        lemma_listed_from(north_america_codes(), "bud"@, 0);
        lemma_listed_from(europe_codes(), "bud"@, 0);
    }
    assert(region_name("fsn"@) == "Europe"@) by {
        lemma_listed_from(north_america_codes(), "fsn"@, 0);
        lemma_listed_from(europe_codes(), "fsn"@, 0);
    }
    assert(region_name("ams2"@) == "Europe"@) by {
        lemma_listed_from(north_america_codes(), "ams2"@, 0);
        lemma_listed_from(europe_codes(), "ams2"@, 0);
    }
    assert(region_name("fra2"@) == "Europe"@) by {
        lemma_listed_from(north_america_codes(), "fra2"@, 0);
        lemma_listed_from(europe_codes(), "fra2"@, 0);
    }
    assert(region_name("sto2"@) == "Europe"@) by {
        lemma_listed_from(north_america_codes(), "sto2"@, 0);
        lemma_listed_from(europe_codes(), "sto2"@, 0);
    }
}

/// The first half of the Asia codes of the table map to "Asia".
#[verifier::spinoff_prover]
pub proof fn lemma_asia_region()
    ensures
        region_name("hkg"@) == "Asia"@,
        region_name("sgp"@) == "Asia"@,
        region_name("tyo"@) == "Asia"@,
        region_name("sel"@) == "Asia"@,
        region_name("bom"@) == "Asia"@,
        region_name("dxb"@) == "Asia"@,
        region_name("shb"@) == "Asia"@,
        region_name("shh"@) == "Asia"@,
        region_name("can"@) == "Asia"@,
        region_name("wuh"@) == "Asia"@,
        region_name("tsn"@) == "Asia"@,
        region_name("pek"@) == "Asia"@,
        region_name("bom2"@) == "Asia"@,
        region_name("maa2"@) == "Asia"@,
        region_name("seo"@) == "Asia"@,
        region_name("sgp2"@) == "Asia"@,
        region_name("tyo2"@) == "Asia"@,
        region_name("sel2"@) == "Asia"@,
{
    reveal_strlit("sea");
    assert("sea"@ =~= seq!['s', 'e', 'a']);
    reveal_strlit("ord");
    assert("ord"@ =~= seq!['o', 'r', 'd']);
    reveal_strlit("lax");
    assert("lax"@ =~= seq!['l', 'a', 'x']);
    reveal_strlit("dfw");
    assert("dfw"@ =~= seq!['d', 'f', 'w']);
    reveal_strlit("atl");
    assert("atl"@ =~= seq!['a', 't', 'l']);
    reveal_strlit("iad");
    assert("iad"@ =~= seq!['i', 'a', 'd']);
    reveal_strlit("pdx");
    assert("pdx"@ =~= seq!['p', 'd', 'x']);
    reveal_strlit("phx");
    assert("phx"@ =~= seq!['p', 'h', 'x']);
    reveal_strlit("mco");
    assert("mco"@ =~= seq!['m', 'c', 'o']);
    reveal_strlit("den");
    assert("den"@ =~= seq!['d', 'e', 'n']);
    reveal_strlit("eat");
    assert("eat"@ =~= seq!['e', 'a', 't']);
    reveal_strlit("ord2");
    assert("ord2"@ =~= seq!['o', 'r', 'd', '2']);
    reveal_strlit("iad2");
    assert("iad2"@ =~= seq!['i', 'a', 'd', '2']);
    reveal_strlit("sea2");
    assert("sea2"@ =~= seq!['s', 'e', 'a', '2']);
    reveal_strlit("lax2");
    assert("lax2"@ =~= seq!['l', 'a', 'x', '2']);
    reveal_strlit("ams");
    assert("ams"@ =~= seq!['a', 'm', 's']);
    reveal_strlit("fra");
    assert("fra"@ =~= seq!['f', 'r', 'a']);
    reveal_strlit("lhr");
    assert("lhr"@ =~= seq!['l', 'h', 'r']);
    reveal_strlit("cdg");
    assert("cdg"@ =~= seq!['c', 'd', 'g']);
    reveal_strlit("mad");
    assert("mad"@ =~= seq!['m', 'a', 'd']);
    reveal_strlit("sto");
    assert("sto"@ =~= seq!['s', 't', 'o']);
    reveal_strlit("vie");
    assert("vie"@ =~= seq!['v', 'i', 'e']);
    reveal_strlit("waw");
    assert("waw"@ =~= seq!['w', 'a', 'w']);
    reveal_strlit("par");
    assert("par"@ =~= seq!['p', 'a', 'r']);
    reveal_strlit("muc");
    assert("muc"@ =~= seq!['m', 'u', 'c']);
    reveal_strlit("hel");
    assert("hel"@ =~= seq!['h', 'e', 'l']);
    reveal_strlit("gva");
    assert("gva"@ =~= seq!['g', 'v', 'a']);
    reveal_strlit("prg");
    assert("prg"@ =~= seq!['p', 'r', 'g']);
    reveal_strlit("bud");
    assert("bud"@ =~= seq!['b', 'u', 'd']);
    reveal_strlit("fsn");
    assert("fsn"@ =~= seq!['f', 's', 'n']);
    reveal_strlit("ams2");
    assert("ams2"@ =~= seq!['a', 'm', 's', '2']);
    reveal_strlit("fra2");
    assert("fra2"@ =~= seq!['f', 'r', 'a', '2']);
    reveal_strlit("sto2");
    assert("sto2"@ =~= seq!['s', 't', 'o', '2']);
    reveal_strlit("hkg");
    assert("hkg"@ =~= seq!['h', 'k', 'g']);
    reveal_strlit("sgp");
    assert("sgp"@ =~= seq!['s', 'g', 'p']);
    reveal_strlit("tyo");
    assert("tyo"@ =~= seq!['t', 'y', 'o']);
    reveal_strlit("sel");
    assert("sel"@ =~= seq!['s', 'e', 'l']);
    reveal_strlit("bom");
    assert("bom"@ =~= seq!['b', 'o', 'm']);
    reveal_strlit("dxb");
    assert("dxb"@ =~= seq!['d', 'x', 'b']);
    reveal_strlit("shb");
    assert("shb"@ =~= seq!['s', 'h', 'b']);
    reveal_strlit("shh");
    assert("shh"@ =~= seq!['s', 'h', 'h']);
    reveal_strlit("can");
    assert("can"@ =~= seq!['c', 'a', 'n']);
    reveal_strlit("wuh");
    assert("wuh"@ =~= seq!['w', 'u', 'h']);
    reveal_strlit("tsn");
    assert("tsn"@ =~= seq!['t', 's', 'n']);
    reveal_strlit("pek");
    assert("pek"@ =~= seq!['p', 'e', 'k']);
    reveal_strlit("bom2");
    assert("bom2"@ =~= seq!['b', 'o', 'm', '2']);
    reveal_strlit("maa2");
    assert("maa2"@ =~= seq!['m', 'a', 'a', '2']);
    reveal_strlit("seo");
    assert("seo"@ =~= seq!['s', 'e', 'o']);
    reveal_strlit("sgp2");
    assert("sgp2"@ =~= seq!['s', 'g', 'p', '2']);
    reveal_strlit("tyo2");
    assert("tyo2"@ =~= seq!['t', 'y', 'o', '2']);
    reveal_strlit("sel2");
    assert("sel2"@ =~= seq!['s', 'e', 'l', '2']);
    reveal_strlit("dxb2");
    assert("dxb2"@ =~= seq!['d', 'x', 'b', '2']);
    reveal_strlit("hkg2");
    assert("hkg2"@ =~= seq!['h', 'k', 'g', '2']);
    reveal_strlit("pekm");
    assert("pekm"@ =~= seq!['p', 'e', 'k', 'm']);
    reveal_strlit("pekt");
    assert("pekt"@ =~= seq!['p', 'e', 'k', 't']);
    reveal_strlit("peku");
    assert("peku"@ =~= seq!['p', 'e', 'k', 'u']);
    reveal_strlit("ctum");
    assert("ctum"@ =~= seq!['c', 't', 'u', 'm']);
    reveal_strlit("ctut");
    assert("ctut"@ =~= seq!['c', 't', 'u', 't']);
    reveal_strlit("ctuu");
    assert("ctuu"@ =~= seq!['c', 't', 'u', 'u']);
    reveal_strlit("pvgm");
    assert("pvgm"@ =~= seq!['p', 'v', 'g', 'm']);
    reveal_strlit("pvgt");
    assert("pvgt"@ =~= seq!['p', 'v', 'g', 't']);
    reveal_strlit("pvgu");
    assert("pvgu"@ =~= seq!['p', 'v', 'g', 'u']);
    reveal_strlit("tgdm");
    assert("tgdm"@ =~= seq!['t', 'g', 'd', 'm']);
    reveal_strlit("tgdt");
    assert("tgdt"@ =~= seq!['t', 'g', 'd', 't']);
    reveal_strlit("tgdu");
    assert("tgdu"@ =~= seq!['t', 'g', 'd', 'u']);
    reveal_strlit("pwg");
    assert("pwg"@ =~= seq!['p', 'w', 'g']);
    reveal_strlit("pww");
    assert("pww"@ =~= seq!['p', 'w', 'w']);
    reveal_strlit("pvg");
    assert("pvg"@ =~= seq!['p', 'v', 'g']);
    reveal_with_fuel(listed_from, 37);
    assert(region_name("hkg"@) == "Asia"@) by {
        lemma_listed_from(north_america_codes(), "hkg"@, 0);
        lemma_listed_from(europe_codes(), "hkg"@, 0);
        lemma_listed_from(asia_codes(), "hkg"@, 0);
    }
    assert(region_name("sgp"@) == "Asia"@) by {
        lemma_listed_from(north_america_codes(), "sgp"@, 0);
        lemma_listed_from(europe_codes(), "sgp"@, 0);
        lemma_listed_from(asia_codes(), "sgp"@, 0);
    }
    assert(region_name("tyo"@) == "Asia"@) by {
        lemma_listed_from(north_america_codes(), "tyo"@, 0);
        lemma_listed_from(europe_codes(), "tyo"@, 0);
        lemma_listed_from(asia_codes(), "tyo"@, 0);
    }
    assert(region_name("sel"@) == "Asia"@) by {
        lemma_listed_from(north_america_codes(), "sel"@, 0);
        lemma_listed_from(europe_codes(), "sel"@, 0);
        lemma_listed_from(asia_codes(), "sel"@, 0);
    }
    assert(region_name("bom"@) == "Asia"@) by {
        lemma_listed_from(north_america_codes(), "bom"@, 0);
        lemma_listed_from(europe_codes(), "bom"@, 0);
        lemma_listed_from(asia_codes(), "bom"@, 0);
    }
    assert(region_name("dxb"@) == "Asia"@) by {
        lemma_listed_from(north_america_codes(), "dxb"@, 0);
        lemma_listed_from(europe_codes(), "dxb"@, 0);
        lemma_listed_from(asia_codes(), "dxb"@, 0);
    }
    assert(region_name("shb"@) == "Asia"@) by {
        lemma_listed_from(north_america_codes(), "shb"@, 0);
        lemma_listed_from(europe_codes(), "shb"@, 0);
        lemma_listed_from(asia_codes(), "shb"@, 0);
    }
    assert(region_name("shh"@) == "Asia"@) by {
        lemma_listed_from(north_america_codes(), "shh"@, 0);
        lemma_listed_from(europe_codes(), "shh"@, 0);
        lemma_listed_from(asia_codes(), "shh"@, 0);
    }
    assert(region_name("can"@) == "Asia"@) by {
        lemma_listed_from(north_america_codes(), "can"@, 0);
        lemma_listed_from(europe_codes(), "can"@, 0);
        lemma_listed_from(asia_codes(), "can"@, 0);
    }
    assert(region_name("wuh"@) == "Asia"@) by {
        lemma_listed_from(north_america_codes(), "wuh"@, 0);
        lemma_listed_from(europe_codes(), "wuh"@, 0);
        lemma_listed_from(asia_codes(), "wuh"@, 0);
    }
    assert(region_name("tsn"@) == "Asia"@) by {
        lemma_listed_from(north_america_codes(), "tsn"@, 0);
        lemma_listed_from(europe_codes(), "tsn"@, 0);
        lemma_listed_from(asia_codes(), "tsn"@, 0);
    }
    assert(region_name("pek"@) == "Asia"@) by {
        lemma_listed_from(north_america_codes(), "pek"@, 0);
        lemma_listed_from(europe_codes(), "pek"@, 0);
        lemma_listed_from(asia_codes(), "pek"@, 0);
    }
    assert(region_name("bom2"@) == "Asia"@) by {
        lemma_listed_from(north_america_codes(), "bom2"@, 0);
        lemma_listed_from(europe_codes(), "bom2"@, 0);
        lemma_listed_from(asia_codes(), "bom2"@, 0);
    }
    assert(region_name("maa2"@) == "Asia"@) by {
        lemma_listed_from(north_america_codes(), "maa2"@, 0);
        lemma_listed_from(europe_codes(), "maa2"@, 0);
        lemma_listed_from(asia_codes(), "maa2"@, 0);
    }
    assert(region_name("seo"@) == "Asia"@) by {
        lemma_listed_from(north_america_codes(), "seo"@, 0);
        lemma_listed_from(europe_codes(), "seo"@, 0);
        lemma_listed_from(asia_codes(), "seo"@, 0);
    }
    assert(region_name("sgp2"@) == "Asia"@) by {
        lemma_listed_from(north_america_codes(), "sgp2"@, 0);
        lemma_listed_from(europe_codes(), "sgp2"@, 0);
        lemma_listed_from(asia_codes(), "sgp2"@, 0);
    }
    assert(region_name("tyo2"@) == "Asia"@) by {
        lemma_listed_from(north_america_codes(), "tyo2"@, 0);
        lemma_listed_from(europe_codes(), "tyo2"@, 0);
        lemma_listed_from(asia_codes(), "tyo2"@, 0);
    }
    assert(region_name("sel2"@) == "Asia"@) by {
        lemma_listed_from(north_america_codes(), "sel2"@, 0);
        lemma_listed_from(europe_codes(), "sel2"@, 0);
        lemma_listed_from(asia_codes(), "sel2"@, 0);
    }
}

/// The second half of the Asia codes of the table map to "Asia".
#[verifier::spinoff_prover]
pub proof fn lemma_asia_region_more()
    ensures
        region_name("dxb2"@) == "Asia"@,
        region_name("hkg2"@) == "Asia"@,
        region_name("pekm"@) == "Asia"@,
        region_name("pekt"@) == "Asia"@,
        region_name("peku"@) == "Asia"@,
        region_name("ctum"@) == "Asia"@,
        region_name("ctut"@) == "Asia"@,
        region_name("ctuu"@) == "Asia"@,
        region_name("pvgm"@) == "Asia"@,
        region_name("pvgt"@) == "Asia"@,
        region_name("pvgu"@) == "Asia"@,
        region_name("tgdm"@) == "Asia"@,
        region_name("tgdt"@) == "Asia"@,
        region_name("tgdu"@) == "Asia"@,
        region_name("pwg"@) == "Asia"@,
        region_name("pww"@) == "Asia"@,
        region_name("pvg"@) == "Asia"@,
{
    reveal_strlit("sea");
    assert("sea"@ =~= seq!['s', 'e', 'a']);
    reveal_strlit("ord");
    assert("ord"@ =~= seq!['o', 'r', 'd']);
    reveal_strlit("lax");
    assert("lax"@ =~= seq!['l', 'a', 'x']);
    reveal_strlit("dfw");
    assert("dfw"@ =~= seq!['d', 'f', 'w']);
    reveal_strlit("atl");
    assert("atl"@ =~= seq!['a', 't', 'l']);
    reveal_strlit("iad");
    assert("iad"@ =~= seq!['i', 'a', 'd']);
    reveal_strlit("pdx");
    assert("pdx"@ =~= seq!['p', 'd', 'x']);
    reveal_strlit("phx");
    assert("phx"@ =~= seq!['p', 'h', 'x']);
    reveal_strlit("mco");
    assert("mco"@ =~= seq!['m', 'c', 'o']);
    reveal_strlit("den");
    assert("den"@ =~= seq!['d', 'e', 'n']);
    reveal_strlit("eat");
    assert("eat"@ =~= seq!['e', 'a', 't']);
    reveal_strlit("ord2");
    assert("ord2"@ =~= seq!['o', 'r', 'd', '2']);
    reveal_strlit("iad2");
    assert("iad2"@ =~= seq!['i', 'a', 'd', '2']);
    reveal_strlit("sea2");
    assert("sea2"@ =~= seq!['s', 'e', 'a', '2']);
    reveal_strlit("lax2");
    assert("lax2"@ =~= seq!['l', 'a', 'x', '2']);
    reveal_strlit("ams");
    assert("ams"@ =~= seq!['a', 'm', 's']);
    reveal_strlit("fra");
    assert("fra"@ =~= seq!['f', 'r', 'a']);
    reveal_strlit("lhr");
    assert("lhr"@ =~= seq!['l', 'h', 'r']);
    reveal_strlit("cdg");
    assert("cdg"@ =~= seq!['c', 'd', 'g']);
    reveal_strlit("mad");
    assert("mad"@ =~= seq!['m', 'a', 'd']);
    reveal_strlit("sto");
    assert("sto"@ =~= seq!['s', 't', 'o']);
    reveal_strlit("vie");
    assert("vie"@ =~= seq!['v', 'i', 'e']);
    reveal_strlit("waw");
    assert("waw"@ =~= seq!['w', 'a', 'w']);
    reveal_strlit("par");
    assert("par"@ =~= seq!['p', 'a', 'r']);
    reveal_strlit("muc");
    assert("muc"@ =~= seq!['m', 'u', 'c']);
    reveal_strlit("hel");
    assert("hel"@ =~= seq!['h', 'e', 'l']);
    reveal_strlit("gva");
    assert("gva"@ =~= seq!['g', 'v', 'a']);
    reveal_strlit("prg");
    assert("prg"@ =~= seq!['p', 'r', 'g']);
    reveal_strlit("bud");
    assert("bud"@ =~= seq!['b', 'u', 'd']);
    reveal_strlit("fsn");
    assert("fsn"@ =~= seq!['f', 's', 'n']);
    reveal_strlit("ams2");
    assert("ams2"@ =~= seq!['a', 'm', 's', '2']);
    reveal_strlit("fra2");
    assert("fra2"@ =~= seq!['f', 'r', 'a', '2']);
    reveal_strlit("sto2");
    assert("sto2"@ =~= seq!['s', 't', 'o', '2']);
    reveal_strlit("hkg");
    assert("hkg"@ =~= seq!['h', 'k', 'g']);
    reveal_strlit("sgp");
    assert("sgp"@ =~= seq!['s', 'g', 'p']);
    reveal_strlit("tyo");
    assert("tyo"@ =~= seq!['t', 'y', 'o']);
    reveal_strlit("sel");
    assert("sel"@ =~= seq!['s', 'e', 'l']);
    reveal_strlit("bom");
    assert("bom"@ =~= seq!['b', 'o', 'm']);
    reveal_strlit("dxb");
    assert("dxb"@ =~= seq!['d', 'x', 'b']);
    reveal_strlit("shb");
    assert("shb"@ =~= seq!['s', 'h', 'b']);
    reveal_strlit("shh");
    assert("shh"@ =~= seq!['s', 'h', 'h']);
    reveal_strlit("can");
    assert("can"@ =~= seq!['c', 'a', 'n']);
    reveal_strlit("wuh");
    assert("wuh"@ =~= seq!['w', 'u', 'h']);
    reveal_strlit("tsn");
    assert("tsn"@ =~= seq!['t', 's', 'n']);
    reveal_strlit("pek");
    assert("pek"@ =~= seq!['p', 'e', 'k']);
    reveal_strlit("bom2");
    assert("bom2"@ =~= seq!['b', 'o', 'm', '2']);
    reveal_strlit("maa2");
    assert("maa2"@ =~= seq!['m', 'a', 'a', '2']);
    reveal_strlit("seo");
    assert("seo"@ =~= seq!['s', 'e', 'o']);
    reveal_strlit("sgp2");
    assert("sgp2"@ =~= seq!['s', 'g', 'p', '2']);
    reveal_strlit("tyo2");
    assert("tyo2"@ =~= seq!['t', 'y', 'o', '2']);
    reveal_strlit("sel2");
    assert("sel2"@ =~= seq!['s', 'e', 'l', '2']);
    reveal_strlit("dxb2");
    assert("dxb2"@ =~= seq!['d', 'x', 'b', '2']);
    reveal_strlit("hkg2");
    assert("hkg2"@ =~= seq!['h', 'k', 'g', '2']);
    reveal_strlit("pekm");
    assert("pekm"@ =~= seq!['p', 'e', 'k', 'm']);
    reveal_strlit("pekt");
    assert("pekt"@ =~= seq!['p', 'e', 'k', 't']);
    reveal_strlit("peku");
    assert("peku"@ =~= seq!['p', 'e', 'k', 'u']);
    reveal_strlit("ctum");
    assert("ctum"@ =~= seq!['c', 't', 'u', 'm']);
    reveal_strlit("ctut");
    assert("ctut"@ =~= seq!['c', 't', 'u', 't']);
    reveal_strlit("ctuu");
    assert("ctuu"@ =~= seq!['c', 't', 'u', 'u']);
    reveal_strlit("pvgm");
    assert("pvgm"@ =~= seq!['p', 'v', 'g', 'm']);
    reveal_strlit("pvgt");
    assert("pvgt"@ =~= seq!['p', 'v', 'g', 't']);
    reveal_strlit("pvgu");
    assert("pvgu"@ =~= seq!['p', 'v', 'g', 'u']);
    reveal_strlit("tgdm");
    assert("tgdm"@ =~= seq!['t', 'g', 'd', 'm']);
    reveal_strlit("tgdt");
    assert("tgdt"@ =~= seq!['t', 'g', 'd', 't']);
    reveal_strlit("tgdu");
    assert("tgdu"@ =~= seq!['t', 'g', 'd', 'u']);
    reveal_strlit("pwg");
    assert("pwg"@ =~= seq!['p', 'w', 'g']);
    reveal_strlit("pww");
    assert("pww"@ =~= seq!['p', 'w', 'w']);
    reveal_strlit("pvg");
    assert("pvg"@ =~= seq!['p', 'v', 'g']);
    reveal_with_fuel(listed_from, 37);
    assert(region_name("dxb2"@) == "Asia"@) by {
        lemma_listed_from(north_america_codes(), "dxb2"@, 0);
        lemma_listed_from(europe_codes(), "dxb2"@, 0);
        lemma_listed_from(asia_codes(), "dxb2"@, 0);
    }
    assert(region_name("hkg2"@) == "Asia"@) by {
        lemma_listed_from(north_america_codes(), "hkg2"@, 0);
        lemma_listed_from(europe_codes(), "hkg2"@, 0);
        lemma_listed_from(asia_codes(), "hkg2"@, 0);
    }
    assert(region_name("pekm"@) == "Asia"@) by {
        lemma_listed_from(north_america_codes(), "pekm"@, 0);
        lemma_listed_from(europe_codes(), "pekm"@, 0);
        lemma_listed_from(asia_codes(), "pekm"@, 0);
    }
    assert(region_name("pekt"@) == "Asia"@) by {
        lemma_listed_from(north_america_codes(), "pekt"@, 0);
        lemma_listed_from(europe_codes(), "pekt"@, 0);
        lemma_listed_from(asia_codes(), "pekt"@, 0);
    }
    assert(region_name("peku"@) == "Asia"@) by {
        lemma_listed_from(north_america_codes(), "peku"@, 0);
        lemma_listed_from(europe_codes(), "peku"@, 0);
        lemma_listed_from(asia_codes(), "peku"@, 0);
    }
    assert(region_name("ctum"@) == "Asia"@) by {
        lemma_listed_from(north_america_codes(), "ctum"@, 0);
        lemma_listed_from(europe_codes(), "ctum"@, 0);
        lemma_listed_from(asia_codes(), "ctum"@, 0);
    }
    assert(region_name("ctut"@) == "Asia"@) by {
        lemma_listed_from(north_america_codes(), "ctut"@, 0);
        lemma_listed_from(europe_codes(), "ctut"@, 0);
        lemma_listed_from(asia_codes(), "ctut"@, 0);
    }
    assert(region_name("ctuu"@) == "Asia"@) by {
        lemma_listed_from(north_america_codes(), "ctuu"@, 0);
        lemma_listed_from(europe_codes(), "ctuu"@, 0);
        lemma_listed_from(asia_codes(), "ctuu"@, 0);
    }
    assert(region_name("pvgm"@) == "Asia"@) by {
        lemma_listed_from(north_america_codes(), "pvgm"@, 0);
        lemma_listed_from(europe_codes(), "pvgm"@, 0);
        lemma_listed_from(asia_codes(), "pvgm"@, 0);
    }
    assert(region_name("pvgt"@) == "Asia"@) by {
        lemma_listed_from(north_america_codes(), "pvgt"@, 0);
        lemma_listed_from(europe_codes(), "pvgt"@, 0);
        lemma_listed_from(asia_codes(), "pvgt"@, 0);
    }
    assert(region_name("pvgu"@) == "Asia"@) by {
        lemma_listed_from(north_america_codes(), "pvgu"@, 0);
        lemma_listed_from(europe_codes(), "pvgu"@, 0);
        lemma_listed_from(asia_codes(), "pvgu"@, 0);
    }
    assert(region_name("tgdm"@) == "Asia"@) by {
        lemma_listed_from(north_america_codes(), "tgdm"@, 0);
        lemma_listed_from(europe_codes(), "tgdm"@, 0);
        lemma_listed_from(asia_codes(), "tgdm"@, 0);
    }
    assert(region_name("tgdt"@) == "Asia"@) by {
        lemma_listed_from(north_america_codes(), "tgdt"@, 0);
        lemma_listed_from(europe_codes(), "tgdt"@, 0);
        lemma_listed_from(asia_codes(), "tgdt"@, 0);
    }
    assert(region_name("tgdu"@) == "Asia"@) by {
        lemma_listed_from(north_america_codes(), "tgdu"@, 0);
        lemma_listed_from(europe_codes(), "tgdu"@, 0);
        lemma_listed_from(asia_codes(), "tgdu"@, 0);
    }
    assert(region_name("pwg"@) == "Asia"@) by {
        lemma_listed_from(north_america_codes(), "pwg"@, 0);
        lemma_listed_from(europe_codes(), "pwg"@, 0);
        lemma_listed_from(asia_codes(), "pwg"@, 0);
    }
    assert(region_name("pww"@) == "Asia"@) by {
        lemma_listed_from(north_america_codes(), "pww"@, 0);
        lemma_listed_from(europe_codes(), "pww"@, 0);
        lemma_listed_from(asia_codes(), "pww"@, 0);
    }
    assert(region_name("pvg"@) == "Asia"@) by {
        lemma_listed_from(north_america_codes(), "pvg"@, 0);
        lemma_listed_from(europe_codes(), "pvg"@, 0);
        lemma_listed_from(asia_codes(), "pvg"@, 0);
    }
}

/// Each South America code of the table maps to "South America".
pub proof fn lemma_south_america_region()
    ensures
        region_name("gru"@) == "South America"@,
        region_name("scl"@) == "South America"@,
        region_name("lim"@) == "South America"@,
        region_name("eze"@) == "South America"@,
        region_name("bue"@) == "South America"@,
        region_name("gru2"@) == "South America"@,
        region_name("scl2"@) == "South America"@,
        region_name("lim2"@) == "South America"@,
{
    reveal_strlit("sea");
    assert("sea"@ =~= seq!['s', 'e', 'a']);
    reveal_strlit("ord");
    assert("ord"@ =~= seq!['o', 'r', 'd']);
    reveal_strlit("lax");
    assert("lax"@ =~= seq!['l', 'a', 'x']);
    reveal_strlit("dfw");
    assert("dfw"@ =~= seq!['d', 'f', 'w']);
    reveal_strlit("atl");
    assert("atl"@ =~= seq!['a', 't', 'l']);
    reveal_strlit("iad");
    assert("iad"@ =~= seq!['i', 'a', 'd']);
    reveal_strlit("pdx");
    assert("pdx"@ =~= seq!['p', 'd', 'x']);
    reveal_strlit("phx");
    assert("phx"@ =~= seq!['p', 'h', 'x']);
    reveal_strlit("mco");
    assert("mco"@ =~= seq!['m', 'c', 'o']);
    reveal_strlit("den");
    assert("den"@ =~= seq!['d', 'e', 'n']);
    reveal_strlit("eat");
    assert("eat"@ =~= seq!['e', 'a', 't']);
    reveal_strlit("ord2");
    assert("ord2"@ =~= seq!['o', 'r', 'd', '2']);
    reveal_strlit("iad2");
    assert("iad2"@ =~= seq!['i', 'a', 'd', '2']);
    reveal_strlit("sea2");
    assert("sea2"@ =~= seq!['s', 'e', 'a', '2']);
    reveal_strlit("lax2");
    assert("lax2"@ =~= seq!['l', 'a', 'x', '2']);
    reveal_strlit("ams");
    assert("ams"@ =~= seq!['a', 'm', 's']);
    reveal_strlit("fra");
    assert("fra"@ =~= seq!['f', 'r', 'a']);
    reveal_strlit("lhr");
    assert("lhr"@ =~= seq!['l', 'h', 'r']);
    reveal_strlit("cdg");
    assert("cdg"@ =~= seq!['c', 'd', 'g']);
    reveal_strlit("mad");
    assert("mad"@ =~= seq!['m', 'a', 'd']);
    reveal_strlit("sto");
    assert("sto"@ =~= seq!['s', 't', 'o']);
    reveal_strlit("vie");
    assert("vie"@ =~= seq!['v', 'i', 'e']);
    reveal_strlit("waw");
    assert("waw"@ =~= seq!['w', 'a', 'w']);
    reveal_strlit("par");
    assert("par"@ =~= seq!['p', 'a', 'r']);
    reveal_strlit("muc");
    assert("muc"@ =~= seq!['m', 'u', 'c']);
    reveal_strlit("hel");
    assert("hel"@ =~= seq!['h', 'e', 'l']);
    reveal_strlit("gva");
    assert("gva"@ =~= seq!['g', 'v', 'a']);
    reveal_strlit("prg");
    assert("prg"@ =~= seq!['p', 'r', 'g']);
    reveal_strlit("bud");
    assert("bud"@ =~= seq!['b', 'u', 'd']);
    reveal_strlit("fsn");
    assert("fsn"@ =~= seq!['f', 's', 'n']);
    reveal_strlit("ams2");
    assert("ams2"@ =~= seq!['a', 'm', 's', '2']);
    reveal_strlit("fra2");
    assert("fra2"@ =~= seq!['f', 'r', 'a', '2']);
    reveal_strlit("sto2");
    assert("sto2"@ =~= seq!['s', 't', 'o', '2']);
    reveal_strlit("hkg");
    assert("hkg"@ =~= seq!['h', 'k', 'g']);
    reveal_strlit("sgp");
    assert("sgp"@ =~= seq!['s', 'g', 'p']);
    reveal_strlit("tyo");
    assert("tyo"@ =~= seq!['t', 'y', 'o']);
    reveal_strlit("sel");
    assert("sel"@ =~= seq!['s', 'e', 'l']);
    reveal_strlit("bom");
    assert("bom"@ =~= seq!['b', 'o', 'm']);
    reveal_strlit("dxb");
    assert("dxb"@ =~= seq!['d', 'x', 'b']);
    reveal_strlit("shb");
    assert("shb"@ =~= seq!['s', 'h', 'b']);
    reveal_strlit("shh");
    assert("shh"@ =~= seq!['s', 'h', 'h']);
    reveal_strlit("can");
    assert("can"@ =~= seq!['c', 'a', 'n']);
    reveal_strlit("wuh");
    assert("wuh"@ =~= seq!['w', 'u', 'h']);
    reveal_strlit("tsn");
    assert("tsn"@ =~= seq!['t', 's', 'n']);
    reveal_strlit("pek");
    assert("pek"@ =~= seq!['p', 'e', 'k']);
    reveal_strlit("bom2");
    assert("bom2"@ =~= seq!['b', 'o', 'm', '2']);
    reveal_strlit("maa2");
    assert("maa2"@ =~= seq!['m', 'a', 'a', '2']);
    reveal_strlit("seo");
    assert("seo"@ =~= seq!['s', 'e', 'o']);
    reveal_strlit("sgp2");
    assert("sgp2"@ =~= seq!['s', 'g', 'p', '2']);
    reveal_strlit("tyo2");
    assert("tyo2"@ =~= seq!['t', 'y', 'o', '2']);
    reveal_strlit("sel2");
    assert("sel2"@ =~= seq!['s', 'e', 'l', '2']);
    reveal_strlit("dxb2");
    assert("dxb2"@ =~= seq!['d', 'x', 'b', '2']);
    reveal_strlit("hkg2");
    assert("hkg2"@ =~= seq!['h', 'k', 'g', '2']);
    reveal_strlit("pekm");
    assert("pekm"@ =~= seq!['p', 'e', 'k', 'm']);
    reveal_strlit("pekt");
    assert("pekt"@ =~= seq!['p', 'e', 'k', 't']);
    reveal_strlit("peku");
    assert("peku"@ =~= seq!['p', 'e', 'k', 'u']);
    reveal_strlit("ctum");
    assert("ctum"@ =~= seq!['c', 't', 'u', 'm']);
    reveal_strlit("ctut");
    assert("ctut"@ =~= seq!['c', 't', 'u', 't']);
    reveal_strlit("ctuu");
    assert("ctuu"@ =~= seq!['c', 't', 'u', 'u']);
    reveal_strlit("pvgm");
    assert("pvgm"@ =~= seq!['p', 'v', 'g', 'm']);
    reveal_strlit("pvgt");
    assert("pvgt"@ =~= seq!['p', 'v', 'g', 't']);
    reveal_strlit("pvgu");
    assert("pvgu"@ =~= seq!['p', 'v', 'g', 'u']);
    reveal_strlit("tgdm");
    assert("tgdm"@ =~= seq!['t', 'g', 'd', 'm']);
    reveal_strlit("tgdt");
    assert("tgdt"@ =~= seq!['t', 'g', 'd', 't']);
    reveal_strlit("tgdu");
    assert("tgdu"@ =~= seq!['t', 'g', 'd', 'u']);
    reveal_strlit("pwg");
    assert("pwg"@ =~= seq!['p', 'w', 'g']);
    reveal_strlit("pww");
    assert("pww"@ =~= seq!['p', 'w', 'w']);
    reveal_strlit("pvg");
    assert("pvg"@ =~= seq!['p', 'v', 'g']);
    reveal_strlit("gru");
    assert("gru"@ =~= seq!['g', 'r', 'u']);
    reveal_strlit("scl");
    assert("scl"@ =~= seq!['s', 'c', 'l']);
    reveal_strlit("lim");
    assert("lim"@ =~= seq!['l', 'i', 'm']);
    reveal_strlit("eze");
    assert("eze"@ =~= seq!['e', 'z', 'e']);
    reveal_strlit("bue");
    assert("bue"@ =~= seq!['b', 'u', 'e']);
    reveal_strlit("gru2");
    assert("gru2"@ =~= seq!['g', 'r', 'u', '2']);
    reveal_strlit("scl2");
    assert("scl2"@ =~= seq!['s', 'c', 'l', '2']);
    reveal_strlit("lim2");
    assert("lim2"@ =~= seq!['l', 'i', 'm', '2']);
    reveal_with_fuel(listed_from, 37);
    assert(region_name("gru"@) == "South America"@) by {
        lemma_listed_from(north_america_codes(), "gru"@, 0);
        lemma_listed_from(europe_codes(), "gru"@, 0);
        lemma_listed_from(asia_codes(), "gru"@, 0);
        lemma_listed_from(south_america_codes(), "gru"@, 0);
    }
    assert(region_name("scl"@) == "South America"@) by {
        lemma_listed_from(north_america_codes(), "scl"@, 0);
        lemma_listed_from(europe_codes(), "scl"@, 0);
        lemma_listed_from(asia_codes(), "scl"@, 0);
        lemma_listed_from(south_america_codes(), "scl"@, 0);
    }
    assert(region_name("lim"@) == "South America"@) by {
        lemma_listed_from(north_america_codes(), "lim"@, 0);
        lemma_listed_from(europe_codes(), "lim"@, 0);
        lemma_listed_from(asia_codes(), "lim"@, 0);
        lemma_listed_from(south_america_codes(), "lim"@, 0);
    }
    assert(region_name("eze"@) == "South America"@) by {
        lemma_listed_from(north_america_codes(), "eze"@, 0);
        lemma_listed_from(europe_codes(), "eze"@, 0);
        lemma_listed_from(asia_codes(), "eze"@, 0);
        lemma_listed_from(south_america_codes(), "eze"@, 0);
    }
    assert(region_name("bue"@) == "South America"@) by {
        lemma_listed_from(north_america_codes(), "bue"@, 0);
        lemma_listed_from(europe_codes(), "bue"@, 0);
        lemma_listed_from(asia_codes(), "bue"@, 0);
        lemma_listed_from(south_america_codes(), "bue"@, 0);
    }
    assert(region_name("gru2"@) == "South America"@) by {
        lemma_listed_from(north_america_codes(), "gru2"@, 0);
        lemma_listed_from(europe_codes(), "gru2"@, 0);
        lemma_listed_from(asia_codes(), "gru2"@, 0);
        lemma_listed_from(south_america_codes(), "gru2"@, 0);
    }
    assert(region_name("scl2"@) == "South America"@) by {
        lemma_listed_from(north_america_codes(), "scl2"@, 0);
        lemma_listed_from(europe_codes(), "scl2"@, 0);
        lemma_listed_from(asia_codes(), "scl2"@, 0);
        lemma_listed_from(south_america_codes(), "scl2"@, 0);
    }
    assert(region_name("lim2"@) == "South America"@) by {
        lemma_listed_from(north_america_codes(), "lim2"@, 0);
        lemma_listed_from(europe_codes(), "lim2"@, 0);
        lemma_listed_from(asia_codes(), "lim2"@, 0);
        lemma_listed_from(south_america_codes(), "lim2"@, 0);
    }
}

/// Each Oceania code of the table maps to "Oceania".
pub proof fn lemma_oceania_region()
    ensures
        region_name("syd"@) == "Oceania"@,
        region_name("akl"@) == "Oceania"@,
        region_name("syd2"@) == "Oceania"@,
        region_name("akl2"@) == "Oceania"@,
{
    reveal_strlit("sea");
    assert("sea"@ =~= seq!['s', 'e', 'a']);
    reveal_strlit("ord");
    assert("ord"@ =~= seq!['o', 'r', 'd']);
    reveal_strlit("lax");
    assert("lax"@ =~= seq!['l', 'a', 'x']);
    reveal_strlit("dfw");
    assert("dfw"@ =~= seq!['d', 'f', 'w']);
    reveal_strlit("atl");
    assert("atl"@ =~= seq!['a', 't', 'l']);
    reveal_strlit("iad");
    assert("iad"@ =~= seq!['i', 'a', 'd']);
    reveal_strlit("pdx");
    assert("pdx"@ =~= seq!['p', 'd', 'x']);
    reveal_strlit("phx");
    assert("phx"@ =~= seq!['p', 'h', 'x']);
    reveal_strlit("mco");
    assert("mco"@ =~= seq!['m', 'c', 'o']);
    reveal_strlit("den");
    assert("den"@ =~= seq!['d', 'e', 'n']);
    reveal_strlit("eat");
    assert("eat"@ =~= seq!['e', 'a', 't']);
    reveal_strlit("ord2");
    assert("ord2"@ =~= seq!['o', 'r', 'd', '2']);
    reveal_strlit("iad2");
    assert("iad2"@ =~= seq!['i', 'a', 'd', '2']);
    reveal_strlit("sea2");
    assert("sea2"@ =~= seq!['s', 'e', 'a', '2']);
    reveal_strlit("lax2");
    assert("lax2"@ =~= seq!['l', 'a', 'x', '2']);
    reveal_strlit("ams");
    assert("ams"@ =~= seq!['a', 'm', 's']);
    reveal_strlit("fra");
    assert("fra"@ =~= seq!['f', 'r', 'a']);
    reveal_strlit("lhr");
    assert("lhr"@ =~= seq!['l', 'h', 'r']);
    reveal_strlit("cdg");
    assert("cdg"@ =~= seq!['c', 'd', 'g']);
    reveal_strlit("mad");
    assert("mad"@ =~= seq!['m', 'a', 'd']);
    reveal_strlit("sto");
    assert("sto"@ =~= seq!['s', 't', 'o']);
    reveal_strlit("vie");
    assert("vie"@ =~= seq!['v', 'i', 'e']);
    reveal_strlit("waw");
    assert("waw"@ =~= seq!['w', 'a', 'w']);
    reveal_strlit("par");
    assert("par"@ =~= seq!['p', 'a', 'r']);
    reveal_strlit("muc");
    assert("muc"@ =~= seq!['m', 'u', 'c']);
    reveal_strlit("hel");
    assert("hel"@ =~= seq!['h', 'e', 'l']);
    reveal_strlit("gva");
    assert("gva"@ =~= seq!['g', 'v', 'a']);
    reveal_strlit("prg");
    assert("prg"@ =~= seq!['p', 'r', 'g']);
    reveal_strlit("bud");
    assert("bud"@ =~= seq!['b', 'u', 'd']);
    reveal_strlit("fsn");
    assert("fsn"@ =~= seq!['f', 's', 'n']);
    reveal_strlit("ams2");
    assert("ams2"@ =~= seq!['a', 'm', 's', '2']);
    reveal_strlit("fra2");
    assert("fra2"@ =~= seq!['f', 'r', 'a', '2']);
    reveal_strlit("sto2");
    assert("sto2"@ =~= seq!['s', 't', 'o', '2']);
    reveal_strlit("hkg");
    assert("hkg"@ =~= seq!['h', 'k', 'g']);
    reveal_strlit("sgp");
    assert("sgp"@ =~= seq!['s', 'g', 'p']);
    reveal_strlit("tyo");
    assert("tyo"@ =~= seq!['t', 'y', 'o']);
    reveal_strlit("sel");
    assert("sel"@ =~= seq!['s', 'e', 'l']);
    reveal_strlit("bom");
    assert("bom"@ =~= seq!['b', 'o', 'm']);
    reveal_strlit("dxb");
    assert("dxb"@ =~= seq!['d', 'x', 'b']);
    reveal_strlit("shb");
    assert("shb"@ =~= seq!['s', 'h', 'b']);
    reveal_strlit("shh");
    assert("shh"@ =~= seq!['s', 'h', 'h']);
    reveal_strlit("can");
    assert("can"@ =~= seq!['c', 'a', 'n']);
    reveal_strlit("wuh");
    assert("wuh"@ =~= seq!['w', 'u', 'h']);
    reveal_strlit("tsn");
    assert("tsn"@ =~= seq!['t', 's', 'n']);
    reveal_strlit("pek");
    assert("pek"@ =~= seq!['p', 'e', 'k']);
    reveal_strlit("bom2");
    assert("bom2"@ =~= seq!['b', 'o', 'm', '2']);
    reveal_strlit("maa2");
    assert("maa2"@ =~= seq!['m', 'a', 'a', '2']);
    reveal_strlit("seo");
    assert("seo"@ =~= seq!['s', 'e', 'o']);
    reveal_strlit("sgp2");
    assert("sgp2"@ =~= seq!['s', 'g', 'p', '2']);
    reveal_strlit("tyo2");
    assert("tyo2"@ =~= seq!['t', 'y', 'o', '2']);
    reveal_strlit("sel2");
    assert("sel2"@ =~= seq!['s', 'e', 'l', '2']);
    reveal_strlit("dxb2");
    assert("dxb2"@ =~= seq!['d', 'x', 'b', '2']);
    reveal_strlit("hkg2");
    assert("hkg2"@ =~= seq!['h', 'k', 'g', '2']);
    reveal_strlit("pekm");
    assert("pekm"@ =~= seq!['p', 'e', 'k', 'm']);
    reveal_strlit("pekt");
    assert("pekt"@ =~= seq!['p', 'e', 'k', 't']);
    reveal_strlit("peku");
    assert("peku"@ =~= seq!['p', 'e', 'k', 'u']);
    reveal_strlit("ctum");
    assert("ctum"@ =~= seq!['c', 't', 'u', 'm']);
    reveal_strlit("ctut");
    assert("ctut"@ =~= seq!['c', 't', 'u', 't']);
    reveal_strlit("ctuu");
    assert("ctuu"@ =~= seq!['c', 't', 'u', 'u']);
    reveal_strlit("pvgm");
    assert("pvgm"@ =~= seq!['p', 'v', 'g', 'm']);
    reveal_strlit("pvgt");
    assert("pvgt"@ =~= seq!['p', 'v', 'g', 't']);
    reveal_strlit("pvgu");
    assert("pvgu"@ =~= seq!['p', 'v', 'g', 'u']);
    reveal_strlit("tgdm");
    assert("tgdm"@ =~= seq!['t', 'g', 'd', 'm']);
    reveal_strlit("tgdt");
    assert("tgdt"@ =~= seq!['t', 'g', 'd', 't']);
    reveal_strlit("tgdu");
    assert("tgdu"@ =~= seq!['t', 'g', 'd', 'u']);
    reveal_strlit("pwg");
    assert("pwg"@ =~= seq!['p', 'w', 'g']);
    reveal_strlit("pww");
    assert("pww"@ =~= seq!['p', 'w', 'w']);
    reveal_strlit("pvg");
    assert("pvg"@ =~= seq!['p', 'v', 'g']);
    reveal_strlit("gru");
    assert("gru"@ =~= seq!['g', 'r', 'u']);
    reveal_strlit("scl");
    assert("scl"@ =~= seq!['s', 'c', 'l']);
    reveal_strlit("lim");
    assert("lim"@ =~= seq!['l', 'i', 'm']);
    reveal_strlit("eze");
    assert("eze"@ =~= seq!['e', 'z', 'e']);
    reveal_strlit("bue");
    assert("bue"@ =~= seq!['b', 'u', 'e']);
    reveal_strlit("gru2");
    assert("gru2"@ =~= seq!['g', 'r', 'u', '2']);
    reveal_strlit("scl2");
    assert("scl2"@ =~= seq!['s', 'c', 'l', '2']);
    reveal_strlit("lim2");
    assert("lim2"@ =~= seq!['l', 'i', 'm', '2']);
    reveal_strlit("syd");
    assert("syd"@ =~= seq!['s', 'y', 'd']);
    reveal_strlit("akl");
    assert("akl"@ =~= seq!['a', 'k', 'l']);
    reveal_strlit("syd2");
    assert("syd2"@ =~= seq!['s', 'y', 'd', '2']);
    reveal_strlit("akl2");
    assert("akl2"@ =~= seq!['a', 'k', 'l', '2']);
    reveal_with_fuel(listed_from, 37);
    assert(region_name("syd"@) == "Oceania"@) by {
        lemma_listed_from(north_america_codes(), "syd"@, 0);
        lemma_listed_from(europe_codes(), "syd"@, 0);
        lemma_listed_from(asia_codes(), "syd"@, 0);
        lemma_listed_from(south_america_codes(), "syd"@, 0);
        lemma_listed_from(oceania_codes(), "syd"@, 0);
    }
    assert(region_name("akl"@) == "Oceania"@) by {
        lemma_listed_from(north_america_codes(), "akl"@, 0);
        lemma_listed_from(europe_codes(), "akl"@, 0);
        lemma_listed_from(asia_codes(), "akl"@, 0);
        lemma_listed_from(south_america_codes(), "akl"@, 0);
        lemma_listed_from(oceania_codes(), "akl"@, 0);
    }
    assert(region_name("syd2"@) == "Oceania"@) by {
        lemma_listed_from(north_america_codes(), "syd2"@, 0);
        lemma_listed_from(europe_codes(), "syd2"@, 0);
        lemma_listed_from(asia_codes(), "syd2"@, 0);
        lemma_listed_from(south_america_codes(), "syd2"@, 0);
        lemma_listed_from(oceania_codes(), "syd2"@, 0);
    }
    assert(region_name("akl2"@) == "Oceania"@) by {
        lemma_listed_from(north_america_codes(), "akl2"@, 0);
        lemma_listed_from(europe_codes(), "akl2"@, 0);
        lemma_listed_from(asia_codes(), "akl2"@, 0);
        lemma_listed_from(south_america_codes(), "akl2"@, 0);
        lemma_listed_from(oceania_codes(), "akl2"@, 0);
    }
}

/// Each Africa code of the table maps to "Africa".
pub proof fn lemma_africa_region()
    ensures
        region_name("jnb"@) == "Africa"@,
        region_name("cpt"@) == "Africa"@,
        region_name("jnb2"@) == "Africa"@,
        region_name("cpt2"@) == "Africa"@,
{
    reveal_strlit("sea");
    assert("sea"@ =~= seq!['s', 'e', 'a']);
    reveal_strlit("ord");
    assert("ord"@ =~= seq!['o', 'r', 'd']);
    reveal_strlit("lax");
    assert("lax"@ =~= seq!['l', 'a', 'x']);
    reveal_strlit("dfw");
    assert("dfw"@ =~= seq!['d', 'f', 'w']);
    reveal_strlit("atl");
    assert("atl"@ =~= seq!['a', 't', 'l']);
    reveal_strlit("iad");
    assert("iad"@ =~= seq!['i', 'a', 'd']);
    reveal_strlit("pdx");
    assert("pdx"@ =~= seq!['p', 'd', 'x']);
    reveal_strlit("phx");
    assert("phx"@ =~= seq!['p', 'h', 'x']);
    reveal_strlit("mco");
    assert("mco"@ =~= seq!['m', 'c', 'o']);
    reveal_strlit("den");
    assert("den"@ =~= seq!['d', 'e', 'n']);
    reveal_strlit("eat");
    assert("eat"@ =~= seq!['e', 'a', 't']);
    reveal_strlit("ord2");
    assert("ord2"@ =~= seq!['o', 'r', 'd', '2']);
    reveal_strlit("iad2");
    assert("iad2"@ =~= seq!['i', 'a', 'd', '2']);
    reveal_strlit("sea2");
    assert("sea2"@ =~= seq!['s', 'e', 'a', '2']);
    reveal_strlit("lax2");
    assert("lax2"@ =~= seq!['l', 'a', 'x', '2']);
    reveal_strlit("ams");
    assert("ams"@ =~= seq!['a', 'm', 's']);
    reveal_strlit("fra");
    assert("fra"@ =~= seq!['f', 'r', 'a']);
    reveal_strlit("lhr");
    assert("lhr"@ =~= seq!['l', 'h', 'r']);
    reveal_strlit("cdg");
    assert("cdg"@ =~= seq!['c', 'd', 'g']);
    reveal_strlit("mad");
    assert("mad"@ =~= seq!['m', 'a', 'd']);
    reveal_strlit("sto");
    assert("sto"@ =~= seq!['s', 't', 'o']);
    reveal_strlit("vie");
    assert("vie"@ =~= seq!['v', 'i', 'e']);
    reveal_strlit("waw");
    assert("waw"@ =~= seq!['w', 'a', 'w']);
    reveal_strlit("par");
    assert("par"@ =~= seq!['p', 'a', 'r']);
    reveal_strlit("muc");
    assert("muc"@ =~= seq!['m', 'u', 'c']);
    reveal_strlit("hel");
    assert("hel"@ =~= seq!['h', 'e', 'l']);
    reveal_strlit("gva");
    assert("gva"@ =~= seq!['g', 'v', 'a']);
    reveal_strlit("prg");
    assert("prg"@ =~= seq!['p', 'r', 'g']);
    reveal_strlit("bud");
    assert("bud"@ =~= seq!['b', 'u', 'd']);
    reveal_strlit("fsn");
    assert("fsn"@ =~= seq!['f', 's', 'n']);
    reveal_strlit("ams2");
    assert("ams2"@ =~= seq!['a', 'm', 's', '2']);
    reveal_strlit("fra2");
    assert("fra2"@ =~= seq!['f', 'r', 'a', '2']);
    reveal_strlit("sto2");
    assert("sto2"@ =~= seq!['s', 't', 'o', '2']);
    reveal_strlit("hkg");
    assert("hkg"@ =~= seq!['h', 'k', 'g']);
    reveal_strlit("sgp");
    assert("sgp"@ =~= seq!['s', 'g', 'p']);
    reveal_strlit("tyo");
    assert("tyo"@ =~= seq!['t', 'y', 'o']);
    reveal_strlit("sel");
    assert("sel"@ =~= seq!['s', 'e', 'l']);
    reveal_strlit("bom");
    assert("bom"@ =~= seq!['b', 'o', 'm']);
    reveal_strlit("dxb");
    assert("dxb"@ =~= seq!['d', 'x', 'b']);
    reveal_strlit("shb");
    assert("shb"@ =~= seq!['s', 'h', 'b']);
    reveal_strlit("shh");
    assert("shh"@ =~= seq!['s', 'h', 'h']);
    reveal_strlit("can");
    assert("can"@ =~= seq!['c', 'a', 'n']);
    reveal_strlit("wuh");
    assert("wuh"@ =~= seq!['w', 'u', 'h']);
    reveal_strlit("tsn");
    assert("tsn"@ =~= seq!['t', 's', 'n']);
    reveal_strlit("pek");
    assert("pek"@ =~= seq!['p', 'e', 'k']);
    reveal_strlit("bom2");
    assert("bom2"@ =~= seq!['b', 'o', 'm', '2']);
    reveal_strlit("maa2");
    assert("maa2"@ =~= seq!['m', 'a', 'a', '2']);
    reveal_strlit("seo");
    assert("seo"@ =~= seq!['s', 'e', 'o']);
    reveal_strlit("sgp2");
    assert("sgp2"@ =~= seq!['s', 'g', 'p', '2']);
    reveal_strlit("tyo2");
    assert("tyo2"@ =~= seq!['t', 'y', 'o', '2']);
    reveal_strlit("sel2");
    assert("sel2"@ =~= seq!['s', 'e', 'l', '2']);
    reveal_strlit("dxb2");
    assert("dxb2"@ =~= seq!['d', 'x', 'b', '2']);
    reveal_strlit("hkg2");
    assert("hkg2"@ =~= seq!['h', 'k', 'g', '2']);
    reveal_strlit("pekm");
    assert("pekm"@ =~= seq!['p', 'e', 'k', 'm']);
    reveal_strlit("pekt");
    assert("pekt"@ =~= seq!['p', 'e', 'k', 't']);
    reveal_strlit("peku");
    assert("peku"@ =~= seq!['p', 'e', 'k', 'u']);
    reveal_strlit("ctum");
    assert("ctum"@ =~= seq!['c', 't', 'u', 'm']);
    reveal_strlit("ctut");
    assert("ctut"@ =~= seq!['c', 't', 'u', 't']);
    reveal_strlit("ctuu");
    assert("ctuu"@ =~= seq!['c', 't', 'u', 'u']);
    reveal_strlit("pvgm");
    assert("pvgm"@ =~= seq!['p', 'v', 'g', 'm']);
    reveal_strlit("pvgt");
    assert("pvgt"@ =~= seq!['p', 'v', 'g', 't']);
    reveal_strlit("pvgu");
    assert("pvgu"@ =~= seq!['p', 'v', 'g', 'u']);
    reveal_strlit("tgdm");
    assert("tgdm"@ =~= seq!['t', 'g', 'd', 'm']);
    reveal_strlit("tgdt");
    assert("tgdt"@ =~= seq!['t', 'g', 'd', 't']);
    reveal_strlit("tgdu");
    assert("tgdu"@ =~= seq!['t', 'g', 'd', 'u']);
    reveal_strlit("pwg");
    assert("pwg"@ =~= seq!['p', 'w', 'g']);
    reveal_strlit("pww");
    assert("pww"@ =~= seq!['p', 'w', 'w']);
    reveal_strlit("pvg");
    assert("pvg"@ =~= seq!['p', 'v', 'g']);
    reveal_strlit("gru");
    assert("gru"@ =~= seq!['g', 'r', 'u']);
    reveal_strlit("scl");
    assert("scl"@ =~= seq!['s', 'c', 'l']);
    reveal_strlit("lim");
    assert("lim"@ =~= seq!['l', 'i', 'm']);
    reveal_strlit("eze");
    assert("eze"@ =~= seq!['e', 'z', 'e']);
    reveal_strlit("bue");
    assert("bue"@ =~= seq!['b', 'u', 'e']);
    reveal_strlit("gru2");
    assert("gru2"@ =~= seq!['g', 'r', 'u', '2']);
    reveal_strlit("scl2");
    assert("scl2"@ =~= seq!['s', 'c', 'l', '2']);
    reveal_strlit("lim2");
    assert("lim2"@ =~= seq!['l', 'i', 'm', '2']);
    reveal_strlit("syd");
    assert("syd"@ =~= seq!['s', 'y', 'd']);
    reveal_strlit("akl");
    assert("akl"@ =~= seq!['a', 'k', 'l']);
    reveal_strlit("syd2");
    assert("syd2"@ =~= seq!['s', 'y', 'd', '2']);
    reveal_strlit("akl2");
    assert("akl2"@ =~= seq!['a', 'k', 'l', '2']);
    reveal_strlit("jnb");
    assert("jnb"@ =~= seq!['j', 'n', 'b']);
    reveal_strlit("cpt");
    assert("cpt"@ =~= seq!['c', 'p', 't']);
    reveal_strlit("jnb2");
    assert("jnb2"@ =~= seq!['j', 'n', 'b', '2']);
    reveal_strlit("cpt2");
    assert("cpt2"@ =~= seq!['c', 'p', 't', '2']);
    reveal_with_fuel(listed_from, 37);
    assert(region_name("jnb"@) == "Africa"@) by {
        lemma_listed_from(north_america_codes(), "jnb"@, 0);
        lemma_listed_from(europe_codes(), "jnb"@, 0);
        lemma_listed_from(asia_codes(), "jnb"@, 0);
        lemma_listed_from(south_america_codes(), "jnb"@, 0);
        lemma_listed_from(oceania_codes(), "jnb"@, 0);
        lemma_listed_from(africa_codes(), "jnb"@, 0);
    }
    assert(region_name("cpt"@) == "Africa"@) by {
        lemma_listed_from(north_america_codes(), "cpt"@, 0);
        lemma_listed_from(europe_codes(), "cpt"@, 0);
        lemma_listed_from(asia_codes(), "cpt"@, 0);
        lemma_listed_from(south_america_codes(), "cpt"@, 0);
        lemma_listed_from(oceania_codes(), "cpt"@, 0);
        lemma_listed_from(africa_codes(), "cpt"@, 0);
    }
    assert(region_name("jnb2"@) == "Africa"@) by {
        lemma_listed_from(north_america_codes(), "jnb2"@, 0);
        lemma_listed_from(europe_codes(), "jnb2"@, 0);
        lemma_listed_from(asia_codes(), "jnb2"@, 0);
        lemma_listed_from(south_america_codes(), "jnb2"@, 0);
        lemma_listed_from(oceania_codes(), "jnb2"@, 0);
        lemma_listed_from(africa_codes(), "jnb2"@, 0);
    }
    assert(region_name("cpt2"@) == "Africa"@) by {
        lemma_listed_from(north_america_codes(), "cpt2"@, 0);
        lemma_listed_from(europe_codes(), "cpt2"@, 0);
        lemma_listed_from(asia_codes(), "cpt2"@, 0);
        lemma_listed_from(south_america_codes(), "cpt2"@, 0);
        lemma_listed_from(oceania_codes(), "cpt2"@, 0);
        lemma_listed_from(africa_codes(), "cpt2"@, 0);
    }
}

/// A code in none of the lists of the table is in no region.
pub proof fn lemma_unlisted_region(code: Seq<char>)
    requires
        !seq!["sea"@, "ord"@, "lax"@, "dfw"@, "atl"@, "iad"@, "pdx"@, "phx"@, "mco"@, "den"@, "eat"@, "ord2"@, "iad2"@, "sea2"@, "lax2"@].contains(code),
        !seq!["ams"@, "fra"@, "lhr"@, "cdg"@, "mad"@, "sto"@, "vie"@, "waw"@, "par"@, "muc"@, "hel"@, "gva"@, "prg"@, "bud"@, "fsn"@, "ams2"@, "fra2"@, "sto2"@].contains(code),
        !seq!["hkg"@, "sgp"@, "tyo"@, "sel"@, "bom"@, "dxb"@, "shb"@, "shh"@, "can"@, "wuh"@, "tsn"@, "pek"@, "bom2"@, "maa2"@, "seo"@, "sgp2"@, "tyo2"@, "sel2"@, "dxb2"@, "hkg2"@, "pekm"@, "pekt"@, "peku"@, "ctum"@, "ctut"@, "ctuu"@, "pvgm"@, "pvgt"@, "pvgu"@, "tgdm"@, "tgdt"@, "tgdu"@, "pwg"@, "pww"@, "pvg"@].contains(code),
        !seq!["gru"@, "scl"@, "lim"@, "eze"@, "bue"@, "gru2"@, "scl2"@, "lim2"@].contains(code),
        !seq!["syd"@, "akl"@, "syd2"@, "akl2"@].contains(code),
        !seq!["jnb"@, "cpt"@, "jnb2"@, "cpt2"@].contains(code),
    ensures
        region_name(code) == "Other / Unknown"@,
{
}

} // verus!
