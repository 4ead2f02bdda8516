//! What the screen shows for the state: the text of the list entries and
//! of the latency gauge, the colour class of a latency, the popup layout.

use vstd::prelude::*;
use crate::text::{append_str, chars_of, seq_eq, string_of, strings_contain, string_views, trim, trim_ws};
use crate::sdr::{position_of, PoP};
use crate::firewall::FirewallDriver;
use super::{relay_ips, subnets_of, AppState};

verus! {

/// How a latency is coloured: good below 60 ms, fair below 150 ms.
#[derive(Debug, Clone, Copy, PartialEq, Eq, Structural)]
pub enum LatencyLevel {
    Good,
    Fair,
    Poor,
}

/// The colour class of a latency of `ms` milliseconds.
pub fn latency_level(ms: u16) -> (l: LatencyLevel)
    ensures
        l == if ms < 60 {
            LatencyLevel::Good
        } else if ms < 150 {
            LatencyLevel::Fair
        } else {
            LatencyLevel::Poor
        },
{
    if ms < 60 {
        LatencyLevel::Good
    } else if ms < 150 {
        LatencyLevel::Fair
    } else {
        LatencyLevel::Poor
    }
}

/// The number of bars of the latency gauge: one per 10 ms, at most 30.
pub fn latency_bar_count(ms: u16) -> (n: usize)
    ensures
        n == if ms / 10 < 30 { (ms / 10) as int } else { 30 },
{
    let tens = ms / 10;
    if tens < 30 { tens as usize } else { 30 }
}

/// `n` copies of `c`.
pub open spec fn repeated(c: char, n: nat) -> Seq<char> {
    Seq::new(n, |i: int| c)
}

fn push_repeated(v: &mut Vec<char>, c: char, n: usize)
    ensures
        final(v)@ == old(v)@ + repeated(c, n as nat),
{
    let mut i: usize = 0;
    let ghost start = v@;
    while i < n
        invariant
            i <= n,
            v@ == start + repeated(c, i as nat),
        decreases n - i,
    {
        v.push(c);
        i = i + 1;
        assert(v@ =~= start + repeated(c, i as nat));
    }
}

/// The inside of the latency gauge: the bars, then spaces up to 30 columns.
pub fn latency_bar(ms: u16) -> (s: String)
    ensures
        s@ == repeated('|', if ms / 10 < 30 { (ms / 10) as nat } else { 30 })
            + repeated(' ', if ms / 10 < 30 { (30 - ms / 10) as nat } else { 0 }),
{
    let n = latency_bar_count(ms);
    let mut v: Vec<char> = Vec::new();
    push_repeated(&mut v, '|', n);
    push_repeated(&mut v, ' ', 30 - n);
    string_of(v.as_slice())
}

/// Whether a PoP is shown blocked or allowed.
pub fn status_text(blocked: bool) -> (s: &'static str)
    ensures
        s@ == if blocked { "BLOCKED"@ } else { "ALLOWED"@ },
{
    if blocked { "BLOCKED" } else { "ALLOWED" }
}

/// The position of the first `(` in `s`, or its length.
pub open spec fn paren_position(s: Seq<char>) -> int
    decreases s.len(),
{
    if s.len() == 0 {
        0
    } else if s[0] == '(' {
        0
    } else {
        1 + paren_position(s.drop_first())
    }
}

/// The short form of a PoP description: the text before any `(`, trimmed
/// ("Seattle (Washington)" gives "Seattle").
pub open spec fn short_description_of(desc: Seq<char>) -> Seq<char> {
    trim_ws(desc.take(paren_position(desc)))
}

proof fn lemma_paren_position_at(s: Seq<char>, k: int)
    requires
        0 <= k <= s.len(),
        k < s.len() ==> s[k] == '(',
        forall|j: int| 0 <= j < k ==> s[j] != '(',
    ensures
        paren_position(s) == k,
    decreases s.len(),
{
    if s.len() > 0 && k > 0 {
        lemma_paren_position_at(s.drop_first(), k - 1);
    }
}

/// The short form of a PoP description.
pub fn short_description(desc: &str) -> (s: Vec<char>)
    ensures
        s@ == short_description_of(desc@),
{
    let d = chars_of(desc);
    let mut k: usize = 0;
    while k < d.len() && d[k] != '('
        invariant
            k <= d@.len(),
            forall|j: int| 0 <= j < k ==> d@[j] != '(',
        decreases d@.len() - k,
    {
        k = k + 1;
    }
    proof { lemma_paren_position_at(d@, k as int); }
    let mut head: Vec<char> = Vec::new();
    let mut j: usize = 0;
    while j < k
        invariant
            j <= k <= d@.len(),
            head@ == d@.take(j as int),
        decreases k - j,
    {
        head.push(d[j]);
        j = j + 1;
        assert(head@ =~= d@.take(j as int));
    }
    trim(head.as_slice())
}

/// `s` padded with spaces on the right to `width` characters (`{:<width}`).
pub open spec fn padded(s: Seq<char>, width: nat) -> Seq<char> {
    if s.len() >= width { s } else { s + repeated(' ', (width - s.len()) as nat) }
}

/// The text of a list entry: the code padded to 3 columns, a dash, and the
/// short description padded to 20 (`format!("{:<3} - {:<20}", ..)`).
pub fn list_entry_text(code: &str, desc: &str) -> (s: String)
    ensures
        s@ == padded(code@, 3) + " - "@ + padded(short_description_of(desc@), 20),
{
    let mut v = chars_of(code);
    if v.len() < 3 {
        let missing = 3 - v.len();
        push_repeated(&mut v, ' ', missing);
    }
    let sep = chars_of(" - ");
    let ghost before = v@;
    let mut i: usize = 0;
    while i < sep.len()
        invariant
            i <= sep@.len(),
            v@ == before + sep@.take(i as int),
        decreases sep@.len() - i,
    {
        v.push(sep[i]);
        i = i + 1;
        assert(v@ =~= before + sep@.take(i as int));
    }
    assert(sep@.take(i as int) =~= sep@);
    let short = short_description(desc);
    let ghost mid = v@;
    let mut j: usize = 0;
    while j < short.len()
        invariant
            j <= short@.len(),
            v@ == mid + short@.take(j as int),
        decreases short@.len() - j,
    {
        v.push(short[j]);
        j = j + 1;
        assert(v@ =~= mid + short@.take(j as int));
    }
    assert(short@.take(j as int) =~= short@);
    if short.len() < 20 {
        let missing = 20 - short.len();
        push_repeated(&mut v, ' ', missing);
    }
    proof {
        if code@.len() >= 3 {
            assert(padded(code@, 3) == code@);
        }
        assert(v@ =~= padded(code@, 3) + " - "@ + padded(short_description_of(desc@), 20));
    }
    string_of(v.as_slice())
}

/// The side margins, in percent, of a popup taking `percent` of a side:
/// (margin, popup, margin).
pub fn popup_split(percent: u16) -> (r: (u16, u16, u16))
    requires
        percent <= 100,
    ensures
        r.0 == (100 - percent) / 2,
        r.1 == percent,
        r.2 == (100 - percent) / 2,
{
    let margin = (100 - percent) / 2;
    (margin, percent, margin)
}

} // verus!

verus! {

// ---------------------------------------------------------------------
// Numbers and labels
// ---------------------------------------------------------------------

/// The decimal digits of `n` (`"0"` for zero).
pub open spec fn decimal(n: nat) -> Seq<char>
    decreases n,
{
    if n < 10 {
        seq![(n + 48) as char]
    } else {
        decimal(n / 10).push(((n % 10) + 48) as char)
    }
}

/// `n` in decimal, as `format!("{}", n)` writes it.
pub fn decimal_text(n: u16) -> (s: String)
    ensures
        s@ == decimal(n as nat),
{
    let mut rev: Vec<char> = Vec::new();
    let mut m: u16 = n;
    // digits are produced least significant first
    while m >= 10
        invariant
            decimal(n as nat) == decimal(m as nat) + rev@.reverse(),
        decreases m,
    {
        let d = m % 10;
        let c = ((d as u8) + 48) as char;
        proof {
            assert(decimal(m as nat) == decimal((m / 10) as nat).push(c));
            assert(decimal((m / 10) as nat).push(c) + rev@.reverse() =~= decimal((m / 10) as nat) + rev@.push(c).reverse());
        }
        rev.push(c);
        m = m / 10;
    }
    let last = ((m as u8) + 48) as char;
    assert(decimal(m as nat) == seq![last]);
    rev.push(last);
    assert(rev@.reverse() =~= seq![last] + rev@.drop_last().reverse());
    let mut out: Vec<char> = Vec::new();
    let mut i: usize = rev.len();
    while i > 0
        invariant
            i <= rev@.len(),
            out@ == rev@.skip(i as int).reverse(),
        decreases i,
    {
        i = i - 1;
        assert(rev@.skip(i as int).reverse() =~= rev@.skip(i + 1).reverse().push(rev@[i as int]));
        out.push(rev[i]);
    }
    assert(rev@.skip(0) =~= rev@);
    string_of(out.as_slice())
}

/// The marker of the persistence setting in the settings overlay.
pub fn persist_marker(persist: bool) -> (s: &'static str)
    ensures
        s@ == if persist { "[x]"@ } else { "[ ]"@ },
{
    if persist { "[x]" } else { "[ ]" }
}

} // verus!

verus! {

// ---------------------------------------------------------------------
// Rows of the PoP list
// ---------------------------------------------------------------------

/// One row of the PoP list as it is drawn.
#[derive(Debug, Clone)]
pub struct ListRow {
    pub code: String,
    pub selected: bool,
    pub blocked: bool,
    pub label: String,
    pub latency: Option<u16>,
}

/// The description of the PoP stored under `code` (empty when none is).
pub open spec fn desc_of(pops: Seq<(String, PoP)>, code: Seq<char>) -> Seq<char> {
    match position_of(pops, code) {
        Some(i) => pops[i].1.desc@,
        None => Seq::empty(),
    }
}

/// The latency measured for `code`: the value of its first entry, none
/// when it has no entry.
pub open spec fn latency_of(latencies: Seq<(String, Option<u16>)>, code: Seq<char>) -> Option<u16>
    decreases latencies.len(),
{
    if latencies.len() == 0 {
        None
    } else if latencies[0].0@ == code {
        latencies[0].1
    } else {
        latency_of(latencies.drop_first(), code)
    }
}

/// The label of a list row: code, dash and short description, padded.
pub open spec fn row_label(code: Seq<char>, desc: Seq<char>) -> Seq<char> {
    padded(code, 3) + " - "@ + padded(short_description_of(desc), 20)
}

/// Row `row` shows entry `i` of the list.
pub open spec fn row_shows<F: FirewallDriver>(state: AppState<F>, latencies: Seq<(String, Option<u16>)>, i: int, row: ListRow) -> bool {
    let code = state.selectable_pops@[i].0@;
    &&& row.code@ == code
    &&& row.selected == (i == state.selected_index)
    &&& row.blocked == string_views(state.blocked_pops@).contains(code)
    &&& row.label@ == row_label(code, desc_of(state.pops@, code))
    &&& row.latency == latency_of(latencies, code)
}

fn find_latency(latencies: &Vec<(String, Option<u16>)>, code: &[char]) -> (r: Option<u16>)
    ensures
        r == latency_of(latencies@, code@),
{
    let mut i: usize = 0;
    assert(latencies@.skip(0) =~= latencies@);
    while i < latencies.len()
        invariant
            i <= latencies@.len(),
            latency_of(latencies@, code@) == latency_of(latencies@.skip(i as int), code@),
        decreases latencies@.len() - i,
    {
        let k = chars_of(latencies[i].0.as_str());
        assert(latencies@.skip(i as int)[0] == latencies@[i as int]);
        if seq_eq(&k, code) {
            return latencies[i].1;
        }
        assert(latencies@.skip(i as int).drop_first() =~= latencies@.skip(i + 1));
        i = i + 1;
    }
    None
}

/// The rows of the PoP list: for each listed PoP, whether it is selected and
/// blocked, its label, and its measured latency.
pub fn list_rows<F: FirewallDriver>(state: &AppState<F>, latencies: &Vec<(String, Option<u16>)>) -> (rows: Vec<ListRow>)
    ensures
        rows@.len() == state.selectable_pops@.len(),
        forall|i: int| 0 <= i < rows@.len() ==> row_shows(*state, latencies@, i, #[trigger] rows@[i]),
{
    let mut rows: Vec<ListRow> = Vec::new();
    let mut i: usize = 0;
    while i < state.selectable_pops.len()
        invariant
            i <= state.selectable_pops@.len(),
            rows@.len() == i,
            forall|j: int| 0 <= j < i ==> row_shows(*state, latencies@, j, #[trigger] rows@[j]),
        decreases state.selectable_pops@.len() - i,
    {
        let code = state.selectable_pops[i].0.clone();
        let c = chars_of(code.as_str());
        let desc = match state.pops.get(code.as_str()) {
            Some(p) => p.desc.clone(),
            None => String::new(),
        };
        assert(desc@ == desc_of(state.pops@, code@));
        let label = list_entry_text(code.as_str(), desc.as_str());
        let blocked = strings_contain(state.blocked_pops.as_slice(), c.as_slice());
        let latency = find_latency(latencies, c.as_slice());
        let ghost code_view = code@;
        let ghost before = rows@;
        rows.push(ListRow { code, selected: i == state.selected_index, blocked, label, latency });
        assert(rows@[i as int].code@ == state.selectable_pops@[i as int].0@);
        assert(rows@[i as int].label@ == row_label(code_view, desc_of(state.pops@, code_view)));
        assert(rows@[i as int].selected == (i == state.selected_index));
        assert(rows@[i as int].blocked == string_views(state.blocked_pops@).contains(code_view));
        assert(rows@[i as int].latency == latency_of(latencies@, code_view));
        assert forall|j: int| 0 <= j < i + 1 implies row_shows(*state, latencies@, j, #[trigger] rows@[j]) by {
            if j < i {
                assert(rows@[j] == before[j]);
            }
        }
        i = i + 1;
    }
    rows
}

/// The location line of the details panel: `<desc> (<code>)`.
pub fn location_text(desc: &str, code: &str) -> (s: String)
    ensures
        s@ == desc@ + " ("@ + code@ + ")"@,
{
    let mut s = String::from_str(desc);
    append_str(&mut s, " (");
    append_str(&mut s, code);
    append_str(&mut s, ")");
    s
}

} // verus!

verus! {

// ---------------------------------------------------------------------
// The details panel
// ---------------------------------------------------------------------

/// What the details panel shows for the selected PoP.
#[derive(Debug, Clone)]
pub struct DetailsPanel {
    pub region: &'static str,
    pub location: String,
    pub blocked: bool,
    pub subnets: Vec<String>,
    pub latency: Option<u16>,
}

/// The panel shows the selected entry: its region, its location line, whether
/// it is blocked, its relay subnets and its measured latency.
pub open spec fn panel_shows<F: FirewallDriver>(state: AppState<F>, latencies: Seq<(String, Option<u16>)>, p: DetailsPanel) -> bool {
    let entry = state.selectable_pops@[state.selected_index as int];
    let code = entry.0@;
    &&& p.region@ == entry.1@
    &&& p.location@ == desc_of(state.pops@, code) + " ("@ + code + ")"@
    &&& p.blocked == string_views(state.blocked_pops@).contains(code)
    &&& string_views(p.subnets@) == subnets_of(state.pops@, code)
    &&& p.latency == latency_of(latencies, code)
}

/// The details panel of the selected PoP; none when the selection is not on
/// the list (the list is empty), and the panel then says so.
pub fn details_panel<F: FirewallDriver>(state: &AppState<F>, latencies: &Vec<(String, Option<u16>)>) -> (p: Option<DetailsPanel>)
    ensures
        p is None <==> !(state.selected_index < state.selectable_pops@.len()),
        p matches Some(d) ==> panel_shows(*state, latencies@, d),
{
    if state.selected_index >= state.selectable_pops.len() {
        return None;
    }
    let code = state.selectable_pops[state.selected_index].0.as_str();
    let region = state.selectable_pops[state.selected_index].1;
    let c = chars_of(code);
    let (desc, subnets) = match state.pops.get(code) {
        Some(pop) => (pop.desc.clone(), relay_ips(pop)),
        None => {
            let none: Vec<String> = Vec::new();
            assert(string_views(none@) =~= Seq::<Seq<char>>::empty());
            (String::new(), none)
        },
    };
    assert(desc@ == desc_of(state.pops@, code@));
    assert(string_views(subnets@) == subnets_of(state.pops@, code@));
    let location = location_text(desc.as_str(), code);
    let blocked = strings_contain(state.blocked_pops.as_slice(), c.as_slice());
    let latency = find_latency(latencies, c.as_slice());
    Some(DetailsPanel { region, location, blocked, subnets, latency })
}

} // verus!
