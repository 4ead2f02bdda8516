//! The Windows driver: one outbound block rule per PoP in the Windows
//! firewall, managed with `netsh advfirewall`.

use vstd::prelude::*;
use crate::text::{
    append_str, chars_of, comma_joined, concat_str, find, first_occurrence, lemma_first_occurrence,
    lemma_first_occurrence_at, lines_of, occurs_at, split_lines, str_views, string_views,
};
use super::{
    codes_in_lines, collect_code, extends, outcome_view, ran, rule_name, run_since, CommandExecutor,
    CommandOutput, Exchange, FirewallDriver, Call, block_request, unblock_request, list_request,
    clear_request, done_answer, listed_answer,
};

verus! {

pub open spec fn netsh() -> Seq<char> {
    "netsh"@
}

/// The arguments that delete the rule of `pop`.
pub open spec fn delete_rule_args(pop: Seq<char>) -> Seq<Seq<char>> {
    seq!["advfirewall"@, "firewall"@, "delete"@, "rule"@, "name="@ + rule_name(pop)]
}

/// The arguments that add the outbound block rule of `pop` for `remote`
/// (the subnets, comma-separated).
pub open spec fn add_rule_args(pop: Seq<char>, remote: Seq<char>) -> Seq<Seq<char>> {
    seq![
        "advfirewall"@, "firewall"@, "add"@, "rule"@, "name="@ + rule_name(pop), "dir=out"@,
        "action=block"@, "remoteip="@ + remote, "enable=yes"@,
    ]
}

/// The arguments that list all firewall rules.
pub open spec fn show_rules_args() -> Seq<Seq<char>> {
    seq!["advfirewall"@, "firewall"@, "show"@, "rule"@, "name=all"@]
}

/// What `char::is_alphanumeric` returns (Unicode Alphabetic or Numeric).
pub uninterp spec fn alphanumeric(c: char) -> bool;

/// An ASCII letter or digit.
pub open spec fn ascii_letter_or_digit(c: char) -> bool {
    ('a' <= c && c <= 'z') || ('A' <= c && c <= 'Z') || ('0' <= c && c <= '9')
}

/// A character that can belong to a PoP code in a rule name: alphanumeric,
/// which every ASCII letter and digit is.
pub open spec fn code_char(c: char) -> bool {
    ascii_letter_or_digit(c) || alphanumeric(c)
}

/// Calls `char::is_alphanumeric`. The contract names the result, and states
/// what the documentation gives for ASCII: letters and digits are
/// alphanumeric.
#[verifier::external_body]
fn is_alphanumeric(c: char) -> (b: bool)
    ensures
        b == alphanumeric(c),
        ascii_letter_or_digit(c) ==> b,
{
    c.is_alphanumeric()
}

/// The longest prefix of `t` made of code characters.
pub open spec fn alphanumeric_run(t: Seq<char>) -> Seq<char>
    decreases t.len(),
{
    if t.len() > 0 && code_char(t[0]) {
        seq![t[0]] + alphanumeric_run(t.drop_first())
    } else {
        Seq::empty()
    }
}

/// The PoP code that a `netsh` rule listing line names, if any.
pub open spec fn netsh_line_code(line: Seq<char>) -> Option<Seq<char>> {
    match first_occurrence(line, "VSM_Block_"@) {
        Some(p) => {
            let code = alphanumeric_run(line.skip(p + 10));
            if code.len() > 0 { Some(code) } else { None }
        },
        None => None,
    }
}

/// `netsh_line_code` as a function value.
pub open spec fn netsh_line() -> spec_fn(Seq<char>) -> Option<Seq<char>> {
    |l: Seq<char>| netsh_line_code(l)
}

/// The PoP codes that a `netsh` rule listing shows, each once.
pub open spec fn netsh_blocked_codes(listing: Seq<char>) -> Seq<Seq<char>> {
    codes_in_lines(lines_of(listing), netsh_line())
}

/// What listing the blocked PoPs returns, given the reply to `netsh`.
pub open spec fn netsh_blocked_outcome(reply: Result<CommandOutput, String>) -> Result<Seq<Seq<char>>, Seq<char>> {
    match reply {
        Err(e) => Err("Failed to run netsh: "@ + e@),
        Ok(o) => Ok(netsh_blocked_codes(o.stdout@)),
    }
}

proof fn lemma_alphanumeric_run(t: Seq<char>, k: int)
    requires
        0 <= k <= t.len(),
        forall|j: int| 0 <= j < k ==> code_char(t[j]),
        k == t.len() || !code_char(t[k]),
    ensures
        alphanumeric_run(t) == t.take(k),
    decreases t.len(),
{
    if t.len() > 0 && code_char(t[0]) {
        lemma_alphanumeric_run(t.drop_first(), k - 1);
        assert(seq![t[0]] + t.drop_first().take(k - 1) =~= t.take(k));
    } else {
        assert(t.take(k) =~= Seq::<char>::empty());
    }
}

/// The PoP code that a `netsh` listing line names, if any.
fn line_code(line: &Vec<char>) -> (r: Option<Vec<char>>)
    ensures
        match r {
            Some(c) => netsh_line_code(line@) == Some(c@),
            None => netsh_line_code(line@) is None,
        },
{
    let name = chars_of("VSM_Block_");
    proof {
        reveal_strlit("VSM_Block_");
        lemma_first_occurrence(line@, name@);
    }
    match find(line.as_slice(), name.as_slice()) {
        None => None,
        Some(p) => {
            let n = line.len();
            proof {
                assert(crate::text::occurs_at(line@, name@, p as int));
                assert(p + 10 <= n);
            }
            let mut code: Vec<char> = Vec::new();
            let mut j = p + 10;
            while j < line.len() && is_alphanumeric(line[j])
                invariant
                    p + 10 <= j <= line@.len(),
                    code@ == line@.subrange(p + 10, j as int),
                    forall|m: int| p + 10 <= m < j ==> code_char(line@[m]),
                decreases line@.len() - j,
            {
                code.push(line[j]);
                j = j + 1;
                assert(code@ =~= line@.subrange(p + 10, j as int));
            }
            proof {
                let rest = line@.skip(p + 10);
                assert forall|m: int| 0 <= m < j - p - 10 implies code_char(rest[m]) by {
                    assert(rest[m] == line@[p + 10 + m]);
                }
                if j < line@.len() {
                    assert(rest[j - p - 10] == line@[j as int]);
                }
                lemma_alphanumeric_run(rest, j - p - 10);
                assert(rest.take(j - p - 10) =~= code@);
            }
            if code.len() > 0 {
                Some(code)
            } else {
                None
            }
        },
    }
}

/// The distinct PoP codes that a `netsh ... show rule` listing shows.
pub fn netsh_codes(listing: &str) -> (v: Vec<String>)
    ensures
        string_views(v@) == netsh_blocked_codes(listing@),
{
    let text = chars_of(listing);
    let lines = split_lines(text.as_slice());
    let ghost ls = lines@.map_values(|l: Vec<char>| l@);
    let mut acc: Vec<String> = Vec::new();
    let mut i: usize = 0;
    assert(ls.take(0) =~= Seq::<Seq<char>>::empty());
    while i < lines.len()
        invariant
            i <= lines@.len(),
            ls == lines@.map_values(|l: Vec<char>| l@),
            ls == lines_of(listing@),
            string_views(acc@) == codes_in_lines(ls.take(i as int), netsh_line()),
        decreases lines@.len() - i,
    {
        proof {
            assert(ls.take(i + 1).drop_last() =~= ls.take(i as int));
            assert(ls.take(i + 1).last() == lines@[i as int]@);
        }
        match line_code(&lines[i]) {
            Some(code) => {
                collect_code(&mut acc, code.as_slice());
            },
            None => {},
        }
        i = i + 1;
    }
    assert(ls.take(i as int) =~= ls);
    acc
}

/// `parts` joined with commas.
pub fn join_with_commas(parts: &[String]) -> (s: String)
    ensures
        s@ == comma_joined(string_views(parts@)),
{
    let mut s = String::new();
    let mut i: usize = 0;
    while i < parts.len()
        invariant
            i <= parts@.len(),
            s@ == comma_joined(string_views(parts@).take(i as int)),
        decreases parts@.len() - i,
    {
        proof {
            let p = string_views(parts@).take(i + 1);
            assert(p.drop_last() =~= string_views(parts@).take(i as int));
            assert(p.last() == parts@[i as int]@);
        }
        if i > 0 {
            append_str(&mut s, ",");
            proof { reveal_strlit(","); }
        } else {
            assert(string_views(parts@).take(0) =~= Seq::<Seq<char>>::empty());
        }
        append_str(&mut s, parts[i].as_str());
        i = i + 1;
    }
    assert(string_views(parts@).take(i as int) =~= string_views(parts@));
    s
}

} // verus!

verus! {

/// What blocking a PoP returns, given the commands run: the delete of
/// its rule, then (unless there is no subnet) the add of a new one.
pub open spec fn windows_block_outcome(pop: Seq<char>, ips: Seq<Seq<char>>, t: Seq<Exchange>) -> Option<Result<(), Seq<char>>> {
    if t.len() >= 1 && ran(t[0], netsh(), delete_rule_args(pop)) {
        if ips.len() == 0 {
            if t.len() == 1 { Some(Ok(())) } else { None }
        } else if t.len() == 2 && ran(t[1], netsh(), add_rule_args(pop, comma_joined(ips))) {
            match t[1].2 {
                Err(e) => Some(Err("Failed to run netsh: "@ + e@)),
                Ok(o) => if o.success {
                    Some(Ok(()))
                } else {
                    Some(Err("netsh failed to create rule "@ + rule_name(pop)))
                },
            }
        } else {
            None
        }
    } else {
        None
    }
}

/// Whether `t` is what clearing everything runs: the rule listing, then,
/// when it could be run, a delete for each PoP it shows, in order.
pub open spec fn windows_clear_trace(t: Seq<Exchange>) -> bool {
    t.len() >= 1 && ran(t[0], netsh(), show_rules_args()) && match netsh_blocked_outcome(t[0].2) {
        Err(_) => t.len() == 1,
        Ok(codes) => t.len() == 1 + codes.len() && forall|k: int| 0 <= k < codes.len() ==> ran(#[trigger] t[1 + k], netsh(), delete_rule_args(codes[k])),
    }
}

/// The `netsh advfirewall` driver, recording (as ghost state) every command
/// it ran with its reply.
pub struct WindowsFirewall<E: CommandExecutor> {
    executor: E,
    history: Ghost<Seq<Exchange>>,
    asked: Ghost<Seq<Call>>,
}

impl<E: CommandExecutor> WindowsFirewall<E> {
    /// Every command run through this driver, with its reply, in order.
    pub closed spec fn history(&self) -> Seq<Exchange> {
        self.history@
    }

    /// The executor the driver runs its commands with.
    pub closed spec fn executor_spec(&self) -> E {
        self.executor
    }

    /// A driver over `executor`; it runs nothing yet.
    pub fn with_executor(executor: E) -> (f: Self)
        ensures
            f.history() == Seq::<Exchange>::empty(),
            f.executor_spec() == executor,
            f.calls() == Seq::<Call>::empty(),
    {
        WindowsFirewall { executor, history: Ghost(Seq::empty()), asked: Ghost(Seq::empty()) }
    }

    /// The executor the driver runs its commands with.
    pub fn executor(&self) -> (e: &E)
        ensures
            *e == self.executor_spec(),
    {
        &self.executor
    }

    /// Runs `netsh` with `args`, recording the exchange.
    fn run(&mut self, args: &[&str]) -> (r: Result<CommandOutput, String>)
        ensures
            final(self).history() == old(self).history().push((netsh(), str_views(args@), r)),
            final(self).asked == old(self).asked,
    {
        let r = self.executor.execute("netsh", args);
        self.history = Ghost(self.history@.push((netsh(), str_views(args@), r)));
        r
    }

    /// Deletes the rule of `pop`, ignoring whether there was one.
    fn delete_rule(&mut self, pop: &str)
        ensures
            final(self).history().len() == old(self).history().len() + 1,
            extends(old(self).history(), final(self).history()),
            ran(final(self).history().last(), netsh(), delete_rule_args(pop@)),
            final(self).asked == old(self).asked,
    {
        let name = concat_str("name=VSM_Block_", pop);
        proof {
            reveal_strlit("name=VSM_Block_");
            reveal_strlit("name=");
            reveal_strlit("VSM_Block_");
            assert(name@ =~= "name="@ + rule_name(pop@));
        }
        let args = vec!["advfirewall", "firewall", "delete", "rule", name.as_str()];
        assert(str_views(args@) =~= delete_rule_args(pop@));
        let _ = self.run(args.as_slice());
        assert(self.history().take(old(self).history().len() as int) =~= old(self).history());
    }

    /// Lists all rules and reads the PoPs that have one.
    fn list_rules(&mut self) -> (r: Result<Vec<String>, String>)
        ensures
            final(self).history() == old(self).history().push(final(self).history().last()),
            ran(final(self).history().last(), netsh(), show_rules_args()),
            match (r, netsh_blocked_outcome(final(self).history().last().2)) {
                (Ok(v), Ok(codes)) => string_views(v@) == codes,
                (Err(e), Err(m)) => e@ == m,
                _ => false,
            },
            final(self).asked == old(self).asked,
    {
        let args = vec!["advfirewall", "firewall", "show", "rule", "name=all"];
        assert(str_views(args@) =~= show_rules_args());
        let listed = self.run(args.as_slice());
        match listed {
            Err(e) => Err(concat_str("Failed to run netsh: ", e.as_str())),
            Ok(out) => Ok(netsh_codes(out.stdout.as_str())),
        }
    }
}

/// Blocking `ips` for `pop` took the driver from `o` to `f`: the commands
/// it ran, with their replies, lead to the result `r`.
pub open spec fn windows_blocked<E: CommandExecutor>(
    o: WindowsFirewall<E>, f: WindowsFirewall<E>, pop: Seq<char>, ips: Seq<Seq<char>>, r: Result<(), String>,
) -> bool {
    &&& extends(o.history(), f.history())
    &&& windows_block_outcome(pop, ips, run_since(o.history(), f.history())) == Some(outcome_view(r))
}

/// Unblocking `pop` took the driver from `o` to `f`: it deleted the PoP's
/// rule and succeeded.
pub open spec fn windows_unblocked<E: CommandExecutor>(
    o: WindowsFirewall<E>, f: WindowsFirewall<E>, pop: Seq<char>, r: Result<(), String>,
) -> bool {
    &&& r is Ok
    &&& f.history().len() == o.history().len() + 1
    &&& extends(o.history(), f.history())
    &&& ran(f.history().last(), netsh(), delete_rule_args(pop))
}

/// Listing the blocked PoPs took the driver from `o` to `f`: it listed all
/// rules once, and `r` is what the reply shows.
pub open spec fn windows_listed<E: CommandExecutor>(
    o: WindowsFirewall<E>, f: WindowsFirewall<E>, r: Result<Vec<String>, String>,
) -> bool {
    &&& f.history() == o.history().push(f.history().last())
    &&& ran(f.history().last(), netsh(), show_rules_args())
    &&& match (r, netsh_blocked_outcome(f.history().last().2)) {
        (Ok(v), Ok(codes)) => string_views(v@) == codes,
        (Err(e), Err(m)) => e@ == m,
        _ => false,
    }
}

/// Clearing took the driver from `o` to `f`: it listed the rules and
/// deleted the rule of each PoP shown, and succeeded.
pub open spec fn windows_cleared<E: CommandExecutor>(o: WindowsFirewall<E>, f: WindowsFirewall<E>, r: Result<(), String>) -> bool {
    &&& r is Ok
    &&& extends(o.history(), f.history())
    &&& windows_clear_trace(run_since(o.history(), f.history()))
}

impl<E: CommandExecutor> WindowsFirewall<E> {
    /// Replaces the rule of `pop` by one that blocks outbound traffic to
    /// all of `ips` (none when `ips` is empty).
    fn replace_rule(&mut self, pop: &str, ips: &[String]) -> (r: Result<(), String>)
        ensures
            windows_blocked(*old(self), *final(self), pop@, string_views(ips@), r),
            final(self).asked == old(self).asked,
    {
        let ghost h0 = self.history();
        self.delete_rule(pop);
        if ips.len() == 0 {
            proof {
                let t = run_since(h0, self.history());
                assert(t =~= seq![t[0]]);
            }
            return Ok(());
        }
        let remote = join_with_commas(ips);
        let rule = concat_str("VSM_Block_", pop);
        let name = concat_str("name=", rule.as_str());
        let remote_arg = concat_str("remoteip=", remote.as_str());
        let args = vec![
            "advfirewall", "firewall", "add", "rule", name.as_str(), "dir=out", "action=block",
            remote_arg.as_str(), "enable=yes",
        ];
        assert(str_views(args@) =~= add_rule_args(pop@, comma_joined(string_views(ips@))));
        let ghost h1 = self.history();
        let added = self.run(args.as_slice());
        proof {
            let t = run_since(h0, self.history());
            assert(t =~= seq![t[0], t[1]]);
            assert(self.history().take(h0.len() as int) =~= h0);
        }
        match added {
            Err(e) => Err(concat_str("Failed to run netsh: ", e.as_str())),
            Ok(out) => {
                if !out.success {
                    Err(concat_str("netsh failed to create rule ", rule.as_str()))
                } else {
                    Ok(())
                }
            },
        }
    }

    /// Deletes the rule of `pop`; always succeeds.
    fn remove_rule(&mut self, pop: &str) -> (r: Result<(), String>)
        ensures
            windows_unblocked(*old(self), *final(self), pop@, r),
            final(self).asked == old(self).asked,
    {
        self.delete_rule(pop);
        Ok(())
    }

    /// Deletes the rule of every PoP that the listing shows; always succeeds.
    fn remove_all_rules(&mut self) -> (r: Result<(), String>)
        ensures
            windows_cleared(*old(self), *final(self), r),
            final(self).asked == old(self).asked,
    {
        let ghost h0 = self.history();
        let listed = self.list_rules();
        let ghost h1 = self.history();
        match listed {
            Ok(blocked) => {
                let ghost codes = string_views(blocked@);
                let mut i: usize = 0;
                assert(h1.take(h0.len() as int) =~= h0);
                assert(h1.take(h1.len() as int) =~= h1);
                while i < blocked.len()
                    invariant
                        i <= blocked@.len(),
                        self.asked == old(self).asked,
                        codes == string_views(blocked@),
                        h1.len() == h0.len() + 1,
                        extends(h0, h1),
                        extends(h1, self.history()),
                        self.history().len() == h1.len() + i,
                        forall|k: int| 0 <= k < i ==> ran(#[trigger] self.history()[h1.len() + k], netsh(), delete_rule_args(codes[k])),
                    decreases blocked@.len() - i,
                {
                    let ghost before = self.history();
                    self.delete_rule(blocked[i].as_str());
                    proof {
                        assert(self.history().take(h1.len() as int) =~= h1) by {
                            assert(before.take(h1.len() as int) == h1);
                            assert forall|k: int| 0 <= k < h1.len() implies self.history()[k] == before[k] by {
                                assert(self.history().take(before.len() as int)[k] == before[k]);
                            }
                        }
                        assert forall|k: int| 0 <= k < i + 1 implies ran(#[trigger] self.history()[h1.len() + k], netsh(), delete_rule_args(codes[k])) by {
                            if k < i {
                                assert(self.history().take(before.len() as int)[h1.len() + k] == before[h1.len() + k]);
                            }
                        }
                    }
                    i = i + 1;
                }
                proof {
                    let t = run_since(h0, self.history());
                    assert(self.history().take(h0.len() as int) =~= h0) by {
                        assert(self.history().take(h1.len() as int) == h1);
                        assert(h1.take(h0.len() as int) == h0);
                    }
                    assert(t[0] == h1.last());
                    assert forall|k: int| 0 <= k < codes.len() implies ran(#[trigger] t[1 + k], netsh(), delete_rule_args(codes[k])) by {
                        assert(t[1 + k] == self.history()[h1.len() + k]);
                    }
                }
            },
            Err(_) => {
                proof {
                    let t = run_since(h0, self.history());
                    assert(t =~= seq![h1.last()]);
                    assert(self.history().take(h0.len() as int) =~= h0);
                }
            },
        }
        Ok(())
    }
}

impl<E: CommandExecutor> FirewallDriver for WindowsFirewall<E> {
    closed spec fn calls(&self) -> Seq<Call> {
        self.asked@
    }

    /// Replaces the rule of `pop` by one that blocks `ips`.
    fn block_pop(&mut self, pop: &str, ips: &[String]) -> (r: Result<(), String>)
        ensures
            windows_blocked(*old(self), *final(self), pop@, string_views(ips@), r),
    {
        let r = self.replace_rule(pop, ips);
        self.asked = Ghost(self.asked@.push((block_request(pop@, string_views(ips@)), done_answer(r))));
        r
    }

    /// Deletes the rule of `pop`.
    fn unblock_pop(&mut self, pop: &str, ips: &[String]) -> (r: Result<(), String>)
        ensures
            windows_unblocked(*old(self), *final(self), pop@, r),
    {
        let r = self.remove_rule(pop);
        self.asked = Ghost(self.asked@.push((unblock_request(pop@, string_views(ips@)), done_answer(r))));
        r
    }

    /// The PoPs that have a rule, read from the listing of all rules.
    fn get_blocked_pops(&mut self) -> (r: Result<Vec<String>, String>)
        ensures
            windows_listed(*old(self), *final(self), r),
    {
        let r = self.list_rules();
        self.asked = Ghost(self.asked@.push((list_request(), listed_answer(r))));
        r
    }

    /// Deletes the rule of every PoP that the listing shows.
    fn clear_all(&mut self) -> (r: Result<(), String>)
        ensures
            windows_cleared(*old(self), *final(self), r),
    {
        let r = self.remove_all_rules();
        self.asked = Ghost(self.asked@.push((clear_request(), done_answer(r))));
        r
    }
}

} // verus!

verus! {

/// What a block writes is what the listing reads back: a listing line that
/// shows the rule name of `pop` (after text without a `V`, and followed by
/// nothing or by a character that is not alphanumeric) yields `pop`, for
/// any non-empty alphanumeric code, such as one of ASCII letters and digits.
#[verifier::spinoff_prover]
pub proof fn lemma_listing_line_read_back(head: Seq<char>, pop: Seq<char>, rest: Seq<char>)
    requires
        forall|k: int| 0 <= k < head.len() ==> head[k] != 'V',
        pop.len() > 0,
        forall|k: int| 0 <= k < pop.len() ==> code_char(pop[k]),
        rest.len() == 0 || !code_char(rest[0]),
    ensures
        netsh_line_code(head + "VSM_Block_"@ + pop + rest) == Some(pop),
{
    reveal_strlit("VSM_Block_");
    let name = "VSM_Block_"@;
    let line = head + name + pop + rest;
    let h = head.len() as int;
    assert(line.subrange(h, h + 10) =~= name);
    assert forall|j: int| 0 <= j < h implies !occurs_at(line, name, j) by {
        if occurs_at(line, name, j) {
            assert(line.subrange(j, j + 10)[0] == name[0]);
            assert(line[j] == head[j]);
        }
    }
    lemma_first_occurrence_at(line, name, h);
    let after = line.skip(h + 10);
    assert(after =~= pop + rest);
    assert forall|k: int| 0 <= k < pop.len() implies code_char(after[k]) by {
        assert(after[k] == pop[k]);
    }
    if rest.len() > 0 {
        assert(after[pop.len() as int] == rest[0]);
    }
    lemma_alphanumeric_run(after, pop.len() as int);
    assert(after.take(pop.len() as int) =~= pop);
}

} // verus!

verus! {

/// A block first deletes the PoP's rule; with no subnet that is all it does
/// and it succeeds. With subnets it then adds the PoP's outbound block rule
/// for all of them, which is the last command it runs, and it succeeds
/// exactly when that add does.
pub proof fn lemma_windows_block_order<E: CommandExecutor>(
    o: WindowsFirewall<E>, f: WindowsFirewall<E>, pop: Seq<char>, ips: Seq<Seq<char>>, r: Result<(), String>,
)
    requires
        windows_blocked(o, f, pop, ips, r),
    ensures
        run_since(o.history(), f.history()).len() >= 1,
        run_since(o.history(), f.history())[0].0 == "netsh"@,
        run_since(o.history(), f.history())[0].1
            == seq!["advfirewall"@, "firewall"@, "delete"@, "rule"@, "name=VSM_Block_"@ + pop],
        ips.len() == 0 ==> run_since(o.history(), f.history()).len() == 1 && r is Ok,
        ips.len() > 0 ==> run_since(o.history(), f.history()).len() == 2
            && run_since(o.history(), f.history())[1].0 == "netsh"@
            && run_since(o.history(), f.history())[1].1 == seq![
                "advfirewall"@, "firewall"@, "add"@, "rule"@, "name=VSM_Block_"@ + pop, "dir=out"@,
                "action=block"@, "remoteip="@ + comma_joined(ips), "enable=yes"@,
            ]
            && (r is Ok <==> (run_since(o.history(), f.history())[1].2 matches Ok(out) && out.success)),
{
    reveal_strlit("name=");
    reveal_strlit("VSM_Block_");
    reveal_strlit("name=VSM_Block_");
    assert("name="@ + rule_name(pop) =~= "name=VSM_Block_"@ + pop);
}

} // verus!
