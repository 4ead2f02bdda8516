//! The Linux driver: a dedicated `VSM_BLOCKS` iptables chain, jumped to
//! from `OUTPUT`, holding one DROP rule per blocked subnet.

use vstd::prelude::*;
use crate::text::{
    chars_of, concat_str, contains_seq, find, first_occurrence, is_white_space, lemma_first_occurrence,
    lemma_first_occurrence_at, lines_of, occurs_at, split_lines, str_views, string_views, trim,
    trim_end_char, trim_end_matching, trim_end_ws, trim_start_ws, trim_ws,
};
use super::{
    codes_in_lines, collect_code, extends, outcome_view, ran, rule_name, run_since, succeeded,
    CommandExecutor, CommandOutput, Exchange, FirewallDriver, Call, block_request, unblock_request,
    list_request, clear_request, done_answer, listed_answer,
};

verus! {

pub open spec fn iptables() -> Seq<char> {
    "iptables"@
}

pub open spec fn create_chain_args() -> Seq<Seq<char>> {
    seq!["-N"@, "VSM_BLOCKS"@]
}

pub open spec fn check_jump_args() -> Seq<Seq<char>> {
    seq!["-C"@, "OUTPUT"@, "-j"@, "VSM_BLOCKS"@]
}

pub open spec fn insert_jump_args() -> Seq<Seq<char>> {
    seq!["-I"@, "OUTPUT"@, "1"@, "-j"@, "VSM_BLOCKS"@]
}

pub open spec fn list_chain_args() -> Seq<Seq<char>> {
    seq!["-S"@, "VSM_BLOCKS"@]
}

pub open spec fn flush_chain_args() -> Seq<Seq<char>> {
    seq!["-F"@, "VSM_BLOCKS"@]
}

pub open spec fn delete_jump_args() -> Seq<Seq<char>> {
    seq!["-D"@, "OUTPUT"@, "-j"@, "VSM_BLOCKS"@]
}

pub open spec fn delete_chain_args() -> Seq<Seq<char>> {
    seq!["-X"@, "VSM_BLOCKS"@]
}

/// The arguments of a rule command (`-C` check, `-A` append, `-D` delete)
/// for the DROP rule of subnet `ip`, commented with the PoP's rule name.
pub open spec fn rule_args(op: Seq<char>, ip: Seq<char>, pop: Seq<char>) -> Seq<Seq<char>> {
    seq![op, "VSM_BLOCKS"@, "-d"@, ip, "-j"@, "DROP"@, "-m"@, "comment"@, "--comment"@, rule_name(pop)]
}

/// What setting up the chain returns, given the commands it ran (`None`
/// when they are not the ones it runs).
pub open spec fn init_chain_outcome(t: Seq<Exchange>) -> Option<Result<(), Seq<char>>> {
    if t.len() >= 2 && ran(t[0], iptables(), create_chain_args()) && ran(t[1], iptables(), check_jump_args()) {
        if succeeded(t[1].2) {
            if t.len() == 2 { Some(Ok(())) } else { None }
        } else if t.len() == 3 && ran(t[2], iptables(), insert_jump_args()) {
            match t[2].2 {
                Err(e) => Some(Err("Failed to insert VSM_BLOCKS jump: "@ + e@)),
                Ok(o) => if o.success {
                    Some(Ok(()))
                } else {
                    Some(Err("Failed to insert jump in OUTPUT chain"@))
                },
            }
        } else {
            None
        }
    } else {
        None
    }
}

/// The number of commands that setting up the chain runs.
pub open spec fn init_chain_len(t: Seq<Exchange>) -> int {
    if t.len() >= 2 && succeeded(t[1].2) { 2 } else { 3 }
}

/// What appending the DROP rules of `ips` returns, given the commands
/// run: per subnet a check, and an append when the check failed; the
/// first append that fails ends it with an error.
pub open spec fn append_rules_outcome(pop: Seq<char>, ips: Seq<Seq<char>>, t: Seq<Exchange>) -> Option<Result<(), Seq<char>>>
    decreases ips.len(),
{
    if ips.len() == 0 {
        if t.len() == 0 { Some(Ok(())) } else { None }
    } else if t.len() >= 1 && ran(t[0], iptables(), rule_args("-C"@, ips[0], pop)) && succeeded(t[0].2) {
        append_rules_outcome(pop, ips.drop_first(), t.drop_first())
    } else if t.len() >= 2 && ran(t[0], iptables(), rule_args("-C"@, ips[0], pop)) && !succeeded(t[0].2)
        && ran(t[1], iptables(), rule_args("-A"@, ips[0], pop)) {
        match t[1].2 {
            Err(e) => if t.len() == 2 { Some(Err("Failed to execute iptables: "@ + e@)) } else { None },
            Ok(o) => if !o.success {
                if t.len() == 2 { Some(Err("iptables block failed for "@ + ips[0])) } else { None }
            } else {
                append_rules_outcome(pop, ips.drop_first(), t.skip(2))
            },
        }
    } else {
        None
    }
}

/// What blocking a PoP returns, given the commands it ran.
pub open spec fn block_outcome(pop: Seq<char>, ips: Seq<Seq<char>>, t: Seq<Exchange>) -> Option<Result<(), Seq<char>>> {
    let n = init_chain_len(t);
    if n <= t.len() && init_chain_outcome(t.take(n)) is Some {
        append_rules_outcome(pop, ips, t.skip(n))
    } else {
        None
    }
}

/// The PoP code that an `iptables -S` line names, if it is one of ours.
pub open spec fn rule_line_code(line: Seq<char>) -> Option<Seq<char>> {
    if contains_seq(line, "comment \"VSM_Block_"@) {
        match first_occurrence(line, "VSM_Block_"@) {
            Some(p) => {
                let code = trim_ws(trim_end_char(line.skip(p + 10), '"'));
                if code.len() > 0 { Some(code) } else { None }
            },
            None => None,
        }
    } else {
        None
    }
}

/// The PoP codes that `iptables -S VSM_BLOCKS` output shows blocked.
pub open spec fn iptables_blocked_codes(rules: Seq<char>) -> Seq<Seq<char>> {
    codes_in_lines(lines_of(rules), iptables_line_code())
}

/// `rule_line_code` as a function value.
pub open spec fn iptables_line_code() -> spec_fn(Seq<char>) -> Option<Seq<char>> {
    |l: Seq<char>| rule_line_code(l)
}

/// What listing the blocked PoPs returns, given the reply to `iptables -S`.
pub open spec fn blocked_outcome(reply: Result<CommandOutput, String>) -> Result<Seq<Seq<char>>, Seq<char>> {
    match reply {
        Err(e) => Err("Failed to read iptables rules: "@ + e@),
        Ok(o) => if o.success { Ok(iptables_blocked_codes(o.stdout@)) } else { Ok(Seq::empty()) },
    }
}

} // verus!

verus! {

/// The PoP code that an `iptables -S` line names, if it is one of ours.
fn line_code(line: &Vec<char>) -> (r: Option<Vec<char>>)
    ensures
        match r {
            Some(c) => rule_line_code(line@) == Some(c@),
            None => rule_line_code(line@) is None,
        },
{
    let marker = chars_of("comment \"VSM_Block_");
    let name = chars_of("VSM_Block_");
    proof {
        reveal_strlit("VSM_Block_");
        lemma_first_occurrence(line@, marker@);
        lemma_first_occurrence(line@, name@);
    }
    if find(line.as_slice(), marker.as_slice()).is_none() {
        return None;
    }
    match find(line.as_slice(), name.as_slice()) {
        None => None,
        Some(p) => {
            let n = line.len();
            proof {
                assert(crate::text::occurs_at(line@, name@, p as int));
                assert(p + 10 <= n);
            }
            let mut rest: Vec<char> = Vec::new();
            let mut j = p + 10;
            while j < line.len()
                invariant
                    p + 10 <= j <= line@.len(),
                    rest@ == line@.subrange(p + 10, j as int),
                decreases line@.len() - j,
            {
                rest.push(line[j]);
                j = j + 1;
                assert(rest@ =~= line@.subrange(p + 10, j as int));
            }
            assert(rest@ =~= line@.skip(p + 10));
            let unquoted = trim_end_matching(rest.as_slice(), '"');
            let code = trim(unquoted.as_slice());
            if code.len() > 0 {
                Some(code)
            } else {
                None
            }
        },
    }
}

/// The distinct PoP codes that `iptables -S VSM_BLOCKS` output shows
/// blocked, in order of first appearance.
pub fn iptables_codes(rules: &str) -> (v: Vec<String>)
    ensures
        string_views(v@) == iptables_blocked_codes(rules@),
{
    let text = chars_of(rules);
    let lines = split_lines(text.as_slice());
    let ghost ls = lines@.map_values(|l: Vec<char>| l@);
    let mut acc: Vec<String> = Vec::new();
    let mut i: usize = 0;
    assert(ls.take(0) =~= Seq::<Seq<char>>::empty());
    while i < lines.len()
        invariant
            i <= lines@.len(),
            ls == lines@.map_values(|l: Vec<char>| l@),
            ls == lines_of(rules@),
            string_views(acc@) == codes_in_lines(ls.take(i as int), iptables_line_code()),
        decreases lines@.len() - i,
    {
        proof {
            assert(ls.take(i + 1).drop_last() =~= ls.take(i as int));
            assert(ls.take(i + 1).last() == lines@[i as int]@);
        }
        match line_code(&lines[i]) {
            Some(code) => {
                collect_code(&mut acc, code.as_slice());
            },
            None => {},
        }
        i = i + 1;
    }
    assert(ls.take(i as int) =~= ls);
    acc
}

} // verus!

verus! {

/// The iptables driver. It keeps, as ghost state, every command it ran and
/// the reply, so that its contracts can say what it did with the replies.
pub struct LinuxFirewall<E: CommandExecutor> {
    executor: E,
    history: Ghost<Seq<Exchange>>,
    asked: Ghost<Seq<Call>>,
}

impl<E: CommandExecutor> LinuxFirewall<E> {
    /// Every command run through this driver, with its reply, in order.
    pub closed spec fn history(&self) -> Seq<Exchange> {
        self.history@
    }

    /// The executor the driver runs its commands with.
    pub closed spec fn executor_spec(&self) -> E {
        self.executor
    }

    /// The executor the driver runs its commands with.
    pub fn executor(&self) -> (e: &E)
        ensures
            *e == self.executor_spec(),
    {
        &self.executor
    }

    /// Runs `iptables` with `args`, recording the exchange.
    fn run(&mut self, args: &[&str]) -> (r: Result<CommandOutput, String>)
        ensures
            final(self).history() == old(self).history().push((iptables(), str_views(args@), r)),
            final(self).asked == old(self).asked,
    {
        let r = self.executor.execute("iptables", args);
        self.history = Ghost(self.history@.push((iptables(), str_views(args@), r)));
        r
    }

    /// A driver over `executor`; it sets up the chain first and ignores
    /// whether that worked.
    pub fn with_executor(executor: E) -> (f: Self)
        ensures
            init_chain_outcome(f.history()) is Some,
            f.calls() == Seq::<Call>::empty(),
    {
        let mut f = LinuxFirewall { executor, history: Ghost(Seq::empty()), asked: Ghost(Seq::empty()) };
        let _ = f.init_chain();
        assert(f.history().skip(0) =~= f.history());
        f
    }

    /// Creates the `VSM_BLOCKS` chain (an error there is ignored, as the
    /// chain may exist) and the jump to it from `OUTPUT` unless it exists.
    pub fn init_chain(&mut self) -> (r: Result<(), String>)
        ensures
            extends(old(self).history(), final(self).history()),
            init_chain_outcome(run_since(old(self).history(), final(self).history())) == Some(outcome_view(r)),
            final(self).calls() == old(self).calls(),
    {
        let ghost h0 = self.history();
        let create = vec!["-N", "VSM_BLOCKS"];
        assert(str_views(create@) =~= create_chain_args());
        let _ = self.run(create.as_slice());
        let check = vec!["-C", "OUTPUT", "-j", "VSM_BLOCKS"];
        assert(str_views(check@) =~= check_jump_args());
        let checked = self.run(check.as_slice());
        let jump_exists = match &checked {
            Ok(out) => out.success,
            Err(_) => false,
        };
        if !jump_exists {
            let insert = vec!["-I", "OUTPUT", "1", "-j", "VSM_BLOCKS"];
            assert(str_views(insert@) =~= insert_jump_args());
            let inserted = self.run(insert.as_slice());
            proof {
                let t = run_since(h0, self.history());
                assert(t =~= seq![t[0], t[1], t[2]]);
                assert(self.history().take(h0.len() as int) =~= h0);
            }
            match inserted {
                Err(e) => {
                    return Err(concat_str("Failed to insert VSM_BLOCKS jump: ", e.as_str()));
                },
                Ok(out) => {
                    if !out.success {
                        return Err(String::from_str("Failed to insert jump in OUTPUT chain"));
                    }
                },
            }
        } else {
            proof {
                let t = run_since(h0, self.history());
                assert(t =~= seq![t[0], t[1]]);
                assert(self.history().take(h0.len() as int) =~= h0);
            }
        }
        Ok(())
    }

    /// Whether the DROP rule for `subnet`, commented for `pop`, exists
    /// (`iptables -C` succeeds).
    pub fn has_rule(&mut self, subnet: &str, pop: &str) -> (b: bool)
        ensures
            final(self).history().len() == old(self).history().len() + 1,
            extends(old(self).history(), final(self).history()),
            ran(final(self).history().last(), iptables(), rule_args("-C"@, subnet@, pop@)),
            b == succeeded(final(self).history().last().2),
            final(self).calls() == old(self).calls(),
    {
        let comment = concat_str("VSM_Block_", pop);
        let args = vec!["-C", "VSM_BLOCKS", "-d", subnet, "-j", "DROP", "-m", "comment", "--comment", comment.as_str()];
        assert(str_views(args@) =~= rule_args("-C"@, subnet@, pop@));
        let r = self.run(args.as_slice());
        assert(self.history().take(old(self).history().len() as int) =~= old(self).history());
        match r {
            Ok(out) => out.success,
            Err(_) => false,
        }
    }
}

} // verus!

verus! {

/// Appending the rules of `a` then `b` is appending those of `a`, and, once
/// that went through, those of `b`.
proof fn lemma_append_rules_concat(pop: Seq<char>, a: Seq<Seq<char>>, b: Seq<Seq<char>>, t1: Seq<Exchange>, u: Seq<Exchange>)
    requires
        append_rules_outcome(pop, a, t1) == Some(Ok::<(), Seq<char>>(())),
    ensures
        append_rules_outcome(pop, a + b, t1 + u) == append_rules_outcome(pop, b, u),
    decreases a.len(),
{
    if a.len() == 0 {
        assert(a + b =~= b);
        assert(t1 + u =~= u);
    } else {
        assert((a + b)[0] == a[0]);
        assert((a + b).drop_first() =~= a.drop_first() + b);
        if t1.len() >= 1 && ran(t1[0], iptables(), rule_args("-C"@, a[0], pop)) && succeeded(t1[0].2) {
            assert((t1 + u)[0] == t1[0]);
            assert((t1 + u).drop_first() =~= t1.drop_first() + u);
            lemma_append_rules_concat(pop, a.drop_first(), b, t1.drop_first(), u);
        } else {
            assert((t1 + u)[0] == t1[0]);
            assert((t1 + u)[1] == t1[1]);
            assert((t1 + u).skip(2) =~= t1.skip(2) + u);
            lemma_append_rules_concat(pop, a.drop_first(), b, t1.skip(2), u);
        }
    }
}

/// What one removal step returns, given the commands it ran: a check, and
/// a delete when the check found the rule; `Some(true)` when it deleted.
pub open spec fn removal_step_outcome(pop: Seq<char>, ip: Seq<char>, t: Seq<Exchange>) -> Option<bool> {
    if t.len() == 1 && ran(t[0], iptables(), rule_args("-C"@, ip, pop)) && !succeeded(t[0].2) {
        Some(false)
    } else if t.len() == 2 && ran(t[0], iptables(), rule_args("-C"@, ip, pop)) && succeeded(t[0].2)
        && ran(t[1], iptables(), rule_args("-D"@, ip, pop)) {
        Some(true)
    } else {
        None
    }
}

/// `t` is a run of deletions of the DROP rule of `ip`: pairs of a check
/// that found the rule and a delete.
pub open spec fn deletions(pop: Seq<char>, ip: Seq<char>, t: Seq<Exchange>) -> bool
    decreases t.len(),
{
    if t.len() == 0 {
        true
    } else {
        t.len() >= 2 && removal_step_outcome(pop, ip, t.take(2)) == Some(true) && deletions(pop, ip, t.skip(2))
    }
}

/// The commands that unblocking subnet `ip` runs: deletions until a check
/// finds no rule, or `u64::MAX` deletions.
pub open spec fn removal_run(pop: Seq<char>, ip: Seq<char>, t: Seq<Exchange>) -> bool {
    ||| t.len() >= 1 && t.len() <= 2 * (u64::MAX as int) && deletions(pop, ip, t.drop_last())
        && removal_step_outcome(pop, ip, t.skip(t.len() - 1)) == Some(false)
    ||| t.len() == 2 * (u64::MAX as int) && deletions(pop, ip, t)
}

/// The commands that unblocking `ips` runs: the removal run of each
/// subnet, in order.
pub open spec fn unblock_run(pop: Seq<char>, ips: Seq<Seq<char>>, t: Seq<Exchange>) -> bool
    decreases ips.len(),
{
    if ips.len() == 0 {
        t.len() == 0
    } else {
        exists|k: int| #![trigger t.take(k)]
            0 <= k <= t.len() && unblock_run(pop, ips.drop_last(), t.take(k)) && removal_run(pop, ips.last(), t.skip(k))
    }
}

/// A run of deletions followed by one more deletion is a run of deletions.
proof fn lemma_deletions_push(pop: Seq<char>, ip: Seq<char>, t: Seq<Exchange>, step: Seq<Exchange>)
    requires
        deletions(pop, ip, t),
        removal_step_outcome(pop, ip, step) == Some(true),
    ensures
        deletions(pop, ip, t + step),
    decreases t.len(),
{
    assert(step.len() == 2);
    if t.len() == 0 {
        assert(t + step =~= step);
        assert(step.take(2) =~= step);
        assert(step.skip(2) =~= Seq::<Exchange>::empty());
        assert(deletions(pop, ip, step.skip(2)));
    } else {
        assert(t.len() >= 2);
        assert((t + step).take(2) =~= t.take(2));
        assert((t + step).skip(2) =~= t.skip(2) + step);
        lemma_deletions_push(pop, ip, t.skip(2), step);
    }
}

impl<E: CommandExecutor> LinuxFirewall<E> {
    proof fn lemma_block_total(&self, h0: Seq<Exchange>, h1: Seq<Exchange>, pop: Seq<char>, views: Seq<Seq<char>>, res: Result<(), Seq<char>>)
        requires
            extends(h0, h1),
            init_chain_outcome(run_since(h0, h1)) is Some,
            extends(h1, self.history()),
            append_rules_outcome(pop, views, run_since(h1, self.history())) == Some(res),
        ensures
            extends(h0, self.history()),
            block_outcome(pop, views, run_since(h0, self.history())) == Some(res),
    {
        let t = run_since(h0, self.history());
        let ti = run_since(h0, h1);
        assert(self.history().take(h0.len() as int) =~= h0) by {
            assert(self.history().take(h1.len() as int) == h1);
            assert(h1.take(h0.len() as int) == h0);
        }
        assert(t.take(ti.len() as int) =~= ti);
        assert(ti[1] == t[1]);
        assert(init_chain_len(t) == ti.len());
        assert(t.skip(ti.len() as int) =~= run_since(h1, self.history()));
    }

    /// Checks once for the DROP rule of `ip` under `pop` and deletes it when
    /// found; returns whether it deleted one. Repeating this until it returns
    /// `false` unblocks the subnet.
    pub fn remove_rule_once(&mut self, pop: &str, ip: &str) -> (deleted: bool)
        ensures
            extends(old(self).history(), final(self).history()),
            removal_step_outcome(pop@, ip@, run_since(old(self).history(), final(self).history())) == Some(deleted),
            final(self).calls() == old(self).calls(),
    {
        let ghost h0 = self.history();
        if self.has_rule(ip, pop) {
            let comment = concat_str("VSM_Block_", pop);
            let args = vec!["-D", "VSM_BLOCKS", "-d", ip, "-j", "DROP", "-m", "comment", "--comment", comment.as_str()];
            assert(str_views(args@) =~= rule_args("-D"@, ip@, pop@));
            let _ = self.run(args.as_slice());
            proof {
                let t = run_since(h0, self.history());
                assert(t =~= seq![t[0], t[1]]);
                assert(self.history().take(h0.len() as int) =~= h0);
            }
            true
        } else {
            proof {
                let t = run_since(h0, self.history());
                assert(t =~= seq![t[0]]);
            }
            false
        }
    }

}

} // verus!

verus! {

/// A subnet is covered by the commands `t` when one of them found its DROP
/// rule or appended it successfully.
pub open spec fn rule_ensured(t: Seq<Exchange>, ip: Seq<char>, pop: Seq<char>) -> bool {
    exists|j: int| 0 <= j < t.len() && succeeded(t[j].2)
        && (ran(t[j], iptables(), rule_args("-C"@, ip, pop)) || ran(t[j], iptables(), rule_args("-A"@, ip, pop)))
}

/// When appending the rules succeeded, every subnet has its DROP rule:
/// either the check found it or the append of it succeeded.
pub proof fn lemma_appended_rules_cover(pop: Seq<char>, ips: Seq<Seq<char>>, t: Seq<Exchange>)
    requires
        append_rules_outcome(pop, ips, t) == Some(Ok::<(), Seq<char>>(())),
    ensures
        forall|k: int| 0 <= k < ips.len() ==> rule_ensured(t, #[trigger] ips[k], pop),
    decreases ips.len(),
{
    if ips.len() > 0 {
        if t.len() >= 1 && ran(t[0], iptables(), rule_args("-C"@, ips[0], pop)) && succeeded(t[0].2) {
            let rest = t.drop_first();
            lemma_appended_rules_cover(pop, ips.drop_first(), rest);
            assert forall|k: int| 0 <= k < ips.len() implies rule_ensured(t, #[trigger] ips[k], pop) by {
                if k == 0 {
                    assert(succeeded(t[0].2));
                } else {
                    assert(ips[k] == ips.drop_first()[k - 1]);
                    assert(rule_ensured(rest, ips.drop_first()[k - 1], pop));
                    let j = choose|j: int| 0 <= j < rest.len() && succeeded(rest[j].2)
                        && (ran(rest[j], iptables(), rule_args("-C"@, ips[k], pop)) || ran(rest[j], iptables(), rule_args("-A"@, ips[k], pop)));
                    assert(t[j + 1] == rest[j]);
                }
            }
        } else {
            let rest = t.skip(2);
            lemma_appended_rules_cover(pop, ips.drop_first(), rest);
            assert forall|k: int| 0 <= k < ips.len() implies rule_ensured(t, #[trigger] ips[k], pop) by {
                if k == 0 {
                    assert(succeeded(t[1].2));
                } else {
                    assert(ips[k] == ips.drop_first()[k - 1]);
                    assert(rule_ensured(rest, ips.drop_first()[k - 1], pop));
                    let j = choose|j: int| 0 <= j < rest.len() && succeeded(rest[j].2)
                        && (ran(rest[j], iptables(), rule_args("-C"@, ips[k], pop)) || ran(rest[j], iptables(), rule_args("-A"@, ips[k], pop)));
                    assert(t[j + 2] == rest[j]);
                }
            }
        }
    }
}

/// When blocking a PoP succeeded, every one of its subnets has a DROP rule
/// commented with the PoP's rule name.
pub proof fn lemma_block_ok_covers(pop: Seq<char>, ips: Seq<Seq<char>>, t: Seq<Exchange>)
    requires
        block_outcome(pop, ips, t) == Some(Ok::<(), Seq<char>>(())),
    ensures
        forall|k: int| 0 <= k < ips.len() ==> rule_ensured(t, #[trigger] ips[k], pop),
{
    let n = init_chain_len(t);
    let rest = t.skip(n);
    lemma_appended_rules_cover(pop, ips, rest);
    assert forall|k: int| 0 <= k < ips.len() implies rule_ensured(t, #[trigger] ips[k], pop) by {
        assert(rule_ensured(rest, ips[k], pop));
        let j = choose|j: int| 0 <= j < rest.len() && succeeded(rest[j].2)
            && (ran(rest[j], iptables(), rule_args("-C"@, ips[k], pop)) || ran(rest[j], iptables(), rule_args("-A"@, ips[k], pop)));
        assert(t[j + n] == rest[j]);
    }
}

} // verus!

verus! {

/// The start of the line that `iptables -S` shows for a DROP rule of
/// `ip`: `-A VSM_BLOCKS -d <ip> -j DROP -m comment --comment "`.
pub open spec fn listed_rule_head(ip: Seq<char>) -> Seq<char> {
    "-A VSM_BLOCKS -d "@ + ip + " -j DROP -m comment --comment \""@
}

/// No position of `s` from `lo` up to `hi` holds `c`.
spec fn free_of(s: Seq<char>, c: char, lo: int, hi: int) -> bool
    decreases hi - lo,
{
    if lo >= hi {
        true
    } else {
        s[lo] != c && free_of(s, c, lo + 1, hi)
    }
}

proof fn lemma_free_of(s: Seq<char>, c: char, lo: int, hi: int)
    requires
        free_of(s, c, lo, hi),
    ensures
        forall|k: int| lo <= k < hi ==> s[k] != c,
    decreases hi - lo,
{
    if lo < hi {
        lemma_free_of(s, c, lo + 1, hi);
    }
}

proof fn lemma_rule_prefix_chars()
    ensures
        "-A VSM_BLOCKS -d "@.len() == 17,
        "-A VSM_BLOCKS -d "@[8] == 'L',
        forall|k: int| 0 <= k < 17 && k != 3 ==> "-A VSM_BLOCKS -d "@[k] != 'V',
{
    reveal_strlit("-A VSM_BLOCKS -d ");
    let p1 = "-A VSM_BLOCKS -d "@;
    reveal_with_fuel(free_of, 18);
    assert(free_of(p1, 'V', 0, 3));
    assert(free_of(p1, 'V', 4, 17));
    lemma_free_of(p1, 'V', 0, 3);
    lemma_free_of(p1, 'V', 4, 17);
}

proof fn lemma_rule_middle_chars()
    ensures
        " -j DROP -m comment --comment \""@.len() == 31,
        forall|k: int| 0 <= k < 31 ==> " -j DROP -m comment --comment \""@[k] != 'V',
        " -j DROP -m comment --comment \""@.subrange(22, 31) == "comment \""@,
{
    reveal_strlit(" -j DROP -m comment --comment \"");
    reveal_strlit("comment \"");
    let q = " -j DROP -m comment --comment \""@;
    reveal_with_fuel(free_of, 32);
    assert(free_of(q, 'V', 0, 31));
    lemma_free_of(q, 'V', 0, 31);
    assert(q.subrange(22, 31) =~= "comment \""@);
}

/// The head of a listed rule has a `V` only at position 3, where
/// `VSM_BLOCKS` starts, and an `L` at position 8.
proof fn lemma_rule_head_chars(ip: Seq<char>)
    requires
        forall|k: int| 0 <= k < ip.len() ==> ip[k] != 'V',
    ensures
        listed_rule_head(ip).len() == 48 + ip.len(),
        listed_rule_head(ip)[8] == 'L',
        forall|k: int| 0 <= k < listed_rule_head(ip).len() && k != 3 ==> listed_rule_head(ip)[k] != 'V',
        listed_rule_head(ip).subrange(39 + ip.len() as int, 48 + ip.len() as int) == "comment \""@,
{
    lemma_rule_prefix_chars();
    lemma_rule_middle_chars();
    let p1 = "-A VSM_BLOCKS -d "@;
    let q = " -j DROP -m comment --comment \""@;
    let head = listed_rule_head(ip);
    assert(head[8] == p1[8]);
    assert forall|k: int| 0 <= k < head.len() && k != 3 implies head[k] != 'V' by {
        if k < 17 {
            assert(head[k] == p1[k]);
        } else if k < 17 + ip.len() {
            assert(head[k] == ip[k - 17]);
        } else {
            assert(head[k] == q[k - 17 - ip.len()]);
        }
    }
    assert(head.subrange(39 + ip.len() as int, 48 + ip.len() as int) =~= q.subrange(22, 31));
}

/// What a block writes is what the listing reads back: the line listing
/// the DROP rule of a subnet for `pop` (quoted comment) yields `pop`,
/// for any subnet text without a `V` and any code that is not empty and
/// neither starts nor ends with white space nor ends with a quote.
#[verifier::rlimit(50)]
#[verifier::spinoff_prover]
pub proof fn lemma_rule_line_read_back(ip: Seq<char>, pop: Seq<char>)
    requires
        forall|k: int| 0 <= k < ip.len() ==> ip[k] != 'V',
        pop.len() > 0,
        !is_white_space(pop[0]),
        !is_white_space(pop.last()),
        pop.last() != '"',
    ensures
        rule_line_code(listed_rule_head(ip) + "VSM_Block_"@ + pop + "\""@) == Some(pop),
{
    reveal_strlit("VSM_Block_");
    reveal_strlit("comment \"VSM_Block_");
    reveal_strlit("comment \"");
    reveal_strlit("\"");
    lemma_rule_head_chars(ip);
    let name = "VSM_Block_"@;
    let head = listed_rule_head(ip);
    let line = head + name + pop + "\""@;
    let h = head.len() as int;
    let marker = "comment \"VSM_Block_"@;
    assert(marker =~= "comment \""@ + name);
    assert(line.subrange(h - 9, h + 10) =~= head.subrange(h - 9, h) + name);
    assert(occurs_at(line, marker, h - 9));
    assert(line.subrange(h, h + 10) =~= name);
    assert forall|j: int| 0 <= j < h implies !occurs_at(line, name, j) by {
        if occurs_at(line, name, j) {
            assert(line.subrange(j, j + 10)[0] == name[0]);
            assert(line[j] == head[j]);
            if j == 3 {
                assert(line.subrange(j, j + 10)[5] == name[5]);
                assert(line[8] == head[8]);
            }
        }
    }
    lemma_first_occurrence_at(line, name, h);
    let rest = line.skip(h + 10);
    assert(rest =~= pop + "\""@);
    assert(rest.drop_last() =~= pop);
    assert(trim_end_char(rest, '"') == trim_end_char(pop, '"'));
    assert(trim_end_char(pop, '"') == pop);
    assert(trim_end_ws(pop) == pop);
    assert(trim_start_ws(pop) == pop);
}

} // verus!

verus! {

/// Blocking `ips` for `pop` took the driver from `o` to `f`: the commands
/// it ran, with their replies, lead to the result `r`.
pub open spec fn linux_blocked<E: CommandExecutor>(
    o: LinuxFirewall<E>, f: LinuxFirewall<E>, pop: Seq<char>, ips: Seq<Seq<char>>, r: Result<(), String>,
) -> bool {
    &&& extends(o.history(), f.history())
    &&& block_outcome(pop, ips, run_since(o.history(), f.history())) == Some(outcome_view(r))
}

/// Unblocking `ips` for `pop` took the driver from `o` to `f`: it ran the
/// removal run of each subnet and succeeded.
pub open spec fn linux_unblocked<E: CommandExecutor>(
    o: LinuxFirewall<E>, f: LinuxFirewall<E>, pop: Seq<char>, ips: Seq<Seq<char>>, r: Result<(), String>,
) -> bool {
    &&& r is Ok
    &&& extends(o.history(), f.history())
    &&& unblock_run(pop, ips, run_since(o.history(), f.history()))
}

/// Listing the blocked PoPs took the driver from `o` to `f`: it ran
/// `iptables -S VSM_BLOCKS` once, and `r` is what the reply shows.
pub open spec fn linux_listed<E: CommandExecutor>(
    o: LinuxFirewall<E>, f: LinuxFirewall<E>, r: Result<Vec<String>, String>,
) -> bool {
    &&& f.history() == o.history().push(f.history().last())
    &&& ran(f.history().last(), iptables(), list_chain_args())
    &&& match (r, blocked_outcome(f.history().last().2)) {
        (Ok(v), Ok(codes)) => string_views(v@) == codes,
        (Err(e), Err(m)) => e@ == m,
        _ => false,
    }
}

/// Clearing took the driver from `o` to `f`: it flushed the chain, deleted
/// the jump to it and deleted it, and succeeded.
pub open spec fn linux_cleared<E: CommandExecutor>(o: LinuxFirewall<E>, f: LinuxFirewall<E>, r: Result<(), String>) -> bool {
    &&& r is Ok
    &&& extends(o.history(), f.history())
    &&& run_since(o.history(), f.history()).len() == 3
    &&& ran(run_since(o.history(), f.history())[0], iptables(), flush_chain_args())
    &&& ran(run_since(o.history(), f.history())[1], iptables(), delete_jump_args())
    &&& ran(run_since(o.history(), f.history())[2], iptables(), delete_chain_args())
}

impl<E: CommandExecutor> LinuxFirewall<E> {
    /// Blocks `ips` for `pop`: sets up the chain, then appends a DROP rule
    /// for each subnet that has none yet; stops at the first failed append.
    fn block_rules(&mut self, pop: &str, ips: &[String]) -> (r: Result<(), String>)
        ensures
            linux_blocked(*old(self), *final(self), pop@, string_views(ips@), r),
            final(self).asked == old(self).asked,
    {
        let ghost h0 = self.history();
        let _ = self.init_chain();
        let ghost h1 = self.history();
        let ghost views = string_views(ips@);
        let comment = concat_str("VSM_Block_", pop);
        let mut i: usize = 0;
        assert(self.history().skip(h1.len() as int) =~= Seq::<Exchange>::empty());
        assert(h1.take(h1.len() as int) =~= h1);
        assert(views.take(0) =~= Seq::<Seq<char>>::empty());
        while i < ips.len()
            invariant
                i <= ips@.len(),
                views == string_views(ips@),
                comment@ == rule_name(pop@),
                self.asked == old(self).asked,
                h0 == old(self).history(),
                extends(h0, h1),
                init_chain_outcome(run_since(h0, h1)) is Some,
                extends(h1, self.history()),
                append_rules_outcome(pop@, views.take(i as int), run_since(h1, self.history())) == Some(Ok::<(), Seq<char>>(())),
            decreases ips@.len() - i,
        {
            let ghost h2 = self.history();
            let ip = ips[i].as_str();
            assert(ip@ == views[i as int]);
            if !self.has_rule(ip, pop) {
                let args = vec!["-A", "VSM_BLOCKS", "-d", ip, "-j", "DROP", "-m", "comment", "--comment", comment.as_str()];
                assert(str_views(args@) =~= rule_args("-A"@, ip@, pop@));
                let appended = self.run(args.as_slice());
                let ghost seg = run_since(h2, self.history());
                proof {
                    assert(seg =~= seq![seg[0], seg[1]]);
                    assert(run_since(h1, self.history()) =~= run_since(h1, h2) + seg);
                    assert(views =~= views.take(i as int) + views.skip(i as int));
                    lemma_append_rules_concat(pop@, views.take(i as int), views.skip(i as int), run_since(h1, h2), seg);
                    assert(views.skip(i as int)[0] == views[i as int]);
                    assert(self.history().take(h1.len() as int) =~= h1);
                }
                match appended {
                    Err(e) => {
                        let msg = concat_str("Failed to execute iptables: ", e.as_str());
                        proof { self.lemma_block_total(h0, h1, pop@, views, outcome_view(Err(msg))); }
                        return Err(msg);
                    },
                    Ok(out) => {
                        if !out.success {
                            let msg = concat_str("iptables block failed for ", ip);
                            proof { self.lemma_block_total(h0, h1, pop@, views, outcome_view(Err(msg))); }
                            return Err(msg);
                        }
                    },
                }
                proof {
                    reveal_with_fuel(append_rules_outcome, 2);
                    assert(views.take(i + 1) =~= views.take(i as int) + seq![views[i as int]]);
                    lemma_append_rules_concat(pop@, views.take(i as int), seq![views[i as int]], run_since(h1, h2), seg);
                    assert(seq![views[i as int]].drop_first() =~= Seq::<Seq<char>>::empty());
                    assert(seg.skip(2) =~= Seq::<Exchange>::empty());
                }
            } else {
                let ghost seg = run_since(h2, self.history());
                proof {
                    reveal_with_fuel(append_rules_outcome, 2);
                    assert(seg =~= seq![seg[0]]);
                    assert(run_since(h1, self.history()) =~= run_since(h1, h2) + seg);
                    assert(views.take(i + 1) =~= views.take(i as int) + seq![views[i as int]]);
                    lemma_append_rules_concat(pop@, views.take(i as int), seq![views[i as int]], run_since(h1, h2), seg);
                    assert(seq![views[i as int]].drop_first() =~= Seq::<Seq<char>>::empty());
                    assert(seg.drop_first() =~= Seq::<Exchange>::empty());
                    assert(self.history().take(h1.len() as int) =~= h1);
                }
            }
            i = i + 1;
        }
        proof {
            assert(views.take(i as int) =~= views);
            self.lemma_block_total(h0, h1, pop@, views, Ok(()));
        }
        Ok(())
    }


    /// Unblocks `ips` for `pop`: for each subnet, checks for its DROP rule
    /// and deletes it, again and again until the check finds none (giving up
    /// after `u64::MAX` deletions of one subnet, which no firewall reaches).
    fn unblock_rules(&mut self, pop: &str, ips: &[String]) -> (r: Result<(), String>)
        ensures
            linux_unblocked(*old(self), *final(self), pop@, string_views(ips@), r),
            final(self).asked == old(self).asked,
    {
        let ghost h0 = self.history();
        let ghost views = string_views(ips@);
        let mut i: usize = 0;
        assert(run_since(h0, self.history()) =~= Seq::<Exchange>::empty());
        assert(h0.take(h0.len() as int) =~= h0);
        assert(views.take(0) =~= Seq::<Seq<char>>::empty());
        while i < ips.len()
            invariant
                i <= ips@.len(),
                views == string_views(ips@),
                self.asked == old(self).asked,
                h0 == old(self).history(),
                extends(h0, self.history()),
                unblock_run(pop@, views.take(i as int), run_since(h0, self.history())),
            decreases ips@.len() - i,
        {
            let ip = ips[i].as_str();
            assert(ip@ == views[i as int]);
            let ghost h1 = self.history();
            let mut rounds: u64 = 0;
            assert(run_since(h1, self.history()) =~= Seq::<Exchange>::empty());
            assert(h1.take(h1.len() as int) =~= h1);
            while rounds < u64::MAX
                invariant_except_break
                    deletions(pop@, ip@, run_since(h1, self.history())),
                    run_since(h1, self.history()).len() == 2 * rounds,
                invariant
                    extends(h1, self.history()),
                    self.asked == old(self).asked,
                ensures
                    extends(h1, self.history()),
                    self.asked == old(self).asked,
                    removal_run(pop@, ip@, run_since(h1, self.history())),
                decreases u64::MAX - rounds,
            {
                let ghost h2 = self.history();
                let deleted = self.remove_rule_once(pop, ip);
                proof {
                    let before = run_since(h1, h2);
                    let step = run_since(h2, self.history());
                    assert(self.history().take(h1.len() as int) =~= h1) by {
                        assert(self.history().take(h2.len() as int) == h2);
                        assert(h2.take(h1.len() as int) == h1);
                    }
                    assert(run_since(h1, self.history()) =~= before + step);
                    if deleted {
                        lemma_deletions_push(pop@, ip@, before, step);
                    } else {
                        let t = run_since(h1, self.history());
                        assert(t.drop_last() =~= before);
                        assert(t.skip(t.len() - 1) =~= step);
                    }
                }
                if !deleted {
                    break;
                }
                rounds = rounds + 1;
            }
            proof {
                let t0 = run_since(h0, h1);
                let t1 = run_since(h1, self.history());
                let t = run_since(h0, self.history());
                assert(self.history().take(h0.len() as int) =~= h0) by {
                    assert(self.history().take(h1.len() as int) == h1);
                    assert(h1.take(h0.len() as int) == h0);
                }
                assert(t =~= t0 + t1);
                let vs = views.take(i + 1);
                assert(vs.drop_last() =~= views.take(i as int));
                assert(vs.last() == ip@);
                assert(t.take(t0.len() as int) =~= t0);
                assert(t.skip(t0.len() as int) =~= t1);
            }
            i = i + 1;
        }
        assert(views.take(i as int) =~= views);
        Ok(())
    }

    /// The PoPs that the chain's rules block, read with `iptables -S`; no
    /// PoP when the listing fails (the chain does not exist).
    fn list_blocked(&mut self) -> (r: Result<Vec<String>, String>)
        ensures
            linux_listed(*old(self), *final(self), r),
            final(self).asked == old(self).asked,
    {
        let args = vec!["-S", "VSM_BLOCKS"];
        assert(str_views(args@) =~= list_chain_args());
        let listed = self.run(args.as_slice());
        match listed {
            Err(e) => Err(concat_str("Failed to read iptables rules: ", e.as_str())),
            Ok(out) => {
                if !out.success {
                    let none: Vec<String> = Vec::new();
                    assert(string_views(none@) =~= Seq::<Seq<char>>::empty());
                    Ok(none)
                } else {
                    Ok(iptables_codes(out.stdout.as_str()))
                }
            },
        }
    }

    /// Removes everything the driver created: flushes the chain, deletes
    /// the jump to it and deletes it, ignoring failures.
    fn clear_rules(&mut self) -> (r: Result<(), String>)
        ensures
            linux_cleared(*old(self), *final(self), r),
            final(self).asked == old(self).asked,
    {
        let ghost h0 = self.history();
        let flush = vec!["-F", "VSM_BLOCKS"];
        assert(str_views(flush@) =~= flush_chain_args());
        let _ = self.run(flush.as_slice());
        let unjump = vec!["-D", "OUTPUT", "-j", "VSM_BLOCKS"];
        assert(str_views(unjump@) =~= delete_jump_args());
        let _ = self.run(unjump.as_slice());
        let remove = vec!["-X", "VSM_BLOCKS"];
        assert(str_views(remove@) =~= delete_chain_args());
        let _ = self.run(remove.as_slice());
        assert(self.history().take(h0.len() as int) =~= h0);
        Ok(())
    }
}

impl<E: CommandExecutor> FirewallDriver for LinuxFirewall<E> {
    closed spec fn calls(&self) -> Seq<Call> {
        self.asked@
    }

    /// Sets up the chain and appends the DROP rules of `ips` for `pop`.
    fn block_pop(&mut self, pop: &str, ips: &[String]) -> (r: Result<(), String>)
        ensures
            linux_blocked(*old(self), *final(self), pop@, string_views(ips@), r),
    {
        let r = self.block_rules(pop, ips);
        self.asked = Ghost(self.asked@.push((block_request(pop@, string_views(ips@)), done_answer(r))));
        r
    }

    /// Deletes every DROP rule of `ips` for `pop`.
    fn unblock_pop(&mut self, pop: &str, ips: &[String]) -> (r: Result<(), String>)
        ensures
            linux_unblocked(*old(self), *final(self), pop@, string_views(ips@), r),
    {
        let r = self.unblock_rules(pop, ips);
        self.asked = Ghost(self.asked@.push((unblock_request(pop@, string_views(ips@)), done_answer(r))));
        r
    }

    /// The PoPs that the chain's rules block.
    fn get_blocked_pops(&mut self) -> (r: Result<Vec<String>, String>)
        ensures
            linux_listed(*old(self), *final(self), r),
    {
        let r = self.list_blocked();
        self.asked = Ghost(self.asked@.push((list_request(), listed_answer(r))));
        r
    }

    /// Removes the chain and the jump to it.
    fn clear_all(&mut self) -> (r: Result<(), String>)
        ensures
            linux_cleared(*old(self), *final(self), r),
    {
        let r = self.clear_rules();
        self.asked = Ghost(self.asked@.push((clear_request(), done_answer(r))));
        r
    }
}

} // verus!
