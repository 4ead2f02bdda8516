//! Firewall drivers. A driver turns "block this PoP" into commands for the
//! platform's firewall tool, which a `CommandExecutor` runs.

pub mod linux;
pub mod windows;

use vstd::prelude::*;
use crate::text::{append_str, chars_of, seq_eq, space_joined, str_views, string_of, string_views};

verus! {

/// What a finished command reported: whether it exited successfully, and
/// its standard output as text.
#[derive(Debug, Clone)]
pub struct CommandOutput {
    pub success: bool,
    pub stdout: String,
}

/// Runs an external command. The system implementation spawns a process;
/// a test implementation records the commands and answers with canned output.
pub trait CommandExecutor {
    fn execute(&mut self, cmd: &str, args: &[&str]) -> Result<CommandOutput, String>;
}

/// The kinds of request a firewall driver serves.
#[derive(Debug, Clone, Copy, PartialEq, Eq)]
pub enum RequestKind {
    Block,
    Unblock,
    ListBlocked,
    ClearAll,
}

/// A request made of a firewall driver: its kind, the PoP code and the
/// subnets handed over (both empty for listing and clearing).
pub type Request = (RequestKind, Seq<char>, Seq<Seq<char>>);

pub open spec fn block_request(pop: Seq<char>, ips: Seq<Seq<char>>) -> Request {
    (RequestKind::Block, pop, ips)
}

pub open spec fn unblock_request(pop: Seq<char>, ips: Seq<Seq<char>>) -> Request {
    (RequestKind::Unblock, pop, ips)
}

pub open spec fn list_request() -> Request {
    (RequestKind::ListBlocked, Seq::empty(), Seq::empty())
}

pub open spec fn clear_request() -> Request {
    (RequestKind::ClearAll, Seq::empty(), Seq::empty())
}

/// What a driver answered: the codes it listed (none for the other
/// requests), or the error.
pub type Answer = Result<Seq<Seq<char>>, Seq<char>>;

/// A request made of a driver, with the driver's answer.
pub type Call = (Request, Answer);

/// The answer that a block, unblock or clear returned.
pub open spec fn done_answer(r: Result<(), String>) -> Answer {
    match r {
        Ok(_) => Ok(Seq::empty()),
        Err(e) => Err(e@),
    }
}

/// The answer that a listing returned.
pub open spec fn listed_answer(r: Result<Vec<String>, String>) -> Answer {
    match r {
        Ok(v) => Ok(string_views(v@)),
        Err(e) => Err(e@),
    }
}

/// `after` is `before` with one more call, of request `req`.
pub open spec fn asked_once(before: Seq<Call>, after: Seq<Call>, req: Request) -> bool {
    &&& after.len() == before.len() + 1
    &&& after.drop_last() == before
    &&& after.last().0 == req
}

/// One call of `req`, whatever the answer, is asked once.
pub proof fn lemma_asked_once(before: Seq<Call>, req: Request, answer: Answer)
    ensures
        asked_once(before, before.push((req, answer)), req),
{
    assert(before.push((req, answer)).drop_last() =~= before);
}

/// A firewall that can block and unblock the relays of a PoP. Each driver
/// keeps, as ghost state, the requests made of it with its answers, so that
/// callers can state what they asked for and what they did with the answer.
pub trait FirewallDriver {
    /// The requests made of this driver so far, with its answers, oldest first.
    spec fn calls(&self) -> Seq<Call>;

    /// Blocks the specified IP subnets under a rule associated with a PoP.
    fn block_pop(&mut self, pop: &str, ips: &[String]) -> (r: Result<(), String>)
        ensures
            final(self).calls() == old(self).calls().push((block_request(pop@, string_views(ips@)), done_answer(r))),
    ;

    /// Unblocks the specified PoP (deletes its corresponding rules).
    fn unblock_pop(&mut self, pop: &str, ips: &[String]) -> (r: Result<(), String>)
        ensures
            final(self).calls() == old(self).calls().push((unblock_request(pop@, string_views(ips@)), done_answer(r))),
    ;

    /// Queries the firewall to find which PoP codes are currently blocked
    /// (each code once).
    fn get_blocked_pops(&mut self) -> (r: Result<Vec<String>, String>)
        ensures
            final(self).calls() == old(self).calls().push((list_request(), listed_answer(r))),
    ;

    /// Clears all rules created by the application.
    fn clear_all(&mut self) -> (r: Result<(), String>)
        ensures
            final(self).calls() == old(self).calls().push((clear_request(), done_answer(r))),
    ;
}

/// One command run through an executor: program, arguments and reply.
pub type Exchange = (Seq<char>, Seq<Seq<char>>, Result<CommandOutput, String>);

/// Whether a command ran and exited successfully.
pub open spec fn succeeded(reply: Result<CommandOutput, String>) -> bool {
    reply matches Ok(o) && o.success
}

/// Whether `e` ran `program` with `args`.
pub open spec fn ran(e: Exchange, program: Seq<char>, args: Seq<Seq<char>>) -> bool {
    e.0 == program && e.1 == args
}

/// The rule name that marks a PoP's rules: `VSM_Block_<pop>`.
pub open spec fn rule_name(pop: Seq<char>) -> Seq<char> {
    "VSM_Block_"@ + pop
}

/// The line that the recording executor keeps for a command.
pub open spec fn command_line(cmd: Seq<char>, args: Seq<Seq<char>>) -> Seq<char> {
    cmd + seq![' '] + space_joined(args)
}

/// `acc` with `x` added unless it is there already.
pub open spec fn add_new(acc: Seq<Seq<char>>, x: Seq<char>) -> Seq<Seq<char>> {
    if acc.contains(x) { acc } else { acc.push(x) }
}

/// The distinct codes found by `code_of` in `lines`, in order of first appearance.
pub open spec fn codes_in_lines(lines: Seq<Seq<char>>, code_of: spec_fn(Seq<char>) -> Option<Seq<char>>) -> Seq<Seq<char>>
    decreases lines.len(),
{
    if lines.len() == 0 {
        Seq::empty()
    } else {
        let acc = codes_in_lines(lines.drop_last(), code_of);
        match code_of(lines.last()) {
            Some(c) => add_new(acc, c),
            None => acc,
        }
    }
}

/// Whether `s` has no element twice.
pub open spec fn no_repeats(s: Seq<Seq<char>>) -> bool {
    forall|i: int, j: int| 0 <= i < s.len() && 0 <= j < s.len() && i != j ==> s[i] != s[j]
}

/// Adding a code keeps a sequence free of repeats, and adds exactly that code.
pub proof fn lemma_add_new_no_repeats(s: Seq<Seq<char>>, x: Seq<char>)
    requires
        no_repeats(s),
    ensures
        no_repeats(add_new(s, x)),
        add_new(s, x).contains(x),
        forall|y: Seq<char>| #[trigger] add_new(s, x).contains(y) <==> s.contains(y) || y == x,
{
    if !s.contains(x) {
        assert(s.push(x)[s.len() as int] == x);
        assert forall|y: Seq<char>| #[trigger] s.push(x).contains(y) implies s.contains(y) || y == x by {
            let k = choose|k: int| 0 <= k < s.push(x).len() && s.push(x)[k] == y;
            if k < s.len() {
                assert(s[k] == y);
            }
        }
        assert forall|y: Seq<char>| s.contains(y) implies #[trigger] s.push(x).contains(y) by {
            let k = choose|k: int| 0 <= k < s.len() && s[k] == y;
            assert(s.push(x)[k] == y);
        }
    }
}

/// The codes read from a listing form a set: none comes twice, and a code
/// is there exactly when some line names it.
pub proof fn lemma_codes_in_lines_set(lines: Seq<Seq<char>>, code_of: spec_fn(Seq<char>) -> Option<Seq<char>>)
    ensures
        no_repeats(codes_in_lines(lines, code_of)),
        forall|c: Seq<char>| #[trigger] codes_in_lines(lines, code_of).contains(c)
            <==> exists|k: int| 0 <= k < lines.len() && code_of(lines[k]) == Some(c),
    decreases lines.len(),
{
    if lines.len() > 0 {
        let rest = lines.drop_last();
        lemma_codes_in_lines_set(rest, code_of);
        let acc = codes_in_lines(rest, code_of);
        match code_of(lines.last()) {
            Some(x) => lemma_add_new_no_repeats(acc, x),
            None => {},
        }
        assert forall|c: Seq<char>| #[trigger] codes_in_lines(lines, code_of).contains(c)
            <==> exists|k: int| 0 <= k < lines.len() && code_of(lines[k]) == Some(c) by {
            if exists|k: int| 0 <= k < lines.len() && code_of(lines[k]) == Some(c) {
                let k = choose|k: int| 0 <= k < lines.len() && code_of(lines[k]) == Some(c);
                if k < rest.len() {
                    assert(rest[k] == lines[k]);
                }
            }
            if exists|k: int| 0 <= k < rest.len() && code_of(rest[k]) == Some(c) {
                let k = choose|k: int| 0 <= k < rest.len() && code_of(rest[k]) == Some(c);
                assert(lines[k] == rest[k]);
            }
        }
    }
}

/// Adds `code` to `acc` unless it is there already.
pub fn collect_code(acc: &mut Vec<String>, code: &[char])
    ensures
        string_views(final(acc)@) == add_new(string_views(old(acc)@), code@),
{
    let mut i: usize = 0;
    while i < acc.len()
        invariant
            i <= acc@.len(),
            forall|j: int| 0 <= j < i ==> string_views(acc@)[j] != code@,
        decreases acc@.len() - i,
    {
        let a = chars_of(acc[i].as_str());
        if seq_eq(&a, code) {
            assert(string_views(acc@)[i as int] == code@);
            assert(string_views(acc@).contains(code@));
            return;
        }
        i = i + 1;
    }
    proof {
        if string_views(acc@).contains(code@) {
            let k = choose|k: int| 0 <= k < string_views(acc@).len() && string_views(acc@)[k] == code@;
            assert(string_views(acc@)[k] != code@);
        }
    }
    let ghost before = acc@;
    acc.push(string_of(code));
    assert(string_views(acc@) =~= string_views(before).push(code@));
}

/// The commands run since `before`, when `after` extends it.
pub open spec fn run_since(before: Seq<Exchange>, after: Seq<Exchange>) -> Seq<Exchange> {
    after.skip(before.len() as int)
}

/// `after` is `before` followed by more commands.
pub open spec fn extends(before: Seq<Exchange>, after: Seq<Exchange>) -> bool {
    before.len() <= after.len() && after.take(before.len() as int) == before
}

/// The text view of a driver result.
pub open spec fn outcome_view(r: Result<(), String>) -> Result<(), Seq<char>> {
    match r {
        Ok(_) => Ok(()),
        Err(e) => Err(e@),
    }
}

/// An executor for tests: records each command line, answers with the
/// configured output, and fails every `-C` (rule check) command.
pub struct MockCommandExecutor {
    pub commands: Vec<String>,
    pub mock_stdout: String,
    pub mock_success: bool,
}

impl MockCommandExecutor {
    /// A recorder with no command yet, empty output and successful exits.
    pub fn new() -> (m: MockCommandExecutor)
        ensures
            m.commands@.len() == 0,
            m.mock_stdout@ == Seq::<char>::empty(),
            m.mock_success,
    {
        MockCommandExecutor { commands: Vec::new(), mock_stdout: String::new(), mock_success: true }
    }
}

/// `args` joined with single spaces.
fn join_with_spaces(args: &[&str]) -> (s: String)
    ensures
        s@ == space_joined(str_views(args@)),
{
    let mut s = String::new();
    let mut i: usize = 0;
    while i < args.len()
        invariant
            i <= args@.len(),
            s@ == space_joined(str_views(args@).take(i as int)),
        decreases args@.len() - i,
    {
        proof {
            let p = str_views(args@).take(i + 1);
            assert(p.drop_last() =~= str_views(args@).take(i as int));
            assert(p.last() == args@[i as int]@);
        }
        if i > 0 {
            append_str(&mut s, " ");
            proof { reveal_strlit(" "); }
        } else {
            assert(str_views(args@).take(0) =~= Seq::<Seq<char>>::empty());
        }
        append_str(&mut s, args[i]);
        i = i + 1;
    }
    assert(str_views(args@).take(i as int) =~= str_views(args@));
    s
}

/// Whether one of `args` is `-C`.
fn has_check_flag(args: &[&str]) -> (b: bool)
    ensures
        b == str_views(args@).contains("-C"@),
{
    let flag = chars_of("-C");
    let mut i: usize = 0;
    while i < args.len()
        invariant
            i <= args@.len(),
            flag@ == "-C"@,
            forall|j: int| 0 <= j < i ==> str_views(args@)[j] != "-C"@,
        decreases args@.len() - i,
    {
        let a = chars_of(args[i]);
        if seq_eq(&a, &flag) {
            assert(str_views(args@)[i as int] == "-C"@);
            return true;
        }
        i = i + 1;
    }
    proof {
        if str_views(args@).contains("-C"@) {
            let k = choose|k: int| 0 <= k < str_views(args@).len() && str_views(args@)[k] == "-C"@;
            assert(str_views(args@)[k] != "-C"@);
        }
    }
    false
}

impl CommandExecutor for MockCommandExecutor {
    fn execute(&mut self, cmd: &str, args: &[&str]) -> (r: Result<CommandOutput, String>)
        ensures
            final(self).commands@.len() == old(self).commands@.len() + 1,
            forall|i: int| 0 <= i < old(self).commands@.len() ==> final(self).commands@[i] == old(self).commands@[i],
            final(self).commands@.last()@ == command_line(cmd@, str_views(args@)),
            final(self).mock_stdout == old(self).mock_stdout,
            final(self).mock_success == old(self).mock_success,
            r matches Ok(o) && o.stdout@ == old(self).mock_stdout@
                && o.success == (old(self).mock_success && !str_views(args@).contains("-C"@)),
    {
        let mut line = String::from_str(cmd);
        append_str(&mut line, " ");
        proof { reveal_strlit(" "); }
        let joined = join_with_spaces(args);
        append_str(&mut line, joined.as_str());
        self.commands.push(line);
        let check = has_check_flag(args);
        Ok(CommandOutput { success: self.mock_success && !check, stdout: self.mock_stdout.clone() })
    }
}

} // verus!

use linux::{linux_blocked, linux_cleared, linux_listed, linux_unblocked};
use windows::{windows_blocked, windows_cleared, windows_listed, windows_unblocked};

verus! {

/// The driver of one of the supported platforms: iptables on Linux,
/// netsh on Windows.
pub enum PlatformDriver<E: CommandExecutor> {
    Linux(linux::LinuxFirewall<E>),
    Windows(windows::WindowsFirewall<E>),
}

/// The driver of the platform, over `executor`: netsh on Windows, iptables
/// (with its chain set up) elsewhere.
pub fn driver_for<E: CommandExecutor>(windows: bool, executor: E) -> (d: PlatformDriver<E>)
    ensures
        windows ==> (d matches PlatformDriver::Windows(w) && w.history() == Seq::<Exchange>::empty()
            && w.executor_spec() == executor && w.calls() == Seq::<Call>::empty()),
        !windows ==> (d matches PlatformDriver::Linux(l) && linux::init_chain_outcome(l.history()) is Some
            && l.calls() == Seq::<Call>::empty()),
{
    if windows {
        PlatformDriver::Windows(windows::WindowsFirewall::with_executor(executor))
    } else {
        PlatformDriver::Linux(linux::LinuxFirewall::with_executor(executor))
    }
}

impl<E: CommandExecutor> FirewallDriver for PlatformDriver<E> {
    open spec fn calls(&self) -> Seq<Call> {
        match self {
            PlatformDriver::Linux(d) => d.calls(),
            PlatformDriver::Windows(d) => d.calls(),
        }
    }

    /// Blocks with the platform's driver.
    fn block_pop(&mut self, pop: &str, ips: &[String]) -> (r: Result<(), String>)
        ensures
            match (*old(self), *final(self)) {
                (PlatformDriver::Linux(a), PlatformDriver::Linux(b)) => linux_blocked(a, b, pop@, string_views(ips@), r),
                (PlatformDriver::Windows(a), PlatformDriver::Windows(b)) => windows_blocked(a, b, pop@, string_views(ips@), r),
                _ => false,
            },
    {
        match self {
            PlatformDriver::Linux(d) => d.block_pop(pop, ips),
            PlatformDriver::Windows(d) => d.block_pop(pop, ips),
        }
    }

    /// Unblocks with the platform's driver.
    fn unblock_pop(&mut self, pop: &str, ips: &[String]) -> (r: Result<(), String>)
        ensures
            match (*old(self), *final(self)) {
                (PlatformDriver::Linux(a), PlatformDriver::Linux(b)) => linux_unblocked(a, b, pop@, string_views(ips@), r),
                (PlatformDriver::Windows(a), PlatformDriver::Windows(b)) => windows_unblocked(a, b, pop@, r),
                _ => false,
            },
    {
        match self {
            PlatformDriver::Linux(d) => d.unblock_pop(pop, ips),
            PlatformDriver::Windows(d) => d.unblock_pop(pop, ips),
        }
    }

    /// Lists the blocked PoPs with the platform's driver.
    fn get_blocked_pops(&mut self) -> (r: Result<Vec<String>, String>)
        ensures
            match (*old(self), *final(self)) {
                (PlatformDriver::Linux(a), PlatformDriver::Linux(b)) => linux_listed(a, b, r),
                (PlatformDriver::Windows(a), PlatformDriver::Windows(b)) => windows_listed(a, b, r),
                _ => false,
            },
    {
        match self {
            PlatformDriver::Linux(d) => d.get_blocked_pops(),
            PlatformDriver::Windows(d) => d.get_blocked_pops(),
        }
    }

    /// Clears the rules with the platform's driver.
    fn clear_all(&mut self) -> (r: Result<(), String>)
        ensures
            match (*old(self), *final(self)) {
                (PlatformDriver::Linux(a), PlatformDriver::Linux(b)) => linux_cleared(a, b, r),
                (PlatformDriver::Windows(a), PlatformDriver::Windows(b)) => windows_cleared(a, b, r),
                _ => false,
            },
    {
        match self {
            PlatformDriver::Linux(d) => d.clear_all(),
            PlatformDriver::Windows(d) => d.clear_all(),
        }
    }
}

} // verus!
