//! The decisions of one `run_code` step.
//!
//! Sandboxed code runs until it completes or suspends; on each suspension the host decides
//! how to resume. The caller drives the interpreter and performs each decided step.
use vstd::prelude::*;
use vstd::string::StrSliceExecFns;

use crate::error::DropletError;
use crate::text::{decimal, is_digit_char, lemma_decimal_digits, lemma_decimal_injective, push_decimal};

verus! {

/// Why the sandbox stopped.
#[derive(Debug)]
pub enum Suspension {
    /// The program finished with a value.
    Complete,
    /// The program called an external function by name.
    FunctionCall { name: String },
    /// The program asked for an operating-system operation.
    OsCall,
    /// The program looked up a name the sandbox does not define.
    NameLookup,
    /// Every task waits on external futures with these call ids.
    ResolveFutures { pending: Vec<u32> },
}

/// What the host does next.
#[derive(Debug)]
pub enum Step {
    /// Hand the completed value back to the caller.
    Finish,
    /// Run the tool at this index of the tool list and resume with its result.
    CallTool(usize),
    /// Resume with "no such function", naming the function.
    UnknownTool(String),
    /// Resume with `None`.
    ResumeWithNone,
    /// Resume with "name undefined".
    ResumeUndefined,
    /// Resume every pending call, in this order, with the value `None`.
    ResolveWithNone(Vec<u32>),
    /// Take the REPL out of the session and feed it the program.
    Feed,
    /// Run nothing and fail with this error.
    Refuse(DropletError),
    /// Put back the REPL that the sandbox's error carries, then fail with that error.
    RestoreRepl,
    /// Fail with the tool's error and leave the session without a REPL.
    ConsumeRepl,
}

/// Where the session's REPL is.
#[derive(Debug, Clone, Copy, PartialEq, Eq, Structural)]
pub enum ReplState {
    /// Held by the session, ready for the next run.
    Idle,
    /// Taken out by a run in progress.
    Running,
    /// Gone: a host error ended a run while the REPL was out.
    Consumed,
}

/// What happened, as the host sees it, to a session's REPL.
#[derive(Debug, Clone, Copy, PartialEq, Eq, Structural)]
pub enum RunEvent {
    /// A caller asked to run a program.
    Begin,
    /// The program finished, handing the REPL back.
    Completed,
    /// The sandbox raised an exception (a syntax, name or runtime error, or an unknown tool
    /// answered as such); the error carries the REPL back.
    Raised,
    /// A tool failed on the host side while the REPL was out.
    ToolFailed,
}

/// The message of the error a session without a REPL answers every run with.
pub open spec fn consumed_message() -> Seq<char> {
    "session REPL consumed by an earlier host error; create a new Session"@
}

/// Events that can happen in a state: a run begins only when none is in progress, and ends
/// only while one is.
pub open spec fn event_possible(state: ReplState, ev: RunEvent) -> bool {
    (ev == RunEvent::Begin) == (state != ReplState::Running)
}

/// The state after an event.
pub open spec fn state_after(state: ReplState, ev: RunEvent) -> ReplState {
    match ev {
        RunEvent::Begin => if state == ReplState::Idle {
            ReplState::Running
        } else {
            state
        },
        RunEvent::Completed => ReplState::Idle,
        RunEvent::Raised => ReplState::Idle,
        RunEvent::ToolFailed => ReplState::Consumed,
    }
}

/// The host's step on an event: feed an idle REPL; refuse a run with `NotFound` once the
/// REPL is consumed; finish on completion; restore the REPL from a sandbox error; drop it on
/// a host error.
pub open spec fn lifecycle_spec(state: ReplState, ev: RunEvent, r: Step) -> bool {
    match ev {
        RunEvent::Begin => if state == ReplState::Idle {
            r is Feed
        } else {
            r matches Step::Refuse(DropletError::NotFound(m)) && m@ == consumed_message()
        },
        RunEvent::Completed => r is Finish,
        RunEvent::Raised => r is RestoreRepl,
        RunEvent::ToolFailed => r is ConsumeRepl,
    }
}

/// The state after a sequence of events.
pub open spec fn state_after_all(state: ReplState, evs: Seq<RunEvent>) -> ReplState
    decreases evs.len(),
{
    if evs.len() == 0 {
        state
    } else {
        state_after_all(state_after(state, evs[0]), evs.drop_first())
    }
}

/// Every event of the sequence can happen in the state it meets.
pub open spec fn events_possible(state: ReplState, evs: Seq<RunEvent>) -> bool
    decreases evs.len(),
{
    evs.len() == 0 || (event_possible(state, evs[0]) && events_possible(
        state_after(state, evs[0]),
        evs.drop_first(),
    ))
}

/// `i` is the first index whose tool is named `name`.
pub open spec fn first_tool_named(tools: Seq<&str>, name: Seq<char>, i: int) -> bool {
    0 <= i < tools.len() && tools[i]@ == name && forall|j: int|
        0 <= j < i ==> (#[trigger] tools[j])@ != name
}

/// Some tool is named `name`.
pub open spec fn has_tool(tools: Seq<&str>, name: Seq<char>) -> bool {
    exists|i: int| 0 <= i < tools.len() && (#[trigger] tools[i])@ == name
}

/// The step the host takes on a suspension: finish on completion; call the first tool of
/// the requested name, or report the function unknown; answer an operating-system request
/// with `None`, a name lookup with "undefined", and pending futures with `None` each.
pub open spec fn step_spec(s: Suspension, tools: Seq<&str>, r: Step) -> bool {
    match s {
        Suspension::Complete => r is Finish,
        Suspension::FunctionCall { name } => if has_tool(tools, name@) {
            r matches Step::CallTool(i) && first_tool_named(tools, name@, i as int)
        } else {
            r matches Step::UnknownTool(n) && n@ == name@
        },
        Suspension::OsCall => r is ResumeWithNone,
        Suspension::NameLookup => r is ResumeUndefined,
        Suspension::ResolveFutures { pending } => r matches Step::ResolveWithNone(ids) && ids@
            == pending@,
    }
}

fn same_name(tool: &str, name: &String) -> (r: bool)
    ensures
        r == (tool@ == name@),
{
    let t = String::from_str(tool);
    t == *name
}

fn copy_ids(v: &Vec<u32>) -> (r: Vec<u32>)
    ensures
        r@ == v@,
{
    let mut out: Vec<u32> = Vec::new();
    let mut i: usize = 0;
    while i < v.len()
        invariant
            i <= v@.len(),
            out@ == v@.take(i as int),
        decreases v@.len() - i,
    {
        out.push(v[i]);
        i = i + 1;
        proof {
            assert(out@ == v@.take(i as int));
        }
    }
    proof {
        assert(v@.take(v@.len() as int) == v@);
    }
    out
}

/// Decide the next step of a run on a suspension, given the names of the registered tools.
pub fn next_step(s: &Suspension, tools: &[&str]) -> (r: Step)
    ensures
        step_spec(*s, tools@, r),
{
    match s {
        Suspension::Complete => Step::Finish,
        Suspension::FunctionCall { name } => {
            let mut i: usize = 0;
            while i < tools.len()
                invariant
                    i <= tools@.len(),
                    *s is FunctionCall && (*s)->name == *name,
                    forall|j: int| 0 <= j < i ==> (#[trigger] tools@[j])@ != name@,
                decreases tools@.len() - i,
            {
                if same_name(tools[i], name) {
                    proof {
                        assert(first_tool_named(tools@, name@, i as int));
                        assert(has_tool(tools@, name@));
                    }
                    return Step::CallTool(i);
                }
                i = i + 1;
            }
            Step::UnknownTool(name.clone())
        },
        Suspension::OsCall => Step::ResumeWithNone,
        Suspension::NameLookup => Step::ResumeUndefined,
        Suspension::ResolveFutures { pending } => Step::ResolveWithNone(copy_ids(pending)),
    }
}

/// Decide the host's step on an event of a session's REPL, and the state that follows.
pub fn lifecycle_step(state: ReplState, ev: RunEvent) -> (r: (Step, ReplState))
    requires
        event_possible(state, ev),
    ensures
        lifecycle_spec(state, ev, r.0),
        r.1 == state_after(state, ev),
{
    match ev {
        RunEvent::Begin => match state {
            ReplState::Idle => (Step::Feed, ReplState::Running),
            _ => (
                Step::Refuse(
                    DropletError::NotFound(
                        String::from_str(
                            "session REPL consumed by an earlier host error; create a new Session",
                        ),
                    ),
                ),
                state,
            ),
        },
        RunEvent::Completed => (Step::Finish, ReplState::Idle),
        RunEvent::Raised => (Step::RestoreRepl, ReplState::Idle),
        RunEvent::ToolFailed => (Step::ConsumeRepl, ReplState::Consumed),
    }
}

/// A consumed REPL stays consumed: whatever runs follow, the session never holds a REPL
/// again, and each of them is refused with `NotFound`.
pub proof fn law_consumed_stays_consumed(evs: Seq<RunEvent>)
    requires
        events_possible(ReplState::Consumed, evs),
    ensures
        state_after_all(ReplState::Consumed, evs) == ReplState::Consumed,
        forall|i: int| 0 <= i < evs.len() ==> #[trigger] evs[i] == RunEvent::Begin,
    decreases evs.len(),
{
    if evs.len() > 0 {
        law_consumed_stays_consumed(evs.drop_first());
        assert forall|i: int| 0 <= i < evs.len() implies #[trigger] evs[i] == RunEvent::Begin by {
            if i > 0 {
                assert(evs[i] == evs.drop_first()[i - 1]);
            }
        }
    }
}

/// An error the sandbox raises keeps the session usable: its REPL, with every binding made
/// before, is put back, and the next run feeds it again. Only a host-side tool failure
/// consumes it.
pub proof fn law_raised_error_keeps_repl()
    ensures
        state_after(ReplState::Running, RunEvent::Raised) == ReplState::Idle,
        state_after(state_after(ReplState::Running, RunEvent::Raised), RunEvent::Begin)
            == ReplState::Running,
        state_after(ReplState::Running, RunEvent::ToolFailed) == ReplState::Consumed,
{
}

/// A character of a run id as it stands in a directory name: a path separator (`/` or `\`)
/// becomes `_`, and so does every dot of a run of two or more dots.
pub open spec fn flat_char(id: Seq<char>, i: int) -> char {
    let c = id[i];
    if c == '/' || c == '\\' {
        '_'
    } else if c == '.' && ((i > 0 && id[i - 1] == '.') || (i + 1 < id.len() && id[i + 1] == '.')) {
        '_'
    } else {
        c
    }
}

/// A run id flattened into text that holds no path separator and no `..`.
pub open spec fn flat_run_id(id: Seq<char>) -> Seq<char> {
    Seq::new(id.len(), |i: int| flat_char(id, i))
}

/// The name of the working directory of session number `instance` of run `run_id`:
/// `droplet-`, the flattened run id, `-` and the session number.
pub open spec fn work_dir_spec(run_id: Seq<char>, instance: nat) -> Seq<char> {
    "droplet-"@ + flat_run_id(run_id) + "-"@ + decimal(instance)
}

/// Text that names one entry of a directory: no `/`, no `\` and no `..` anywhere in it.
pub open spec fn one_component(s: Seq<char>) -> bool {
    &&& forall|i: int| 0 <= i < s.len() ==> (#[trigger] s[i]) != '/' && s[i] != '\\'
    &&& forall|i: int| 0 <= i < s.len() - 1 ==> !(#[trigger] s[i] == '.' && s[i + 1] == '.')
}

proof fn lemma_work_dir_one_component(run_id: Seq<char>, instance: nat)
    ensures
        one_component(work_dir_spec(run_id, instance)),
{
    let a = "droplet-"@;
    let f = flat_run_id(run_id);
    let b = "-"@;
    let d = decimal(instance);
    let w = work_dir_spec(run_id, instance);
    reveal_strlit("droplet-");
    reveal_strlit("-");
    lemma_decimal_digits(instance);
    assert(w == a + f + b + d);
    assert forall|i: int| 0 <= i < w.len() implies (#[trigger] w[i]) != '/' && w[i] != '\\' && (w[i]
        == '.' ==> a.len() <= i < a.len() + f.len()) by {
        if i < a.len() {
            assert(w[i] == a[i]);
        } else if i < a.len() + f.len() {
            assert(w[i] == f[i - a.len()]);
        } else if i < a.len() + f.len() + 1 {
            assert(w[i] == b[i - a.len() - f.len()]);
        } else {
            assert(w[i] == d[i - a.len() - f.len() - 1]);
            assert(is_digit_char(d[i - a.len() - f.len() - 1]));
        }
    }
    assert forall|i: int| 0 <= i < w.len() - 1 implies !(#[trigger] w[i] == '.' && w[i + 1] == '.') by {
        if w[i] == '.' && w[i + 1] == '.' {
            let j = i - a.len();
            assert(w[i] == f[j]);
            assert(w[i + 1] == f[j + 1]);
            assert(f[j] == flat_char(run_id, j));
            assert(f[j + 1] == flat_char(run_id, j + 1));
        }
    }
}

/// Different session numbers give different directory names, whatever the run ids: the
/// number after the last `-` differs.
pub proof fn law_work_dir_names_distinct(a: Seq<char>, n: nat, b: Seq<char>, m: nat)
    requires
        n != m,
    ensures
        work_dir_spec(a, n) != work_dir_spec(b, m),
{
    if work_dir_spec(a, n) == work_dir_spec(b, m) {
        let x = work_dir_spec(a, n);
        let pre_n = "droplet-"@ + flat_run_id(a) + "-"@;
        let pre_m = "droplet-"@ + flat_run_id(b) + "-"@;
        assert(x == pre_n + decimal(n));
        assert(x == pre_m + decimal(m));
        if decimal(n).len() == decimal(m).len() {
            assert(x.skip(pre_n.len() as int) == decimal(n));
            assert(x.skip(pre_m.len() as int) == decimal(m));
            lemma_decimal_injective(n, m);
        } else if decimal(n).len() < decimal(m).len() {
            lemma_shorter_number_differs(a, n, b, m);
        } else {
            lemma_shorter_number_differs(b, m, a, n);
        }
    }
}

proof fn lemma_shorter_number_differs(a: Seq<char>, n: nat, b: Seq<char>, m: nat)
    requires
        decimal(n).len() < decimal(m).len(),
    ensures
        work_dir_spec(a, n) != work_dir_spec(b, m),
{
    let x = work_dir_spec(a, n);
    let y = work_dir_spec(b, m);
    let dm = decimal(m);
    let pre_n = "droplet-"@ + flat_run_id(a) + "-"@;
    let pre_m = "droplet-"@ + flat_run_id(b) + "-"@;
    reveal_strlit("-");
    assert(x == pre_n + decimal(n));
    assert(y == pre_m + dm);
    lemma_decimal_digits(m);
    if x == y {
        let p = pre_n.len() - 1;
        assert(x[p] == pre_n[p]);
        assert(pre_n[p] == '-');
        assert(y[p] == dm[p - pre_m.len()]);
        assert(is_digit_char(dm[p - pre_m.len()]));
    }
}

/// The name of the working directory of session number `instance` of run `run_id`. The run
/// id is flattened so that the name is always one entry of the temporary directory, and the
/// session number keeps two live sessions of one run apart.
pub fn work_dir_name(run_id: &str, instance: u64) -> (r: String)
    ensures
        r@ == work_dir_spec(run_id@, instance as nat),
        one_component(r@),
{
    let mut s = String::from_str("droplet-");
    let ghost start = s@;
    let n = run_id.unicode_len();
    let mut i: usize = 0;
    while i < n
        invariant
            n == run_id@.len(),
            i <= n,
            s@ == start + flat_run_id(run_id@).take(i as int),
        decreases n - i,
    {
        let c = run_id.get_char(i);
        let dotted = c == '.' && ((i > 0 && run_id.get_char(i - 1) == '.') || (i + 1 < n
            && run_id.get_char(i + 1) == '.'));
        if c == '/' || c == '\\' || dotted {
            s.append("_");
            proof {
                reveal_strlit("_");
            }
        } else {
            s.append(run_id.substring_char(i, i + 1));
        }
        proof {
            let f = flat_run_id(run_id@);
            assert(f[i as int] == flat_char(run_id@, i as int));
            assert(f.take(i as int).push(f[i as int]) == f.take(i + 1));
        }
        i = i + 1;
    }
    proof {
        assert(flat_run_id(run_id@).take(n as int) == flat_run_id(run_id@));
    }
    s.append("-");
    push_decimal(&mut s, instance);
    proof {
        lemma_work_dir_one_component(run_id@, instance as nat);
    }
    s
}

/// Gives each new session of this process its own session number, and so its own working
/// directory name.
pub struct WorkDirNamer {
    next: u64,
    /// Every name given so far.
    given: Ghost<Set<Seq<char>>>,
}

impl WorkDirNamer {
    /// The session number the next name carries.
    pub closed spec fn next_instance(&self) -> u64 {
        self.next
    }

    /// Every working directory name this namer has given.
    pub closed spec fn given(&self) -> Set<Seq<char>> {
        self.given@
    }

    /// Every name given so far carries a session number below the next one.
    pub open spec fn given_below(&self) -> bool {
        forall|s: Seq<char>|
            #[trigger] self.given().contains(s) ==> exists|id: Seq<char>, k: nat|
                k < self.next_instance() && s == work_dir_spec(id, k)
    }

    #[verifier::type_invariant]
    closed spec fn wf(&self) -> bool {
        forall|s: Seq<char>|
            #[trigger] self.given@.contains(s) ==> exists|id: Seq<char>, k: nat|
                k < self.next && s == work_dir_spec(id, k)
    }

    /// A namer that has given no name; the first session number is 0.
    pub fn new() -> (r: Self)
        ensures
            r.next_instance() == 0,
            r.given() == Set::<Seq<char>>::empty(),
            r.given_below(),
    {
        WorkDirNamer { next: 0, given: Ghost(Set::empty()) }
    }

    /// The session number the next name carries; naming needs it below `u64::MAX`.
    pub fn next_instance_number(&self) -> (r: u64)
        ensures
            r == self.next_instance(),
    {
        self.next
    }

    /// The working directory name of a new session of run `run_id`: never one this namer has
    /// given before, whatever the run ids.
    pub fn name(&mut self, run_id: &str) -> (r: String)
        requires
            old(self).next_instance() < u64::MAX,
        ensures
            r@ == work_dir_spec(run_id@, old(self).next_instance() as nat),
            one_component(r@),
            !old(self).given().contains(r@),
            final(self).given() == old(self).given().insert(r@),
            final(self).next_instance() == old(self).next_instance() + 1,
            final(self).given_below(),
    {
        proof {
            use_type_invariant(&*self);
        }
        let r = work_dir_name(run_id, self.next);
        proof {
            law_name_is_fresh(&*self, run_id@);
        }
        let ghost given = self.given@;
        *self = WorkDirNamer { next: self.next + 1, given: Ghost(given.insert(r@)) };
        proof {
            assert forall|s: Seq<char>| #[trigger] self.given@.contains(s) implies exists|
                id: Seq<char>,
                k: nat,
            | k < self.next && s == work_dir_spec(id, k) by {
                if s == r@ {
                    assert(r@ == work_dir_spec(run_id@, old(self).next as nat));
                } else {
                    assert(old(self).given@.contains(s));
                    let (id, k) = choose|id: Seq<char>, k: nat|
                        k < old(self).next && s == work_dir_spec(id, k);
                    assert(k < self.next && s == work_dir_spec(id, k));
                }
            }
        }
        r
    }
}

/// Two sessions never share a working directory: the name the next session gets is none of
/// the names this namer has given before, whatever the run ids.
pub proof fn law_name_is_fresh(w: &WorkDirNamer, run_id: Seq<char>)
    requires
        w.given_below(),
    ensures
        !w.given().contains(work_dir_spec(run_id, w.next_instance() as nat)),
{
    let s = work_dir_spec(run_id, w.next_instance() as nat);
    if w.given().contains(s) {
        let (id, k) = choose|id: Seq<char>, k: nat| k < w.next_instance() && s == work_dir_spec(id, k);
        law_work_dir_names_distinct(id, k, run_id, w.next_instance() as nat);
    }
}

} // verus!
