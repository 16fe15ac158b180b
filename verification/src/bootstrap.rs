//! How a process that runs an engine starts and ends.

use vstd::prelude::*;
use vstd::string::StringExecFns;
use crate::text;
use crate::text::{joined, natural};

verus! {

/// What is logged where nothing else is asked for: everything worth knowing, without the chatter
/// of the network libraries.
pub const DEFAULT_FILTER: &'static str = "info,hyper=warn,hyper_util=warn,reqwest=warn,h2=warn,rustls=warn,tungstenite=warn,tokio_tungstenite=warn";

/// How long the engine may take to go down, in seconds.
pub const SHUTDOWN_DEADLINE_SECS: u64 = 30;

/// What is logged.
#[derive(Clone, Copy, Debug, PartialEq, Eq, Structural)]
pub enum LogFilter {
    FromEnvironment,
    Default,
}

/// What is logged: what the environment asks for, if it asks.
pub fn choose_filter(asked: bool) -> (f: LogFilter)
    ensures
        f == (if asked {
            LogFilter::FromEnvironment
        } else {
            LogFilter::Default
        }),
{
    if asked {
        LogFilter::FromEnvironment
    } else {
        LogFilter::Default
    }
}

/// Where the configuration is: where the first argument after the program's name says, if there is
/// one.
pub fn config_path(args: &Vec<String>, default_path: &str) -> (s: String)
    ensures
        s@ == (if args@.len() > 1 {
            args@[1]@
        } else {
            default_path@
        }),
{
    if args.len() > 1 {
        args[1].clone()
    } else {
        default_path.to_owned()
    }
}

/// A request to go down.
#[derive(Clone, Copy, Debug, PartialEq, Eq, Structural)]
pub enum StopSignal {
    Interrupt,
    Terminate,
}

/// A signal's name.
pub open spec fn signal_text(s: StopSignal) -> Seq<char> {
    match s {
        StopSignal::Interrupt => "SIGINT"@,
        StopSignal::Terminate => "SIGTERM"@,
    }
}

impl StopSignal {
    /// The signal's name.
    pub fn name(&self) -> (s: &'static str)
        ensures
            s@ == signal_text(*self),
    {
        match self {
            StopSignal::Interrupt => "SIGINT",
            StopSignal::Terminate => "SIGTERM",
        }
    }
}

/// What has happened by the time one looks: the engine has ended, and why; a signal has come; the
/// time to go down is over.
pub struct Happened {
    pub manager_ended: Option<String>,
    pub signal: Option<StopSignal>,
    pub deadline_over: bool,
}

/// Where the process stands.
#[derive(Clone, Copy, Debug, PartialEq, Eq, Structural)]
pub enum Phase {
    Running,
    /// The engine was asked to go down.
    Stopping,
}

/// What the process does next.
#[derive(Debug)]
pub enum ProcessStep {
    Wait,
    /// Ask the engine to go down.
    StopManager,
    End(Result<(), String>),
}

/// How it is told that the engine ended by itself.
pub open spec fn ended_text(reason: Seq<char>) -> Seq<char> {
    "ManagerActor 意外终止，引擎已停止交易: "@ + reason
}

/// How it is told that the engine did not go down in time.
pub open spec fn overdue_text() -> Seq<char> {
    "停机超时（"@ + text::digits(SHUTDOWN_DEADLINE_SECS as nat) + "s）：仍有 actor 未收尾完成，日志里的\"迟迟未停\"告警指出了是谁"@
}

/// How it is told that a second signal came.
pub open spec fn second_text(s: StopSignal) -> Seq<char> {
    "停机中收到第二次 "@ + signal_text(s) + "，放弃等待收尾直接退出"@
}

/// Whether this is the next step. An engine that ended by itself is told as a fault, whatever else
/// happened; one that was asked to go down and has done so is a success.
pub open spec fn is_next(phase: Phase, h: Happened, step: ProcessStep) -> bool {
    match phase {
        Phase::Running => match h.manager_ended {
            Some(reason) => step matches ProcessStep::End(Err(s)) && s@ == ended_text(reason@),
            None => if h.signal is Some {
                step is StopManager
            } else {
                step is Wait
            },
        },
        Phase::Stopping => if h.manager_ended is Some {
            step matches ProcessStep::End(r) && r is Ok
        } else if h.deadline_over {
            step matches ProcessStep::End(Err(s)) && s@ == overdue_text()
        } else if h.signal is Some {
            step matches ProcessStep::End(Err(s)) && s@ == second_text(h.signal->0)
        } else {
            step is Wait
        },
    }
}

/// What the process does next.
pub fn next_step(phase: Phase, h: &Happened) -> (step: ProcessStep)
    ensures
        is_next(phase, *h, step),
{
    match phase {
        Phase::Running => match &h.manager_ended {
            Some(reason) => ProcessStep::End(
                Err(joined("ManagerActor 意外终止，引擎已停止交易: ", reason.as_str())),
            ),
            None => if h.signal.is_some() {
                ProcessStep::StopManager
            } else {
                ProcessStep::Wait
            },
        },
        Phase::Stopping => {
            if h.manager_ended.is_some() {
                return ProcessStep::End(Ok(()));
            }
            if h.deadline_over {
                let mut s = joined("停机超时（", natural(SHUTDOWN_DEADLINE_SECS as u128).as_str());
                s.append("s）：仍有 actor 未收尾完成，日志里的\"迟迟未停\"告警指出了是谁");
                return ProcessStep::End(Err(s));
            }
            match h.signal {
                Some(signal) => {
                    let mut s = joined("停机中收到第二次 ", signal.name());
                    s.append("，放弃等待收尾直接退出");
                    ProcessStep::End(Err(s))
                },
                None => ProcessStep::Wait,
            }
        },
    }
}

/// A process ends well only if it was asked to and the engine went down.
pub proof fn success_means_asked_and_done(phase: Phase, h: Happened, step: ProcessStep)
    requires
        is_next(phase, h, step),
        step matches ProcessStep::End(r) && r is Ok,
    ensures
        phase is Stopping,
        h.manager_ended is Some,
{
}

/// How it is told that a part did not start.
pub fn start_failure(name: &str, error: &str) -> (s: String)
    ensures
        s@ == name@ + " 启动失败: "@ + error@,
{
    let mut s = joined(name, " 启动失败: ");
    s.append(error);
    s
}

/// What the process does next: while it runs it ends, with an error, if its manager does, and asks it to
/// stop at a signal; while it stops it ends well once the manager has, and with an error when it has
/// waited long enough or is signalled again. Otherwise it waits.
pub proof fn the_process_ends_for_cause(phase: Phase, h: Happened, step: ProcessStep)
    requires
        is_next(phase, h, step),
    ensures
        phase is Running && h.manager_ended is Some ==> step is End && step->End_0 is Err,
        phase is Running && h.manager_ended is None ==> (step is StopManager <==> h.signal is Some),
        step is StopManager ==> phase is Running,
        phase is Stopping && h.manager_ended is Some ==> step is End && step->End_0 is Ok,
        phase is Stopping && h.manager_ended is None && (h.deadline_over || h.signal is Some) ==> step is End
            && step->End_0 is Err,
        step is Wait <==> h.manager_ended is None && h.signal is None && (phase is Stopping ==> !h.deadline_over),
{
}

/// An end that was not asked for tells why the manager ended.
pub proof fn an_unasked_end_tells_its_reason(h: Happened, step: ProcessStep)
    requires
        is_next(Phase::Running, h, step),
        h.manager_ended is Some,
    ensures
        step is End,
        step->End_0 is Err,
        text::holds(step->End_0->Err_0@, h.manager_ended->0@),
{
    let reason = h.manager_ended->0@;
    text::what_is_held_stays_held("ManagerActor 意外终止，引擎已停止交易: "@, reason, Seq::empty(), reason);
    assert("ManagerActor 意外终止，引擎已停止交易: "@ + reason + Seq::<char>::empty() =~= ended_text(reason));
}

/// A second signal is told by its name, and the two signals have names of their own.
pub proof fn a_second_signal_is_told_by_name(s: StopSignal)
    ensures
        text::holds(second_text(s), signal_text(s)),
        signal_text(StopSignal::Interrupt) != signal_text(StopSignal::Terminate),
{
    text::what_is_held_stays_held("停机中收到第二次 "@, signal_text(s), "，放弃等待收尾直接退出"@, signal_text(s));
    reveal_strlit("SIGINT");
    reveal_strlit("SIGTERM");
    assert(signal_text(StopSignal::Interrupt).len() != signal_text(StopSignal::Terminate).len());
}

} // verus!
