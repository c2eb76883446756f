//! The session state machine.  It owns the current traced process (if
//! any) and the session's breakpoint records, and dispatches commands to
//! them.  At most one traced process is live per session, and between
//! commands a live process is always parked in a tracer stop whose signal
//! and instruction pointer are remembered here.

use vstd::prelude::*;

use crate::breakpoint_set::{armed, BreakpointSet};
use crate::inferior::{
    active_breakpoint, frame_words_read, learned_word, word_matches, Breakpoint, Inferior,
    ProcModel, Status, StepSnap, TraceError,
};

verus! {

/// Session-level failures reported at the prompt.
#[derive(Clone, Copy, Debug, PartialEq, Eq, Structural)]
pub enum DebugError {
    /// A command needed a traced process and none is live.
    NoProcess,
    /// A breakpoint spec did not resolve to an address; nothing was
    /// recorded.
    UnresolvedBreakpoint,
    /// A tracer operation failed; the engine error says how.
    Trace(TraceError),
}

/// The session: breakpoint records that survive restarts, plus the live
/// traced process and the stop it is parked at, if any.
pub struct ExecutionController {
    breakpoints: BreakpointSet,
    inferior: Option<Inferior>,
    parked: Option<(i32, usize)>,
}

impl ExecutionController {
    /// The recorded breakpoint addresses, in insertion order.
    pub closed spec fn records(&self) -> Seq<usize> {
        self.breakpoints@
    }

    /// Whether a traced process is live.
    pub closed spec fn live(&self) -> bool {
        self.inferior is Some
    }

    /// The signal and instruction pointer of the stop the live process is
    /// parked at.
    pub closed spec fn parked_at(&self) -> Option<(i32, usize)> {
        self.parked
    }

    /// The patch bookkeeping of the live process; empty when none is live.
    pub closed spec fn proc_patches(&self) -> Map<usize, Breakpoint> {
        if self.inferior is Some {
            self.inferior.unwrap()@.patches
        } else {
            Map::empty()
        }
    }

    /// The model of the live process; meaningful only when one is live.
    pub closed spec fn proc_model(&self) -> ProcModel {
        self.inferior.unwrap()@
    }

    /// The breakpoint the live process is parked on, if any.
    pub open spec fn on_breakpoint(&self) -> Option<usize> {
        match self.parked_at() {
            Some((sig, ip)) => active_breakpoint(self.proc_patches(), sig, ip),
            None => None,
        }
    }

    /// A live process exists exactly when a stop is remembered for it,
    /// the process really is stopped there, and the breakpoint records
    /// hold no duplicate address.
    pub closed spec fn wf(&self) -> bool {
        &&& self.breakpoints.wf()
        &&& match self.parked {
            Some((sig, ip)) => self.inferior is Some && self.inferior.unwrap()@.stopped
                && self.inferior.unwrap()@.rip == Some(ip),
            None => self.inferior is None,
        }
    }

    pub fn new() -> (r: ExecutionController)
        ensures
            r.wf(),
            r.records() == Seq::<usize>::empty(),
            !r.live(),
    {
        ExecutionController {
            breakpoints: BreakpointSet::new(),
            inferior: None,
            parked: None,
        }
    }

    /// How many breakpoint records the session holds.
    pub fn breakpoint_count(&self) -> (r: usize)
        ensures
            r == self.records().len(),
    {
        self.breakpoints.count()
    }

    /// Whether a traced process is live.
    pub fn has_process(&self) -> (r: bool)
        ensures
            r == self.live(),
    {
        self.inferior.is_some()
    }

    /// Force-terminates the live process, if any, and clears the
    /// reference to it whatever the kill reports, so the session is never
    /// left with a dangling process.  Spawning anew while one is live
    /// must go through here first: afterwards none is live.
    pub fn kill_existing(&mut self) -> (r: Option<Result<Status, TraceError>>)
        requires
            old(self).wf(),
        ensures
            final(self).wf(),
            !final(self).live(),
            final(self).records() == old(self).records(),
            r is Some <==> old(self).live(),
    {
        match self.inferior.take() {
            None => None,
            Some(mut inf) => {
                let res = inf.kill();
                self.parked = None;
                Some(res)
            },
        }
    }

    /// Runs a freshly spawned, trace-stopped child: adopts it, re-patches
    /// every recorded breakpoint into the new process image, resumes it,
    /// and blocks for the first status change.  On a stop the process
    /// stays live, parked at that stop, with every recorded address still
    /// in its patch bookkeeping; on exit or termination — or on any
    /// failure along the way — no process is left live.
    pub fn start_run(&mut self, pid: i32) -> (r: Result<Status, TraceError>)
        requires
            old(self).wf(),
            !old(self).live(),
        ensures
            final(self).wf(),
            final(self).records() == old(self).records(),
            match r {
                Ok(st) => match st {
                    Status::Stopped(sig, ip) => {
                        &&& final(self).live()
                        &&& final(self).parked_at() == Some((sig, ip))
                        &&& forall|i: int|
                            0 <= i < old(self).records().len()
                                ==> #[trigger] final(self).proc_patches().contains_key(
                                old(self).records()[i],
                            )
                    },
                    Status::Exited(_) => !final(self).live(),
                    Status::Signaled(_) => !final(self).live(),
                    Status::Continued => false,
                },
                Err(_) => !final(self).live(),
            },
    {
        let mut inf = match Inferior::new(pid) {
            Ok(inf) => inf,
            Err(e) => {
                return Err(e);
            },
        };
        match self.breakpoints.apply_all(&mut inf) {
            Ok(_) => (),
            Err(e) => {
                let _ = inf.kill();
                return Err(e);
            },
        }
        let ghost applied = inf@;
        match inf.goon() {
            Ok(_) => (),
            Err(e) => {
                let _ = inf.kill();
                return Err(e);
            },
        }
        let st = match inf.wait() {
            Ok(st) => st,
            Err(e) => {
                let _ = inf.kill();
                return Err(e);
            },
        };
        match st {
            Status::Stopped(sig, ip) => {
                self.inferior = Some(inf);
                self.parked = Some((sig, ip));
                proof {
                    assert forall|i: int| 0 <= i < old(self).records().len() implies #[trigger] self
                        .proc_patches().contains_key(old(self).records()[i]) by {
                        assert(armed(applied, old(self).records()[i]));
                    }
                }
                Ok(st)
            },
            _ => Ok(st),
        }
    }

    /// Resumes the parked process.  If it is parked exactly on a
    /// breakpoint, the engine first steps past the patched instruction
    /// and re-arms it, so the trap fires again next time; then the
    /// process is resumed and the next status change is classified.  On a
    /// stop the process stays live and parked there; on exit or
    /// termination the reference is cleared.  A tracer failure anywhere
    /// along the way is fail-fast: the child is force-terminated and the
    /// reference cleared, so the session continues without a process
    /// rather than with one whose patch state is in doubt.
    pub fn continue_cmd(&mut self) -> (r: Result<Status, DebugError>)
        requires
            old(self).wf(),
        ensures
            final(self).wf(),
            final(self).records() == old(self).records(),
            r == Err::<Status, DebugError>(DebugError::NoProcess) <==> !old(self).live(),
            !old(self).live() ==> *final(self) == *old(self),
            r matches Err(DebugError::Trace(_)) ==> !final(self).live(),
            match r {
                Ok(st) => match st {
                    Status::Stopped(sig, ip) => final(self).live() && final(self).parked_at()
                        == Some((sig, ip)),
                    Status::Exited(_) => !final(self).live(),
                    Status::Signaled(_) => !final(self).live(),
                    Status::Continued => false,
                },
                Err(_) => true,
            },
            r is Ok && old(self).on_breakpoint() is Some && final(self).live() ==> {
                &&& final(self).proc_patches().contains_key(old(self).on_breakpoint().unwrap())
                &&& final(self).proc_model().last_step == Some(
                    StepSnap {
                        from: old(self).on_breakpoint().unwrap(),
                        byte_under: Some(
                            old(self).proc_patches()[old(self).on_breakpoint().unwrap()].orig_byte,
                        ),
                    },
                )
            },
    {
        let (sig, ip) = match self.parked {
            Some(p) => p,
            None => {
                return Err(DebugError::NoProcess);
            },
        };
        let mut inf = self.inferior.take().unwrap();
        self.parked = None;
        match inf.find_break_point(sig, ip) {
            Some(addr) => {
                match inf.continue_from_breakpoint(&addr) {
                    Ok(_) => (),
                    Err(e) => {
                        let _ = inf.kill();
                        return Err(DebugError::Trace(e));
                    },
                }
            },
            None => (),
        }
        match inf.goon() {
            Ok(_) => (),
            Err(e) => {
                let _ = inf.kill();
                return Err(DebugError::Trace(e));
            },
        }
        let st = match inf.wait() {
            Ok(st) => st,
            Err(e) => {
                let _ = inf.kill();
                return Err(DebugError::Trace(e));
            },
        };
        match st {
            Status::Stopped(sig2, ip2) => {
                self.inferior = Some(inf);
                self.parked = Some((sig2, ip2));
                Ok(st)
            },
            _ => Ok(st),
        }
    }

    /// Records a breakpoint address at session level and, if a process is
    /// live, patches it immediately.  `addr_opt` is the resolved address
    /// of the breakpoint spec, or `None` when resolution failed: then the
    /// unresolved spec is reported and nothing is mutated.  On success
    /// the returned index is the insertion-order position of the address
    /// among distinct recorded addresses — asking again for a recorded
    /// address returns the existing index.
    pub fn break_cmd(&mut self, addr_opt: Option<usize>) -> (r: Result<(usize, usize), DebugError>)
        requires
            old(self).wf(),
        ensures
            final(self).wf(),
            final(self).live() == old(self).live(),
            r == Err::<(usize, usize), DebugError>(DebugError::UnresolvedBreakpoint) <==> addr_opt
                is None,
            addr_opt is None ==> *final(self) == *old(self),
            addr_opt is Some && !old(self).live() ==> r is Ok,
            addr_opt matches Some(a) ==> {
                &&& (old(self).records().contains(a) ==> final(self).records() == old(
                    self,
                ).records())
                &&& (!old(self).records().contains(a) ==> final(self).records() == old(
                    self,
                ).records().push(a))
                &&& match r {
                    Ok((idx, ra)) => {
                        &&& ra == a
                        &&& idx < final(self).records().len()
                        &&& final(self).records()[idx as int] == a
                        &&& forall|j: int| 0 <= j < idx ==> final(self).records()[j] != a
                        &&& (old(self).live() ==> final(self).proc_patches().contains_key(a))
                    },
                    Err(e) => e is Trace,
                }
            },
    {
        let a = match addr_opt {
            Some(a) => a,
            None => {
                return Err(DebugError::UnresolvedBreakpoint);
            },
        };
        let idx = self.breakpoints.add_addr(a);
        if self.inferior.is_some() {
            let mut inf = self.inferior.take().unwrap();
            match inf.breakpoint(&a) {
                Ok(_) => {
                    self.inferior = Some(inf);
                },
                Err(e) => {
                    self.inferior = Some(inf);
                    return Err(DebugError::Trace(e));
                },
            }
        }
        Ok((idx, a))
    }

    /// The instruction pointer and frame pointer of the parked process,
    /// re-read from its registers — the pair a backtrace walk starts at.
    /// The instruction pointer handed back is the one of the remembered
    /// stop, and the remembered stop is refreshed with it.
    pub fn current_frame(&mut self) -> (r: Result<(usize, usize), DebugError>)
        requires
            old(self).wf(),
        ensures
            final(self).wf(),
            final(self).records() == old(self).records(),
            final(self).live() == old(self).live(),
            r == Err::<(usize, usize), DebugError>(DebugError::NoProcess) <==> !old(self).live(),
            r matches Ok(f) ==> {
                &&& old(self).live()
                &&& f.0 == old(self).parked_at().unwrap().1
                &&& final(self).parked_at() == Some((old(self).parked_at().unwrap().0, f.0))
                &&& final(self).proc_model().rip == Some(f.0)
                &&& final(self).proc_model().rbp == Some(f.1)
                &&& final(self).proc_model().image == old(self).proc_model().image
                &&& final(self).proc_patches() == old(self).proc_patches()
            },
    {
        let (_sig, _ip) = match self.parked {
            Some(p) => p,
            None => {
                return Err(DebugError::NoProcess);
            },
        };
        let mut inf = self.inferior.take().unwrap();
        let r = inf.get_frame();
        self.inferior = Some(inf);
        match r {
            Ok(f) => {
                self.parked = Some((_sig, f.0));
                Ok(f)
            },
            Err(e) => Err(DebugError::Trace(e)),
        }
    }

    /// One step of the frame-pointer walk of the parked process: the
    /// caller's return address and saved frame pointer, read at fixed
    /// offsets from the current frame pointer.  The returned pair is
    /// exactly the word one pointer width above `fp` and the word at
    /// `fp`, as `frame_words_read` states over the process image.
    pub fn next_frame(&mut self, fp: usize) -> (r: Result<(usize, usize), DebugError>)
        requires
            old(self).wf(),
            fp + 8 <= usize::MAX,
        ensures
            final(self).wf(),
            final(self).records() == old(self).records(),
            final(self).live() == old(self).live(),
            final(self).parked_at() == old(self).parked_at(),
            r == Err::<(usize, usize), DebugError>(DebugError::NoProcess) <==> !old(self).live(),
            r matches Ok(f) ==> old(self).live() && final(self).proc_patches() == old(
                self,
            ).proc_patches() && (exists|w1: u64, w2: u64|
                #![trigger word_matches(old(self).proc_model().image, fp + 8, w1), word_matches(
                    learned_word(old(self).proc_model().image, fp + 8, w1),
                    fp as int,
                    w2,
                )]
                frame_words_read(
                    old(self).proc_model().image,
                    final(self).proc_model().image,
                    fp,
                    w1,
                    w2,
                    f,
                )),
    {
        if self.inferior.is_none() {
            return Err(DebugError::NoProcess);
        }
        let mut inf = self.inferior.take().unwrap();
        let r = inf.next_frame(fp);
        self.inferior = Some(inf);
        match r {
            Ok(f) => Ok(f),
            Err(e) => Err(DebugError::Trace(e)),
        }
    }
}

/// What a backtrace walk does with one frame.
#[derive(Clone, Copy, Debug, PartialEq, Eq, Structural)]
pub enum FrameDecision {
    /// The frame resolved to the program entry function: report it, then
    /// end the walk.
    PrintAndStop,
    /// An ordinary resolved frame: report it and walk on.
    PrintAndContinue,
    /// The frame did not fully resolve: end the walk gracefully, with
    /// nothing reported and no error.
    StopSilently,
}

/// How the frame-pointer walk treats a frame, given the resolver's line
/// and function answers for its instruction pointer: unresolved frames
/// end the walk silently, and the program entry function (`main`) is the
/// last frame reported.
pub fn frame_walk_decision(line: Option<usize>, func: Option<&String>) -> (r: FrameDecision)
    ensures
        line is None || func is None ==> r == FrameDecision::StopSilently,
        func matches Some(f) ==> line is Some ==> r == (if f@ == "main"@ {
            FrameDecision::PrintAndStop
        } else {
            FrameDecision::PrintAndContinue
        }),
{
    match (line, func) {
        (Some(_), Some(f)) => {
            if crate::parse::str_eq(f.as_str(), "main") {
                FrameDecision::PrintAndStop
            } else {
                FrameDecision::PrintAndContinue
            }
        },
        _ => FrameDecision::StopSilently,
    }
}

} // verus!
