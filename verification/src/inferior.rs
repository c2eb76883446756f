//! The traced child process (the inferior): resuming, single-stepping,
//! waiting, raw memory patching, and the per-process breakpoint bookkeeping.
//!
//! All tracer syscalls go through trusted wrappers at the bottom of the
//! `impl` block.  Their contracts are stated over a ghost model of the
//! child: `image` records the bytes of the child's memory that the tracer
//! has observed or written since the child last stopped, `stopped` records
//! whether the child sits in a tracer stop (only then may memory be
//! touched), `rip` is the instruction pointer as last read or written, and
//! `last_step` records where the last single-step started from and which
//! byte sat under the instruction pointer at that moment; `rbp` is the
//! frame pointer as last read.  Resuming the child empties `image`: a
//! running child owns its memory again.

use vstd::prelude::*;

use crate::word::{align_addr_to_word, extract_byte, set_byte_in_word, word_byte, TRAP_BYTE};
use nix::sys::ptrace;
use nix::sys::signal::{kill as send_signal, Signal};
use nix::sys::wait::{waitpid, WaitStatus};
use nix::unistd::Pid;
use std::collections::HashMap;

verus! {

broadcast use vstd::std_specs::hash::group_hash_axioms;

/// The number of the trap signal (`SIGTRAP`), the signal a traced child
/// reports when it executes the trap instruction.
pub const TRAP_SIGNAL: i32 = 5;

/// The state of the traced process as observed by one blocking wait.
#[derive(Clone, Copy, Debug, PartialEq, Eq, Structural)]
pub enum Status {
    /// The child stopped; carries the stopping signal and the instruction
    /// pointer at the stop.
    Stopped(i32, usize),
    /// The child exited normally; carries the exit code.
    Exited(i32),
    /// The child was terminated by a signal; carries that signal.
    Signaled(i32),
    /// The child was told to continue; transient, no wait has observed the
    /// resulting state yet.
    Continued,
}

/// Failures of the process-control engine.
#[derive(Clone, Copy, Debug, PartialEq, Eq, Structural)]
pub enum TraceError {
    /// A tracer syscall failed at the OS boundary; carries the errno.
    Syscall(i32),
    /// A wait reported a state this engine does not handle.
    UnexpectedStatus,
    /// Recovery was asked for an address with no recorded original byte;
    /// an internal-consistency signal that correct sequencing never raises.
    MissingBreakpointBookkeeping,
    /// The observed termination status after a kill was not the expected
    /// terminated-by-signal outcome.
    KillDesync,
}

/// One armed breakpoint: its address and the byte that occupied that
/// address before the trap byte was patched in.
#[derive(Clone, Copy, Debug, PartialEq, Eq, Structural)]
pub struct Breakpoint {
    pub addr: usize,
    pub orig_byte: u8,
}

/// Where the last single-step started, and which byte the model held at
/// that address at that moment.
#[derive(Clone, Copy)]
pub struct StepSnap {
    pub from: usize,
    pub byte_under: Option<u8>,
}

/// The ghost model of a traced process; see the module doc comment.
pub struct ProcModel {
    pub pid: i32,
    pub patches: Map<usize, Breakpoint>,
    pub image: Map<int, u8>,
    pub stopped: bool,
    pub rip: Option<usize>,
    pub rbp: Option<usize>,
    pub last_step: Option<StepSnap>,
}

/// Every known byte of `m0` is still known and unchanged in `m1`.
pub open spec fn preserved(m0: Map<int, u8>, m1: Map<int, u8>) -> bool {
    forall|a: int| #[trigger] m0.contains_key(a) ==> m1.contains_key(a) && m1[a] == m0[a]
}

/// Every known byte of `m0` other than the byte at `x` is still known and
/// unchanged in `m1`.
pub open spec fn preserved_except(m0: Map<int, u8>, m1: Map<int, u8>, x: int) -> bool {
    forall|a: int| #[trigger] m0.contains_key(a) && a != x ==> m1.contains_key(a) && m1[a] == m0[a]
}

/// The word `w` read at `addr` agrees with every byte of `m` in its range.
pub open spec fn word_matches(m: Map<int, u8>, addr: int, w: u64) -> bool {
    forall|i: u64|
        i < 8 && m.contains_key(addr + i) ==> m[addr + i] == #[trigger] word_byte(w, i)
}

/// `m` extended (or overwritten) with the eight bytes of the word `w` at
/// `addr`.
pub open spec fn learned_word(m: Map<int, u8>, addr: int, w: u64) -> Map<int, u8> {
    Map::new(
        |a: int| m.contains_key(a) || (addr <= a < addr + 8),
        |a: int|
            if addr <= a < addr + 8 {
                word_byte(w, (a - addr) as u64)
            } else {
                m[a]
            },
    )
}

/// The address of the breakpoint a stop sits on, if any: on a trap-class
/// stop the reported instruction pointer is one byte past the trap, so the
/// candidate is `ip - 1`, and it counts only if it is a recorded address.
pub open spec fn active_breakpoint(
    patches: Map<usize, Breakpoint>,
    signal: i32,
    ip: usize,
) -> Option<usize> {
    if signal == TRAP_SIGNAL && ip >= 1 && patches.contains_key((ip - 1) as usize) {
        Some((ip - 1) as usize)
    } else {
        None
    }
}

/// One step of the frame-pointer walk read the two words `w1` (at
/// `fp + 8`, the return address) and `w2` (at `fp`, the saved frame
/// pointer) out of the image `m0`, leaving the image `m1`: both words
/// agree with every byte already known, the image afterwards holds
/// exactly them, and the returned pair `f` is the two words as addresses.
pub open spec fn frame_words_read(
    m0: Map<int, u8>,
    m1: Map<int, u8>,
    fp: usize,
    w1: u64,
    w2: u64,
    f: (usize, usize),
) -> bool {
    &&& word_matches(m0, fp + 8, w1)
    &&& word_matches(learned_word(m0, fp + 8, w1), fp as int, w2)
    &&& m1 == learned_word(learned_word(m0, fp + 8, w1), fp as int, w2)
    &&& f.0 == w1 as usize
    &&& f.1 == w2 as usize
}

/// One live traced child and the patch bookkeeping for its process image.
pub struct Inferior {
    pid: i32,
    breakpoints: HashMap<usize, Breakpoint>,
    image: Ghost<Map<int, u8>>,
    stopped: Ghost<bool>,
    rip_at_stop: Ghost<Option<usize>>,
    rbp_at_stop: Ghost<Option<usize>>,
    last_step: Ghost<Option<StepSnap>>,
}

impl View for Inferior {
    type V = ProcModel;

    closed spec fn view(&self) -> ProcModel {
        ProcModel {
            pid: self.pid,
            patches: self.breakpoints@,
            image: self.image@,
            stopped: self.stopped@,
            rip: self.rip_at_stop@,
            rbp: self.rbp_at_stop@,
            last_step: self.last_step@,
        }
    }
}

impl Inferior {
    /// The operating-system process identifier of this child.
    pub fn pid(&self) -> (r: i32)
        ensures
            r == self@.pid,
    {
        self.pid
    }

    /// Adopts a freshly spawned child that requested tracing before its
    /// exec, and blocks for its initial trap stop.  Fails if the first
    /// wait does not report a stop.
    pub fn new(pid: i32) -> (r: Result<Inferior, TraceError>)
        ensures
            match r {
                Ok(inf) => {
                    &&& inf@.pid == pid
                    &&& inf@.patches == Map::<usize, Breakpoint>::empty()
                    &&& inf@.image == Map::<int, u8>::empty()
                    &&& inf@.stopped
                    &&& inf@.rip is Some
                },
                Err(e) => e is Syscall || e is UnexpectedStatus,
            },
    {
        let mut inf = Inferior {
            pid,
            breakpoints: HashMap::new(),
            image: Ghost(Map::empty()),
            stopped: Ghost(false),
            rip_at_stop: Ghost(None),
            rbp_at_stop: Ghost(None),
            last_step: Ghost(None),
        };
        match inf.wait_raw() {
            Ok(Status::Stopped(_, _)) => Ok(inf),
            Ok(_) => Err(TraceError::UnexpectedStatus),
            Err(e) => Err(e),
        }
    }

    /// Patches one byte of the child's memory.  The tracer interface only
    /// supports word-granularity access, so this reads the aligned word
    /// containing `addr`, replaces the target byte by shift-and-mask, and
    /// writes the whole word back; it returns the byte that was replaced.
    fn write_byte(&mut self, addr: usize, val: u8) -> (r: Result<u8, TraceError>)
        requires
            old(self)@.stopped,
        ensures
            final(self)@.pid == old(self)@.pid,
            final(self)@.patches == old(self)@.patches,
            final(self)@.stopped,
            final(self)@.rip == old(self)@.rip,
            final(self)@.last_step == old(self)@.last_step,
            match r {
                Ok(orig) => {
                    &&& final(self)@.image.contains_key(addr as int)
                    &&& final(self)@.image[addr as int] == val
                    &&& preserved_except(old(self)@.image, final(self)@.image, addr as int)
                    &&& (old(self)@.image.contains_key(addr as int) ==> orig == old(
                        self,
                    )@.image[addr as int])
                },
                Err(e) => preserved(old(self)@.image, final(self)@.image) && e is Syscall,
            },
    {
        let aligned = align_addr_to_word(addr);
        let off = addr - aligned;
        let word = match self.read_word_raw(aligned) {
            Ok(w) => w,
            Err(e) => {
                return Err(e);
            },
        };
        let ghost m0 = old(self)@.image;
        let ghost m1 = self@.image;
        let orig = extract_byte(word, off);
        let new_word = set_byte_in_word(word, off, val);
        proof {
            assert(addr as int == aligned as int + (off as u64));
            assert(m0.contains_key(addr as int) ==> m0[addr as int] == word_byte(
                word,
                off as u64,
            ));
        }
        match self.write_word_raw(aligned, new_word) {
            Ok(_) => {
                proof {
                    let m2 = self@.image;
                    assert forall|a: int| #[trigger] m0.contains_key(a) && a != addr as int implies
                        m2.contains_key(a) && m2[a] == m0[a] by {
                        if aligned <= a < aligned + 8 {
                            let i = (a - aligned) as u64;
                            assert(a == aligned as int + i);
                            assert(m1.contains_key(a) && m1[a] == m0[a]);
                            assert(m1[a] == word_byte(word, i));
                            assert(word_byte(new_word, i) == word_byte(word, i));
                        } else {
                            assert(m1.contains_key(a) && m1[a] == m0[a]);
                        }
                    }
                }
                Ok(orig)
            },
            Err(e) => {
                proof {
                    let m2 = self@.image;
                    assert forall|a: int| #[trigger] m0.contains_key(a) implies m2.contains_key(a)
                        && m2[a] == m0[a] by {
                        if aligned <= a < aligned + 8 {
                            let i = (a - aligned) as u64;
                            assert(a == aligned as int + i);
                            assert(m1[a] == word_byte(word, i));
                        }
                    }
                }
                Err(e)
            },
        }
    }

    /// Arms a breakpoint: patches the trap byte over `addr` and records the
    /// byte it replaced.  A no-op if `addr` is already armed, so arming
    /// twice keeps exactly one bookkeeping entry and never overwrites the
    /// recorded original byte with the trap value.
    pub fn breakpoint(&mut self, addr: &usize) -> (r: Result<(), TraceError>)
        requires
            old(self)@.stopped,
        ensures
            final(self)@.pid == old(self)@.pid,
            final(self)@.stopped,
            final(self)@.rip == old(self)@.rip,
            final(self)@.last_step == old(self)@.last_step,
            old(self)@.patches.contains_key(*addr) ==> *final(self) == *old(self) && r is Ok,
            match r {
                Ok(_) => {
                    &&& final(self)@.patches.contains_key(*addr)
                    &&& (!old(self)@.patches.contains_key(*addr) ==> {
                        &&& final(self)@.patches[*addr].addr == *addr
                        &&& final(self)@.patches == old(self)@.patches.insert(
                            *addr,
                            final(self)@.patches[*addr],
                        )
                        &&& final(self)@.image.contains_key(*addr as int)
                        &&& final(self)@.image[*addr as int] == TRAP_BYTE
                        &&& preserved_except(old(self)@.image, final(self)@.image, *addr as int)
                        &&& (old(self)@.image.contains_key(*addr as int)
                            ==> final(self)@.patches[*addr].orig_byte
                                == old(self)@.image[*addr as int])
                    })
                },
                Err(e) => {
                    &&& final(self)@.patches == old(self)@.patches
                    &&& preserved(old(self)@.image, final(self)@.image)
                    &&& e is Syscall
                },
            },
    {
        if self.breakpoints.contains_key(addr) {
            return Ok(());
        }
        let orig = match self.write_byte(*addr, TRAP_BYTE) {
            Ok(b) => b,
            Err(e) => {
                return Err(e);
            },
        };
        self.breakpoints.insert(*addr, Breakpoint { addr: *addr, orig_byte: orig });
        Ok(())
    }

    /// Disarms a breakpoint: writes the recorded original byte back over
    /// `addr` and, once that patch has succeeded, drops the bookkeeping
    /// entry.  Fails with `MissingBreakpointBookkeeping` exactly when no
    /// byte is recorded for `addr`.
    pub fn recover(&mut self, addr: &usize) -> (r: Result<(), TraceError>)
        requires
            old(self)@.stopped,
        ensures
            final(self)@.pid == old(self)@.pid,
            final(self)@.stopped,
            final(self)@.rip == old(self)@.rip,
            final(self)@.last_step == old(self)@.last_step,
            r == Err::<(), TraceError>(TraceError::MissingBreakpointBookkeeping) <==> !old(
                self,
            )@.patches.contains_key(*addr),
            !old(self)@.patches.contains_key(*addr) ==> *final(self) == *old(self),
            match r {
                Ok(_) => {
                    &&& final(self)@.patches == old(self)@.patches.remove(*addr)
                    &&& final(self)@.image.contains_key(*addr as int)
                    &&& final(self)@.image[*addr as int] == old(self)@.patches[*addr].orig_byte
                    &&& preserved_except(old(self)@.image, final(self)@.image, *addr as int)
                },
                Err(e) => e is MissingBreakpointBookkeeping || {
                    &&& final(self)@.patches == old(self)@.patches
                    &&& preserved(old(self)@.image, final(self)@.image)
                    &&& e is Syscall
                },
            },
    {
        let orig = match self.breakpoints.get(addr) {
            Some(bp) => bp.orig_byte,
            None => {
                return Err(TraceError::MissingBreakpointBookkeeping);
            },
        };
        match self.write_byte(*addr, orig) {
            Ok(_) => {
                self.breakpoints.remove(addr);
                Ok(())
            },
            Err(e) => Err(e),
        }
    }

    /// Steps the child off a breakpoint it is parked on: restores the
    /// original byte, rewinds the instruction pointer one byte so the real
    /// instruction executes, single-steps exactly once, waits for that
    /// step, and re-arms the trap byte.  All of that completes before this
    /// returns `Ok`, so the next resume cannot skip or lose the
    /// breakpoint: afterwards the byte at `addr` reads as the trap value
    /// again, and the recorded single step started at `addr` with the
    /// original byte in place.  If a tracer call fails midway, the
    /// breakpoint may be left disarmed (its record dropped); the error
    /// says so and the caller decides the session's fate.
    pub fn continue_from_breakpoint(&mut self, addr: &usize) -> (r: Result<(), TraceError>)
        requires
            old(self)@.stopped,
            old(self)@.rip == Some((*addr + 1) as usize),
            *addr + 1 <= usize::MAX,
        ensures
            final(self)@.pid == old(self)@.pid,
            r == Err::<(), TraceError>(TraceError::MissingBreakpointBookkeeping) <==> !old(
                self,
            )@.patches.contains_key(*addr),
            match r {
                Ok(_) => {
                    &&& final(self)@.stopped
                    &&& final(self)@.patches.dom() == old(self)@.patches.dom()
                    &&& forall|a: usize|
                        a != *addr && #[trigger] old(self)@.patches.contains_key(a)
                            ==> final(self)@.patches[a] == old(self)@.patches[a]
                    &&& final(self)@.patches[*addr].addr == *addr
                    &&& final(self)@.image.contains_key(*addr as int)
                    &&& final(self)@.image[*addr as int] == TRAP_BYTE
                    &&& final(self)@.last_step == Some(
                        StepSnap {
                            from: *addr,
                            byte_under: Some(old(self)@.patches[*addr].orig_byte),
                        },
                    )
                },
                Err(_) => final(self)@.patches == old(self)@.patches || final(self)@.patches == old(
                    self,
                )@.patches.remove(*addr),
            },
    {
        let ghost orig = old(self)@.patches[*addr].orig_byte;
        match self.recover(addr) {
            Ok(_) => (),
            Err(e) => {
                return Err(e);
            },
        }
        let ip = match self.read_frame_raw() {
            Ok(f) => f.0,
            Err(e) => {
                return Err(e);
            },
        };
        match self.set_ip_raw(ip - 1) {
            Ok(_) => (),
            Err(e) => {
                return Err(e);
            },
        }
        match self.step_raw() {
            Ok(_) => (),
            Err(e) => {
                return Err(e);
            },
        }
        match self.wait_raw() {
            Ok(Status::Stopped(_, _)) => (),
            Ok(_) => {
                return Err(TraceError::UnexpectedStatus);
            },
            Err(e) => {
                return Err(e);
            },
        }
        match self.breakpoint(addr) {
            Ok(_) => (),
            Err(e) => {
                return Err(e);
            },
        }
        proof {
            assert(final(self)@.patches.dom() =~= old(self)@.patches.dom());
        }
        Ok(())
    }

    /// Requests continued execution of the stopped child; non-blocking, it
    /// does not itself observe the resulting status.
    pub fn goon(&mut self) -> (r: Result<Status, TraceError>)
        requires
            old(self)@.stopped,
        ensures
            final(self)@.pid == old(self)@.pid,
            final(self)@.patches == old(self)@.patches,
            final(self)@.last_step == old(self)@.last_step,
            match r {
                Ok(st) => st == Status::Continued && !final(self)@.stopped,
                Err(e) => final(self)@ == old(self)@ && e is Syscall,
            },
    {
        match self.cont_raw() {
            Ok(_) => Ok(Status::Continued),
            Err(e) => Err(e),
        }
    }

    /// Blocks until the child's state changes and classifies the outcome
    /// into `Stopped`, `Exited` or `Signaled`; a wait never yields
    /// `Continued`.
    pub fn wait(&mut self) -> (r: Result<Status, TraceError>)
        ensures
            final(self)@.pid == old(self)@.pid,
            final(self)@.patches == old(self)@.patches,
            final(self)@.last_step == old(self)@.last_step,
            match r {
                Ok(st) => match st {
                    Status::Stopped(_sig, ip) => {
                        &&& final(self)@.stopped
                        &&& final(self)@.rip == Some(ip)
                        &&& final(self)@.image == old(self)@.image
                    },
                    Status::Exited(_) => !final(self)@.stopped,
                    Status::Signaled(_) => !final(self)@.stopped,
                    Status::Continued => false,
                },
                Err(e) => e is Syscall || e is UnexpectedStatus,
            },
    {
        self.wait_raw()
    }

    /// Force-terminates and reaps the child, normalizing the expected
    /// terminated-by-signal outcome into `Exited(0)` for bookkeeping.
    /// Fails with `KillDesync` if the observed wait status diverges from
    /// that expectation.
    pub fn kill(&mut self) -> (r: Result<Status, TraceError>)
        ensures
            final(self)@.pid == old(self)@.pid,
            final(self)@.patches == old(self)@.patches,
            match r {
                Ok(st) => st == Status::Exited(0) && !final(self)@.stopped,
                Err(e) => e is Syscall || e is KillDesync || e is UnexpectedStatus,
            },
    {
        match self.kill_raw() {
            Ok(_) => (),
            Err(e) => {
                return Err(e);
            },
        }
        match self.wait_raw() {
            Ok(Status::Signaled(_)) => Ok(Status::Exited(0)),
            Ok(_) => Err(TraceError::KillDesync),
            Err(e) => Err(e),
        }
    }

    /// The breakpoint a stop sits on, if any: for a stop with signal
    /// `signal` at instruction pointer `ip`, returns `Some(ip - 1)` iff
    /// the stop is trap-class and `ip - 1` is a recorded address; `None`
    /// for every other stop cause.
    pub fn find_break_point(&self, signal: i32, ip: usize) -> (r: Option<usize>)
        ensures
            r == active_breakpoint(self@.patches, signal, ip),
    {
        if signal == TRAP_SIGNAL && ip >= 1 {
            let cand = ip - 1;
            if self.breakpoints.contains_key(&cand) {
                return Some(cand);
            }
        }
        None
    }

    /// The stopped child's instruction pointer and frame pointer, re-read
    /// from its registers; each agrees with the value already known, if
    /// any.
    pub fn get_frame(&mut self) -> (r: Result<(usize, usize), TraceError>)
        requires
            old(self)@.stopped,
        ensures
            final(self)@.pid == old(self)@.pid,
            final(self)@.patches == old(self)@.patches,
            final(self)@.stopped,
            final(self)@.image == old(self)@.image,
            final(self)@.last_step == old(self)@.last_step,
            match r {
                Ok(f) => {
                    &&& final(self)@.rip == Some(f.0)
                    &&& final(self)@.rbp == Some(f.1)
                    &&& (old(self)@.rip is Some ==> old(self)@.rip == Some(f.0))
                    &&& (old(self)@.rbp is Some ==> old(self)@.rbp == Some(f.1))
                },
                Err(e) => final(self)@.rip == old(self)@.rip && final(self)@.rbp == old(
                    self,
                )@.rbp && e is Syscall,
            },
    {
        self.read_frame_raw()
    }

    /// One step of the frame-pointer walk: reads the caller's return
    /// address (one pointer width above the frame pointer) and the saved
    /// frame pointer (at the frame pointer itself) from the stopped
    /// child's stack.  The returned pair is exactly those two words, as
    /// `frame_words_read` states; on failure nothing known of the image
    /// is lost or changed.
    pub fn next_frame(&mut self, fp: usize) -> (r: Result<(usize, usize), TraceError>)
        requires
            old(self)@.stopped,
            fp + 8 <= usize::MAX,
        ensures
            final(self)@.pid == old(self)@.pid,
            final(self)@.patches == old(self)@.patches,
            final(self)@.stopped,
            final(self)@.rip == old(self)@.rip,
            final(self)@.rbp == old(self)@.rbp,
            final(self)@.last_step == old(self)@.last_step,
            match r {
                Ok(f) => exists|w1: u64, w2: u64|
                    #![trigger word_matches(old(self)@.image, fp + 8, w1), word_matches(
                        learned_word(old(self)@.image, fp + 8, w1),
                        fp as int,
                        w2,
                    )]
                    frame_words_read(old(self)@.image, final(self)@.image, fp, w1, w2, f),
                Err(e) => preserved(old(self)@.image, final(self)@.image) && e is Syscall,
            },
    {
        let w1 = match self.read_word_raw(fp + 8) {
            Ok(w) => w,
            Err(e) => {
                return Err(e);
            },
        };
        let ghost m1 = self@.image;
        let w2 = match self.read_word_raw(fp) {
            Ok(w) => w,
            Err(e) => {
                proof {
                    assert forall|a: int| #[trigger] old(self)@.image.contains_key(a) implies self@
                        .image.contains_key(a) && self@.image[a] == old(self)@.image[a] by {
                        if fp + 8 <= a < fp + 16 {
                            let i = (a - (fp + 8)) as u64;
                            assert(a == fp + 8 + i);
                            assert(m1[a] == word_byte(w1, i));
                        }
                    }
                }
                return Err(e);
            },
        };
        let f = (#[verifier::truncate] (w1 as usize), #[verifier::truncate] (w2 as usize));
        proof {
            assert(word_matches(old(self)@.image, fp + 8, w1));
            assert(word_matches(learned_word(old(self)@.image, fp + 8, w1), fp as int, w2));
            assert(frame_words_read(old(self)@.image, self@.image, fp, w1, w2, f));
        }
        Ok(f)
    }

    /// Relies on `nix::sys::ptrace::read` (`PTRACE_PEEKDATA`): while the
    /// child sits in a tracer stop, returns the word of the child's memory
    /// at `addr`; reading does not change the child.
    #[verifier::external_body]
    fn read_word_raw(&mut self, addr: usize) -> (r: Result<u64, TraceError>)
        requires
            old(self)@.stopped,
        ensures
            final(self)@.pid == old(self)@.pid,
            final(self)@.patches == old(self)@.patches,
            final(self)@.stopped == old(self)@.stopped,
            final(self)@.rip == old(self)@.rip,
            final(self)@.rbp == old(self)@.rbp,
            final(self)@.last_step == old(self)@.last_step,
            match r {
                Ok(w) => word_matches(old(self)@.image, addr as int, w) && final(self)@.image
                    == learned_word(old(self)@.image, addr as int, w),
                Err(e) => final(self)@.image == old(self)@.image && e is Syscall,
            },
    {
        match ptrace::read(Pid::from_raw(self.pid), addr as ptrace::AddressType) {
            Ok(w) => Ok(w as u64),
            Err(e) => Err(TraceError::Syscall(e as i32)),
        }
    }

    /// Relies on `nix::sys::ptrace::write` (`PTRACE_POKEDATA`): while the
    /// child sits in a tracer stop, writes the word `w` over the child's
    /// memory at `addr` and changes nothing else.
    #[verifier::external_body]
    fn write_word_raw(&mut self, addr: usize, w: u64) -> (r: Result<(), TraceError>)
        requires
            old(self)@.stopped,
        ensures
            final(self)@.pid == old(self)@.pid,
            final(self)@.patches == old(self)@.patches,
            final(self)@.stopped == old(self)@.stopped,
            final(self)@.rip == old(self)@.rip,
            final(self)@.rbp == old(self)@.rbp,
            final(self)@.last_step == old(self)@.last_step,
            match r {
                Ok(_) => final(self)@.image == learned_word(old(self)@.image, addr as int, w),
                Err(e) => final(self)@.image == old(self)@.image && e is Syscall,
            },
    {
        match ptrace::write(Pid::from_raw(self.pid), addr as ptrace::AddressType, w as i64) {
            Ok(_) => Ok(()),
            Err(e) => Err(TraceError::Syscall(e as i32)),
        }
    }

    /// Relies on `nix::sys::wait::waitpid` and `nix::sys::ptrace::getregs`:
    /// blocks until the child's state changes and classifies the outcome;
    /// on a stop, the instruction pointer (and with it a frame pointer the
    /// model merely notes as known) is read from the stopped child's
    /// registers.  Without the continue-reporting wait flag, a wait never
    /// reports a plain continuation, so `Status::Continued` never comes
    /// back from here.
    #[verifier::external_body]
    fn wait_raw(&mut self) -> (r: Result<Status, TraceError>)
        ensures
            final(self)@.pid == old(self)@.pid,
            final(self)@.patches == old(self)@.patches,
            final(self)@.last_step == old(self)@.last_step,
            match r {
                Ok(st) => match st {
                    Status::Stopped(_sig, ip) => {
                        &&& final(self)@.stopped
                        &&& final(self)@.rip == Some(ip)
                        &&& final(self)@.rbp is Some
                        &&& final(self)@.image == old(self)@.image
                    },
                    Status::Exited(_) => !final(self)@.stopped && final(self)@.image == Map::<
                        int,
                        u8,
                    >::empty() && final(self)@.rip is None && final(self)@.rbp is None,
                    Status::Signaled(_) => !final(self)@.stopped && final(self)@.image == Map::<
                        int,
                        u8,
                    >::empty() && final(self)@.rip is None && final(self)@.rbp is None,
                    Status::Continued => false,
                },
                Err(e) => e is Syscall || e is UnexpectedStatus,
            },
    {
        let pid = Pid::from_raw(self.pid);
        match waitpid(pid, None) {
            Ok(WaitStatus::Exited(_, code)) => Ok(Status::Exited(code)),
            Ok(WaitStatus::Signaled(_, sig, _)) => Ok(Status::Signaled(sig as i32)),
            Ok(WaitStatus::Stopped(_, sig)) => match ptrace::getregs(pid) {
                Ok(regs) => Ok(Status::Stopped(sig as i32, regs.rip as usize)),
                Err(e) => Err(TraceError::Syscall(e as i32)),
            },
            Ok(_) => Err(TraceError::UnexpectedStatus),
            Err(e) => Err(TraceError::Syscall(e as i32)),
        }
    }

    /// Relies on `nix::sys::ptrace::cont` (`PTRACE_CONT`): requests that
    /// the stopped child continue executing.  Once the child runs, it owns
    /// its memory again, so everything known of the image is dropped.
    #[verifier::external_body]
    fn cont_raw(&mut self) -> (r: Result<(), TraceError>)
        requires
            old(self)@.stopped,
        ensures
            final(self)@.pid == old(self)@.pid,
            final(self)@.patches == old(self)@.patches,
            final(self)@.last_step == old(self)@.last_step,
            match r {
                Ok(_) => {
                    &&& !final(self)@.stopped
                    &&& final(self)@.image == Map::<int, u8>::empty()
                    &&& final(self)@.rip is None
                    &&& final(self)@.rbp is None
                },
                Err(e) => final(self)@ == old(self)@ && e is Syscall,
            },
    {
        match ptrace::cont(Pid::from_raw(self.pid), None) {
            Ok(_) => Ok(()),
            Err(e) => Err(TraceError::Syscall(e as i32)),
        }
    }

    /// Relies on `nix::sys::ptrace::step` (`PTRACE_SINGLESTEP`): lets the
    /// stopped child execute exactly one instruction.  Records where the
    /// step started and which byte the model held there; drops the image,
    /// as for a continue.
    #[verifier::external_body]
    fn step_raw(&mut self) -> (r: Result<(), TraceError>)
        requires
            old(self)@.stopped,
            old(self)@.rip is Some,
        ensures
            final(self)@.pid == old(self)@.pid,
            final(self)@.patches == old(self)@.patches,
            match r {
                Ok(_) => {
                    &&& !final(self)@.stopped
                    &&& final(self)@.image == Map::<int, u8>::empty()
                    &&& final(self)@.rip is None
                    &&& final(self)@.rbp is None
                    &&& final(self)@.last_step == Some(
                        StepSnap {
                            from: old(self)@.rip.unwrap(),
                            byte_under: if old(self)@.image.contains_key(
                                old(self)@.rip.unwrap() as int,
                            ) {
                                Some(old(self)@.image[old(self)@.rip.unwrap() as int])
                            } else {
                                None::<u8>
                            },
                        },
                    )
                },
                Err(e) => final(self)@ == old(self)@ && e is Syscall,
            },
    {
        match ptrace::step(Pid::from_raw(self.pid), None) {
            Ok(_) => Ok(()),
            Err(e) => Err(TraceError::Syscall(e as i32)),
        }
    }

    /// Relies on `nix::sys::ptrace::getregs` (`PTRACE_GETREGS`): returns
    /// the stopped child's instruction pointer and frame pointer.  Each
    /// agrees with the one already known, if any.
    #[verifier::external_body]
    fn read_frame_raw(&mut self) -> (r: Result<(usize, usize), TraceError>)
        requires
            old(self)@.stopped,
        ensures
            final(self)@.pid == old(self)@.pid,
            final(self)@.patches == old(self)@.patches,
            final(self)@.stopped == old(self)@.stopped,
            final(self)@.image == old(self)@.image,
            final(self)@.last_step == old(self)@.last_step,
            match r {
                Ok(f) => {
                    &&& final(self)@.rip == Some(f.0)
                    &&& final(self)@.rbp == Some(f.1)
                    &&& (old(self)@.rip is Some ==> old(self)@.rip == Some(f.0))
                    &&& (old(self)@.rbp is Some ==> old(self)@.rbp == Some(f.1))
                },
                Err(e) => final(self)@.rip == old(self)@.rip && final(self)@.rbp == old(
                    self,
                )@.rbp && e is Syscall,
            },
    {
        match ptrace::getregs(Pid::from_raw(self.pid)) {
            Ok(regs) => Ok((regs.rip as usize, regs.rbp as usize)),
            Err(e) => Err(TraceError::Syscall(e as i32)),
        }
    }

    /// Relies on `nix::sys::ptrace::getregs` and `nix::sys::ptrace::setregs`
    /// (`PTRACE_SETREGS`), which together form the tracer primitive that
    /// rewinds the instruction pointer: the stopped child's registers are
    /// read, the instruction pointer alone is replaced, and the registers
    /// are written back.
    #[verifier::external_body]
    fn set_ip_raw(&mut self, new_ip: usize) -> (r: Result<(), TraceError>)
        requires
            old(self)@.stopped,
        ensures
            final(self)@.pid == old(self)@.pid,
            final(self)@.patches == old(self)@.patches,
            final(self)@.stopped == old(self)@.stopped,
            final(self)@.image == old(self)@.image,
            final(self)@.last_step == old(self)@.last_step,
            match r {
                Ok(_) => final(self)@.rip == Some(new_ip),
                Err(e) => final(self)@.rip == old(self)@.rip && e is Syscall,
            },
    {
        let pid = Pid::from_raw(self.pid);
        match ptrace::getregs(pid) {
            Ok(mut regs) => {
                regs.rip = new_ip as u64;
                match ptrace::setregs(pid, regs) {
                    Ok(_) => Ok(()),
                    Err(e) => Err(TraceError::Syscall(e as i32)),
                }
            },
            Err(e) => Err(TraceError::Syscall(e as i32)),
        }
    }

    /// Relies on `nix::sys::signal::kill`: delivers `SIGKILL` to the
    /// child, which terminates it even while it sits in a tracer stop.
    #[verifier::external_body]
    fn kill_raw(&mut self) -> (r: Result<(), TraceError>)
        ensures
            final(self)@.pid == old(self)@.pid,
            final(self)@.patches == old(self)@.patches,
            final(self)@.last_step == old(self)@.last_step,
            match r {
                Ok(_) => {
                    &&& !final(self)@.stopped
                    &&& final(self)@.image == Map::<int, u8>::empty()
                    &&& final(self)@.rip is None
                    &&& final(self)@.rbp is None
                },
                Err(e) => final(self)@ == old(self)@ && e is Syscall,
            },
    {
        match send_signal(Pid::from_raw(self.pid), Signal::SIGKILL) {
            Ok(_) => Ok(()),
            Err(e) => Err(TraceError::Syscall(e as i32)),
        }
    }
}

} // verus!
