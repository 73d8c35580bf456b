//! The process table: creation against a pre-shared 16-byte key, key
//! resolution when a transport connection binds to its process, current-PID
//! tracking, and teardown.

use vstd::prelude::*;

use rand::Rng;

use crate::manager::MemoryManager;
use crate::manager::Pid;
use crate::mem::AddressSpace;
use crate::mem::Mmu;
use crate::Error;

verus! {

/// Capacity of the process table: PIDs fit the 9-bit ASID field with room
/// to spare.
pub const MAX_PROCESSES: usize = 63;

/// The lifecycle of a process.  A process is created in `Setup`, holding
/// the key a connection must present; resolving the key consumes it and
/// makes the process `Ready`; switching to a thread makes it `Running`.
#[derive(Clone, Copy, Debug)]
pub enum ProcessState {
    Setup([u8; 16]),
    Ready,
    Running(usize),
    Terminated,
}

/// One process: its identifier, lifecycle state, address space, and the
/// bump pointer inside its message window where incoming buffers land.
pub struct Process {
    pub pid: Pid,
    pub state: ProcessState,
    pub space: AddressSpace,
    pub window_next: usize,
}

impl Process {
    /// A process is tied to its table slot: its PID matches, its address
    /// space is well-formed and tagged with it, and the message-window bump
    /// pointer stays inside the user area.
    pub open spec fn wf(self) -> bool {
        &&& self.space.wf()
        &&& self.space.spec_asid() == self.pid.v
        &&& self.pid.v >= 1
        &&& crate::DEFAULT_MESSAGE_BASE <= self.window_next <= crate::USER_AREA_END
        &&& self.window_next % crate::PAGE_SIZE == 0
    }
}

/// The global registry of processes.
pub struct SystemServices {
    processes: Vec<Option<Process>>,
    current: Pid,
    pid1_key: [u8; 16],
}

/// Whether two 16-byte keys hold the same bytes.
pub open spec fn spec_keys_equal(a: [u8; 16], b: [u8; 16]) -> bool {
    a@ =~= b@
}

/// Compare two 16-byte keys.
pub fn keys_equal(a: &[u8; 16], b: &[u8; 16]) -> (r: bool)
    ensures
        r == spec_keys_equal(*a, *b),
{
    let mut i: usize = 0;
    while i < 16
        invariant
            i <= 16,
            forall|j: int| 0 <= j < i ==> a@[j] == b@[j],
        decreases 16 - i,
    {
        if a[i] != b[i] {
            return false;
        }
        i = i + 1;
    }
    proof {
        assert(a@ =~= b@);
    }
    true
}

impl SystemServices {
    /// The table, slot by slot: slot `i` holds the process with PID `i+1`
    /// or nothing.
    pub closed spec fn slots(self) -> Seq<Option<Process>> {
        self.processes@
    }

    /// The current PID.
    pub closed spec fn spec_current(self) -> Pid {
        self.current
    }

    /// The key PID 1 will be created with.
    pub closed spec fn spec_pid1_key(self) -> [u8; 16] {
        self.pid1_key
    }

    /// Slot `i` is either free or holds a well-formed process whose PID is
    /// `i + 1`.
    pub open spec fn slot_wf(self, i: int) -> bool {
        match self.slots()[i] {
            Some(p) => p.wf() && p.pid.v == i + 1,
            None => true,
        }
    }

    pub open spec fn wf(self) -> bool {
        &&& self.slots().len() == MAX_PROCESSES
        &&& forall|i: int| 0 <= i < MAX_PROCESSES ==> #[trigger] self.slot_wf(i)
    }

    /// An empty table; the current PID starts at 1 (the kernel's own).
    pub fn new() -> (r: SystemServices)
        ensures
            r.wf(),
            forall|i: int| 0 <= i < MAX_PROCESSES ==> r.slots()[i] is None,
            r.spec_current() == (Pid { v: 1u8 }),
    {
        let mut processes: Vec<Option<Process>> = Vec::new();
        let mut i: usize = 0;
        while i < MAX_PROCESSES
            invariant
                i <= MAX_PROCESSES,
                processes@.len() == i,
                forall|j: int| 0 <= j < i ==> processes@[j] is None,
            decreases MAX_PROCESSES - i,
        {
            processes.push(None);
            i = i + 1;
        }
        let r = SystemServices { processes, current: Pid { v: 1 }, pid1_key: [0; 16] };
        proof {
            assert(forall|i2: int| 0 <= i2 < MAX_PROCESSES ==> #[trigger] r.slot_wf(i2));
        }
        r
    }

    /// The current PID: the process the dispatcher acts for.
    pub fn current_pid(&self) -> (r: Pid)
        ensures
            r == self.spec_current(),
    {
        self.current
    }

    /// Record the process the dispatcher acts for.
    pub fn set_current_pid(&mut self, pid: Pid)
        ensures
            final(self).spec_current() == pid,
            final(self).slots() == old(self).slots(),
            final(self).spec_pid1_key() == old(self).spec_pid1_key(),
            old(self).wf() ==> final(self).wf(),
    {
        self.current = pid;
        proof {
            if old(self).wf() {
                assert forall|i: int| 0 <= i < MAX_PROCESSES implies #[trigger] self.slot_wf(
                    i,
                ) by {
                    assert(old(self).slot_wf(i));
                }
            }
        }
    }

    /// Create a process in `Setup`, holding `key`: the lowest free slot is
    /// taken and the PID is its index plus one, so PIDs count up until the
    /// table is full and released slots are reused lowest-first.  Fails
    /// with `ProcessNotFound` exactly when the table is full, and with
    /// `OutOfMemory` when no frame is free for the root table; nothing
    /// changes on failure.
    pub fn create_process(&mut self, mm: &mut MemoryManager, key: [u8; 16]) -> (r: Result<
        Pid,
        Error,
    >)
        requires
            old(self).wf(),
            old(mm).wf(),
        ensures
            final(self).wf(),
            final(mm).wf(),
            final(mm)@.len() == old(mm)@.len(),
            final(self).spec_current() == old(self).spec_current(),
            final(self).spec_pid1_key() == old(self).spec_pid1_key(),
            match r {
                Ok(pid) => {
                    &&& 1 <= pid.v <= MAX_PROCESSES
                    &&& old(self).slots()[pid.v - 1] is None
                    &&& forall|j: int| 0 <= j < pid.v - 1 ==> old(self).slots()[j] is Some
                    &&& final(self).slots()[pid.v - 1] matches Some(p) && (p.pid == pid
                        && (p.state matches ProcessState::Setup(k) && k == key))
                    &&& forall|j: int|
                        0 <= j < MAX_PROCESSES && j != pid.v - 1 ==> final(self).slots()[j] == old(
                            self,
                        ).slots()[j]
                },
                Err(e) => {
                    &&& final(self).slots() == old(self).slots()
                    &&& (e == Error::ProcessNotFound || e == Error::OutOfMemory)
                    &&& (e == Error::ProcessNotFound ==> (forall|j: int|
                        0 <= j < MAX_PROCESSES ==> old(self).slots()[j] is Some) && final(mm)@
                        == old(mm)@)
                },
            },
    {
        let n = self.processes.len();
        let mut i: usize = 0;
        while i < n
            invariant
                i <= n,
                n == MAX_PROCESSES,
                old(self).wf(),
                self.wf(),
                self.slots() == old(self).slots(),
                self.spec_current() == old(self).spec_current(),
                self.spec_pid1_key() == old(self).spec_pid1_key(),
                mm.wf(),
                mm@ == old(mm)@,
                forall|j: int| 0 <= j < i ==> self.slots()[j] is Some,
            decreases n - i,
        {
            if self.processes[i].is_none() {
                let pid = Pid { v: (i + 1) as u8 };
                let space = match AddressSpace::new(mm, pid) {
                    Ok(s) => s,
                    Err(e) => {
                        return Err(e);
                    },
                };
                let proc = Process {
                    pid,
                    state: ProcessState::Setup(key),
                    space,
                    window_next: crate::DEFAULT_MESSAGE_BASE,
                };
                self.processes[i] = Some(proc);
                proof {
                    assert forall|i2: int| 0 <= i2 < MAX_PROCESSES implies #[trigger] self.slot_wf(
                        i2,
                    ) by {
                        if i2 != i {
                            assert(old(self).slot_wf(i2));
                        }
                    }
                }
                return Ok(pid);
            }
            i = i + 1;
        }
        Err(Error::ProcessNotFound)
    }

    /// Resolve a connection's 16-byte key: the lowest process still in
    /// `Setup` whose key matches becomes `Ready`, its key consumed, and its
    /// PID is returned.  Fails with `ProcessNotFound` exactly when no
    /// process in `Setup` holds the key; nothing changes then.
    pub fn resolve_key(&mut self, key: &[u8; 16]) -> (r: Result<Pid, Error>)
        requires
            old(self).wf(),
        ensures
            final(self).wf(),
            final(self).spec_current() == old(self).spec_current(),
            final(self).spec_pid1_key() == old(self).spec_pid1_key(),
            match r {
                Ok(pid) => {
                    &&& 1 <= pid.v <= MAX_PROCESSES
                    &&& old(self).slots()[pid.v - 1] matches Some(p) && (p.state
                        matches ProcessState::Setup(k) && spec_keys_equal(k, *key))
                    &&& final(self).slots()[pid.v - 1] matches Some(p) && (p.pid == pid
                        && p.state is Ready)
                    &&& forall|j: int|
                        0 <= j < MAX_PROCESSES && j != pid.v - 1 ==> final(self).slots()[j] == old(
                            self,
                        ).slots()[j]
                },
                Err(e) => {
                    &&& e == Error::ProcessNotFound
                    &&& final(self).slots() == old(self).slots()
                    &&& forall|j: int|
                        0 <= j < MAX_PROCESSES ==> !((#[trigger] old(self).slots()[j])
                            matches Some(p) && (p.state matches ProcessState::Setup(k)
                            && spec_keys_equal(k, *key)))
                },
            },
    {
        let n = self.processes.len();
        let mut i: usize = 0;
        while i < n
            invariant
                i <= n,
                n == MAX_PROCESSES,
                old(self).wf(),
                self.wf(),
                self.slots() == old(self).slots(),
                self.spec_current() == old(self).spec_current(),
                self.spec_pid1_key() == old(self).spec_pid1_key(),
                forall|j: int|
                    0 <= j < i ==> !((#[trigger] old(self).slots()[j]) matches Some(p) && (p.state
                        matches ProcessState::Setup(k) && spec_keys_equal(k, *key))),
            decreases n - i,
        {
            let matched = match &self.processes[i] {
                Some(p) => match &p.state {
                    ProcessState::Setup(k) => keys_equal(k, key),
                    _ => false,
                },
                None => false,
            };
            if matched {
                let slot = self.processes.remove(i);
                let mut p = match slot {
                    Some(p) => p,
                    None => {
                        proof {
                            assert(false);
                        }
                        return Err(Error::ProcessNotFound);
                    },
                };
                let pid = p.pid;
                // The key is consumed: it can bind only one connection.
                p.state = ProcessState::Ready;
                self.processes.insert(i, Some(p));
                proof {
                    assert(final(self).slots() =~= old(self).slots().update(
                        i as int,
                        final(self).slots()[i as int],
                    ));
                    assert(old(self).slot_wf(i as int));
                    assert forall|i2: int| 0 <= i2 < MAX_PROCESSES implies #[trigger] self.slot_wf(
                        i2,
                    ) by {
                        if i2 != i {
                            assert(old(self).slot_wf(i2));
                        }
                    }
                }
                return Ok(pid);
            }
            i = i + 1;
        }
        Err(Error::ProcessNotFound)
    }

    /// Tear a process down: its slot is freed and every frame it owns —
    /// page-table frames included — goes back to the pool.
    pub fn destroy_process(&mut self, mm: &mut MemoryManager, pid: Pid) -> (r: Result<(), Error>)
        requires
            old(self).wf(),
            1 <= pid.v <= MAX_PROCESSES,
        ensures
            final(self).wf(),
            final(mm)@.len() == old(mm)@.len(),
            r is Ok,
            final(self).slots()[pid.v - 1] is None,
            forall|j: int|
                0 <= j < MAX_PROCESSES && j != pid.v - 1 ==> final(self).slots()[j] == old(
                    self,
                ).slots()[j],
            forall|i: int|
                0 <= i < old(mm)@.len() ==> final(mm)@[i] == (if old(mm)@[i] == Some(pid) {
                    None::<Pid>
                } else {
                    old(mm)@[i]
                }),
    {
        let idx = (pid.v - 1) as usize;
        self.processes[idx] = None;
        mm.release_all(pid);
        proof {
            assert forall|i2: int| 0 <= i2 < MAX_PROCESSES implies #[trigger] self.slot_wf(i2) by {
                if i2 != idx {
                    assert(old(self).slot_wf(i2));
                }
            }
        }
        Ok(())
    }

    /// Take the process in slot `pid` out of the table, leaving the slot
    /// empty, so two processes can be worked on at once.
    pub fn take_process(&mut self, pid: Pid) -> (r: Option<Process>)
        requires
            old(self).wf(),
            1 <= pid.v <= MAX_PROCESSES,
        ensures
            final(self).wf(),
            final(self).spec_current() == old(self).spec_current(),
            final(self).spec_pid1_key() == old(self).spec_pid1_key(),
            r == old(self).slots()[pid.v - 1],
            final(self).slots()[pid.v - 1] is None,
            forall|j: int|
                0 <= j < MAX_PROCESSES && j != pid.v - 1 ==> final(self).slots()[j] == old(
                    self,
                ).slots()[j],
            r matches Some(p) ==> p.wf() && p.pid == pid,
    {
        let idx = (pid.v - 1) as usize;
        let p = self.processes.remove(idx);
        self.processes.insert(idx, None);
        proof {
            assert(old(self).slot_wf(idx as int));
            assert(final(self).slots() =~= old(self).slots().update(idx as int, None));
            assert forall|i2: int| 0 <= i2 < MAX_PROCESSES implies #[trigger] self.slot_wf(i2) by {
                if i2 != idx {
                    assert(old(self).slot_wf(i2));
                }
            }
        }
        p
    }

    /// Put a process taken with `take_process` back into its slot.
    pub fn put_process(&mut self, p: Process)
        requires
            old(self).wf(),
            p.wf(),
            1 <= p.pid.v <= MAX_PROCESSES,
        ensures
            final(self).wf(),
            final(self).spec_current() == old(self).spec_current(),
            final(self).spec_pid1_key() == old(self).spec_pid1_key(),
            final(self).slots()[p.pid.v - 1] == Some(p),
            forall|j: int|
                0 <= j < MAX_PROCESSES && j != p.pid.v - 1 ==> final(self).slots()[j] == old(
                    self,
                ).slots()[j],
    {
        let idx = (p.pid.v - 1) as usize;
        let ghost gpid = p.pid;
        self.processes.remove(idx);
        self.processes.insert(idx, Some(p));
        proof {
            assert(final(self).slots() =~= old(self).slots().update(
                idx as int,
                final(self).slots()[idx as int],
            ));
            assert forall|i2: int| 0 <= i2 < MAX_PROCESSES implies #[trigger] self.slot_wf(i2) by {
                if i2 != idx {
                    assert(old(self).slot_wf(i2));
                }
            }
        }
    }

    /// Activate `pid`'s address space and record it running thread `tid`.
    pub fn switch_to(&mut self, mmu: &mut Mmu, pid: Pid, tid: usize) -> (r: Result<(), Error>)
        requires
            old(self).wf(),
            1 <= pid.v <= MAX_PROCESSES,
        ensures
            final(self).wf(),
            match r {
                Ok(()) => {
                    &&& old(self).slots()[pid.v - 1] is Some
                    &&& final(self).spec_current() == pid
                    &&& final(self).slots()[pid.v - 1] matches Some(p) && (p.state
                        matches ProcessState::Running(t) && t == tid)
                    &&& final(mmu).satp == crate::mem::mapping_satp(
                        pid.v,
                        old(self).slots()[pid.v - 1].unwrap().space.spec_root_phys(),
                    )
                },
                Err(e) => {
                    &&& e == Error::ProcessNotFound
                    &&& old(self).slots()[pid.v - 1] is None
                    &&& final(self).slots() == old(self).slots()
                    &&& *final(mmu) == *old(mmu)
                },
            },
    {
        let idx = (pid.v - 1) as usize;
        proof {
            assert(old(self).slot_wf(idx as int));
        }
        let slot = self.processes.remove(idx);
        match slot {
            Some(mut p) => {
                let mapping = p.space.mapping();
                match mapping.activate(mmu) {
                    Ok(()) => {},
                    Err(_) => {},
                }
                p.state = ProcessState::Running(tid);
                self.processes.insert(idx, Some(p));
                self.current = pid;
                proof {
                    assert(final(self).slots() =~= old(self).slots().update(
                        idx as int,
                        final(self).slots()[idx as int],
                    ));
                    assert forall|i2: int| 0 <= i2 < MAX_PROCESSES implies #[trigger] self.slot_wf(
                        i2,
                    ) by {
                        if i2 != idx {
                            assert(old(self).slot_wf(i2));
                        }
                    }
                }
                Ok(())
            },
            None => {
                self.processes.insert(idx, None);
                proof {
                    assert(final(self).slots() =~= old(self).slots());
                    assert forall|i2: int| 0 <= i2 < MAX_PROCESSES implies #[trigger] self.slot_wf(
                        i2,
                    ) by {
                        assert(old(self).slot_wf(i2));
                    }
                }
                Err(Error::ProcessNotFound)
            },
        }
    }
}

/// PIDs grow strictly while no slot is released: two successive
/// `create_process` calls — the facts below are their postconditions — hand
/// out strictly increasing PIDs, until the table is full; a released slot
/// (the lowest one) is what a later call reuses.
pub proof fn lemma_pids_strictly_increase(
    s0: SystemServices,
    s1: SystemServices,
    pid1: Pid,
    pid2: Pid,
)
    requires
        s0.wf(),
        s1.wf(),
        1 <= pid1.v <= MAX_PROCESSES,
        s0.slots()[pid1.v - 1] is None,
        forall|j: int| 0 <= j < pid1.v - 1 ==> s0.slots()[j] is Some,
        s1.slots()[pid1.v - 1] is Some,
        forall|j: int| 0 <= j < MAX_PROCESSES && j != pid1.v - 1 ==> s1.slots()[j] == s0.slots()[j],
        1 <= pid2.v <= MAX_PROCESSES,
        s1.slots()[pid2.v - 1] is None,
        forall|j: int| 0 <= j < pid2.v - 1 ==> s1.slots()[j] is Some,
    ensures
        pid2.v > pid1.v,
{
    if pid2.v <= pid1.v {
        if pid2.v == pid1.v {
            assert(s1.slots()[pid2.v - 1] is Some);
        } else {
            assert(s0.slots()[pid2.v - 1] is Some);
            assert(s1.slots()[pid2.v - 1] == s0.slots()[pid2.v - 1]);
        }
    }
}

/// Record the key PID 1 will be created with: the hosted startup reads it
/// from its harness rather than generating one.
pub fn set_pid1_key(ss: &mut SystemServices, new_key: [u8; 16])
    ensures
        final(ss).spec_pid1_key() == new_key,
        final(ss).slots() == old(ss).slots(),
        final(ss).spec_current() == old(ss).spec_current(),
{
    ss.pid1_key = new_key;
}

/// Read back the key PID 1 will be created with.
pub fn pid1_key(ss: &SystemServices) -> (r: [u8; 16])
    ensures
        r == ss.spec_pid1_key(),
{
    ss.pid1_key
}

/// Relies on `rand::Rng::gen` via `rand::thread_rng`: draws the 16 random
/// bytes of a fresh process key.  Nothing can be promised of their values.
#[verifier::external_body]
pub fn generate_pid_key() -> [u8; 16] {
    let mut process_key = [0u8; 16];
    let mut rng = rand::thread_rng();
    for b in process_key.iter_mut() {
        *b = rng.gen();
    }
    process_key
}

} // verus!
