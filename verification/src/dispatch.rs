//! The system-call dispatcher: one kernel state, one call at a time.  A
//! call comes in as `(origin pid, origin tid, SysCall)`; what comes out is
//! an ordered list of actions for the transport to perform — responses to
//! frame back, a connection to close, or the order to exit.
//!
//! The special cases the transport relies on:
//! - `TerminateProcess` produces no response; the connection is closed.
//! - `Shutdown` produces its `Okay` response *before* the exit order.
//! - A call that parks its caller produces no response now; the response
//!   comes later, addressed with the parked caller's own thread ID, when
//!   another process's matching call unparks it.

use vstd::prelude::*;

use crate::manager::MemoryManager;
use crate::manager::Pid;
use crate::mem::lend_range;
use crate::mem::map_page_inner;
use crate::mem::move_range;
use crate::mem::pagetable_entry;
use crate::mem::return_range;
use crate::mem::page_addr;
use crate::mem::Mmu;
use crate::ram::Ram;
use crate::flags::MMU_S;
use crate::services::Process;
use crate::services::SystemServices;
use crate::services::MAX_PROCESSES;
use crate::syscall::Message;
use crate::syscall::MemoryMessage;
use crate::syscall::SysCall;
use crate::syscall::SysResult;
use crate::Error;
use crate::PAGE_SIZE;
use crate::USER_AREA_END;

verus! {

/// A queued message: the sender's park token and the envelope, its buffer
/// address already rewritten into the receiver's message window.
pub struct Envelope {
    pub sender: usize,
    pub msg: Message,
}

/// A registered server: its id, the process that owns it, the messages
/// waiting for it, and the thread parked in `ReceiveMessage`, if any.
pub struct Server {
    pub sid: usize,
    pub owner: Pid,
    pub queue: Vec<Envelope>,
    pub waiting: Option<usize>,
}

/// Why a sender is parked: a blocking scalar awaiting `ReturnScalar2`, or a
/// lent buffer awaiting `ReturnMemory`.
pub enum ParkKind {
    Scalar,
    Memory { src_addr: usize, dest_addr: usize, npages: usize, mutable: bool },
}

/// A parked sender: the token its envelope carries, who it is, and what
/// will wake it.
pub struct Parked {
    pub token: usize,
    pub pid: Pid,
    pub tid: usize,
    pub kind: ParkKind,
}

/// What the transport must do after a call, in order.
#[derive(Clone, Copy, Debug, PartialEq, Eq, Structural)]
pub enum Action {
    /// Frame this result back to (pid, tid).
    Respond(Pid, usize, SysResult),
    /// Close this process's connection; no response is sent.
    CloseConnection(Pid),
    /// Stop the dispatch loop and shut the transport down.
    Exit,
}

/// A server record is sane: its owner is a real PID.
pub open spec fn server_wf(s: Server) -> bool {
    1 <= s.owner.v <= MAX_PROCESSES
}

/// A park record is sane; a memory park keeps everything `return_range`
/// needs about the recorded buffer.
pub open spec fn parked_wf(p: Parked) -> bool {
    &&& 1 <= p.pid.v <= MAX_PROCESSES
    &&& match p.kind {
        ParkKind::Scalar => true,
        ParkKind::Memory { src_addr, dest_addr, npages, mutable } => {
            &&& src_addr % PAGE_SIZE == 0
            &&& dest_addr % PAGE_SIZE == 0
            &&& 0 < npages < 0x10_0000
            &&& src_addr + npages * PAGE_SIZE < 0x1_0000_0000
            &&& dest_addr + npages * PAGE_SIZE < 0x1_0000_0000
        },
    }
}

/// The record at `i` is the one `token` names: the lowest-indexed parked
/// record holding the token.
pub open spec fn spec_first_parked(parked: Seq<Parked>, token: usize, i: int) -> bool {
    &&& 0 <= i < parked.len()
    &&& parked[i].token == token
    &&& forall|j: int| 0 <= j < i ==> parked[j].token != token
}

/// The server at `i` is the one `sid` names: the lowest-indexed server
/// registered under the id.
pub open spec fn spec_first_server(servers: Seq<Server>, sid: usize, i: int) -> bool {
    &&& 0 <= i < servers.len()
    &&& servers[i].sid == sid
    &&& forall|j: int| 0 <= j < i ==> servers[j].sid != sid
}

/// Between kernel states `k0` and `k1`, the buffer `m` of `sender` was lent
/// page by page into the message window of the server behind `cid`, and the
/// window advanced past it.
pub open spec fn spec_buffer_lent(
    k0: Kernel,
    k1: Kernel,
    sender: Pid,
    cid: usize,
    m: MemoryMessage,
    mutable: bool,
) -> bool {
    let owner = k0.servers@[cid - 1].owner;
    let dst = k0.ss.slots()[owner.v - 1].unwrap().window_next;
    &&& 1 <= cid <= k0.servers@.len()
    &&& k0.ss.slots()[sender.v - 1] is Some
    &&& k0.ss.slots()[owner.v - 1] is Some
    &&& k1.ss.slots()[sender.v - 1] is Some
    &&& k1.ss.slots()[owner.v - 1] is Some
    &&& forall|p: int|
        0 <= p < m.size / PAGE_SIZE ==> #[trigger] crate::mem::spec_page_lent(
            k0.ss.slots()[sender.v - 1].unwrap().space,
            k1.ss.slots()[sender.v - 1].unwrap().space,
            k0.ss.slots()[owner.v - 1].unwrap().space,
            k1.ss.slots()[owner.v - 1].unwrap().space,
            m.addr,
            dst,
            p,
            mutable,
            owner,
        )
    &&& k1.ss.slots()[owner.v - 1].unwrap().window_next == dst + m.size
}

/// Between kernel states `k0` and `k1`, the buffer `m` of `sender` was
/// moved page by page into the message window of the server behind `cid`.
pub open spec fn spec_buffer_moved(
    k0: Kernel,
    k1: Kernel,
    sender: Pid,
    cid: usize,
    m: MemoryMessage,
) -> bool {
    let owner = k0.servers@[cid - 1].owner;
    let dst = k0.ss.slots()[owner.v - 1].unwrap().window_next;
    &&& 1 <= cid <= k0.servers@.len()
    &&& k0.ss.slots()[sender.v - 1] is Some
    &&& k0.ss.slots()[owner.v - 1] is Some
    &&& k1.ss.slots()[sender.v - 1] is Some
    &&& k1.ss.slots()[owner.v - 1] is Some
    &&& forall|p: int|
        0 <= p < m.size / PAGE_SIZE ==> #[trigger] crate::mem::spec_page_moved(
            k0.ss.slots()[sender.v - 1].unwrap().space,
            k1.ss.slots()[sender.v - 1].unwrap().space,
            k0.ss.slots()[owner.v - 1].unwrap().space,
            k1.ss.slots()[owner.v - 1].unwrap().space,
            m.addr,
            dst,
            p,
            owner,
        )
    &&& k1.ss.slots()[owner.v - 1].unwrap().window_next == dst + m.size
}

/// Between kernel states `k0` and `k1`, the borrow recorded in `rec` was
/// returned: the borrower's pages at the recorded window address are
/// cleared and the lender's entries at the recorded buffer are restored.
pub open spec fn spec_buffer_returned(k0: Kernel, k1: Kernel, borrower: Pid, rec: Parked) -> bool {
    match rec.kind {
        ParkKind::Memory { src_addr, dest_addr, npages, mutable } => {
            &&& k0.ss.slots()[rec.pid.v - 1] is Some
            &&& k1.ss.slots()[rec.pid.v - 1] is Some
            &&& k0.ss.slots()[borrower.v - 1] is Some
            &&& k1.ss.slots()[borrower.v - 1] is Some
            &&& forall|p: int|
                0 <= p < npages ==> #[trigger] crate::mem::spec_page_returned(
                    k1.ss.slots()[borrower.v - 1].unwrap().space,
                    k0.ss.slots()[rec.pid.v - 1].unwrap().space,
                    k1.ss.slots()[rec.pid.v - 1].unwrap().space,
                    dest_addr,
                    src_addr,
                    p,
                )
        },
        ParkKind::Scalar => false,
    }
}

/// The whole kernel: process table, frame pool, physical memory model, MMU
/// register, servers, parked senders, and the token counter.
pub struct Kernel {
    pub ss: SystemServices,
    pub mm: MemoryManager,
    pub ram: Ram,
    pub mmu: Mmu,
    pub servers: Vec<Server>,
    pub parked: Vec<Parked>,
    pub next_token: usize,
}

impl Kernel {
    pub open spec fn wf(self) -> bool {
        &&& self.ss.wf()
        &&& self.mm.wf()
        &&& self.ram@.len() == self.mm@.len() * (PAGE_SIZE as int)
        &&& forall|i: int| 0 <= i < self.servers@.len() ==> #[trigger] server_wf(self.servers@[i])
        &&& forall|i: int| 0 <= i < self.parked@.len() ==> #[trigger] parked_wf(self.parked@[i])
    }

    /// A fresh kernel over a pool of `n_frames` frames.
    pub fn new(n_frames: usize) -> (r: Kernel)
        requires
            n_frames < crate::manager::MAX_FRAMES,
        ensures
            r.wf(),
            r.mm@.len() == n_frames,
            r.ram@.len() == n_frames * PAGE_SIZE,
    {
        proof {
            assert(n_frames * PAGE_SIZE as int <= 0xffff_f000) by (nonlinear_arith)
                requires
                    n_frames < 0x10_0000,
                    PAGE_SIZE == 4096,
            ;
        }
        Kernel {
            ss: SystemServices::new(),
            mm: MemoryManager::new(n_frames),
            ram: Ram::new(n_frames * PAGE_SIZE),
            mmu: Mmu { satp: 0 },
            servers: Vec::new(),
            parked: Vec::new(),
            next_token: 1,
        }
    }
}

/// Find the lowest index of a server registered under `sid`.
fn find_server(servers: &Vec<Server>, sid: usize) -> (r: Option<usize>)
    ensures
        match r {
            Some(i) => i < servers@.len() && servers@[i as int].sid == sid && forall|j: int|
                0 <= j < i ==> servers@[j].sid != sid,
            None => forall|i: int| 0 <= i < servers@.len() ==> servers@[i].sid != sid,
        },
{
    let n = servers.len();
    let mut i: usize = 0;
    while i < n
        invariant
            i <= n,
            n == servers@.len(),
            forall|j: int| 0 <= j < i ==> servers@[j].sid != sid,
        decreases n - i,
    {
        if servers[i].sid == sid {
            return Some(i);
        }
        i = i + 1;
    }
    None
}

/// Find the lowest index of a parked sender holding `token`.
fn find_parked(parked: &Vec<Parked>, token: usize) -> (r: Option<usize>)
    ensures
        match r {
            Some(i) => i < parked@.len() && parked@[i as int].token == token && forall|j: int|
                0 <= j < i ==> parked@[j].token != token,
            None => forall|i: int| 0 <= i < parked@.len() ==> parked@[i].token != token,
        },
{
    let n = parked.len();
    let mut i: usize = 0;
    while i < n
        invariant
            i <= n,
            n == parked@.len(),
            forall|j: int| 0 <= j < i ==> parked@[j].token != token,
        decreases n - i,
    {
        if parked[i].token == token {
            return Some(i);
        }
        i = i + 1;
    }
    None
}

/// Process one system call for `(pid, tid)` and say, in order, what the
/// transport must do.  See the module comment for the special cases the
/// contract pins down.
pub fn dispatch_step(k: &mut Kernel, pid: Pid, tid: usize, call: SysCall) -> (r: Vec<Action>)
    requires
        old(k).wf(),
        1 <= pid.v <= MAX_PROCESSES,
    ensures
        final(k).wf(),
        call is Shutdown ==> r@ =~= seq![
            Action::Respond(pid, tid, SysResult::Okay),
            Action::Exit,
        ],
        call is TerminateProcess ==> r@ =~= seq![Action::CloseConnection(pid)],
        !(call is Shutdown) ==> forall|i: int| 0 <= i < r@.len() ==> r@[i] != Action::Exit,
        !(call is TerminateProcess) ==> forall|i: int|
            0 <= i < r@.len() ==> !((#[trigger] r@[i]) matches Action::CloseConnection(_)),
        call is Yield ==> r@ =~= seq![Action::Respond(pid, tid, SysResult::Okay)],
        // Every response addressed to the caller answers exactly this
        // request: it carries this request's thread ID.
        forall|i: int|
            0 <= i < r@.len() ==> ((#[trigger] r@[i]) matches Action::Respond(p, t, _) ==> (p
                == pid ==> t == tid)),
        call matches SysCall::CreateServer(sid) ==> r@ =~= seq![
            Action::Respond(pid, tid, SysResult::Okay),
        ] && final(k).servers@.len() == old(k).servers@.len() + 1
            && final(k).servers@.last().owner == pid && final(k).servers@.last().sid == sid,
        // Connecting answers at once: a connection id exactly when a server
        // is registered under the id, `ServerNotFound` otherwise.
        call matches SysCall::Connect(sid) ==> r@.len() == 1 && (r@[0] matches Action::Respond(
            p,
            t,
            res,
        ) && (p == pid && t == tid && ((res is Scalar1) <==> exists|i: int|
            0 <= i < old(k).servers@.len() && (#[trigger] old(k).servers@[i]).sid == sid) && (!(res
            is Scalar1) ==> res == SysResult::Error(Error::ServerNotFound)))),
        // Receiving answers the oldest queued envelope of the caller's own
        // server, or parks the calling thread on an empty queue; anything
        // else is `ServerNotFound`.
        call matches SysCall::ReceiveMessage(sid) ==> {
            &&& r@.len() <= 1
            &&& (r@.len() == 1 ==> (r@[0] matches Action::Respond(p, t, res) && (p == pid && t
                == tid && (res is Message || res == SysResult::Error(Error::ServerNotFound)))))
            &&& forall|i: int|
                #[trigger] spec_first_server(old(k).servers@, sid, i) && old(k).servers@[i].owner.v
                    == pid.v ==> {
                    let q = old(k).servers@[i].queue@;
                    &&& (q.len() > 0 ==> r@ =~= seq![
                        Action::Respond(pid, tid, SysResult::Message(q[0].sender, q[0].msg)),
                    ] && final(k).servers@[i].queue@ == q.remove(0))
                    &&& (q.len() == 0 ==> r@.len() == 0
                        && final(k).servers@[i].waiting == Some(tid)
                        && final(k).servers@[i].queue@ == q)
                }
        },
        // A send either fails (the caller is told the error at once), or a
        // move completes with `Okay`, or — scalar and borrow envelopes —
        // the caller is parked under a fresh token, to be answered when
        // the receiver returns; any other response wakes the receiving
        // server's parked thread with the delivered envelope.  A borrow or
        // move that went through has the buffer's pages lent or moved into
        // the receiver's message window.
        call matches SysCall::SendMessage(cid, msg) ==> {
            &&& r@.len() <= 2
            &&& (msg is Move ==> r@.len() >= 1 && (r@.last() matches Action::Respond(p, t, res)
                && (p == pid && t == tid && (res == SysResult::Okay || res is Error))))
            &&& (!(msg is Move) ==> ((final(k).parked@.len() == old(k).parked@.len() + 1
                && final(k).parked@.last().pid == pid && final(k).parked@.last().tid == tid
                && (forall|i: int|
                0 <= i < r@.len() ==> !((#[trigger] r@[i]) matches Action::Respond(p, _, _) && p
                    == pid))) || (r@.len() == 1 && (r@[0] matches Action::Respond(p, t, res) && (p
                == pid && t == tid && res is Error)) && final(k).parked@ == old(k).parked@)))
            &&& (forall|i: int|
                0 <= i < r@.len() ==> ((#[trigger] r@[i]) matches Action::Respond(p, _, res) ==> (p
                    != pid ==> 1 <= cid <= old(k).servers@.len() && p == old(k).servers@[cid
                    - 1].owner && res is Message)))
            &&& (msg matches Message::Borrow(m) ==> (final(k).parked@.len() == old(
                k,
            ).parked@.len() + 1 ==> spec_buffer_lent(*old(k), *final(k), pid, cid, m, false)))
            &&& (msg matches Message::MutableBorrow(m) ==> (final(k).parked@.len() == old(
                k,
            ).parked@.len() + 1 ==> spec_buffer_lent(*old(k), *final(k), pid, cid, m, true)))
            &&& (msg matches Message::Move(m) ==> ((r@.len() >= 1 && r@.last() == Action::Respond(
                pid,
                tid,
                SysResult::Okay,
            )) ==> spec_buffer_moved(*old(k), *final(k), pid, cid, m)))
        },
        // Answering a blocking scalar wakes exactly the parked caller the
        // token names, with the two words; anything else is refused.
        call matches SysCall::ReturnScalar2(token, v1, v2) ==> {
            &&& 1 <= r@.len() <= 2
            &&& (r@.last() matches Action::Respond(p, t, res) && (p == pid && t == tid && ((res
                == SysResult::Okay && r@.len() == 2) || (res == SysResult::Error(
                Error::ProcessNotFound,
            ) && r@.len() == 1 && final(k).parked@ == old(k).parked@))))
            &&& forall|i: int|
                #[trigger] spec_first_parked(old(k).parked@, token, i) && old(k).parked@[i].kind
                    is Scalar && old(k).parked@[i].pid.v != pid.v ==> r@.len() == 2 && r@[0]
                    == Action::Respond(
                    old(k).parked@[i].pid,
                    old(k).parked@[i].tid,
                    SysResult::Scalar2(v1, v2),
                ) && final(k).parked@ == old(k).parked@.remove(i)
        },
        // Returning a borrow restores the lender's buffer, consumes the
        // park record and wakes the lender with `Okay`, then answers the
        // caller; on failure only the caller is told.
        call matches SysCall::ReturnMemory(token, raddr, rsize) ==> {
            &&& 1 <= r@.len() <= 2
            &&& (r@.last() matches Action::Respond(p, t, res) && (p == pid && t == tid && ((res
                == SysResult::Okay && r@.len() == 2) || (res is Error && r@.len() == 1
                && final(k).parked@ == old(k).parked@))))
            &&& (r@.len() == 2 ==> exists|i: int|
                #[trigger] spec_first_parked(old(k).parked@, token, i) && r@[0] == Action::Respond(
                    old(k).parked@[i].pid,
                    old(k).parked@[i].tid,
                    SysResult::Okay,
                ) && final(k).parked@ == old(k).parked@.remove(i) && spec_buffer_returned(
                    *old(k),
                    *final(k),
                    pid,
                    old(k).parked@[i],
                ))
        },
{
    k.ss.set_current_pid(pid);
    let mut out: Vec<Action> = Vec::new();
    match call {
        SysCall::Yield => {
            out.push(Action::Respond(pid, tid, SysResult::Okay));
        },
        SysCall::Shutdown => {
            // The response goes out before the effect: once the transport
            // exits, nothing more can be sent.
            out.push(Action::Respond(pid, tid, SysResult::Okay));
            out.push(Action::Exit);
        },
        SysCall::TerminateProcess => {
            // No response is ever produced for a terminating process.
            match k.ss.destroy_process(&mut k.mm, pid) {
                Ok(()) => {},
                Err(_) => {},
            }
            remove_servers_of(&mut k.servers, pid);
            remove_parked_of(&mut k.parked, pid);
            out.push(Action::CloseConnection(pid));
        },
        SysCall::CreateServer(sid) => {
            let server = Server { sid, owner: pid, queue: Vec::new(), waiting: None };
            k.servers.push(server);
            proof {
                assert forall|i: int|
                    0 <= i < k.servers@.len() implies #[trigger] server_wf(k.servers@[i]) by {
                    if i < k.servers@.len() - 1 {
                        assert(server_wf(old(k).servers@[i]));
                    }
                }
            }
            out.push(Action::Respond(pid, tid, SysResult::Okay));
        },
        SysCall::Connect(sid) => {
            let server_count: usize = k.servers.len();
            let res = match find_server(&k.servers, sid) {
                Some(idx) => {
                    proof {
                        assert(idx < server_count);
                    }
                    SysResult::Scalar1(idx + 1)
                },
                None => SysResult::Error(Error::ServerNotFound),
            };
            out.push(Action::Respond(pid, tid, res));
        },
        SysCall::ReceiveMessage(sid) => {
            let res = receive_message(k, pid, tid, sid);
            match res {
                SysResult::BlockedProcess => {},
                other => {
                    out.push(Action::Respond(pid, tid, other));
                },
            }
        },
        SysCall::SendMessage(cid, msg) => {
            let (res, wake) = send_message(k, pid, tid, cid, msg);
            match wake {
                Some((wpid, wtid, wres)) => {
                    out.push(Action::Respond(wpid, wtid, wres));
                },
                None => {},
            }
            match res {
                SysResult::BlockedProcess => {},
                other => {
                    out.push(Action::Respond(pid, tid, other));
                },
            }
        },
        SysCall::ReturnMemory(token, addr, size) => {
            let (res, wake) = return_memory(k, pid, token, addr, size);
            match wake {
                Some((wpid, wtid, wres)) => {
                    out.push(Action::Respond(wpid, wtid, wres));
                },
                None => {},
            }
            out.push(Action::Respond(pid, tid, res));
        },
        SysCall::ReturnScalar2(token, v1, v2) => {
            let mut res = SysResult::Error(Error::ProcessNotFound);
            match find_parked(&k.parked, token) {
                Some(idx) => {
                    let is_scalar = match &k.parked[idx].kind {
                        ParkKind::Scalar => true,
                        _ => false,
                    };
                    // A process cannot answer its own parked call: it is
                    // the one waiting for the answer.
                    if is_scalar && k.parked[idx].pid.get() != pid.get() {
                        let rec = k.parked.remove(idx);
                        proof {
                            assert(parked_wf(old(k).parked@[idx as int]));
                            assert forall|i: int|
                                0 <= i < k.parked@.len() implies #[trigger] parked_wf(
                                k.parked@[i],
                            ) by {
                                if i < idx {
                                    assert(parked_wf(old(k).parked@[i]));
                                } else {
                                    assert(parked_wf(old(k).parked@[i + 1]));
                                }
                            }
                        }
                        out.push(
                            Action::Respond(rec.pid, rec.tid, SysResult::Scalar2(v1, v2)),
                        );
                        res = SysResult::Okay;
                    }
                },
                None => {},
            }
            out.push(Action::Respond(pid, tid, res));
        },
    }
    out
}

/// Give a payload read off the wire a home in the sending process: fresh
/// frames are allocated to `pid`, mapped read-write into its message
/// window, and filled with the bytes; the returned address is what the
/// envelope's buffer address is rewritten to before dispatch.  Fails with
/// `BadAlignment` exactly when the payload is empty or not a whole number
/// of pages; other failures (`OutOfMemory`, `ProcessNotFound`) leave no
/// promise about partially-mapped pages.
pub fn materialize_payload(k: &mut Kernel, pid: Pid, data: &Vec<u8>) -> (r: Result<usize, Error>)
    requires
        old(k).wf(),
        1 <= pid.v <= MAX_PROCESSES,
    ensures
        final(k).wf(),
        final(k).servers@ == old(k).servers@,
        final(k).parked@ == old(k).parked@,
        match r {
            Ok(addr) => {
                &&& data@.len() > 0 && data@.len() as int % (PAGE_SIZE as int) == 0
                &&& addr % PAGE_SIZE == 0
                &&& old(k).ss.slots()[pid.v - 1] is Some
                &&& final(k).ss.slots()[pid.v - 1] is Some
                &&& addr == old(k).ss.slots()[pid.v - 1].unwrap().window_next
                &&& final(k).ss.slots()[pid.v - 1].unwrap().window_next == addr + data@.len()
                // Every page of the new buffer is mapped, writable, at a
                // previously free slot of the sender's space.
                &&& forall|p: int|
                    0 <= p < data@.len() as int / (PAGE_SIZE as int) ==> {
                        let e = final(k).ss.slots()[pid.v - 1].unwrap().space.entry_at(
                            #[trigger] page_addr(addr, p),
                        );
                        &&& old(k).ss.slots()[pid.v - 1].unwrap().space.entry_at(
                            page_addr(addr, p),
                        ) & crate::flags::MMU_VALID == 0
                        &&& e & crate::flags::MMU_VALID != 0
                        &&& e & crate::flags::MMU_W != 0
                    }
                // The payload's bytes stand at the new buffer, byte for
                // byte, in the sender's view of memory.
                &&& forall|i: int|
                    0 <= i < data@.len() ==> crate::ram::spec_can_read(
                        final(k).ss.slots()[pid.v - 1].unwrap().space,
                        ((addr + i) as usize),
                        final(k).ram,
                    ) && final(k).ram@[crate::ram::spec_phys_index(
                        final(k).ss.slots()[pid.v - 1].unwrap().space,
                        #[trigger] ((addr + i) as usize),
                    )] == data@[i]
            },
            Err(e) => {
                &&& (e == Error::BadAlignment || e == Error::OutOfMemory || e
                    == Error::ProcessNotFound || e == Error::AlreadyMapped)
                &&& ((e == Error::BadAlignment) <==> (data@.len() == 0 || data@.len() as int % (
                PAGE_SIZE as int) != 0 || data@.len() >= 0xffff_f000))
                &&& (e == Error::ProcessNotFound ==> old(k).ss.slots()[pid.v - 1] is None)
                &&& (e == Error::OutOfMemory ==> (old(k).ss.slots()[pid.v - 1] matches Some(proc)
                    && data@.len() > USER_AREA_END - proc.window_next) || (forall|j: int|
                    0 <= j < final(k).mm@.len() ==> (#[trigger] final(k).mm@[j]) is Some))
                &&& (e == Error::AlreadyMapped ==> (old(k).ss.slots()[pid.v - 1] matches Some(
                    proc,
                ) && exists|p: int|
                    0 <= p < data@.len() as int / (PAGE_SIZE as int) && proc.space.entry_at(
                        #[trigger] page_addr(proc.window_next, p),
                    ) & crate::flags::MMU_VALID != 0))
            },
        },
{
    let len = data.len();
    if len == 0 || len % PAGE_SIZE != 0 || len >= 0xffff_f000 {
        return Err(Error::BadAlignment);
    }
    let npages = len / PAGE_SIZE;
    let mut sender = match k.ss.take_process(pid) {
        Some(p) => p,
        None => {
            return Err(Error::ProcessNotFound);
        },
    };
    let dst = sender.window_next;
    if len > USER_AREA_END - dst {
        k.ss.put_process(sender);
        return Err(Error::OutOfMemory);
    }
    proof {
        assert(npages * PAGE_SIZE as int == len && npages < 0x10_0000) by (nonlinear_arith)
            requires
                npages == len as int / PAGE_SIZE as int,
                len % PAGE_SIZE == 0,
                0 < len < 0xffff_f000,
                PAGE_SIZE == 4096,
        ;
    }
    let ghost space0 = sender.space;
    let ghost mut physs: Seq<usize> = Seq::empty();
    let mut p: usize = 0;
    while p < npages
        invariant
            p <= npages,
            npages < 0x10_0000,
            npages * PAGE_SIZE as int == len,
            npages == data@.len() as int / (PAGE_SIZE as int),
            len == data@.len(),
            dst % PAGE_SIZE == 0,
            dst + npages * PAGE_SIZE < 0x1_0000_0000,
            old(k).wf(),
            sender.wf(),
            sender.pid == pid,
            sender.window_next == dst,
            space0 == old(k).ss.slots()[pid.v - 1].unwrap().space,
            old(k).ss.slots()[pid.v - 1] == Some(
                Process {
                    pid,
                    state: sender.state,
                    space: space0,
                    window_next: dst,
                },
            ),
            1 <= pid.v <= MAX_PROCESSES,
            k.ss.wf(),
            k.ss.slots()[pid.v - 1] is None,
            forall|j: int|
                0 <= j < MAX_PROCESSES && j != pid.v - 1 ==> k.ss.slots()[j] == old(
                    k,
                ).ss.slots()[j],
            k.mm.wf(),
            k.mm@.len() == old(k).mm@.len(),
            k.ram@ == old(k).ram@,
            k.servers@ == old(k).servers@,
            k.parked@ == old(k).parked@,
            k.ram@.len() == k.mm@.len() * (PAGE_SIZE as int),
            physs.len() == p,
            forall|q: int|
                0 <= q < p ==> (#[trigger] physs[q]) % PAGE_SIZE == 0 && physs[q] <= 0xffff_f000
                    && physs[q] as int / (PAGE_SIZE as int) < k.mm@.len() && k.mm@[physs[q] as int
                    / (PAGE_SIZE as int)] is Some,
            forall|q: int|
                0 <= q < p ==> sender.space.entry_at(#[trigger] page_addr(dst, q))
                    == crate::mem::spec_mapped_entry(
                    physs[q],
                    crate::flags::MEM_R | crate::flags::MEM_W,
                    true,
                ) && space0.entry_at(page_addr(dst, q)) & crate::flags::MMU_VALID == 0,
            forall|q1: int, q2: int| 0 <= q1 < q2 < p ==> physs[q1] != physs[q2],
            forall|q: int|
                p <= q < npages ==> sender.space.entry_at(#[trigger] page_addr(dst, q))
                    == space0.entry_at(page_addr(dst, q)),
        decreases npages - p,
    {
        let sa = dst + p * PAGE_SIZE;
        let ghost space_pre = sender.space;
        proof {
            assert(sa == page_addr(dst, p as int));
        }
        let phys = match k.mm.alloc_page(pid) {
            Ok(ph) => ph,
            Err(e) => {
                k.ss.put_process(sender);
                return Err(e);
            },
        };
        proof {
            assert(phys <= 0xffff_f000) by (nonlinear_arith)
                requires
                    phys as int / 4096 < 0x10_0000,
                    phys % 4096 == 0,
            ;
        }
        match map_page_inner(
            &mut k.mm,
            &mut sender.space,
            pid,
            phys,
            sa,
            crate::flags::MEM_R | crate::flags::MEM_W,
            true,
        ) {
            Ok(()) => {},
            Err(e) => {
                proof {
                    if e == Error::AlreadyMapped {
                        assert(space_pre.entry_at(sa) == space0.entry_at(sa));
                        assert(old(k).ss.slots()[pid.v - 1].unwrap().window_next == dst);
                        assert(old(k).ss.slots()[pid.v - 1].unwrap().space == space0);
                        assert(space0.entry_at(page_addr(dst, p as int)) & crate::flags::MMU_VALID
                            != 0);
                        assert(exists|p2: int|
                            0 <= p2 < data@.len() as int / (PAGE_SIZE as int)
                                && space0.entry_at(#[trigger] page_addr(dst, p2))
                                & crate::flags::MMU_VALID != 0);
                    }
                }
                k.ss.put_process(sender);
                return Err(e);
            },
        }
        proof {
            crate::mem::lemma_vpn_bounds(sa);
            physs = physs.push(phys);
            assert forall|q: int|
                0 <= q < p + 1 implies sender.space.entry_at(#[trigger] page_addr(dst, q))
                == crate::mem::spec_mapped_entry(
                physs[q],
                crate::flags::MEM_R | crate::flags::MEM_W,
                true,
            ) && space0.entry_at(page_addr(dst, q)) & crate::flags::MMU_VALID == 0 by {
                if q < p {
                    assert(space_pre.entry_at(page_addr(dst, q))
                        == crate::mem::spec_mapped_entry(
                        physs[q],
                        crate::flags::MEM_R | crate::flags::MEM_W,
                        true,
                    ));
                    crate::mem::lemma_distinct_page_slots(dst, q as usize, p);
                    crate::mem::lemma_vpn_bounds(page_addr(dst, q));
                }
            }
            assert forall|q: int|
                p + 1 <= q < npages implies sender.space.entry_at(#[trigger] page_addr(dst, q))
                == space0.entry_at(page_addr(dst, q)) by {
                assert(space_pre.entry_at(page_addr(dst, q)) == space0.entry_at(
                    page_addr(dst, q),
                ));
                crate::mem::lemma_distinct_page_slots(dst, p, q as usize);
                crate::mem::lemma_vpn_bounds(page_addr(dst, q));
            }
        }
        p = p + 1;
    }
    let ghost space1 = sender.space;
    let mut i: usize = 0;
    while i < len
        invariant
            i <= len,
            len == data@.len(),
            0 < len,
            npages * PAGE_SIZE as int == len,
            npages < 0x10_0000,
            dst % PAGE_SIZE == 0,
            dst + npages * PAGE_SIZE < 0x1_0000_0000,
            old(k).wf(),
            sender.wf(),
            sender.pid == pid,
            sender.window_next == dst,
            sender.space == space1,
            space0 == old(k).ss.slots()[pid.v - 1].unwrap().space,
            old(k).ss.slots()[pid.v - 1] == Some(
                Process {
                    pid,
                    state: sender.state,
                    space: space0,
                    window_next: dst,
                },
            ),
            1 <= pid.v <= MAX_PROCESSES,
            k.ss.wf(),
            k.ss.slots()[pid.v - 1] is None,
            forall|j: int|
                0 <= j < MAX_PROCESSES && j != pid.v - 1 ==> k.ss.slots()[j] == old(
                    k,
                ).ss.slots()[j],
            k.mm.wf(),
            k.mm@.len() == old(k).mm@.len(),
            k.ram@.len() == old(k).ram@.len(),
            k.servers@ == old(k).servers@,
            k.parked@ == old(k).parked@,
            k.ram@.len() == k.mm@.len() * (PAGE_SIZE as int),
            physs.len() == npages,
            forall|q: int|
                0 <= q < npages ==> (#[trigger] physs[q]) % PAGE_SIZE == 0 && physs[q]
                    <= 0xffff_f000 && physs[q] as int / (PAGE_SIZE as int) < k.mm@.len(),
            forall|q: int|
                0 <= q < npages ==> space1.entry_at(#[trigger] page_addr(dst, q))
                    == crate::mem::spec_mapped_entry(
                    physs[q],
                    crate::flags::MEM_R | crate::flags::MEM_W,
                    true,
                ) && space0.entry_at(page_addr(dst, q)) & crate::flags::MMU_VALID == 0,
            forall|q1: int, q2: int| 0 <= q1 < q2 < npages ==> physs[q1] != physs[q2],
            forall|j: int|
                0 <= j < i ==> crate::ram::spec_can_read(
                    space1,
                    ((dst + j) as usize),
                    k.ram,
                ) && k.ram@[crate::ram::spec_phys_index(space1, #[trigger] ((dst + j) as usize))]
                    == data@[j],
        decreases len - i,
    {
        let ghost ram_pre = k.ram;
        proof {
            lemma_payload_byte_slot(dst, i, npages, physs, space1);
        }
        match k.ram.write_byte(&sender.space, dst + i, data[i]) {
            Ok(()) => {},
            Err(_) => {
                proof {
                    assert(false);
                }
                k.ss.put_process(sender);
                return Err(Error::OutOfMemory);
            },
        }
        proof {
            assert forall|j: int|
                0 <= j < i + 1 implies crate::ram::spec_can_read(
                space1,
                ((dst + j) as usize),
                k.ram,
            ) && k.ram@[crate::ram::spec_phys_index(space1, #[trigger] ((dst + j) as usize))]
                == data@[j] by {
                if j < i {
                    lemma_payload_byte_slot(dst, j as usize, npages, physs, space1);
                    lemma_payload_bytes_distinct(dst, j as usize, i, npages, physs, space1);
                }
            }
        }
        i = i + 1;
    }
    sender.window_next = dst + len;
    proof {
        assert((1usize | 2usize) & 2usize != 0) by (bit_vector);
        assert forall|p2: int|
            0 <= p2 < data@.len() as int / (PAGE_SIZE as int) implies space1.entry_at(
            #[trigger] page_addr(dst, p2),
        ) & crate::flags::MMU_VALID != 0 && space1.entry_at(page_addr(dst, p2))
            & crate::flags::MMU_W != 0 by {
            crate::mem::lemma_mapped_entry_translates(
                physs[p2],
                crate::flags::MEM_R | crate::flags::MEM_W,
                true,
            );
        }
    }
    k.ss.put_process(sender);
    Ok(dst)
}

/// The physical byte behind payload offset `j` of a window at `dst` whose
/// pages map the frames `physs`: it lies in frame `physs[j / PAGE_SIZE]`,
/// at offset `j % PAGE_SIZE`, and is backed by physical memory.
proof fn lemma_payload_byte_slot(
    dst: usize,
    j: usize,
    npages: usize,
    physs: Seq<usize>,
    space: crate::mem::AddressSpace,
)
    requires
        space.wf(),
        dst % PAGE_SIZE == 0,
        npages < 0x10_0000,
        dst + npages * PAGE_SIZE < 0x1_0000_0000,
        j < npages * PAGE_SIZE,
        physs.len() == npages,
        forall|q: int|
            0 <= q < npages ==> (#[trigger] physs[q]) % PAGE_SIZE == 0 && physs[q] <= 0xffff_f000,
        forall|q: int|
            0 <= q < npages ==> space.entry_at(#[trigger] page_addr(dst, q))
                == crate::mem::spec_mapped_entry(
                physs[q],
                crate::flags::MEM_R | crate::flags::MEM_W,
                true,
            ),
    ensures
        space.translates((dst + j) as usize),
        space.entry_at((dst + j) as usize) & crate::flags::MMU_W != 0,
        crate::ram::spec_phys_index(space, (dst + j) as usize) == physs[j as int / (
        PAGE_SIZE as int)] + (j as int % (PAGE_SIZE as int)),
{
    let q = j as int / (PAGE_SIZE as int);
    assert(0 <= q < npages && q * (PAGE_SIZE as int) <= j) by (nonlinear_arith)
        requires
            j < npages * PAGE_SIZE,
            q == j as int / (PAGE_SIZE as int),
            PAGE_SIZE == 4096,
            npages < 0x10_0000,
    ;
    let qq = q as usize;
    assert((dst % 4096 == 0 && qq * 4096 <= j && j < qq * 4096 + 4096 && dst + j < 0x1_0000_0000)
        ==> ((dst + j) as usize >> 22) & 0x3ff == (((dst + qq * 4096) as usize) >> 22) & 0x3ff && ((
    dst + j) as usize >> 12) & 0x3ff == (((dst + qq * 4096) as usize) >> 12) & 0x3ff && ((dst
        + j) as usize) & 0xfff == (j - qq * 4096) as usize) by (bit_vector);
    assert(j < qq * 4096 + 4096 && qq * 4096 <= j && j as int % (PAGE_SIZE as int) == j - q * (
    PAGE_SIZE as int)) by (nonlinear_arith)
        requires
            q == j as int / (PAGE_SIZE as int),
            qq == q,
            PAGE_SIZE == 4096,
    ;
    assert(page_addr(dst, q) == (dst + qq * 4096) as usize);
    crate::mem::lemma_mapped_entry_translates(
        physs[q],
        crate::flags::MEM_R | crate::flags::MEM_W,
        true,
    );
    crate::mem::lemma_vpn_bounds((dst + j) as usize);
    crate::mem::lemma_vpn_bounds(page_addr(dst, q));
    assert((1usize | 2usize) & 2usize != 0) by (bit_vector);
    crate::mem::lemma_valid_entry_leaf_mapped(space, (dst + j) as usize);
}

/// Two distinct payload offsets land on distinct physical bytes: distinct
/// pages map distinct frames, and within one page the offsets differ.
proof fn lemma_payload_bytes_distinct(
    dst: usize,
    j1: usize,
    j2: usize,
    npages: usize,
    physs: Seq<usize>,
    space: crate::mem::AddressSpace,
)
    requires
        space.wf(),
        dst % PAGE_SIZE == 0,
        npages < 0x10_0000,
        dst + npages * PAGE_SIZE < 0x1_0000_0000,
        j1 < j2 < npages * PAGE_SIZE,
        physs.len() == npages,
        forall|q: int|
            0 <= q < npages ==> (#[trigger] physs[q]) % PAGE_SIZE == 0 && physs[q] <= 0xffff_f000,
        forall|q: int|
            0 <= q < npages ==> space.entry_at(#[trigger] page_addr(dst, q))
                == crate::mem::spec_mapped_entry(
                physs[q],
                crate::flags::MEM_R | crate::flags::MEM_W,
                true,
            ),
        forall|q1: int, q2: int| 0 <= q1 < q2 < npages ==> physs[q1] != physs[q2],
    ensures
        crate::ram::spec_phys_index(space, (dst + j1) as usize) != crate::ram::spec_phys_index(
            space,
            (dst + j2) as usize,
        ),
{
    lemma_payload_byte_slot(dst, j1, npages, physs, space);
    lemma_payload_byte_slot(dst, j2, npages, physs, space);
    let q1 = j1 as int / (PAGE_SIZE as int);
    let q2 = j2 as int / (PAGE_SIZE as int);
    if q1 == q2 {
        assert(j1 as int % (PAGE_SIZE as int) != j2 as int % (PAGE_SIZE as int))
            by (nonlinear_arith)
            requires
                j1 < j2,
                j1 as int / (PAGE_SIZE as int) == j2 as int / (PAGE_SIZE as int),
                PAGE_SIZE == 4096,
        ;
    } else {
        assert(0 <= q1 < q2 < npages) by (nonlinear_arith)
            requires
                j1 < j2,
                j2 < npages * PAGE_SIZE,
                q1 != q2,
                q1 == j1 as int / (PAGE_SIZE as int),
                q2 == j2 as int / (PAGE_SIZE as int),
                PAGE_SIZE == 4096,
        ;
        assert(physs[q1] != physs[q2]);
        assert(physs[q1] + (j1 as int % (PAGE_SIZE as int)) != physs[q2] + (j2 as int % (
        PAGE_SIZE as int))) by (nonlinear_arith)
            requires
                physs[q1] != physs[q2],
                physs[q1] % PAGE_SIZE == 0,
                physs[q2] % PAGE_SIZE == 0,
                0 <= j1 as int % (PAGE_SIZE as int) < PAGE_SIZE,
                0 <= j2 as int % (PAGE_SIZE as int) < PAGE_SIZE,
                PAGE_SIZE == 4096,
        ;
    }
}

/// Rewrite the buffer address of a memory envelope to `addr`: where the
/// transport has materialized the payload.  A scalar envelope is returned
/// unchanged.
pub fn rewrite_message_addr(call: SysCall, addr: usize) -> (r: SysCall)
    ensures
        match call {
            SysCall::SendMessage(cid, msg) => match msg {
                Message::MutableBorrow(m) => r == SysCall::SendMessage(
                    cid,
                    Message::MutableBorrow(MemoryMessage { addr, ..m }),
                ),
                Message::Borrow(m) => r == SysCall::SendMessage(
                    cid,
                    Message::Borrow(MemoryMessage { addr, ..m }),
                ),
                Message::Move(m) => r == SysCall::SendMessage(
                    cid,
                    Message::Move(MemoryMessage { addr, ..m }),
                ),
                Message::Scalar(_) => r == call,
            },
            _ => r == call,
        },
{
    match call {
        SysCall::SendMessage(cid, Message::MutableBorrow(m)) => SysCall::SendMessage(
            cid,
            Message::MutableBorrow(MemoryMessage { addr, ..m }),
        ),
        SysCall::SendMessage(cid, Message::Borrow(m)) => SysCall::SendMessage(
            cid,
            Message::Borrow(MemoryMessage { addr, ..m }),
        ),
        SysCall::SendMessage(cid, Message::Move(m)) => SysCall::SendMessage(
            cid,
            Message::Move(MemoryMessage { addr, ..m }),
        ),
        other => other,
    }
}

/// Drop every server owned by `pid`.
fn remove_servers_of(servers: &mut Vec<Server>, pid: Pid)
    requires
        forall|i: int| 0 <= i < old(servers)@.len() ==> #[trigger] server_wf(old(servers)@[i]),
    ensures
        forall|i: int| 0 <= i < final(servers)@.len() ==> #[trigger] server_wf(final(servers)@[i]),
        forall|i: int|
            0 <= i < final(servers)@.len() ==> (#[trigger] final(servers)@[i]).owner.v != pid.v,
{
    let mut kept: Vec<Server> = Vec::new();
    while servers.len() > 0
        invariant
            forall|j: int|
                0 <= j < servers@.len() ==> servers@[j] == old(servers)@[j],
            servers@.len() <= old(servers)@.len(),
            forall|j: int| 0 <= j < old(servers)@.len() ==> #[trigger] server_wf(old(servers)@[j]),
            forall|j: int| 0 <= j < kept@.len() ==> #[trigger] server_wf(kept@[j]),
            forall|j: int| 0 <= j < kept@.len() ==> (#[trigger] kept@[j]).owner.v != pid.v,
        decreases servers@.len(),
    {
        match servers.pop() {
            Some(s) => {
                proof {
                    assert(server_wf(old(servers)@[servers@.len() as int]));
                }
                if s.owner.get() != pid.get() {
                    kept.push(s);
                }
            },
            None => {},
        }
    }
    *servers = kept;
}

/// Drop every park record belonging to `pid`.
fn remove_parked_of(parked: &mut Vec<Parked>, pid: Pid)
    requires
        forall|i: int| 0 <= i < old(parked)@.len() ==> #[trigger] parked_wf(old(parked)@[i]),
    ensures
        forall|i: int| 0 <= i < final(parked)@.len() ==> #[trigger] parked_wf(final(parked)@[i]),
        forall|i: int|
            0 <= i < final(parked)@.len() ==> (#[trigger] final(parked)@[i]).pid.v != pid.v,
{
    let mut kept: Vec<Parked> = Vec::new();
    while parked.len() > 0
        invariant
            forall|j: int|
                0 <= j < parked@.len() ==> parked@[j] == old(parked)@[j],
            parked@.len() <= old(parked)@.len(),
            forall|j: int| 0 <= j < old(parked)@.len() ==> #[trigger] parked_wf(old(parked)@[j]),
            forall|j: int| 0 <= j < kept@.len() ==> #[trigger] parked_wf(kept@[j]),
            forall|j: int| 0 <= j < kept@.len() ==> (#[trigger] kept@[j]).pid.v != pid.v,
        decreases parked@.len(),
    {
        match parked.pop() {
            Some(p) => {
                proof {
                    assert(parked_wf(old(parked)@[parked@.len() as int]));
                }
                if p.pid.get() != pid.get() {
                    kept.push(p);
                }
            },
            None => {},
        }
    }
    *parked = kept;
}

/// Serve `ReceiveMessage(sid)` for `(pid, tid)`: pop the oldest queued
/// envelope, or park the thread when the queue is empty.  Only the server's
/// owner may receive from it.
fn receive_message(k: &mut Kernel, pid: Pid, tid: usize, sid: usize) -> (r: SysResult)
    requires
        old(k).wf(),
    ensures
        final(k).wf(),
        r is Message || r is BlockedProcess || r == SysResult::Error(Error::ServerNotFound),
        // Only the owner may receive: the lowest-indexed server under `sid`
        // decides, delivering its oldest queued envelope or parking the
        // caller's thread on an empty queue.
        forall|i: int|
            #[trigger] spec_first_server(old(k).servers@, sid, i) && old(k).servers@[i].owner.v
                == pid.v ==> {
                let q = old(k).servers@[i].queue@;
                &&& (q.len() > 0 ==> r == SysResult::Message(q[0].sender, q[0].msg)
                    && final(k).servers@[i].queue@ == q.remove(0))
                &&& (q.len() == 0 ==> r is BlockedProcess
                    && final(k).servers@[i].waiting == Some(tid)
                    && final(k).servers@[i].queue@ == q)
            },
        r is BlockedProcess ==> exists|i: int|
            #[trigger] spec_first_server(old(k).servers@, sid, i) && old(k).servers@[i].owner.v
                == pid.v,
        r is Message ==> exists|i: int|
            #[trigger] spec_first_server(old(k).servers@, sid, i) && old(k).servers@[i].owner.v
                == pid.v,
{
    let idx = match find_server(&k.servers, sid) {
        Some(i) => i,
        None => {
            return SysResult::Error(Error::ServerNotFound);
        },
    };
    if k.servers[idx].owner.get() != pid.get() {
        return SysResult::Error(Error::ServerNotFound);
    }
    let mut server = k.servers.remove(idx);
    proof {
        assert(server_wf(old(k).servers@[idx as int]));
        assert(spec_first_server(old(k).servers@, sid, idx as int));
    }
    let res = if server.queue.len() > 0 {
        let env = server.queue.remove(0);
        SysResult::Message(env.sender, env.msg)
    } else {
        server.waiting = Some(tid);
        SysResult::BlockedProcess
    };
    let ghost server_after = server;
    k.servers.insert(idx, server);
    proof {
        assert(k.servers@ =~= old(k).servers@.update(idx as int, server_after));
        assert forall|i: int|
            0 <= i < k.servers@.len() implies #[trigger] server_wf(k.servers@[i]) by {
            assert(server_wf(old(k).servers@[i]));
        }
    }
    res
}

/// Serve `SendMessage(cid, msg)` for `(pid, tid)`.  A scalar or a borrow
/// parks the sender (`BlockedProcess`); a move completes at once (`Okay`).
/// A memory envelope has its pages lent or moved into the receiver's
/// message window and its address rewritten to where they landed.  The
/// second component is the response that wakes the receiver, if one was
/// parked in `ReceiveMessage`.
fn send_message(k: &mut Kernel, pid: Pid, tid: usize, cid: usize, msg: Message) -> (r: (
    SysResult,
    Option<(Pid, usize, SysResult)>,
))
    requires
        old(k).wf(),
        1 <= pid.v <= MAX_PROCESSES,
    ensures
        final(k).wf(),
        r.1 matches Some((p, _, _)) ==> p.v != pid.v,
        // A scalar or borrow that went through parks the sender under a
        // fresh token; a move never parks; an error parks nothing.
        (r.0 is BlockedProcess) <==> (final(k).parked@.len() == old(k).parked@.len() + 1),
        r.0 is BlockedProcess ==> final(k).parked@.last().pid == pid
            && final(k).parked@.last().tid == tid && !(msg is Move),
        msg is Move ==> !(r.0 is BlockedProcess),
        !(msg is Move) ==> (r.0 is BlockedProcess || r.0 is Error),
        r.0 is Okay ==> msg is Move,
        (r.0 is Okay || r.0 is BlockedProcess || r.0 is Error),
        r.0 is Error ==> r.1 is None && final(k).parked@ == old(k).parked@,
        // A wake answers the receiving server's parked thread with the
        // delivered envelope.
        r.1 matches Some((p, t, res2)) ==> 1 <= cid <= old(k).servers@.len() && p == old(
            k,
        ).servers@[cid - 1].owner && res2 is Message,
        // On success the envelope either wakes the parked receiver or joins
        // the server's queue.
        !(r.0 is Error) ==> 1 <= cid <= old(k).servers@.len() && ((r.1 is Some <==> old(
            k,
        ).servers@[cid - 1].waiting is Some) && (r.1 is None ==> final(k).servers@[cid
            - 1].queue@.len() == old(k).servers@[cid - 1].queue@.len() + 1)),
        // On success the buffer's pages stand lent or moved into the
        // receiver's message window.
        msg matches Message::Borrow(m) ==> (r.0 is BlockedProcess ==> spec_buffer_lent(
            *old(k),
            *final(k),
            pid,
            cid,
            m,
            false,
        )),
        msg matches Message::MutableBorrow(m) ==> (r.0 is BlockedProcess ==> spec_buffer_lent(
            *old(k),
            *final(k),
            pid,
            cid,
            m,
            true,
        )),
        msg matches Message::Move(m) ==> (r.0 is Okay ==> spec_buffer_moved(
            *old(k),
            *final(k),
            pid,
            cid,
            m,
        )),
{
    if cid < 1 || cid > k.servers.len() {
        return (SysResult::Error(Error::ServerNotFound), None);
    }
    let idx = cid - 1;
    let owner = k.servers[idx].owner;
    if owner.get() == pid.get() {
        // A process sending to its own server would park forever.
        return (SysResult::Error(Error::InvalidSyscall), None);
    }
    proof {
        assert(server_wf(old(k).servers@[idx as int]));
    }

    // Fresh token for this envelope.
    let token = k.next_token;
    k.next_token = if k.next_token == usize::MAX {
        1
    } else {
        k.next_token + 1
    };

    let (delivered, parked_kind) = match msg {
        Message::Scalar(_) => (msg, Some(ParkKind::Scalar)),
        Message::MutableBorrow(m) | Message::Borrow(m) | Message::Move(m) => {
            let mutable = match msg {
                Message::MutableBorrow(_) => true,
                _ => false,
            };
            let is_move = match msg {
                Message::Move(_) => true,
                _ => false,
            };
            // The buffer must be page-aligned at both ends.
            if m.addr % PAGE_SIZE != 0 || m.size % PAGE_SIZE != 0 || m.size == 0 {
                return (SysResult::Error(Error::BadAlignment), None);
            }
            if m.addr >= 0xffff_f000 || m.size >= 0xffff_f000 || m.addr >= 0xffff_f000 - m.size {
                return (SysResult::Error(Error::BadAddress), None);
            }
            let npages = m.size / PAGE_SIZE;
            let mut sender = match k.ss.take_process(pid) {
                Some(p) => p,
                None => {
                    return (SysResult::Error(Error::ProcessNotFound), None);
                },
            };
            let mut recv = match k.ss.take_process(owner) {
                Some(p) => p,
                None => {
                    k.ss.put_process(sender);
                    return (SysResult::Error(Error::ProcessNotFound), None);
                },
            };
            let dst = recv.window_next;
            if m.size > USER_AREA_END - dst {
                k.ss.put_process(sender);
                k.ss.put_process(recv);
                return (SysResult::Error(Error::OutOfMemory), None);
            }
            proof {
                assert(npages * PAGE_SIZE as int == m.size && npages < 0x10_0000)
                    by (nonlinear_arith)
                    requires
                        npages == m.size as int / PAGE_SIZE as int,
                        m.size % PAGE_SIZE == 0,
                        0 < m.size < 0xffff_f000,
                        PAGE_SIZE == 4096,
                ;
            }
            let moved = if is_move {
                move_range(
                    &mut k.mm,
                    &mut sender.space,
                    m.addr,
                    owner,
                    &mut recv.space,
                    dst,
                    npages,
                )
            } else {
                lend_range(
                    &mut k.mm,
                    &mut sender.space,
                    m.addr,
                    owner,
                    &mut recv.space,
                    dst,
                    npages,
                    mutable,
                )
            };
            match moved {
                Ok(()) => {},
                Err(e) => {
                    k.ss.put_process(sender);
                    k.ss.put_process(recv);
                    return (SysResult::Error(e), None);
                },
            }
            recv.window_next = dst + m.size;
            k.ss.put_process(sender);
            k.ss.put_process(recv);
            let rewritten = MemoryMessage {
                id: m.id,
                addr: dst,
                size: m.size,
                offset: m.offset,
                valid: m.valid,
            };
            let delivered = if is_move {
                Message::Move(rewritten)
            } else if mutable {
                Message::MutableBorrow(rewritten)
            } else {
                Message::Borrow(rewritten)
            };
            let parked_kind = if is_move {
                None
            } else {
                Some(
                    ParkKind::Memory {
                        src_addr: m.addr,
                        dest_addr: dst,
                        npages,
                        mutable,
                    },
                )
            };
            (delivered, parked_kind)
        },
    };

    // Park the sender where a reply is owed.
    let res = match &parked_kind {
        Some(kind_ref) => SysResult::BlockedProcess,
        None => SysResult::Okay,
    };
    match parked_kind {
        Some(kind) => {
            let rec = Parked { token, pid, tid, kind };
            k.parked.push(rec);
            proof {
                assert forall|i: int|
                    0 <= i < k.parked@.len() implies #[trigger] parked_wf(k.parked@[i]) by {
                    if i < k.parked@.len() - 1 {
                        assert(parked_wf(old(k).parked@[i]));
                    }
                }
            }
        },
        None => {},
    }

    // Hand the envelope over: wake a parked receiver, or queue it.
    let mut server = k.servers.remove(idx);
    let mut wake: Option<(Pid, usize, SysResult)> = None;
    match server.waiting {
        Some(wtid) => {
            server.waiting = None;
            wake = Some((server.owner, wtid, SysResult::Message(token, delivered)));
        },
        None => {
            server.queue.push(Envelope { sender: token, msg: delivered });
        },
    }
    let ghost server_after = server;
    k.servers.insert(idx, server);
    proof {
        assert(k.servers@ =~= old(k).servers@.update(idx as int, server_after));
        assert forall|i: int|
            0 <= i < k.servers@.len() implies #[trigger] server_wf(k.servers@[i]) by {
            assert(server_wf(old(k).servers@[i]));
        }
    }
    (res, wake)
}

/// Serve `ReturnMemory(token, addr, size)`: the caller (the borrower) hands
/// the buffer at `addr` back; the parked sender recorded under `token` gets
/// its pages restored and its `Okay` reply (the second component).  The
/// lender's entries are checked to still carry the shared bit before
/// anything is touched.
fn return_memory(k: &mut Kernel, pid: Pid, token: usize, addr: usize, size: usize) -> (r: (
    SysResult,
    Option<(Pid, usize, SysResult)>,
))
    requires
        old(k).wf(),
        1 <= pid.v <= MAX_PROCESSES,
    ensures
        final(k).wf(),
        r.1 matches Some((p, _, _)) ==> p.v != pid.v,
        r.0 is Okay || r.0 is Error,
        // The lender wakes with `Okay` exactly when the return went
        // through; its park record is consumed and its buffer restored.
        (r.0 is Okay) <==> r.1 is Some,
        r.0 is Error ==> r.1 is None && final(k).parked@ == old(k).parked@,
        r.0 is Okay ==> exists|i: int|
            #[trigger] spec_first_parked(old(k).parked@, token, i) && r.1 == Some(
                (old(k).parked@[i].pid, old(k).parked@[i].tid, SysResult::Okay),
            ) && final(k).parked@ == old(k).parked@.remove(i) && spec_buffer_returned(
                *old(k),
                *final(k),
                pid,
                old(k).parked@[i],
            ),
{
    let idx = match find_parked(&k.parked, token) {
        Some(i) => i,
        None => {
            return (SysResult::Error(Error::ProcessNotFound), None);
        },
    };
    proof {
        assert(parked_wf(old(k).parked@[idx as int]));
    }
    let (src_addr, dest_addr, npages) = match &k.parked[idx].kind {
        ParkKind::Memory { src_addr, dest_addr, npages, mutable: _ } => (
            *src_addr,
            *dest_addr,
            *npages,
        ),
        ParkKind::Scalar => {
            return (SysResult::Error(Error::BadAddress), None);
        },
    };
    let lender_pid = k.parked[idx].pid;
    let lender_tid = k.parked[idx].tid;
    if addr != dest_addr {
        return (SysResult::Error(Error::BadAddress), None);
    }
    if lender_pid.get() == pid.get() {
        return (SysResult::Error(Error::BadAddress), None);
    }
    let mut borrower = match k.ss.take_process(pid) {
        Some(p) => p,
        None => {
            return (SysResult::Error(Error::ProcessNotFound), None);
        },
    };
    let mut lender = match k.ss.take_process(lender_pid) {
        Some(p) => p,
        None => {
            k.ss.put_process(borrower);
            return (SysResult::Error(Error::ProcessNotFound), None);
        },
    };

    // Check, before touching anything, that every lender entry still
    // records the lend: anything else is a kernel-level inconsistency and
    // is refused outright.
    let mut p: usize = 0;
    let mut all_shared = true;
    while p < npages
        invariant
            p <= npages,
            npages < 0x10_0000,
            src_addr % PAGE_SIZE == 0,
            src_addr + npages * PAGE_SIZE < 0x1_0000_0000,
            lender.space.wf(),
            all_shared ==> forall|q: int|
                0 <= q < p ==> lender.space.leaf_mapped(
                    crate::mem::spec_vpn1(#[trigger] page_addr(src_addr, q)) as int,
                ) && lender.space.entry_at(page_addr(src_addr, q)) & MMU_S != 0,
        decreases npages - p,
    {
        let a = src_addr + p * PAGE_SIZE;
        proof {
            assert(a == page_addr(src_addr, p as int));
        }
        match pagetable_entry(&lender.space, a) {
            Ok(e) => {
                if e & MMU_S == 0 {
                    all_shared = false;
                }
            },
            Err(_) => {
                all_shared = false;
            },
        }
        p = p + 1;
    }
    if !all_shared {
        k.ss.put_process(borrower);
        k.ss.put_process(lender);
        return (SysResult::Error(Error::ShareViolation), None);
    }

    let returned = return_range(
        &mut borrower.space,
        dest_addr,
        &mut lender.space,
        src_addr,
        npages,
    );
    k.ss.put_process(borrower);
    k.ss.put_process(lender);
    match returned {
        Ok(()) => {},
        Err(e) => {
            return (SysResult::Error(e), None);
        },
    }

    // Drop the park record and wake the lender.
    if idx < k.parked.len() {
        let _ = k.parked.remove(idx);
        proof {
            assert forall|i: int|
                0 <= i < k.parked@.len() implies #[trigger] parked_wf(k.parked@[i]) by {
                if i < idx {
                    assert(parked_wf(old(k).parked@[i]));
                } else {
                    assert(parked_wf(old(k).parked@[i + 1]));
                }
            }
        }
    }
    proof {
        assert(spec_first_parked(old(k).parked@, token, idx as int));
        assert(spec_buffer_returned(*old(k), *k, pid, old(k).parked@[idx as int]));
    }
    (SysResult::Okay, Some((lender_pid, lender_tid, SysResult::Okay)))
}

} // verus!
