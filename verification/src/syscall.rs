//! System calls and results as structured values, and their encoding as
//! eight machine words — the form they take in a trap frame or on the
//! hosted wire (after the frame's leading thread-ID word).

use vstd::prelude::*;

use crate::Error;

verus! {

/// Call number: yield the hart.
pub const NR_YIELD: usize = 2;

/// Call number: create a server.
pub const NR_CREATE_SERVER: usize = 14;

/// Call number: receive the next message queued to a server.
pub const NR_RECEIVE_MESSAGE: usize = 15;

/// Call number: send a message down a connection.
pub const NR_SEND_MESSAGE: usize = 16;

/// Call number: connect to a server.
pub const NR_CONNECT: usize = 17;

/// Call number: return a borrowed buffer to its sender.
pub const NR_RETURN_MEMORY: usize = 18;

/// Call number: answer a blocking scalar with two words.
pub const NR_RETURN_SCALAR2: usize = 20;

/// Call number: terminate the calling process.
pub const NR_TERMINATE_PROCESS: usize = 22;

/// Call number: shut the kernel down.
pub const NR_SHUTDOWN: usize = 23;

/// Message kind: memory lent read-write.
pub const MSG_MUTABLE_BORROW: usize = 1;

/// Message kind: memory lent read-only.
pub const MSG_BORROW: usize = 2;

/// Message kind: memory moved outright.
pub const MSG_MOVE: usize = 3;

/// Message kind: four plain words.
pub const MSG_SCALAR: usize = 4;

/// A buffer handed from sender to receiver: its virtual address and length,
/// plus an optional offset and valid length inside it.
#[derive(Clone, Copy, Debug, PartialEq, Eq, Structural)]
pub struct MemoryMessage {
    pub id: usize,
    pub addr: usize,
    pub size: usize,
    pub offset: usize,
    pub valid: usize,
}

/// Four plain words and an opcode.
#[derive(Clone, Copy, Debug, PartialEq, Eq, Structural)]
pub struct ScalarMessage {
    pub id: usize,
    pub arg1: usize,
    pub arg2: usize,
    pub arg3: usize,
    pub arg4: usize,
}

/// The envelope of a `SendMessage`: memory moved or lent (mutably or not),
/// or four scalar words.
#[derive(Clone, Copy, Debug, PartialEq, Eq, Structural)]
pub enum Message {
    MutableBorrow(MemoryMessage),
    Borrow(MemoryMessage),
    Move(MemoryMessage),
    Scalar(ScalarMessage),
}

impl Message {
    /// A memory envelope names a real buffer: address and size nonzero.
    pub open spec fn wf(self) -> bool {
        match self {
            Message::MutableBorrow(m) => m.addr != 0 && m.size != 0,
            Message::Borrow(m) => m.addr != 0 && m.size != 0,
            Message::Move(m) => m.addr != 0 && m.size != 0,
            Message::Scalar(_) => true,
        }
    }

    /// Whether this envelope carries memory (and so, on the hosted wire, a
    /// payload of `size` bytes follows the frame).
    pub open spec fn spec_is_memory(self) -> bool {
        !(self is Scalar)
    }

    pub fn is_memory(&self) -> (r: bool)
        ensures
            r == self.spec_is_memory(),
    {
        match self {
            Message::Scalar(_) => false,
            _ => true,
        }
    }
}

/// A system call, decoded from its eight-word form.
#[derive(Clone, Copy, Debug, PartialEq, Eq, Structural)]
pub enum SysCall {
    /// Send `Message` down connection `cid`.
    SendMessage(usize, Message),
    /// Return a borrowed buffer (`addr`, `size`) to the parked sender named
    /// by the first word.
    ReturnMemory(usize, usize, usize),
    /// Answer the parked sender named by the first word with two scalars.
    ReturnScalar2(usize, usize, usize),
    /// Receive the next message queued to server `sid`.
    ReceiveMessage(usize),
    /// Register a server under id `sid`.
    CreateServer(usize),
    /// Connect to the server registered under id `sid`.
    Connect(usize),
    /// Give up the hart.
    Yield,
    /// Terminate the calling process.  No response is ever produced.
    TerminateProcess,
    /// Shut the kernel down.  The response is sent before the effect.
    Shutdown,
}

impl SysCall {
    /// The envelope of a memory `SendMessage` names a real buffer.
    pub open spec fn wf(self) -> bool {
        match self {
            SysCall::SendMessage(_, msg) => msg.wf(),
            SysCall::ReturnMemory(_, addr, size) => addr != 0 && size != 0,
            _ => true,
        }
    }

    /// The eight-word encoding of a call.
    pub open spec fn spec_encode(self) -> Seq<usize> {
        match self {
            SysCall::SendMessage(cid, msg) => match msg {
                Message::MutableBorrow(m) => seq![
                    NR_SEND_MESSAGE,
                    cid,
                    MSG_MUTABLE_BORROW,
                    m.id,
                    m.addr,
                    m.size,
                    m.offset,
                    m.valid,
                ],
                Message::Borrow(m) => seq![
                    NR_SEND_MESSAGE,
                    cid,
                    MSG_BORROW,
                    m.id,
                    m.addr,
                    m.size,
                    m.offset,
                    m.valid,
                ],
                Message::Move(m) => seq![
                    NR_SEND_MESSAGE,
                    cid,
                    MSG_MOVE,
                    m.id,
                    m.addr,
                    m.size,
                    m.offset,
                    m.valid,
                ],
                Message::Scalar(m) => seq![
                    NR_SEND_MESSAGE,
                    cid,
                    MSG_SCALAR,
                    m.id,
                    m.arg1,
                    m.arg2,
                    m.arg3,
                    m.arg4,
                ],
            },
            SysCall::ReturnMemory(sender, addr, size) => seq![
                NR_RETURN_MEMORY,
                sender,
                addr,
                size,
                0,
                0,
                0,
                0,
            ],
            SysCall::ReturnScalar2(sender, v1, v2) => seq![
                NR_RETURN_SCALAR2,
                sender,
                v1,
                v2,
                0,
                0,
                0,
                0,
            ],
            SysCall::ReceiveMessage(sid) => seq![NR_RECEIVE_MESSAGE, sid, 0, 0, 0, 0, 0, 0],
            SysCall::CreateServer(sid) => seq![NR_CREATE_SERVER, sid, 0, 0, 0, 0, 0, 0],
            SysCall::Connect(sid) => seq![NR_CONNECT, sid, 0, 0, 0, 0, 0, 0],
            SysCall::Yield => seq![NR_YIELD, 0, 0, 0, 0, 0, 0, 0],
            SysCall::TerminateProcess => seq![NR_TERMINATE_PROCESS, 0, 0, 0, 0, 0, 0, 0],
            SysCall::Shutdown => seq![NR_SHUTDOWN, 0, 0, 0, 0, 0, 0, 0],
        }
    }

    /// What decoding eight words yields: the call, or `InvalidSyscall` for
    /// an unknown call number, an unknown message kind, or a memory message
    /// without a real buffer.
    pub open spec fn spec_decode(
        nr: usize,
        a1: usize,
        a2: usize,
        a3: usize,
        a4: usize,
        a5: usize,
        a6: usize,
        a7: usize,
    ) -> Result<SysCall, Error> {
        if nr == NR_SEND_MESSAGE {
            if a2 == MSG_MUTABLE_BORROW || a2 == MSG_BORROW || a2 == MSG_MOVE {
                if a4 != 0 && a5 != 0 {
                    if a2 == MSG_MUTABLE_BORROW {
                        Ok(
                            SysCall::SendMessage(
                                a1,
                                Message::MutableBorrow(
                                    MemoryMessage {
                                        id: a3,
                                        addr: a4,
                                        size: a5,
                                        offset: a6,
                                        valid: a7,
                                    },
                                ),
                            ),
                        )
                    } else if a2 == MSG_BORROW {
                        Ok(
                            SysCall::SendMessage(
                                a1,
                                Message::Borrow(
                                    MemoryMessage {
                                        id: a3,
                                        addr: a4,
                                        size: a5,
                                        offset: a6,
                                        valid: a7,
                                    },
                                ),
                            ),
                        )
                    } else {
                        Ok(
                            SysCall::SendMessage(
                                a1,
                                Message::Move(
                                    MemoryMessage {
                                        id: a3,
                                        addr: a4,
                                        size: a5,
                                        offset: a6,
                                        valid: a7,
                                    },
                                ),
                            ),
                        )
                    }
                } else {
                    Err(Error::InvalidSyscall)
                }
            } else if a2 == MSG_SCALAR {
                Ok(
                    SysCall::SendMessage(
                        a1,
                        Message::Scalar(
                            ScalarMessage { id: a3, arg1: a4, arg2: a5, arg3: a6, arg4: a7 },
                        ),
                    ),
                )
            } else {
                Err(Error::InvalidSyscall)
            }
        } else if nr == NR_RETURN_MEMORY {
            if a2 != 0 && a3 != 0 {
                Ok(SysCall::ReturnMemory(a1, a2, a3))
            } else {
                Err(Error::InvalidSyscall)
            }
        } else if nr == NR_RETURN_SCALAR2 {
            Ok(SysCall::ReturnScalar2(a1, a2, a3))
        } else if nr == NR_RECEIVE_MESSAGE {
            Ok(SysCall::ReceiveMessage(a1))
        } else if nr == NR_CREATE_SERVER {
            Ok(SysCall::CreateServer(a1))
        } else if nr == NR_CONNECT {
            Ok(SysCall::Connect(a1))
        } else if nr == NR_YIELD {
            Ok(SysCall::Yield)
        } else if nr == NR_TERMINATE_PROCESS {
            Ok(SysCall::TerminateProcess)
        } else if nr == NR_SHUTDOWN {
            Ok(SysCall::Shutdown)
        } else {
            Err(Error::InvalidSyscall)
        }
    }

    /// Encode this call as eight words.
    pub fn to_args(&self) -> (r: Vec<usize>)
        ensures
            r@ == self.spec_encode(),
            r@.len() == 8,
    {
        let mut v: Vec<usize> = Vec::new();
        match self {
            SysCall::SendMessage(cid, msg) => {
                v.push(NR_SEND_MESSAGE);
                v.push(*cid);
                match msg {
                    Message::MutableBorrow(m) => {
                        v.push(MSG_MUTABLE_BORROW);
                        v.push(m.id);
                        v.push(m.addr);
                        v.push(m.size);
                        v.push(m.offset);
                        v.push(m.valid);
                    },
                    Message::Borrow(m) => {
                        v.push(MSG_BORROW);
                        v.push(m.id);
                        v.push(m.addr);
                        v.push(m.size);
                        v.push(m.offset);
                        v.push(m.valid);
                    },
                    Message::Move(m) => {
                        v.push(MSG_MOVE);
                        v.push(m.id);
                        v.push(m.addr);
                        v.push(m.size);
                        v.push(m.offset);
                        v.push(m.valid);
                    },
                    Message::Scalar(m) => {
                        v.push(MSG_SCALAR);
                        v.push(m.id);
                        v.push(m.arg1);
                        v.push(m.arg2);
                        v.push(m.arg3);
                        v.push(m.arg4);
                    },
                }
            },
            SysCall::ReturnMemory(sender, addr, size) => {
                v.push(NR_RETURN_MEMORY);
                v.push(*sender);
                v.push(*addr);
                v.push(*size);
                v.push(0);
                v.push(0);
                v.push(0);
                v.push(0);
            },
            SysCall::ReturnScalar2(sender, v1, v2) => {
                v.push(NR_RETURN_SCALAR2);
                v.push(*sender);
                v.push(*v1);
                v.push(*v2);
                v.push(0);
                v.push(0);
                v.push(0);
                v.push(0);
            },
            SysCall::ReceiveMessage(sid) => {
                v.push(NR_RECEIVE_MESSAGE);
                v.push(*sid);
                v.push(0);
                v.push(0);
                v.push(0);
                v.push(0);
                v.push(0);
                v.push(0);
            },
            SysCall::CreateServer(sid) => {
                v.push(NR_CREATE_SERVER);
                v.push(*sid);
                v.push(0);
                v.push(0);
                v.push(0);
                v.push(0);
                v.push(0);
                v.push(0);
            },
            SysCall::Connect(sid) => {
                v.push(NR_CONNECT);
                v.push(*sid);
                v.push(0);
                v.push(0);
                v.push(0);
                v.push(0);
                v.push(0);
                v.push(0);
            },
            SysCall::Yield => {
                v.push(NR_YIELD);
                v.push(0);
                v.push(0);
                v.push(0);
                v.push(0);
                v.push(0);
                v.push(0);
                v.push(0);
            },
            SysCall::TerminateProcess => {
                v.push(NR_TERMINATE_PROCESS);
                v.push(0);
                v.push(0);
                v.push(0);
                v.push(0);
                v.push(0);
                v.push(0);
                v.push(0);
            },
            SysCall::Shutdown => {
                v.push(NR_SHUTDOWN);
                v.push(0);
                v.push(0);
                v.push(0);
                v.push(0);
                v.push(0);
                v.push(0);
                v.push(0);
            },
        }
        proof {
            assert(v@ =~= self.spec_encode());
        }
        v
    }

    /// Decode eight words into a call.
    pub fn from_args(
        nr: usize,
        a1: usize,
        a2: usize,
        a3: usize,
        a4: usize,
        a5: usize,
        a6: usize,
        a7: usize,
    ) -> (r: Result<SysCall, Error>)
        ensures
            r == SysCall::spec_decode(nr, a1, a2, a3, a4, a5, a6, a7),
    {
        if nr == NR_SEND_MESSAGE {
            if a2 == MSG_MUTABLE_BORROW || a2 == MSG_BORROW || a2 == MSG_MOVE {
                if a4 != 0 && a5 != 0 {
                    let m = MemoryMessage { id: a3, addr: a4, size: a5, offset: a6, valid: a7 };
                    if a2 == MSG_MUTABLE_BORROW {
                        Ok(SysCall::SendMessage(a1, Message::MutableBorrow(m)))
                    } else if a2 == MSG_BORROW {
                        Ok(SysCall::SendMessage(a1, Message::Borrow(m)))
                    } else {
                        Ok(SysCall::SendMessage(a1, Message::Move(m)))
                    }
                } else {
                    Err(Error::InvalidSyscall)
                }
            } else if a2 == MSG_SCALAR {
                Ok(
                    SysCall::SendMessage(
                        a1,
                        Message::Scalar(
                            ScalarMessage { id: a3, arg1: a4, arg2: a5, arg3: a6, arg4: a7 },
                        ),
                    ),
                )
            } else {
                Err(Error::InvalidSyscall)
            }
        } else if nr == NR_RETURN_MEMORY {
            if a2 != 0 && a3 != 0 {
                Ok(SysCall::ReturnMemory(a1, a2, a3))
            } else {
                Err(Error::InvalidSyscall)
            }
        } else if nr == NR_RETURN_SCALAR2 {
            Ok(SysCall::ReturnScalar2(a1, a2, a3))
        } else if nr == NR_RECEIVE_MESSAGE {
            Ok(SysCall::ReceiveMessage(a1))
        } else if nr == NR_CREATE_SERVER {
            Ok(SysCall::CreateServer(a1))
        } else if nr == NR_CONNECT {
            Ok(SysCall::Connect(a1))
        } else if nr == NR_YIELD {
            Ok(SysCall::Yield)
        } else if nr == NR_TERMINATE_PROCESS {
            Ok(SysCall::TerminateProcess)
        } else if nr == NR_SHUTDOWN {
            Ok(SysCall::Shutdown)
        } else {
            Err(Error::InvalidSyscall)
        }
    }
}

/// Result kind: plain success.
pub const RES_OK: usize = 0;

/// Result kind: an error code follows.
pub const RES_ERROR: usize = 1;

/// Result kind: one scalar word.
pub const RES_SCALAR1: usize = 2;

/// Result kind: two scalar words.
pub const RES_SCALAR2: usize = 3;

/// Result kind: a memory range (address, size).
pub const RES_MEMORY_RANGE: usize = 4;

/// Result kind: the caller is parked; no response is sent now.
pub const RES_BLOCKED: usize = 5;

/// Result kind: a message envelope delivered to a receiver.
pub const RES_MESSAGE: usize = 6;

/// What a system call comes back with.  `BlockedProcess` is never put on
/// the wire: it parks the caller instead.  `Message` answers a receiver's
/// `ReceiveMessage` with the sender's token and envelope.
#[derive(Clone, Copy, Debug, PartialEq, Eq, Structural)]
pub enum SysResult {
    Okay,
    Error(Error),
    Scalar1(usize),
    Scalar2(usize, usize),
    MemoryRange(usize, usize),
    BlockedProcess,
    Message(usize, Message),
}

impl SysResult {
    pub open spec fn wf(self) -> bool {
        match self {
            SysResult::Message(_, msg) => msg.wf(),
            _ => true,
        }
    }

    /// The eight-word encoding of a result.
    pub open spec fn spec_encode(self) -> Seq<usize> {
        match self {
            SysResult::Okay => seq![RES_OK, 0, 0, 0, 0, 0, 0, 0],
            SysResult::Error(e) => seq![RES_ERROR, e.spec_code(), 0, 0, 0, 0, 0, 0],
            SysResult::Scalar1(a) => seq![RES_SCALAR1, a, 0, 0, 0, 0, 0, 0],
            SysResult::Scalar2(a, b) => seq![RES_SCALAR2, a, b, 0, 0, 0, 0, 0],
            SysResult::MemoryRange(addr, size) => seq![RES_MEMORY_RANGE, addr, size, 0, 0, 0, 0, 0],
            SysResult::BlockedProcess => seq![RES_BLOCKED, 0, 0, 0, 0, 0, 0, 0],
            SysResult::Message(sender, msg) => match msg {
                Message::MutableBorrow(m) => seq![
                    RES_MESSAGE,
                    sender,
                    MSG_MUTABLE_BORROW,
                    m.id,
                    m.addr,
                    m.size,
                    m.offset,
                    m.valid,
                ],
                Message::Borrow(m) => seq![
                    RES_MESSAGE,
                    sender,
                    MSG_BORROW,
                    m.id,
                    m.addr,
                    m.size,
                    m.offset,
                    m.valid,
                ],
                Message::Move(m) => seq![
                    RES_MESSAGE,
                    sender,
                    MSG_MOVE,
                    m.id,
                    m.addr,
                    m.size,
                    m.offset,
                    m.valid,
                ],
                Message::Scalar(m) => seq![
                    RES_MESSAGE,
                    sender,
                    MSG_SCALAR,
                    m.id,
                    m.arg1,
                    m.arg2,
                    m.arg3,
                    m.arg4,
                ],
            },
        }
    }

    /// What decoding eight result words yields.
    pub open spec fn spec_decode(
        kind: usize,
        a1: usize,
        a2: usize,
        a3: usize,
        a4: usize,
        a5: usize,
        a6: usize,
        a7: usize,
    ) -> Result<SysResult, Error> {
        if kind == RES_OK {
            Ok(SysResult::Okay)
        } else if kind == RES_ERROR {
            Ok(SysResult::Error(Error::spec_from_code(a1)))
        } else if kind == RES_SCALAR1 {
            Ok(SysResult::Scalar1(a1))
        } else if kind == RES_SCALAR2 {
            Ok(SysResult::Scalar2(a1, a2))
        } else if kind == RES_MEMORY_RANGE {
            Ok(SysResult::MemoryRange(a1, a2))
        } else if kind == RES_BLOCKED {
            Ok(SysResult::BlockedProcess)
        } else if kind == RES_MESSAGE {
            if (a2 == MSG_MUTABLE_BORROW || a2 == MSG_BORROW || a2 == MSG_MOVE) && a4 != 0 && a5
                != 0 {
                let m = MemoryMessage { id: a3, addr: a4, size: a5, offset: a6, valid: a7 };
                if a2 == MSG_MUTABLE_BORROW {
                    Ok(SysResult::Message(a1, Message::MutableBorrow(m)))
                } else if a2 == MSG_BORROW {
                    Ok(SysResult::Message(a1, Message::Borrow(m)))
                } else {
                    Ok(SysResult::Message(a1, Message::Move(m)))
                }
            } else if a2 == MSG_SCALAR {
                let m = ScalarMessage { id: a3, arg1: a4, arg2: a5, arg3: a6, arg4: a7 };
                Ok(SysResult::Message(a1, Message::Scalar(m)))
            } else {
                Err(Error::InvalidSyscall)
            }
        } else {
            Err(Error::InvalidSyscall)
        }
    }

    /// Encode this result as eight words.
    pub fn to_args(&self) -> (r: Vec<usize>)
        ensures
            r@ == self.spec_encode(),
            r@.len() == 8,
    {
        let mut v: Vec<usize> = Vec::new();
        match self {
            SysResult::Okay => {
                v.push(RES_OK);
                v.push(0);
                v.push(0);
                v.push(0);
                v.push(0);
                v.push(0);
                v.push(0);
                v.push(0);
            },
            SysResult::Error(e) => {
                v.push(RES_ERROR);
                v.push(e.code());
                v.push(0);
                v.push(0);
                v.push(0);
                v.push(0);
                v.push(0);
                v.push(0);
            },
            SysResult::Scalar1(a) => {
                v.push(RES_SCALAR1);
                v.push(*a);
                v.push(0);
                v.push(0);
                v.push(0);
                v.push(0);
                v.push(0);
                v.push(0);
            },
            SysResult::Scalar2(a, b) => {
                v.push(RES_SCALAR2);
                v.push(*a);
                v.push(*b);
                v.push(0);
                v.push(0);
                v.push(0);
                v.push(0);
                v.push(0);
            },
            SysResult::MemoryRange(addr, size) => {
                v.push(RES_MEMORY_RANGE);
                v.push(*addr);
                v.push(*size);
                v.push(0);
                v.push(0);
                v.push(0);
                v.push(0);
                v.push(0);
            },
            SysResult::BlockedProcess => {
                v.push(RES_BLOCKED);
                v.push(0);
                v.push(0);
                v.push(0);
                v.push(0);
                v.push(0);
                v.push(0);
                v.push(0);
            },
            SysResult::Message(sender, msg) => {
                v.push(RES_MESSAGE);
                v.push(*sender);
                match msg {
                    Message::MutableBorrow(m) => {
                        v.push(MSG_MUTABLE_BORROW);
                        v.push(m.id);
                        v.push(m.addr);
                        v.push(m.size);
                        v.push(m.offset);
                        v.push(m.valid);
                    },
                    Message::Borrow(m) => {
                        v.push(MSG_BORROW);
                        v.push(m.id);
                        v.push(m.addr);
                        v.push(m.size);
                        v.push(m.offset);
                        v.push(m.valid);
                    },
                    Message::Move(m) => {
                        v.push(MSG_MOVE);
                        v.push(m.id);
                        v.push(m.addr);
                        v.push(m.size);
                        v.push(m.offset);
                        v.push(m.valid);
                    },
                    Message::Scalar(m) => {
                        v.push(MSG_SCALAR);
                        v.push(m.id);
                        v.push(m.arg1);
                        v.push(m.arg2);
                        v.push(m.arg3);
                        v.push(m.arg4);
                    },
                }
            },
        }
        proof {
            assert(v@ =~= self.spec_encode());
        }
        v
    }

    /// Decode eight result words.
    pub fn from_args(
        kind: usize,
        a1: usize,
        a2: usize,
        a3: usize,
        a4: usize,
        a5: usize,
        a6: usize,
        a7: usize,
    ) -> (r: Result<SysResult, Error>)
        ensures
            r == SysResult::spec_decode(kind, a1, a2, a3, a4, a5, a6, a7),
    {
        if kind == RES_OK {
            Ok(SysResult::Okay)
        } else if kind == RES_ERROR {
            Ok(SysResult::Error(Error::from_code(a1)))
        } else if kind == RES_SCALAR1 {
            Ok(SysResult::Scalar1(a1))
        } else if kind == RES_SCALAR2 {
            Ok(SysResult::Scalar2(a1, a2))
        } else if kind == RES_MEMORY_RANGE {
            Ok(SysResult::MemoryRange(a1, a2))
        } else if kind == RES_BLOCKED {
            Ok(SysResult::BlockedProcess)
        } else if kind == RES_MESSAGE {
            if (a2 == MSG_MUTABLE_BORROW || a2 == MSG_BORROW || a2 == MSG_MOVE) && a4 != 0 && a5
                != 0 {
                let m = MemoryMessage { id: a3, addr: a4, size: a5, offset: a6, valid: a7 };
                if a2 == MSG_MUTABLE_BORROW {
                    Ok(SysResult::Message(a1, Message::MutableBorrow(m)))
                } else if a2 == MSG_BORROW {
                    Ok(SysResult::Message(a1, Message::Borrow(m)))
                } else {
                    Ok(SysResult::Message(a1, Message::Move(m)))
                }
            } else if a2 == MSG_SCALAR {
                let m = ScalarMessage { id: a3, arg1: a4, arg2: a5, arg3: a6, arg4: a7 };
                Ok(SysResult::Message(a1, Message::Scalar(m)))
            } else {
                Err(Error::InvalidSyscall)
            }
        } else {
            Err(Error::InvalidSyscall)
        }
    }
}

/// Encoding then decoding a well-formed result through the eight-word form
/// is the identity, for every result.
pub proof fn lemma_result_round_trip(res: SysResult)
    requires
        res.wf(),
    ensures
        SysResult::spec_decode(
            res.spec_encode()[0],
            res.spec_encode()[1],
            res.spec_encode()[2],
            res.spec_encode()[3],
            res.spec_encode()[4],
            res.spec_encode()[5],
            res.spec_encode()[6],
            res.spec_encode()[7],
        ) == Ok::<SysResult, Error>(res),
{
    if let SysResult::Error(e) = res {
        crate::lemma_error_code_round_trip(e);
    }
}

/// Encoding then decoding a well-formed call through the eight-word form is
/// the identity, for every call.
pub proof fn lemma_syscall_round_trip(c: SysCall)
    requires
        c.wf(),
    ensures
        SysCall::spec_decode(
            c.spec_encode()[0],
            c.spec_encode()[1],
            c.spec_encode()[2],
            c.spec_encode()[3],
            c.spec_encode()[4],
            c.spec_encode()[5],
            c.spec_encode()[6],
            c.spec_encode()[7],
        ) == Ok::<SysCall, Error>(c),
{
}

} // verus!
