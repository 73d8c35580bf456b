use kernel_core::dispatch::{dispatch_step, Action, Kernel};
use kernel_core::flags::MEM_R;
use kernel_core::flags::MEM_W;
use kernel_core::manager::Pid;
use kernel_core::mem::map_page_inner;
use kernel_core::services::{generate_pid_key, pid1_key, set_pid1_key, ProcessState, SystemServices};
use kernel_core::syscall::{MemoryMessage, Message, ScalarMessage, SysCall, SysResult};
use kernel_core::Error;
use kernel_core::DEFAULT_MESSAGE_BASE;
use kernel_core::PAGE_SIZE;

fn key(seed: u8) -> [u8; 16] {
    let mut k = [0u8; 16];
    for (i, b) in k.iter_mut().enumerate() {
        *b = seed.wrapping_add(i as u8);
    }
    k
}

fn kernel_with_processes(n: u8) -> Kernel {
    let mut k = Kernel::new(256);
    for i in 0..n {
        let pid = k.ss.create_process(&mut k.mm, key(i)).unwrap();
        assert_eq!(pid.get(), i + 1);
    }
    k
}

#[test]
fn pids_increase_until_full_then_reuse_released_slots() {
    let mut ss = SystemServices::new();
    let mut mm = kernel_core::manager::MemoryManager::new(1024);
    let mut last = 0u8;
    for i in 0..63u8 {
        let pid = ss.create_process(&mut mm, key(i)).unwrap();
        assert!(pid.get() > last, "PIDs must strictly increase");
        last = pid.get();
    }
    // The table is full now.
    assert_eq!(ss.create_process(&mut mm, key(63)), Err(Error::ProcessNotFound));
    // Releasing a slot makes exactly that PID available again.
    ss.destroy_process(&mut mm, Pid::new(17).unwrap()).unwrap();
    let reused = ss.create_process(&mut mm, key(64)).unwrap();
    assert_eq!(reused.get(), 17);
}

#[test]
fn resolve_key_consumes_the_key() {
    let mut ss = SystemServices::new();
    let mut mm = kernel_core::manager::MemoryManager::new(64);
    let pid = ss.create_process(&mut mm, key(9)).unwrap();
    // A key never registered does not resolve.
    assert_eq!(ss.resolve_key(&key(8)), Err(Error::ProcessNotFound));
    assert_eq!(ss.resolve_key(&key(9)).unwrap(), pid);
    // The key was consumed: it binds only one connection.
    assert_eq!(ss.resolve_key(&key(9)), Err(Error::ProcessNotFound));
    let p = ss.take_process(pid).unwrap();
    assert!(matches!(p.state, ProcessState::Ready));
}

#[test]
fn switch_to_activates_the_target_space() {
    let mut ss = SystemServices::new();
    let mut mm = kernel_core::manager::MemoryManager::new(64);
    let mut mmu = kernel_core::mem::Mmu { satp: 0 };
    let pid = ss.create_process(&mut mm, key(1)).unwrap();
    ss.switch_to(&mut mmu, pid, 4).unwrap();
    assert_eq!(ss.current_pid(), pid);
    // The MMU register now names the target space.
    let mapping = kernel_core::mem::MemoryMapping::current(&mmu);
    assert_eq!(mapping.get_pid(), pid);
    let p = ss.take_process(pid).unwrap();
    assert!(matches!(p.state, ProcessState::Running(4)));
    assert_eq!(mapping, p.space.mapping());
    ss.put_process(p);
    // Switching to a free slot is refused.
    assert_eq!(
        ss.switch_to(&mut mmu, Pid::new(9).unwrap(), 1),
        Err(Error::ProcessNotFound)
    );
}

#[test]
fn create_process_without_memory_fails() {
    let mut ss = SystemServices::new();
    // No frame is free: the root table cannot be allocated.
    let mut mm = kernel_core::manager::MemoryManager::new(0);
    assert_eq!(ss.create_process(&mut mm, key(1)), Err(Error::OutOfMemory));
}

#[test]
fn pid1_key_slot_round_trips() {
    let mut ss = SystemServices::new();
    set_pid1_key(&mut ss, key(3));
    assert_eq!(pid1_key(&ss), key(3));
}

#[test]
fn generated_keys_differ() {
    // Two fresh 16-byte keys collide with probability 2^-128: a repeat
    // means the generator handed back a constant.
    let a = generate_pid_key();
    let b = generate_pid_key();
    assert_ne!(a, b);
}

#[test]
fn shutdown_responds_before_exit() {
    let mut k = kernel_with_processes(1);
    let actions = dispatch_step(&mut k, Pid::new(1).unwrap(), 4, SysCall::Shutdown);
    assert_eq!(
        actions,
        vec![
            Action::Respond(Pid::new(1).unwrap(), 4, SysResult::Okay),
            Action::Exit,
        ]
    );
}

#[test]
fn terminate_produces_no_response() {
    let mut k = kernel_with_processes(2);
    let actions = dispatch_step(&mut k, Pid::new(2).unwrap(), 1, SysCall::TerminateProcess);
    assert_eq!(actions, vec![Action::CloseConnection(Pid::new(2).unwrap())]);
    // The slot is free again.
    assert!(k.ss.take_process(Pid::new(2).unwrap()).is_none());
}

#[test]
fn scalar_call_blocks_until_server_returns_scalar2() {
    let mut k = kernel_with_processes(2);
    let client = Pid::new(1).unwrap();
    let server = Pid::new(2).unwrap();

    let actions = dispatch_step(&mut k, server, 1, SysCall::CreateServer(0x7777));
    assert_eq!(actions, vec![Action::Respond(server, 1, SysResult::Okay)]);

    let actions = dispatch_step(&mut k, client, 1, SysCall::Connect(0x7777));
    let cid = match actions[..] {
        [Action::Respond(p, 1, SysResult::Scalar1(cid))] if p == client => cid,
        _ => panic!("unexpected connect outcome: {:?}", actions),
    };

    // The blocking scalar call parks the client: no response yet.
    let msg = Message::Scalar(ScalarMessage { id: 42, arg1: 0, arg2: 0, arg3: 0, arg4: 0 });
    let actions = dispatch_step(&mut k, client, 9, SysCall::SendMessage(cid, msg));
    assert_eq!(actions, vec![]);

    // The server picks the message up...
    let actions = dispatch_step(&mut k, server, 1, SysCall::ReceiveMessage(0x7777));
    let token = match actions[..] {
        [Action::Respond(p, 1, SysResult::Message(token, Message::Scalar(m)))]
            if p == server && m.id == 42 => token,
        _ => panic!("unexpected receive outcome: {:?}", actions),
    };

    // ...and answers it: the client's reply carries the client's tid.
    let actions = dispatch_step(&mut k, server, 1, SysCall::ReturnScalar2(token, 0xfeed, 0xface));
    assert_eq!(
        actions,
        vec![
            Action::Respond(client, 9, SysResult::Scalar2(0xfeed, 0xface)),
            Action::Respond(server, 1, SysResult::Okay),
        ]
    );
}

#[test]
fn parked_receiver_is_woken_by_a_send() {
    let mut k = kernel_with_processes(2);
    let client = Pid::new(1).unwrap();
    let server = Pid::new(2).unwrap();
    dispatch_step(&mut k, server, 1, SysCall::CreateServer(1));
    // The receiver parks on an empty queue: no response now.
    let actions = dispatch_step(&mut k, server, 6, SysCall::ReceiveMessage(1));
    assert_eq!(actions, vec![]);
    // A send wakes it, addressed with the receiver's own tid.
    let msg = Message::Scalar(ScalarMessage { id: 1, arg1: 2, arg2: 3, arg3: 4, arg4: 5 });
    let actions = dispatch_step(&mut k, client, 2, SysCall::SendMessage(1, msg));
    assert_eq!(actions.len(), 1);
    match actions[0] {
        Action::Respond(p, 6, SysResult::Message(_, Message::Scalar(m))) if p == server => {
            assert_eq!(m.arg4, 5);
        },
        ref other => panic!("unexpected wake action: {:?}", other),
    }
}

#[test]
fn borrowed_buffer_round_trips_and_can_be_lent_again() {
    let mut k = kernel_with_processes(2);
    let client = Pid::new(1).unwrap();
    let server = Pid::new(2).unwrap();
    dispatch_step(&mut k, server, 1, SysCall::CreateServer(5));

    // Give the client a page-aligned buffer of one page.
    let buf = 0x2000_0000usize;
    let mut proc = k.ss.take_process(client).unwrap();
    let phys = k.mm.alloc_page(client).unwrap();
    map_page_inner(&mut k.mm, &mut proc.space, client, phys, buf, MEM_R | MEM_W, true).unwrap();
    k.ss.put_process(proc);

    // Lend it: the sender is parked, the receiver's copy lands in its
    // message window.
    let msg = Message::Borrow(MemoryMessage { id: 7, addr: buf, size: PAGE_SIZE, offset: 0, valid: PAGE_SIZE });
    let actions = dispatch_step(&mut k, client, 3, SysCall::SendMessage(1, msg));
    assert_eq!(actions, vec![]);

    let actions = dispatch_step(&mut k, server, 1, SysCall::ReceiveMessage(5));
    let (token, raddr, rsize) = match actions[..] {
        [Action::Respond(p, 1, SysResult::Message(token, Message::Borrow(m)))] if p == server => {
            (token, m.addr, m.size)
        },
        _ => panic!("unexpected receive outcome: {:?}", actions),
    };
    assert_eq!(raddr, DEFAULT_MESSAGE_BASE);
    assert_eq!(rsize, PAGE_SIZE);

    // The receiver returns the buffer; the parked sender gets its reply.
    let actions = dispatch_step(&mut k, server, 1, SysCall::ReturnMemory(token, raddr, rsize));
    assert_eq!(
        actions,
        vec![
            Action::Respond(client, 3, SysResult::Okay),
            Action::Respond(server, 1, SysResult::Okay),
        ]
    );

    // No stuck S bit: a second borrow of the same address succeeds.
    let msg = Message::Borrow(MemoryMessage { id: 8, addr: buf, size: PAGE_SIZE, offset: 0, valid: PAGE_SIZE });
    let actions = dispatch_step(&mut k, client, 4, SysCall::SendMessage(1, msg));
    assert_eq!(actions, vec![]);
}

#[test]
fn unaligned_buffers_and_bad_connections_are_refused() {
    let mut k = kernel_with_processes(2);
    let client = Pid::new(1).unwrap();
    let server = Pid::new(2).unwrap();
    dispatch_step(&mut k, server, 1, SysCall::CreateServer(5));

    let msg = Message::Borrow(MemoryMessage { id: 7, addr: 0x2000_0100, size: PAGE_SIZE, offset: 0, valid: 0 });
    let actions = dispatch_step(&mut k, client, 3, SysCall::SendMessage(1, msg));
    assert_eq!(
        actions,
        vec![Action::Respond(client, 3, SysResult::Error(Error::BadAlignment))]
    );

    let msg = Message::Scalar(ScalarMessage { id: 0, arg1: 0, arg2: 0, arg3: 0, arg4: 0 });
    let actions = dispatch_step(&mut k, client, 3, SysCall::SendMessage(99, msg));
    assert_eq!(
        actions,
        vec![Action::Respond(client, 3, SysResult::Error(Error::ServerNotFound))]
    );

    let actions = dispatch_step(&mut k, client, 3, SysCall::Connect(0xbad));
    assert_eq!(
        actions,
        vec![Action::Respond(client, 3, SysResult::Error(Error::ServerNotFound))]
    );

    let actions = dispatch_step(&mut k, client, 3, SysCall::ReturnScalar2(12345, 0, 0));
    assert_eq!(
        actions,
        vec![Action::Respond(client, 3, SysResult::Error(Error::ProcessNotFound))]
    );
}

#[test]
fn interleaved_scalar_calls_get_tid_matched_replies() {
    let mut k = kernel_with_processes(3);
    let a = Pid::new(1).unwrap();
    let b = Pid::new(2).unwrap();
    let server = Pid::new(3).unwrap();
    dispatch_step(&mut k, server, 1, SysCall::CreateServer(1));

    for round in 0..100usize {
        for (who, tid) in [(a, 2 * round + 1), (b, 2 * round + 2)] {
            let msg = Message::Scalar(ScalarMessage { id: round, arg1: 0, arg2: 0, arg3: 0, arg4: 0 });
            let actions = dispatch_step(&mut k, who, tid, SysCall::SendMessage(1, msg));
            assert_eq!(actions, vec![]);
            let actions = dispatch_step(&mut k, server, 1, SysCall::ReceiveMessage(1));
            let token = match actions[..] {
                [Action::Respond(_, 1, SysResult::Message(token, _))] => token,
                _ => panic!("unexpected receive outcome: {:?}", actions),
            };
            let actions =
                dispatch_step(&mut k, server, 1, SysCall::ReturnScalar2(token, round, round));
            // The reply goes to the caller that made this request, with
            // exactly the tid of that request.
            assert_eq!(actions[0], Action::Respond(who, tid, SysResult::Scalar2(round, round)));
        }
    }
}

#[test]
fn materialized_payload_lands_in_the_sender_space() {
    let mut k = kernel_with_processes(1);
    let client = Pid::new(1).unwrap();
    let data: Vec<u8> = (0..PAGE_SIZE).map(|i| (i % 251) as u8).collect();
    let addr = kernel_core::dispatch::materialize_payload(&mut k, client, &data).unwrap();
    assert_eq!(addr % PAGE_SIZE, 0);
    // The bytes are now readable through the sender's address space.
    let proc = k.ss.take_process(client).unwrap();
    assert_eq!(k.ram.read_byte(&proc.space, addr).unwrap(), 0);
    assert_eq!(k.ram.read_byte(&proc.space, addr + 500).unwrap(), (500 % 251) as u8);
    k.ss.put_process(proc);
    // An address is only rewritten into memory envelopes.
    let msg = Message::Borrow(MemoryMessage { id: 1, addr: 0xdead000, size: PAGE_SIZE, offset: 0, valid: 0 });
    let call = kernel_core::dispatch::rewrite_message_addr(SysCall::SendMessage(1, msg), addr);
    match call {
        SysCall::SendMessage(1, Message::Borrow(m)) => assert_eq!(m.addr, addr),
        other => panic!("unexpected rewrite: {:?}", other),
    }
    assert_eq!(
        kernel_core::dispatch::rewrite_message_addr(SysCall::Yield, addr),
        SysCall::Yield
    );
    // A payload that is not a whole number of pages is refused.
    let odd: Vec<u8> = vec![1, 2, 3];
    assert_eq!(
        kernel_core::dispatch::materialize_payload(&mut k, client, &odd),
        Err(Error::BadAlignment)
    );
}

#[test]
fn moved_buffer_changes_frame_ownership() {
    let mut k = kernel_with_processes(2);
    let client = Pid::new(1).unwrap();
    let server = Pid::new(2).unwrap();
    dispatch_step(&mut k, server, 1, SysCall::CreateServer(5));

    let buf = 0x2000_0000usize;
    let mut proc = k.ss.take_process(client).unwrap();
    let phys = k.mm.alloc_page(client).unwrap();
    map_page_inner(&mut k.mm, &mut proc.space, client, phys, buf, MEM_R | MEM_W, true).unwrap();
    k.ss.put_process(proc);
    assert_eq!(k.mm.owner_of(phys).unwrap(), client);

    // A move completes at once: the sender is not parked.
    let msg = Message::Move(MemoryMessage { id: 7, addr: buf, size: PAGE_SIZE, offset: 0, valid: PAGE_SIZE });
    let actions = dispatch_step(&mut k, client, 3, SysCall::SendMessage(1, msg));
    assert_eq!(actions, vec![Action::Respond(client, 3, SysResult::Okay)]);
    // Ownership of the frame moved to the receiver, and the sender lost
    // its mapping.
    assert_eq!(k.mm.owner_of(phys).unwrap(), server);
    let proc = k.ss.take_process(client).unwrap();
    assert!(kernel_core::mem::address_available(&proc.space, buf));
    k.ss.put_process(proc);
}

#[test]
fn yield_responds_ok() {
    let mut k = kernel_with_processes(1);
    let actions = dispatch_step(&mut k, Pid::new(1).unwrap(), 1, SysCall::Yield);
    assert_eq!(
        actions,
        vec![Action::Respond(Pid::new(1).unwrap(), 1, SysResult::Okay)]
    );
}

#[test]
fn materialize_without_memory_reports_exhaustion() {
    // Two frames: the root table of PID 1 takes one; a one-page payload
    // needs a leaf-table frame and a page frame, so it cannot fit.
    let mut k = Kernel::new(2);
    let client = k.ss.create_process(&mut k.mm, key(1)).unwrap();
    let data: Vec<u8> = vec![7; PAGE_SIZE];
    assert_eq!(
        kernel_core::dispatch::materialize_payload(&mut k, client, &data),
        Err(Error::OutOfMemory)
    );
}
