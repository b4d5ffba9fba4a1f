use coopcore::kernel::{HandlerAction, Kernel, Op, Status, WaitOp};

#[test]
fn select_first_listed_wins_when_both_ready() {
    let mut k = Kernel::new();
    let a = k.add_channel(4);
    let b = k.add_channel(4);
    let irq_a = k.register_irq(HandlerAction::PushChannel(a));
    let irq_b = k.register_irq(HandlerAction::PushChannel(b));
    k.unmask(irq_a);
    k.unmask(irq_b);
    // Make both channels ready before the waiting task is ever polled.
    k.fire_irq(irq_a, 111);
    k.fire_irq(irq_b, 222);
    let t = k.spawn(vec![Op::Select(vec![WaitOp::Recv(a), WaitOp::Recv(b)])]);
    k.pass();
    assert_eq!(k.tasks[t].winners, vec![0]);
    assert_eq!(k.tasks[t].received, vec![111]);
    assert_eq!(k.tasks[t].status, Status::Done);
    // The losing branch is left as it was: channel b still holds its
    // message and can be awaited again later.
    assert_eq!(k.channels[b].len(), 1);
    assert_eq!(k.channels[a].len(), 0);
}

#[test]
fn select_takes_later_branch_when_first_not_ready() {
    let mut k = Kernel::new();
    let a = k.add_channel(4);
    let b = k.add_channel(4);
    let irq_b = k.register_irq(HandlerAction::PushChannel(b));
    k.unmask(irq_b);
    k.fire_irq(irq_b, 9);
    let t = k.spawn(vec![Op::Select(vec![WaitOp::Recv(a), WaitOp::Recv(b)])]);
    k.pass();
    assert_eq!(k.tasks[t].winners, vec![1]);
    assert_eq!(k.tasks[t].received, vec![9]);
}

#[test]
fn select_timer_branch_resolves_after_elapse() {
    let mut k = Kernel::new();
    let a = k.add_channel(1);
    let t = k.spawn(vec![Op::Select(vec![WaitOp::Recv(a), WaitOp::Elapsed(10)])]);
    k.pass();
    assert_eq!(k.tasks[t].status, Status::Blocked);
    k.advance_time(9);
    k.pass();
    assert_eq!(k.tasks[t].status, Status::Blocked);
    k.advance_time(1);
    k.pass();
    assert_eq!(k.tasks[t].status, Status::Done);
    assert_eq!(k.tasks[t].winners, vec![1]);
    assert!(k.tasks[t].received.is_empty());
}

#[test]
fn select_edge_wait_beats_timer_and_clears_flag() {
    let mut k = Kernel::new();
    let f = k.add_flag(Some(false));
    let irq = k.register_irq(HandlerAction::SetFlag(f, true));
    k.unmask(irq);
    let t = k.spawn(vec![Op::Select(vec![WaitOp::Flag(f), WaitOp::Elapsed(100)])]);
    k.pass();
    assert_eq!(k.tasks[t].status, Status::Blocked);
    // A button edge arrives: the edge branch wins before the timeout,
    // and completing it acknowledges (clears) the flag.
    k.fire_irq(irq, 0);
    k.advance_time(1);
    k.pass();
    assert_eq!(k.tasks[t].status, Status::Done);
    assert_eq!(k.tasks[t].winners, vec![0]);
    assert_eq!(*k.flags[f].peek(), Some(false));
}

#[test]
fn full_channel_suspends_sender_until_receive_in_same_pass() {
    let mut k = Kernel::new();
    let c = k.add_channel(1);
    let sender = k.spawn(vec![Op::Send(c, 1), Op::Send(c, 2)]);
    let receiver = k.spawn(vec![Op::Sleep(1), Op::Recv(c)]);
    k.pass();
    // First send filled the single slot; the receiver armed its sleep.
    assert_eq!(k.channels[c].len(), 1);
    k.pass();
    // Second send found the channel full: the sender is suspended.
    assert_eq!(k.tasks[sender].status, Status::Blocked);
    assert_eq!(k.tasks[sender].pc, 1);
    k.advance_time(1);
    k.pass();
    // The receiver's sleep expired; the sender is still suspended.
    assert_eq!(k.tasks[sender].status, Status::Blocked);
    // Poll the sender first: the channel is still full, no progress.
    assert!(!k.poll_task(sender));
    assert_eq!(k.tasks[sender].status, Status::Blocked);
    // The receive drains the slot, and the suspended sender resumes
    // within this same scheduler pass, without being polled again.
    assert!(k.poll_task(receiver));
    assert_eq!(k.tasks[receiver].received, vec![1]);
    assert_eq!(k.tasks[sender].pc, 2);
    assert_eq!(k.tasks[sender].status, Status::Done);
    assert_eq!(k.channels[c].len(), 1);
    let got = k.channels[c].try_recv();
    assert_eq!(got, Some(2));
}

#[test]
fn two_producers_interleave_without_loss_or_reorder() {
    let mut k = Kernel::new();
    let c = k.add_channel(8);
    let mut prog_a: Vec<Op> = Vec::new();
    for v in 0..50u32 {
        prog_a.push(Op::Send(c, v));
    }
    let mut prog_b: Vec<Op> = Vec::new();
    for v in 1000..1050u32 {
        prog_b.push(Op::Send(c, v));
    }
    let mut prog_consumer: Vec<Op> = Vec::new();
    for _ in 0..100 {
        prog_consumer.push(Op::Recv(c));
    }
    let a = k.spawn(prog_a);
    let b = k.spawn(prog_b);
    let consumer = k.spawn(prog_consumer);
    k.run(1000);
    assert_eq!(k.tasks[a].status, Status::Done);
    assert_eq!(k.tasks[b].status, Status::Done);
    assert_eq!(k.tasks[consumer].status, Status::Done);
    let got = &k.tasks[consumer].received;
    assert_eq!(got.len(), 100);
    let from_a: Vec<u32> = got.iter().copied().filter(|v| *v < 1000).collect();
    let from_b: Vec<u32> = got.iter().copied().filter(|v| *v >= 1000).collect();
    let want_a: Vec<u32> = (0..50).collect();
    let want_b: Vec<u32> = (1000..1050).collect();
    assert_eq!(from_a, want_a);
    assert_eq!(from_b, want_b);
    assert_eq!(k.channels[c].len(), 0);
}

#[test]
fn empty_program_is_done_at_spawn() {
    let mut k = Kernel::new();
    let t = k.spawn(Vec::new());
    assert_eq!(k.tasks[t].status, Status::Done);
    assert_eq!(k.pass(), 0);
}

#[test]
fn run_stops_when_no_task_can_progress() {
    let mut k = Kernel::new();
    let c = k.add_channel(1);
    let t = k.spawn(vec![Op::Recv(c)]);
    let made = k.run(100);
    assert_eq!(made, 0);
    assert_eq!(k.tasks[t].status, Status::Blocked);
}

#[test]
fn task_flag_writes_reach_waiters() {
    let mut k = Kernel::new();
    let f = k.add_flag(Some(false));
    let c = k.add_channel(1);
    let waiter = k.spawn(vec![Op::WaitFlag(f), Op::Send(c, 9)]);
    let setter = k.spawn(vec![Op::Sleep(1), Op::SetFlag(f, true)]);
    k.pass();
    assert_eq!(k.tasks[waiter].status, Status::Blocked);
    k.advance_time(1);
    k.run(10);
    // The waiter consumed the flag (clearing it, like acknowledging an
    // edge) and then sent its message.
    assert_eq!(*k.flags[f].peek(), Some(false));
    assert_eq!(k.tasks[waiter].status, Status::Done);
    let got = k.channels[c].try_recv();
    assert_eq!(got, Some(9));
}
