use coopcore::kernel::{HandlerAction, Kernel, Status, Op};

#[test]
fn ten_firings_toggle_back_to_initial() {
    let mut k = Kernel::new();
    let f = k.add_flag(Some(false));
    let irq = k.register_irq(HandlerAction::ToggleFlag(f));
    k.unmask(irq);
    for _ in 0..10 {
        k.fire_irq(irq, 0);
    }
    // An even number of toggles leaves the cell at its initial value.
    assert_eq!(*k.flags[f].peek(), Some(false));
    k.fire_irq(irq, 0);
    assert_eq!(*k.flags[f].peek(), Some(true));
}

#[test]
fn toggle_of_unpopulated_cell_is_skipped() {
    let mut k = Kernel::new();
    let f = k.add_flag(None);
    let irq = k.register_irq(HandlerAction::ToggleFlag(f));
    k.unmask(irq);
    k.fire_irq(irq, 0);
    // Finding the cell unpopulated during a start-up race is valid:
    // the handler skips its action instead of failing.
    assert_eq!(*k.flags[f].peek(), None);
}

#[test]
fn masked_line_only_records_pending() {
    let mut k = Kernel::new();
    let f = k.add_flag(Some(false));
    let irq = k.register_irq(HandlerAction::ToggleFlag(f));
    // Lines start masked; three firings coalesce into one pending mark.
    k.fire_irq(irq, 0);
    k.fire_irq(irq, 0);
    k.fire_irq(irq, 0);
    assert_eq!(*k.flags[f].peek(), Some(false));
    assert_eq!(k.irqs[irq].pending, Some(0));
    k.unmask(irq);
    // Unmasking delivers the pending firing exactly once.
    assert_eq!(*k.flags[f].peek(), Some(true));
    assert_eq!(k.irqs[irq].pending, None);
    k.fire_irq(irq, 0);
    assert_eq!(*k.flags[f].peek(), Some(false));
}

#[test]
fn handler_stores_sampled_value() {
    let mut k = Kernel::new();
    let s = k.add_cell(None);
    let irq = k.register_irq(HandlerAction::StoreSample(s));
    k.unmask(irq);
    k.fire_irq(irq, 4095);
    assert_eq!(*k.cells[s].peek(), Some(4095));
    k.fire_irq(irq, 77);
    assert_eq!(*k.cells[s].peek(), Some(77));
}

#[test]
fn handler_push_feeds_a_task() {
    let mut k = Kernel::new();
    let c = k.add_channel(2);
    let irq = k.register_irq(HandlerAction::PushChannel(c));
    k.unmask(irq);
    let t = k.spawn(vec![Op::Recv(c), Op::Recv(c)]);
    k.fire_irq(irq, 5);
    k.fire_irq(irq, 6);
    k.run(10);
    assert_eq!(k.tasks[t].received, vec![5, 6]);
    assert_eq!(k.tasks[t].status, Status::Done);
}

#[test]
fn handler_never_blocks_on_full_channel() {
    let mut k = Kernel::new();
    let c = k.add_channel(1);
    let irq = k.register_irq(HandlerAction::PushChannel(c));
    k.unmask(irq);
    k.fire_irq(irq, 1);
    // The channel is full: the handler runs to completion anyway and
    // the message is dropped rather than the handler waiting.
    k.fire_irq(irq, 2);
    assert_eq!(k.channels[c].len(), 1);
    let got = k.channels[c].try_recv();
    assert_eq!(got, Some(1));
}

#[test]
fn periodic_tick_fires_once_per_interval() {
    let mut k = Kernel::new();
    let c = k.add_channel(100);
    let irq = k.register_irq(HandlerAction::PushChannel(c));
    k.unmask(irq);
    k.set_tick(irq, 5, 5);
    // Over a window of ten intervals the tick fires exactly ten times.
    let fires = k.advance_time(50);
    assert_eq!(fires, 10);
    assert_eq!(k.channels[c].len(), 10);
    // Nothing more falls due before the next interval boundary.
    let fires = k.advance_time(4);
    assert_eq!(fires, 0);
    let fires = k.advance_time(1);
    assert_eq!(fires, 1);
}

#[test]
fn tick_drives_heartbeat_toggle() {
    let mut k = Kernel::new();
    let f = k.add_flag(Some(false));
    let irq = k.register_irq(HandlerAction::ToggleFlag(f));
    k.unmask(irq);
    k.set_tick(irq, 10, 10);
    let fires = k.advance_time(100);
    assert_eq!(fires, 10);
    assert_eq!(*k.flags[f].peek(), Some(false));
    let fires = k.advance_time(10);
    assert_eq!(fires, 1);
    assert_eq!(*k.flags[f].peek(), Some(true));
}

#[test]
fn masked_tick_leaves_state_untouched() {
    let mut k = Kernel::new();
    let c = k.add_channel(4);
    let irq = k.register_irq(HandlerAction::PushChannel(c));
    k.set_tick(irq, 5, 5);
    let fires = k.advance_time(20);
    assert_eq!(fires, 4);
    assert_eq!(k.channels[c].len(), 0);
    assert_eq!(k.irqs[irq].pending, Some(0));
}
