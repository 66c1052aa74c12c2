use clock::{
    configure_timer, sys_wait, HandlerStatus, HardwareError, Handler, Hook, HookHandler, InitError,
    IrqTable, Kernel, PortWrite, RegistrationError, CLOCK_IRQ, CLOCK_TASK, HZ, IRQ_REENABLE,
    MAX_HOOK_IDS, SQUARE_WAVE, TIMER0, TIMER_FREQUENCY, TIMER_MODE,
};

/// Answers for external hooks by token, and records the order of the calls.
struct Scripted {
    answers: Vec<(u64, HandlerStatus)>,
    calls: Vec<u64>,
}

impl HookHandler for Scripted {
    fn handle(&mut self, hook: &Hook) -> HandlerStatus {
        let token = match hook.handler {
            Handler::External(t) => t,
            Handler::ClockTick => panic!("the clock hook is run by the kernel"),
        };
        self.calls.push(hook.id);
        for (t, s) in &self.answers {
            if *t == token {
                return *s;
            }
        }
        HandlerStatus::Continue
    }
}

fn scripted(answers: Vec<(u64, HandlerStatus)>) -> Scripted {
    Scripted { answers, calls: Vec::new() }
}

fn started_kernel() -> Kernel {
    let mut k = Kernel::new();
    assert_eq!(k.init_clock(Ok(())), Ok(1));
    k
}

#[test]
fn configure_timer_writes_mode_then_divisor_bytes() {
    let w = configure_timer(60);
    assert_eq!(
        w,
        vec![
            PortWrite { port: 0x43, value: 0x36 },
            PortWrite { port: 0x40, value: 0xAE },
            PortWrite { port: 0x40, value: 0x4D },
        ]
    );
    let data: Vec<u8> = w.iter().filter(|p| p.port == TIMER0).map(|p| p.value).collect();
    let divisor = data[0] as u32 | ((data[1] as u32) << 8);
    assert_eq!(divisor, 1193182 / 60);
    assert_eq!(divisor, 19886);
}

#[test]
fn configure_timer_at_other_rates() {
    let w = configure_timer(1000);
    assert_eq!(w[0], PortWrite { port: TIMER_MODE, value: SQUARE_WAVE });
    assert_eq!(w[1], PortWrite { port: TIMER0, value: 0xA9 });
    assert_eq!(w[2], PortWrite { port: TIMER0, value: 0x04 });
    let w = configure_timer(TIMER_FREQUENCY);
    assert_eq!(w[1].value, 1);
    assert_eq!(w[2].value, 0);
    let w = configure_timer(18);
    // 1193182 / 18 = 66287 = 0x102EF: the low 16 bits are written
    assert_eq!(w[1].value, 0xEF);
    assert_eq!(w[2].value, 0x02);
}

#[test]
fn clock_program_uses_the_clock_rate() {
    assert_eq!(Kernel::clock_timer_program(), configure_timer(HZ));
}

#[test]
fn hundred_timer_interrupts_count_hundred_ticks() {
    let mut k = started_kernel();
    assert_eq!(k.current_tick_count(), 0);
    let mut ext = scripted(vec![]);
    for _ in 0..100 {
        let r = k.dispatch(CLOCK_IRQ, &mut ext);
        assert_eq!(r.invoked, vec![1]);
        assert_eq!(r.statuses, vec![HandlerStatus::Continue]);
        assert!(!r.rearm);
    }
    assert_eq!(k.current_tick_count(), 100);
    assert!(ext.calls.is_empty());
}

#[test]
fn init_clock_registers_enabled_clock_hook() {
    let mut k = Kernel::new();
    assert!(!k.is_running());
    assert!(!k.table().is_enabled(CLOCK_IRQ));
    assert_eq!(k.init_clock(Ok(())), Ok(1));
    assert!(k.is_running());
    assert!(k.table().is_enabled(CLOCK_IRQ));
    let h = k.table().hook(1).unwrap();
    assert_eq!(h.irq, CLOCK_IRQ);
    assert_eq!(h.handler, Handler::ClockTick);
    assert_eq!(h.owner_context, Some(CLOCK_TASK));
    assert_eq!(h.policy, IRQ_REENABLE);
    // starting again keeps the one hook
    assert_eq!(k.init_clock(Ok(())), Ok(1));
    assert_eq!(k.table().chain_len(CLOCK_IRQ), 1);
}

#[test]
fn init_clock_hands_back_port_failure() {
    let mut k = Kernel::new();
    let e = HardwareError { port: TIMER_MODE, code: -5 };
    assert_eq!(k.init_clock(Err(e)), Err(InitError::Hardware(e)));
    assert!(!k.is_running());
    assert_eq!(k.table().chain_len(CLOCK_IRQ), 0);
}

#[test]
fn init_clock_fails_when_table_is_full() {
    let mut k = Kernel::new();
    for i in 0..MAX_HOOK_IDS {
        assert!(k.register(5, Handler::External(i), None, 0).is_ok());
    }
    assert_eq!(
        k.init_clock(Ok(())),
        Err(InitError::Registration(RegistrationError::TableFull))
    );
    assert!(!k.is_running());
}

#[test]
fn registrations_up_to_the_limit_take_distinct_ids() {
    let mut t = IrqTable::new();
    let mut ids: Vec<u64> = Vec::new();
    for i in 0..MAX_HOOK_IDS {
        let line = (i as usize) % 16;
        let id = t.register(line, Handler::External(i), None, 0).unwrap();
        assert!(!ids.contains(&id));
        assert!((1..=MAX_HOOK_IDS).contains(&id));
        ids.push(id);
    }
    assert_eq!(ids.len(), 64);
    assert_eq!(
        t.register(3, Handler::External(1000), None, 0),
        Err(RegistrationError::TableFull)
    );
    assert_eq!(t.chain_len(3), 4);
}

#[test]
fn invalid_line_is_refused() {
    let mut t = IrqTable::new();
    assert_eq!(
        t.register(16, Handler::External(1), None, 0),
        Err(RegistrationError::InvalidLine)
    );
    assert!(!t.id_in_use(1));
}

#[test]
fn registering_same_pair_twice_returns_same_id() {
    let mut t = IrqTable::new();
    let a = t.register(4, Handler::External(9), Some(12), 0).unwrap();
    assert_eq!(t.chain_len(4), 1);
    let b = t.register(4, Handler::External(9), Some(12), 0).unwrap();
    assert_eq!(a, b);
    assert_eq!(t.chain_len(4), 1);
    // another owner context is another hook
    let c = t.register(4, Handler::External(9), Some(13), 0).unwrap();
    assert_ne!(a, c);
    assert_eq!(t.chain_len(4), 2);
}

#[test]
fn unregister_shortens_chain_and_frees_id() {
    let mut t = IrqTable::new();
    let a = t.register(7, Handler::External(1), None, 0).unwrap();
    let b = t.register(7, Handler::External(2), None, 0).unwrap();
    let c = t.register(7, Handler::External(3), None, 0).unwrap();
    assert_eq!((a, b, c), (1, 2, 3));
    t.unregister(b);
    assert_eq!(t.chain_len(7), 2);
    assert_eq!(t.chain(7), vec![3, 1]);
    assert!(!t.id_in_use(b));
    assert_eq!(t.hook(b), None);
    let d = t.register(2, Handler::External(4), None, 0).unwrap();
    assert_eq!(d, b);
}

#[test]
fn unregister_unknown_id_changes_nothing() {
    let mut t = IrqTable::new();
    t.register(1, Handler::External(1), None, 0).unwrap();
    t.register(1, Handler::External(2), Some(4), 1).unwrap();
    let before = t.chain(1);
    t.unregister(0);
    t.unregister(9);
    t.unregister(65);
    t.unregister(u64::MAX);
    assert_eq!(t.chain(1), before);
    assert!(t.id_in_use(1) && t.id_in_use(2));
    assert!(t.is_enabled(1));
}

#[test]
fn newest_hook_runs_first() {
    let mut t = IrqTable::new();
    t.register(3, Handler::External(1), None, 0).unwrap();
    t.register(3, Handler::External(2), None, 0).unwrap();
    t.register(3, Handler::External(3), None, 0).unwrap();
    assert_eq!(t.chain(3), vec![3, 2, 1]);
}

#[test]
fn failing_hook_does_not_stop_the_others() {
    let mut k = Kernel::new();
    for token in 1..=4 {
        k.register(9, Handler::External(token), None, 0).unwrap();
    }
    // chain is [4, 3, 2, 1]; hook 3 fails
    let mut ext = scripted(vec![(3, HandlerStatus::HandlerError(-1))]);
    let r = k.dispatch(9, &mut ext);
    assert_eq!(r.invoked, vec![4, 3, 2, 1]);
    assert_eq!(ext.calls, vec![4, 3, 2, 1]);
    assert_eq!(
        r.statuses,
        vec![
            HandlerStatus::Continue,
            HandlerStatus::HandlerError(-1),
            HandlerStatus::Continue,
            HandlerStatus::Continue,
        ]
    );
    assert!(!r.rearm);
}

#[test]
fn rearm_request_ends_the_walk() {
    let mut k = Kernel::new();
    for token in 1..=3 {
        k.register(2, Handler::External(token), None, 0).unwrap();
    }
    let mut ext = scripted(vec![(2, HandlerStatus::ReenableRequested)]);
    let r = k.dispatch(2, &mut ext);
    assert_eq!(r.invoked, vec![3, 2]);
    assert_eq!(ext.calls, vec![3, 2]);
    assert!(r.rearm);
}

#[test]
fn dispatch_of_empty_line_runs_nothing() {
    let mut k = Kernel::new();
    let mut ext = scripted(vec![]);
    let r = k.dispatch(11, &mut ext);
    assert!(r.invoked.is_empty() && r.statuses.is_empty() && !r.rearm);
}

#[test]
fn shared_timer_line_runs_both_hooks() {
    let mut k = started_kernel();
    k.register(CLOCK_IRQ, Handler::External(77), None, 0).unwrap();
    let mut ext = scripted(vec![]);
    let r = k.dispatch(CLOCK_IRQ, &mut ext);
    assert_eq!(r.invoked, vec![2, 1]);
    assert_eq!(k.current_tick_count(), 1);
    // a rearm request from the newer hook keeps the clock from running
    let mut ext = scripted(vec![(77, HandlerStatus::ReenableRequested)]);
    let r = k.dispatch(CLOCK_IRQ, &mut ext);
    assert_eq!(r.invoked, vec![2]);
    assert_eq!(k.current_tick_count(), 1);
}

#[test]
fn status_from_code() {
    assert_eq!(HandlerStatus::from_code(0), HandlerStatus::Continue);
    assert_eq!(HandlerStatus::from_code(3), HandlerStatus::ReenableRequested);
    assert_eq!(HandlerStatus::from_code(-7), HandlerStatus::HandlerError(-7));
}

#[test]
fn line_enable_follows_owner_and_chain() {
    let mut t = IrqTable::new();
    let owned = t.register(6, Handler::External(1), Some(40), 0).unwrap();
    assert!(!t.is_enabled(6));
    t.enable_irq(owned);
    assert!(t.is_enabled(6));
    let internal = t.register(8, Handler::External(2), None, 0).unwrap();
    assert!(t.is_enabled(8));
    t.unregister(internal);
    assert!(!t.is_enabled(8));
    assert_eq!(t.chain_len(8), 0);
    t.unregister(owned);
    assert!(!t.is_enabled(6));
}

#[test]
fn clock_handler_counts_one_tick() {
    let mut k = started_kernel();
    let hook = k.table().hook(1).unwrap();
    assert_eq!(k.clock_handler(&hook), HandlerStatus::Continue);
    assert_eq!(k.current_tick_count(), 1);
}

#[test]
fn wait_returns() {
    sys_wait();
}
