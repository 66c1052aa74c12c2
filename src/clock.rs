//! The kernel's interrupt state: the hook table, the tick counter and the
//! clock tick handler, and the dispatch of a firing line.
use vstd::prelude::*;
use crate::dispatch::{dispatch_walk, DispatchReport, HandlerStatus, HookHandler};
use crate::table::{
    valid_line, Handler, Hook, IrqTable, RegistrationError, TableModel, CLOCK_IRQ,
    IRQ_REENABLE,
};
use crate::timer::{configure_timer, timer_program, PortWrite, HZ};

verus! {

/// Task number of the clock, the owner context of the clock hook.
pub const CLOCK_TASK: i32 = -3;

/// A port write that failed.
#[derive(Clone, Copy, Debug, PartialEq, Eq, Structural)]
pub struct HardwareError {
    pub port: u16,
    pub code: i32,
}

/// Why the clock could not be started.
#[derive(Clone, Copy, Debug, PartialEq, Eq, Structural)]
pub enum InitError {
    /// Programming the timer failed.
    Hardware(HardwareError),
    /// The clock hook could not be registered.
    Registration(RegistrationError),
}

/// The abstract state of a `Kernel`.
pub ghost struct KernelModel {
    pub table: TableModel,
    /// Timer interrupts counted since boot.
    pub ticks: u64,
    /// The clock has been started.
    pub running: bool,
}

/// `t` advanced by `n` ticks; the counter stays at its maximum once there.
pub open spec fn ticks_after(t: u64, n: nat) -> u64 {
    if t + n > u64::MAX {
        u64::MAX
    } else {
        (t + n) as u64
    }
}

/// How many of the hooks `ids` run the clock tick handler.
pub open spec fn clock_hooks(hooks: Map<u64, Hook>, ids: Seq<u64>) -> nat
    decreases ids.len(),
{
    if ids.len() == 0 {
        0
    } else {
        clock_hooks(hooks, ids.drop_last()) + if hooks[ids.last()].handler is ClockTick {
            1nat
        } else {
            0nat
        }
    }
}

/// What `init_clock` returns and leaves behind, given how programming the
/// timer went.
pub open spec fn init_outcome(
    pre: KernelModel,
    timer_programmed: Result<(), HardwareError>,
    post: KernelModel,
    r: Result<u64, InitError>,
) -> bool {
    match timer_programmed {
        Err(e) => r == Err::<u64, InitError>(InitError::Hardware(e)) && post == pre,
        Ok(_) => match r {
            Ok(id) => exists|mid: TableModel|
                {
                    &&& #[trigger] pre.table.register_outcome(
                        CLOCK_IRQ as int,
                        Handler::ClockTick,
                        Some(CLOCK_TASK),
                        IRQ_REENABLE,
                        mid,
                        Ok(id),
                    )
                    &&& post == KernelModel {
                        table: mid.with_line_enabled(id),
                        ticks: pre.ticks,
                        running: true,
                    }
                },
            Err(InitError::Registration(e)) => pre.table.register_outcome(
                CLOCK_IRQ as int,
                Handler::ClockTick,
                Some(CLOCK_TASK),
                IRQ_REENABLE,
                pre.table,
                Err(e),
            ) && post == pre,
            Err(InitError::Hardware(_)) => false,
        },
    }
}

/// The interrupt state of the kernel: created once at boot.
pub struct Kernel {
    table: IrqTable,
    ticks: u64,
    running: bool,
}

impl View for Kernel {
    type V = KernelModel;

    closed spec fn view(&self) -> KernelModel {
        KernelModel { table: self.table@, ticks: self.ticks, running: self.running }
    }
}

impl Kernel {
    pub closed spec fn wf(&self) -> bool {
        self.table.wf()
    }

    /// The state at boot: no hooks, every line masked, no tick counted, the
    /// clock not started.
    pub fn new() -> (r: Kernel)
        ensures
            r.wf(),
            r@.hooks_empty(),
            r@.ticks == 0,
            !r@.running,
    {
        Kernel { table: IrqTable::new(), ticks: 0, running: false }
    }

    /// The port writes that program the timer at the clock's tick rate.
    pub fn clock_timer_program() -> (r: Vec<PortWrite>)
        ensures
            r@ == timer_program(HZ),
    {
        configure_timer(HZ)
    }

    /// Starts the clock once the timer has been programmed with
    /// `clock_timer_program` (`timer_programmed` says how that went): the
    /// clock tick handler is registered on the timer line with the
    /// auto-reenable policy, the line is enabled, and the hook's id is
    /// returned. A failed port write is handed back as `Hardware`; a
    /// registration that fails as `Registration`. On failure nothing
    /// changes. Starting a running clock again keeps its hook.
    pub fn init_clock(&mut self, timer_programmed: Result<(), HardwareError>) -> (r: Result<u64, InitError>)
        requires
            old(self).wf(),
        ensures
            final(self).wf(),
            init_outcome(old(self)@, timer_programmed, final(self)@, r),
    {
        if let Err(e) = timer_programmed {
            return Err(InitError::Hardware(e));
        }
        let ghost pre = self@;
        match self.table.register(CLOCK_IRQ, Handler::ClockTick, Some(CLOCK_TASK), IRQ_REENABLE) {
            Ok(id) => {
                let ghost mid = self.table@;
                self.table.enable_irq(id);
                self.running = true;
                assert(pre.table.register_outcome(
                    CLOCK_IRQ as int,
                    Handler::ClockTick,
                    Some(CLOCK_TASK),
                    IRQ_REENABLE,
                    mid,
                    Ok(id),
                ));
                Ok(id)
            },
            Err(e) => Err(InitError::Registration(e)),
        }
    }

    /// `IrqTable::register` on the kernel's table.
    pub fn register(
        &mut self,
        irq: usize,
        handler: Handler,
        owner_context: Option<i32>,
        policy: u32,
    ) -> (r: Result<u64, RegistrationError>)
        requires
            old(self).wf(),
        ensures
            final(self).wf(),
            old(self)@.table.register_outcome(
                irq as int,
                handler,
                owner_context,
                policy,
                final(self)@.table,
                r,
            ),
            final(self)@.ticks == old(self)@.ticks,
            final(self)@.running == old(self)@.running,
    {
        self.table.register(irq, handler, owner_context, policy)
    }

    /// `IrqTable::unregister` on the kernel's table.
    pub fn unregister(&mut self, id: u64)
        requires
            old(self).wf(),
        ensures
            final(self).wf(),
            old(self)@.table.unregister_outcome(id, final(self)@.table),
            final(self)@.ticks == old(self)@.ticks,
            final(self)@.running == old(self)@.running,
    {
        self.table.unregister(id)
    }

    /// `IrqTable::enable_irq` on the kernel's table.
    pub fn enable_irq(&mut self, id: u64)
        requires
            old(self).wf(),
        ensures
            final(self).wf(),
            final(self)@.table == old(self)@.table.with_line_enabled(id),
            final(self)@.ticks == old(self)@.ticks,
            final(self)@.running == old(self)@.running,
    {
        self.table.enable_irq(id)
    }

    /// The clock tick handler: counts one tick and lets the dispatch go on.
    pub fn clock_handler(&mut self, hook: &Hook) -> (r: HandlerStatus)
        requires
            old(self).wf(),
        ensures
            final(self).wf(),
            final(self)@ == old(self)@.with_ticks(ticks_after(old(self)@.ticks, 1)),
            r == HandlerStatus::Continue,
    {
        self.ticks = self.ticks.saturating_add(1);
        HandlerStatus::Continue
    }

    /// Timer interrupts counted since boot.
    pub fn current_tick_count(&self) -> (r: u64)
        ensures
            r == self@.ticks,
    {
        self.ticks
    }

    /// Whether the clock has been started.
    pub fn is_running(&self) -> (r: bool)
        ensures
            r == self@.running,
    {
        self.running
    }

    /// The hook table.
    pub fn table(&self) -> (r: &IrqTable)
        requires
            self.wf(),
        ensures
            r.wf(),
            r@ == self@.table,
    {
        &self.table
    }

    /// Dispatches a firing of `irq`: walks its chain from head to tail and
    /// runs each hook's handler, the clock tick handler here and the others
    /// through `external`, until one asks for the line to be rearmed. A
    /// handler that fails does not stop the walk.
    pub fn dispatch<H: HookHandler>(&mut self, irq: usize, external: &mut H) -> (r: DispatchReport)
        requires
            old(self).wf(),
            valid_line(irq as int),
        ensures
            final(self).wf(),
            dispatch_walk(old(self)@.table.chains[irq as int], r.invoked@, r.statuses@, r.rearm),
            forall|i: int|
                0 <= i < r.invoked@.len() && (#[trigger] old(self)@.table.hooks[r.invoked@[i]]).handler
                    is ClockTick ==> r.statuses@[i] == HandlerStatus::Continue,
            final(self)@ == old(self)@.with_ticks(
                ticks_after(old(self)@.ticks, clock_hooks(old(self)@.table.hooks, r.invoked@)),
            ),
    {
        let ghost pre = self@;
        let chain = self.table.chain(irq);
        let mut invoked: Vec<u64> = Vec::new();
        let mut statuses: Vec<HandlerStatus> = Vec::new();
        let mut rearm = false;
        let mut i: usize = 0;
        while i < chain.len() && !rearm
            invariant
                self.wf(),
                self@.table == pre.table,
                self@.running == pre.running,
                chain@ == pre.table.chains[irq as int],
                valid_line(irq as int),
                i <= chain@.len(),
                invoked@ == chain@.take(i as int),
                statuses@.len() == i,
                forall|j: int|
                    0 <= j < i - 1 ==> !(#[trigger] statuses@[j] is ReenableRequested),
                rearm == (i > 0 && statuses@.last() is ReenableRequested),
                forall|j: int|
                    0 <= j < i && (#[trigger] pre.table.hooks[invoked@[j]]).handler is ClockTick
                        ==> statuses@[j] == HandlerStatus::Continue,
                self@.ticks == ticks_after(pre.ticks, clock_hooks(pre.table.hooks, invoked@)),
            decreases chain.len() - i,
        {
            let id = chain[i];
            proof {
                self.table.lemma_model_wf();
                assert(pre.table.hooks.contains_key(chain@[i as int]));
            }
            let status = match self.table.hook(id) {
                Some(hook) => match hook.handler {
                    Handler::ClockTick => self.clock_handler(&hook),
                    Handler::External(_) => external.handle(&hook),
                },
                None => HandlerStatus::Continue,
            };
            let ghost before = invoked@;
            invoked.push(id);
            statuses.push(status);
            assert(invoked@.drop_last() =~= before);
            assert(invoked@.last() == id);
            assert(invoked@ =~= chain@.take(i + 1));
            rearm = match status {
                HandlerStatus::ReenableRequested => true,
                _ => false,
            };
            i = i + 1;
        }
        assert(invoked@.len() == i);
        DispatchReport { invoked, statuses, rearm }
    }
}

impl KernelModel {
    /// No hook is registered.
    pub open spec fn hooks_empty(self) -> bool {
        self.table.hooks.is_empty()
    }

    /// The same state with the tick counter at `t`.
    pub open spec fn with_ticks(self, t: u64) -> KernelModel {
        KernelModel { ticks: t, ..self }
    }
}

/// On the timer line, when its chain holds the clock hook alone, a dispatch
/// runs that hook once and counts exactly one tick, leaving the table as it
/// was.
pub proof fn law_timer_dispatch_counts_one_tick(
    pre: KernelModel,
    id: u64,
    invoked: Seq<u64>,
    statuses: Seq<HandlerStatus>,
    rearm: bool,
    post: KernelModel,
)
    requires
        pre.table.chains[CLOCK_IRQ as int] == seq![id],
        pre.table.hooks[id].handler is ClockTick,
        dispatch_walk(pre.table.chains[CLOCK_IRQ as int], invoked, statuses, rearm),
        post == pre.with_ticks(ticks_after(pre.ticks, clock_hooks(pre.table.hooks, invoked))),
        pre.ticks < u64::MAX,
    ensures
        invoked == seq![id],
        post.ticks == pre.ticks + 1,
        post.table == pre.table,
{
    assert(invoked.len() == 1);
    assert(invoked =~= seq![id]);
    assert(invoked.drop_last() =~= Seq::<u64>::empty());
    assert(clock_hooks(pre.table.hooks, invoked.drop_last()) == 0);
}

} // verus!
