//! The IRQ hook table: an arena of hooks indexed by id, one chain of ids per
//! IRQ line (most recently registered first), a bitmap of the ids in use and
//! the enable state of each line.
use vstd::prelude::*;

verus! {

/// Number of IRQ lines of the platform.
pub const NR_IRQ_VECTORS: usize = 16;

/// The line of the system timer.
pub const CLOCK_IRQ: usize = 0;

/// Number of hook ids; ids run from 1 to this value, 0 means "no id".
pub const MAX_HOOK_IDS: u64 = 64;

/// Policy flag: the line is rearmed automatically after its chain has run.
pub const IRQ_REENABLE: u32 = 1;

/// Identity of the function a hook runs.
#[derive(Clone, Copy, Debug, PartialEq, Eq, Structural)]
pub enum Handler {
    /// The clock tick handler of this library.
    ClockTick,
    /// A handler supplied by the embedding system, named by a token.
    External(u64),
}

/// A hook registered on one IRQ line.
#[derive(Clone, Copy, Debug, PartialEq, Eq, Structural)]
pub struct Hook {
    pub id: u64,
    pub irq: usize,
    pub handler: Handler,
    /// The subsystem the hook notifies; `None` for kernel-internal hooks.
    pub owner_context: Option<i32>,
    pub policy: u32,
}

/// Why a registration was refused.
#[derive(Clone, Copy, Debug, PartialEq, Eq, Structural)]
pub enum RegistrationError {
    /// Every hook id is in use.
    TableFull,
    /// The line index is not an IRQ line of the platform.
    InvalidLine,
}

pub open spec fn valid_line(irq: int) -> bool {
    0 <= irq < NR_IRQ_VECTORS
}

pub open spec fn valid_id(id: u64) -> bool {
    1 <= id <= MAX_HOOK_IDS
}

impl Hook {
    /// The hook sits on `irq` and runs `handler` for `owner_context`.
    pub open spec fn is_for(self, irq: int, handler: Handler, owner_context: Option<i32>) -> bool {
        self.irq == irq && self.handler == handler && self.owner_context == owner_context
    }
}

/// The abstract state of an `IrqTable`.
pub ghost struct TableModel {
    /// For each line, the ids of its hooks in dispatch order.
    pub chains: Seq<Seq<u64>>,
    /// The registered hooks by id.
    pub hooks: Map<u64, Hook>,
    /// For each line, whether it is enabled at the hardware level.
    pub enabled: Seq<bool>,
}

impl TableModel {
    pub open spec fn wf(self) -> bool {
        &&& self.chains.len() == NR_IRQ_VECTORS
        &&& self.enabled.len() == NR_IRQ_VECTORS
        &&& forall|id: u64| #[trigger]
            self.hooks.contains_key(id) ==> {
                &&& valid_id(id)
                &&& self.hooks[id].id == id
                &&& valid_line(self.hooks[id].irq as int)
                &&& self.chains[self.hooks[id].irq as int].contains(id)
            }
        &&& forall|irq: int, i: int|
            valid_line(irq) && 0 <= i < self.chains[irq].len() ==> {
                &&& self.hooks.contains_key(#[trigger] self.chains[irq][i])
                &&& self.hooks[self.chains[irq][i]].irq == irq
            }
        &&& forall|irq: int| valid_line(irq) ==> (#[trigger] self.chains[irq]).no_duplicates()
        &&& forall|a: u64, b: u64|
            #[trigger] self.hooks.contains_key(a) && #[trigger] self.hooks.contains_key(b)
                && self.hooks[a].irq == self.hooks[b].irq && self.hooks[a].handler
                == self.hooks[b].handler && self.hooks[a].owner_context
                == self.hooks[b].owner_context ==> a == b
    }

    /// Every hook id is in use.
    pub open spec fn full(self) -> bool {
        forall|id: u64| valid_id(id) ==> #[trigger] self.hooks.contains_key(id)
    }

    /// `id` is the lowest id not in use.
    pub open spec fn is_lowest_free(self, id: u64) -> bool {
        &&& valid_id(id)
        &&& !self.hooks.contains_key(id)
        &&& forall|j: u64| 1 <= j < id ==> #[trigger] self.hooks.contains_key(j)
    }

    /// A hook of `handler` for `owner_context` is registered on `irq`.
    pub open spec fn registered(self, irq: int, handler: Handler, owner_context: Option<i32>) -> bool {
        exists|id: u64| #[trigger]
            self.hooks.contains_key(id) && self.hooks[id].is_for(irq, handler, owner_context)
    }

    /// The id of the hook of `handler` for `owner_context` on `irq`.
    pub open spec fn registered_id(self, irq: int, handler: Handler, owner_context: Option<i32>) -> u64 {
        choose|id: u64| #[trigger]
            self.hooks.contains_key(id) && self.hooks[id].is_for(irq, handler, owner_context)
    }

    /// The state after `hook` is put at the head of its line's chain; a
    /// kernel-internal hook enables its line.
    pub open spec fn with_hook(self, hook: Hook) -> TableModel {
        TableModel {
            chains: self.chains.update(hook.irq as int, seq![hook.id] + self.chains[hook.irq as int]),
            hooks: self.hooks.insert(hook.id, hook),
            enabled: if hook.owner_context is None {
                self.enabled.update(hook.irq as int, true)
            } else {
                self.enabled
            },
        }
    }

    /// The state after the hook `id` is taken out of its chain; a line whose
    /// chain becomes empty is masked.
    pub open spec fn without_hook(self, id: u64) -> TableModel {
        let irq = self.hooks[id].irq as int;
        let chain = self.chains[irq].remove(self.chains[irq].index_of(id));
        TableModel {
            chains: self.chains.update(irq, chain),
            hooks: self.hooks.remove(id),
            enabled: if chain.len() == 0 {
                self.enabled.update(irq, false)
            } else {
                self.enabled
            },
        }
    }

    /// What `register` returns and leaves behind.
    pub open spec fn register_outcome(
        self,
        irq: int,
        handler: Handler,
        owner_context: Option<i32>,
        policy: u32,
        post: TableModel,
        r: Result<u64, RegistrationError>,
    ) -> bool {
        if !valid_line(irq) {
            r == Err::<u64, RegistrationError>(RegistrationError::InvalidLine) && post == self
        } else if self.registered(irq, handler, owner_context) {
            r == Ok::<u64, RegistrationError>(self.registered_id(irq, handler, owner_context))
                && post == self
        } else if self.full() {
            r == Err::<u64, RegistrationError>(RegistrationError::TableFull) && post == self
        } else {
            &&& r is Ok
            &&& self.is_lowest_free(r->Ok_0)
            &&& post == self.with_hook(
                Hook { id: r->Ok_0, irq: irq as usize, handler, owner_context, policy },
            )
        }
    }

    /// What `unregister` leaves behind.
    pub open spec fn unregister_outcome(self, id: u64, post: TableModel) -> bool {
        if self.hooks.contains_key(id) {
            post == self.without_hook(id)
        } else {
            post == self
        }
    }

    /// The state after the line of hook `id` is enabled.
    pub open spec fn with_line_enabled(self, id: u64) -> TableModel {
        if self.hooks.contains_key(id) {
            TableModel { enabled: self.enabled.update(self.hooks[id].irq as int, true), ..self }
        } else {
            self
        }
    }

    proof fn lemma_with_hook_wf(self, hook: Hook)
        requires
            self.wf(),
            valid_id(hook.id),
            valid_line(hook.irq as int),
            !self.hooks.contains_key(hook.id),
            !self.registered(hook.irq as int, hook.handler, hook.owner_context),
        ensures
            self.with_hook(hook).wf(),
    {
        let post = self.with_hook(hook);
        let irq = hook.irq as int;
        assert forall|id: u64| #[trigger] post.hooks.contains_key(id) implies {
            &&& valid_id(id)
            &&& post.hooks[id].id == id
            &&& valid_line(post.hooks[id].irq as int)
            &&& post.chains[post.hooks[id].irq as int].contains(id)
        } by {
            if id == hook.id {
                assert(post.chains[irq][0] == id);
            } else {
                let line = self.hooks[id].irq as int;
                let k = choose|k: int| 0 <= k < self.chains[line].len() && self.chains[line][k] == id;
                if line == irq {
                    assert(post.chains[line][k + 1] == id);
                } else {
                    assert(post.chains[line][k] == id);
                }
            }
        }
        assert forall|l: int, i: int| valid_line(l) && 0 <= i < post.chains[l].len() implies {
            &&& post.hooks.contains_key(#[trigger] post.chains[l][i])
            &&& post.hooks[post.chains[l][i]].irq == l
        } by {
            if l == irq && i > 0 {
                assert(post.chains[l][i] == self.chains[l][i - 1]);
            }
        }
        assert forall|l: int| valid_line(l) implies (#[trigger] post.chains[l]).no_duplicates() by {
            if l == irq {
                assert forall|i: int, j: int|
                    0 <= i < post.chains[l].len() && 0 <= j < post.chains[l].len() && i != j
                    implies post.chains[l][i] != post.chains[l][j] by {
                    if i > 0 && j > 0 {
                        assert(post.chains[l][i] == self.chains[l][i - 1]);
                        assert(post.chains[l][j] == self.chains[l][j - 1]);
                    } else if i == 0 {
                        assert(self.hooks.contains_key(self.chains[l][j - 1]));
                    } else {
                        assert(self.hooks.contains_key(self.chains[l][i - 1]));
                    }
                }
            }
        }
    }

    proof fn lemma_without_hook_wf(self, id: u64)
        requires
            self.wf(),
            self.hooks.contains_key(id),
        ensures
            self.without_hook(id).wf(),
            self.chains[self.hooks[id].irq as int].contains(id),
            self.without_hook(id).chains[self.hooks[id].irq as int].len()
                == self.chains[self.hooks[id].irq as int].len() - 1,
    {
        let post = self.without_hook(id);
        let irq = self.hooks[id].irq as int;
        let c = self.chains[irq];
        let x = c.index_of(id);
        assert(c.contains(id));
        assert(0 <= x < c.len() && c[x] == id);
        let c2 = c.remove(x);
        assert(post.chains[irq] == c2);
        assert forall|other: u64| #[trigger] post.hooks.contains_key(other) implies {
            &&& valid_id(other)
            &&& post.hooks[other].id == other
            &&& valid_line(post.hooks[other].irq as int)
            &&& post.chains[post.hooks[other].irq as int].contains(other)
        } by {
            let line = self.hooks[other].irq as int;
            let k = choose|k: int| 0 <= k < self.chains[line].len() && self.chains[line][k] == other;
            if line == irq {
                if k < x {
                    assert(c2[k] == other);
                } else {
                    assert(k != x);
                    assert(c2[k - 1] == other);
                }
            } else {
                assert(post.chains[line][k] == other);
            }
        }
        assert forall|l: int, i: int| valid_line(l) && 0 <= i < post.chains[l].len() implies {
            &&& post.hooks.contains_key(#[trigger] post.chains[l][i])
            &&& post.hooks[post.chains[l][i]].irq == l
        } by {
            if l == irq {
                if i < x {
                    assert(c2[i] == c[i]);
                    assert(c[i] != c[x]);
                } else {
                    assert(c2[i] == c[i + 1]);
                    assert(c[i + 1] != c[x]);
                }
            } else {
                assert(post.chains[l][i] == self.chains[l][i]);
                assert(self.hooks[self.chains[l][i]].irq == l);
            }
        }
        assert forall|l: int| valid_line(l) implies (#[trigger] post.chains[l]).no_duplicates() by {
            if l == irq {
                assert forall|i: int, j: int| 0 <= i < c2.len() && 0 <= j < c2.len() && i != j
                    implies c2[i] != c2[j] by {
                    let ii = if i < x { i } else { i + 1 };
                    let jj = if j < x { j } else { j + 1 };
                    assert(c2[i] == c[ii]);
                    assert(c2[j] == c[jj]);
                }
            }
        }
    }
}

/// Bit `j` of `b`.
pub open spec fn bit_at(b: u64, j: u64) -> bool {
    (b >> j) & 1 == 1
}

proof fn lemma_bits(b: u64, i: u64, j: u64)
    by (bit_vector)
    requires
        i < 64,
        j < 64,
    ensures
        bit_at(b | (1u64 << i), j) == (i == j || bit_at(b, j)),
        bit_at(b & !(1u64 << i), j) == (i != j && bit_at(b, j)),
        bit_at(0u64, j) == false,
        ((b >> j) & 1 == 0) == !bit_at(b, j),
{
}

/// The process-wide table of IRQ hooks.
pub struct IrqTable {
    slots: Vec<Option<Hook>>,
    chains: Vec<Vec<u64>>,
    bitmap: u64,
    enabled: Vec<bool>,
}

impl View for IrqTable {
    type V = TableModel;

    closed spec fn view(&self) -> TableModel {
        TableModel {
            chains: Seq::new(self.chains@.len(), |i: int| self.chains@[i]@),
            hooks: Map::new(
                |id: u64| valid_id(id) && self.slots@[id - 1] is Some,
                |id: u64| self.slots@[id - 1]->Some_0,
            ),
            enabled: self.enabled@,
        }
    }
}

impl IrqTable {
    pub closed spec fn wf(&self) -> bool {
        &&& self.slots@.len() == MAX_HOOK_IDS
        &&& self.chains@.len() == NR_IRQ_VECTORS
        &&& forall|j: u64| j < MAX_HOOK_IDS ==> (bit_at(self.bitmap, j) <==> (
        #[trigger] self.slots@[j as int]) is Some)
        &&& self@.wf()
    }

    /// An empty table: no hooks, every line masked.
    pub fn new() -> (r: IrqTable)
        ensures
            r.wf(),
            r@.hooks.is_empty(),
            forall|irq: int| valid_line(irq) ==> r@.chains[irq].len() == 0 && !r@.enabled[irq],
    {
        let mut slots: Vec<Option<Hook>> = Vec::new();
        let mut k: u64 = 0;
        while k < MAX_HOOK_IDS
            invariant
                k <= MAX_HOOK_IDS,
                slots@.len() == k,
                forall|j: int| 0 <= j < k ==> slots@[j] is None,
            decreases MAX_HOOK_IDS - k,
        {
            slots.push(None);
            k = k + 1;
        }
        let mut chains: Vec<Vec<u64>> = Vec::new();
        let mut enabled: Vec<bool> = Vec::new();
        let mut n: usize = 0;
        while n < NR_IRQ_VECTORS
            invariant
                n <= NR_IRQ_VECTORS,
                chains@.len() == n,
                enabled@.len() == n,
                forall|j: int| 0 <= j < n ==> (#[trigger] chains@[j])@.len() == 0,
                forall|j: int| 0 <= j < n ==> !(#[trigger] enabled@[j]),
            decreases NR_IRQ_VECTORS - n,
        {
            let empty: Vec<u64> = Vec::new();
            chains.push(empty);
            enabled.push(false);
            n = n + 1;
            assert(chains@[n - 1]@.len() == 0);
        }
        let r = IrqTable { slots, chains, bitmap: 0, enabled };
        assert forall|j: u64| j < MAX_HOOK_IDS implies (bit_at(r.bitmap, j) <==> (
        #[trigger] r.slots@[j as int]) is Some) by {
            lemma_bits(0, 0, j);
        }
        assert(r@.hooks =~= Map::empty());
        assert forall|irq: int| valid_line(irq) implies r@.chains[irq].len() == 0 && !r@.enabled[irq] by {
            assert(r@.chains[irq] == r.chains@[irq]@);
        }
        r
    }

    /// A well-formed table has a well-formed model.
    pub proof fn lemma_model_wf(&self)
        requires
            self.wf(),
        ensures
            self@.wf(),
    {
    }

    proof fn lemma_view_hook(&self, id: u64)
        requires
            self.wf(),
            valid_id(id),
        ensures
            self@.hooks.contains_key(id) <==> self.slots@[id - 1] is Some,
            self@.hooks.contains_key(id) ==> self@.hooks[id] == self.slots@[id - 1]->Some_0,
            bit_at(self.bitmap, (id - 1) as u64) <==> self.slots@[id - 1] is Some,
    {
        let j = (id - 1) as u64;
        assert(self.slots@[j as int] == self.slots@[id - 1]);
    }

    /// The id of the hook of `handler` for `owner_context` on `irq`, if any.
    fn find_hook(&self, irq: usize, handler: Handler, owner_context: Option<i32>) -> (r: Option<u64>)
        requires
            self.wf(),
            valid_line(irq as int),
        ensures
            r is Some <==> self@.registered(irq as int, handler, owner_context),
            r is Some ==> r->Some_0 == self@.registered_id(irq as int, handler, owner_context),
    {
        let chain = &self.chains[irq];
        assert(chain@ == self@.chains[irq as int]);
        let mut i: usize = 0;
        while i < chain.len()
            invariant
                self.wf(),
                valid_line(irq as int),
                chain@ == self@.chains[irq as int],
                i <= chain@.len(),
                forall|k: int|
                    0 <= k < i ==> !self@.hooks[#[trigger] chain@[k]].is_for(
                        irq as int,
                        handler,
                        owner_context,
                    ),
            decreases chain.len() - i,
        {
            let id = chain[i];
            assert(self@.hooks.contains_key(chain@[i as int]));
            proof {
                self.lemma_view_hook(id);
            }
            if let Some(h) = self.slots[(id - 1) as usize] {
                if h.handler == handler && same_owner(h.owner_context, owner_context) {
                    assert(self@.hooks[id].is_for(irq as int, handler, owner_context));
                    assert(self@.registered(irq as int, handler, owner_context));
                    return Some(id);
                }
            }
            i = i + 1;
        }
        proof {
            if self@.registered(irq as int, handler, owner_context) {
                let w = self@.registered_id(irq as int, handler, owner_context);
                let line = self@.hooks[w].irq as int;
                let k = choose|k: int|
                    0 <= k < self@.chains[line].len() && self@.chains[line][k] == w;
                assert(!self@.hooks[chain@[k]].is_for(irq as int, handler, owner_context));
            }
        }
        None
    }

    /// The lowest hook id not in use, if any.
    fn lowest_free_id(&self) -> (r: Option<u64>)
        requires
            self.wf(),
        ensures
            r is Some ==> self@.is_lowest_free(r->Some_0),
            r is None ==> self@.full(),
    {
        let mut j: u64 = 0;
        while j < MAX_HOOK_IDS
            invariant
                self.wf(),
                j <= MAX_HOOK_IDS,
                forall|k: u64| 1 <= k <= j ==> #[trigger] self@.hooks.contains_key(k),
            decreases MAX_HOOK_IDS - j,
        {
            proof {
                self.lemma_view_hook((j + 1) as u64);
                lemma_bits(self.bitmap, 0, j);
            }
            if (self.bitmap >> j) & 1 == 0 {
                return Some(j + 1);
            }
            j = j + 1;
        }
        None
    }

    /// Registers `handler` for `owner_context` on line `irq` and returns the
    /// hook's id. An equal hook already on the line keeps its id and nothing
    /// changes; otherwise the lowest free id is taken and the hook is put at
    /// the head of the chain. A kernel-internal hook (no owner context)
    /// enables its line at once; otherwise the caller enables it with
    /// `enable_irq`. Fails with `InvalidLine` for a line out of range and with
    /// `TableFull` when every id is in use, leaving the table as it was.
    pub fn register(
        &mut self,
        irq: usize,
        handler: Handler,
        owner_context: Option<i32>,
        policy: u32,
    ) -> (r: Result<u64, RegistrationError>)
        requires
            old(self).wf(),
        ensures
            final(self).wf(),
            old(self)@.register_outcome(
                irq as int,
                handler,
                owner_context,
                policy,
                final(self)@,
                r,
            ),
    {
        if irq >= NR_IRQ_VECTORS {
            return Err(RegistrationError::InvalidLine);
        }
        if let Some(id) = self.find_hook(irq, handler, owner_context) {
            return Ok(id);
        }
        let id = match self.lowest_free_id() {
            Some(id) => id,
            None => {
                return Err(RegistrationError::TableFull);
            },
        };
        let ghost pre = *self;
        let hook = Hook { id, irq, handler, owner_context, policy };
        proof {
            pre@.lemma_with_hook_wf(hook);
            pre.lemma_view_hook(id);
        }
        let mut c: Vec<u64> = Vec::new();
        self.chains.set_and_swap(irq, &mut c);
        c.insert(0, id);
        self.chains.set(irq, c);
        self.slots.set((id - 1) as usize, Some(hook));
        self.bitmap = self.bitmap | (1u64 << (id - 1));
        if owner_context.is_none() {
            self.enabled.set(irq, true);
        }
        let ghost post = pre@.with_hook(hook);
        assert(self@.chains =~= post.chains) by {
            assert(c@ =~= seq![id] + pre@.chains[irq as int]);
        }
        assert(self@.hooks =~= post.hooks) by {
            assert forall|k: u64| #[trigger] self@.hooks.contains_key(k) <==> post.hooks.contains_key(k) by {
                if valid_id(k) {
                    pre.lemma_view_hook(k);
                }
            }
            assert forall|k: u64| #[trigger] self@.hooks.contains_key(k) implies self@.hooks[k] == post.hooks[k] by {
                pre.lemma_view_hook(k);
            }
        }
        assert(self@.enabled =~= post.enabled);
        assert forall|j: u64| j < MAX_HOOK_IDS implies (bit_at(self.bitmap, j) <==> (
        #[trigger] self.slots@[j as int]) is Some) by {
            lemma_bits(pre.bitmap, (id - 1) as u64, j);
        }
        Ok(id)
    }

    /// Removes the hook `id` from its chain and frees its id; a line whose
    /// chain becomes empty is masked. An id that is not registered is
    /// ignored.
    pub fn unregister(&mut self, id: u64)
        requires
            old(self).wf(),
        ensures
            final(self).wf(),
            old(self)@.unregister_outcome(id, final(self)@),
    {
        if id == 0 || id > MAX_HOOK_IDS {
            return;
        }
        proof {
            self.lemma_view_hook(id);
        }
        let hook = match self.slots[(id - 1) as usize] {
            Some(h) => h,
            None => {
                return;
            },
        };
        let ghost pre = *self;
        proof {
            pre@.lemma_without_hook_wf(id);
        }
        let irq = hook.irq;
        let mut c: Vec<u64> = Vec::new();
        self.chains.set_and_swap(irq, &mut c);
        assert(c@ == pre@.chains[irq as int]);
        let mut i: usize = 0;
        while i < c.len() && c[i] != id
            invariant
                c@ == pre@.chains[irq as int],
                c@.contains(id),
                i <= c@.len(),
                forall|k: int| 0 <= k < i ==> c@[k] != id,
            decreases c.len() - i,
        {
            i = i + 1;
        }
        assert(i < c@.len() && c@[i as int] == id);
        assert(c@.index_of(id) == i as int) by {
            let x = c@.index_of(id);
            assert(pre@.chains[irq as int].no_duplicates());
            assert(c@[x] == id);
        }
        c.remove(i);
        let now_empty = c.len() == 0;
        self.chains.set(irq, c);
        self.slots.set((id - 1) as usize, None);
        self.bitmap = self.bitmap & !(1u64 << (id - 1));
        if now_empty {
            self.enabled.set(irq, false);
        }
        let ghost post = pre@.without_hook(id);
        assert(self@.chains =~= post.chains);
        assert(self@.hooks =~= post.hooks) by {
            assert forall|k: u64| #[trigger] self@.hooks.contains_key(k) <==> post.hooks.contains_key(k) by {
                if valid_id(k) {
                    pre.lemma_view_hook(k);
                }
            }
            assert forall|k: u64| #[trigger] self@.hooks.contains_key(k) implies self@.hooks[k] == post.hooks[k] by {
                pre.lemma_view_hook(k);
            }
        }
        assert(self@.enabled =~= post.enabled);
        assert forall|j: u64| j < MAX_HOOK_IDS implies (bit_at(self.bitmap, j) <==> (
        #[trigger] self.slots@[j as int]) is Some) by {
            lemma_bits(pre.bitmap, (id - 1) as u64, j);
        }
    }

    /// Enables, at the hardware level, the line of the hook `id`; an id that
    /// is not registered is ignored.
    pub fn enable_irq(&mut self, id: u64)
        requires
            old(self).wf(),
        ensures
            final(self).wf(),
            final(self)@ == old(self)@.with_line_enabled(id),
    {
        if id == 0 || id > MAX_HOOK_IDS {
            return;
        }
        proof {
            self.lemma_view_hook(id);
        }
        if let Some(h) = self.slots[(id - 1) as usize] {
            let ghost pre = *self;
            self.enabled.set(h.irq, true);
            assert(self@.chains =~= pre@.chains);
            assert(self@.hooks =~= pre@.hooks);
            assert(self@.enabled =~= pre@.with_line_enabled(id).enabled);
        }
    }

    /// The ids of the hooks on `irq`, in dispatch order.
    pub fn chain(&self, irq: usize) -> (r: Vec<u64>)
        requires
            self.wf(),
            valid_line(irq as int),
        ensures
            r@ == self@.chains[irq as int],
    {
        let c = self.chains[irq].clone();
        assert(c@ =~= self.chains@[irq as int]@);
        c
    }

    /// The number of hooks on `irq`.
    pub fn chain_len(&self, irq: usize) -> (r: usize)
        requires
            self.wf(),
            valid_line(irq as int),
        ensures
            r == self@.chains[irq as int].len(),
    {
        self.chains[irq].len()
    }

    /// The hook registered under `id`, if any.
    pub fn hook(&self, id: u64) -> (r: Option<Hook>)
        requires
            self.wf(),
        ensures
            r is Some <==> self@.hooks.contains_key(id),
            r is Some ==> r->Some_0 == self@.hooks[id],
    {
        if id == 0 || id > MAX_HOOK_IDS {
            return None;
        }
        proof {
            self.lemma_view_hook(id);
        }
        self.slots[(id - 1) as usize]
    }

    /// Whether `id` is marked in use in the id bitmap.
    pub fn id_in_use(&self, id: u64) -> (r: bool)
        requires
            self.wf(),
        ensures
            r == self@.hooks.contains_key(id),
    {
        if id == 0 || id > MAX_HOOK_IDS {
            return false;
        }
        proof {
            self.lemma_view_hook(id);
            lemma_bits(self.bitmap, 0, (id - 1) as u64);
        }
        (self.bitmap >> (id - 1)) & 1 == 1
    }

    /// Whether `irq` is enabled at the hardware level.
    pub fn is_enabled(&self, irq: usize) -> (r: bool)
        requires
            self.wf(),
            valid_line(irq as int),
        ensures
            r == self@.enabled[irq as int],
    {
        self.enabled[irq]
    }
}

/// `a` and `b` are the same owner context.
fn same_owner(a: Option<i32>, b: Option<i32>) -> (r: bool)
    ensures
        r == (a == b),
{
    match (a, b) {
        (Some(x), Some(y)) => x == y,
        (None, None) => true,
        _ => false,
    }
}

/// Registering a hook that is already on its line hands back its id again
/// and changes nothing: the second of two equal registrations returns the
/// id of the first and leaves the chain as long as it was.
pub proof fn law_register_idempotent(
    m0: TableModel,
    irq: int,
    handler: Handler,
    owner_context: Option<i32>,
    policy: u32,
    policy2: u32,
    m1: TableModel,
    r1: Result<u64, RegistrationError>,
    m2: TableModel,
    r2: Result<u64, RegistrationError>,
)
    requires
        m0.wf(),
        m0.register_outcome(irq, handler, owner_context, policy, m1, r1),
        m1.register_outcome(irq, handler, owner_context, policy2, m2, r2),
        r1 is Ok,
    ensures
        r2 == r1,
        m2 == m1,
        m2.chains[irq].len() == m1.chains[irq].len(),
{
    if !m0.registered(irq, handler, owner_context) {
        let id = r1->Ok_0;
        let hook = Hook { id, irq: irq as usize, handler, owner_context, policy };
        m0.lemma_with_hook_wf(hook);
        assert(m1.hooks.contains_key(id) && m1.hooks[id].is_for(irq, handler, owner_context));
    }
}

/// A registration sequence from an empty table: the state after each step,
/// with the registrations and results, are related step by step.
pub open spec fn registration_run(
    ms: Seq<TableModel>,
    regs: Seq<(usize, Handler, Option<i32>, u32)>,
    rs: Seq<Result<u64, RegistrationError>>,
) -> bool {
    &&& ms.len() == regs.len() + 1
    &&& rs.len() == regs.len()
    &&& ms[0].wf()
    &&& ms[0].hooks.is_empty()
    &&& forall|i: int|
        0 <= i < regs.len() ==> #[trigger] ms[i].register_outcome(
            regs[i].0 as int,
            regs[i].1,
            regs[i].2,
            regs[i].3,
            ms[i + 1],
            rs[i],
        )
}

/// No two of the registrations name the same line, handler and owner context.
pub open spec fn distinct_registrations(regs: Seq<(usize, Handler, Option<i32>, u32)>) -> bool {
    forall|i: int, j: int|
        0 <= i < regs.len() && 0 <= j < regs.len() && i != j ==> !(#[trigger] regs[i].0 == #[trigger] regs[j].0
            && regs[i].1 == regs[j].1 && regs[i].2 == regs[j].2)
}

proof fn lemma_run_prefix(
    ms: Seq<TableModel>,
    regs: Seq<(usize, Handler, Option<i32>, u32)>,
    rs: Seq<Result<u64, RegistrationError>>,
    n: int,
)
    requires
        registration_run(ms, regs, rs),
        distinct_registrations(regs),
        forall|i: int| 0 <= i < regs.len() ==> valid_line(#[trigger] regs[i].0 as int),
        0 <= n <= regs.len(),
        n <= MAX_HOOK_IDS,
    ensures
        ms[n].wf(),
        forall|id: u64| #[trigger] ms[n].hooks.contains_key(id) <==> 1 <= id <= n,
        forall|k: int|
            0 <= k < n ==> ms[n].hooks[(k + 1) as u64].is_for(
                regs[k].0 as int,
                regs[k].1,
                regs[k].2,
            ),
        forall|k: int| 0 <= k < n ==> #[trigger] rs[k] == Ok::<u64, RegistrationError>((k + 1) as u64),
    decreases n,
{
    if n > 0 {
        let i = n - 1;
        lemma_run_prefix(ms, regs, rs, i);
        assert(ms[i].register_outcome(
            regs[i].0 as int,
            regs[i].1,
            regs[i].2,
            regs[i].3,
            ms[i + 1],
            rs[i],
        ));
        let m = ms[i];
        let (irq, handler, owner_context, policy) = regs[i];
        assert(m.register_outcome(irq as int, handler, owner_context, policy, ms[n], rs[i]));
        if m.registered(irq as int, handler, owner_context) {
            let w = m.registered_id(irq as int, handler, owner_context);
            let k = (w - 1) as int;
            assert(m.hooks[(k + 1) as u64].is_for(regs[k].0 as int, regs[k].1, regs[k].2));
            assert(regs[k].0 == regs[i].0);
        }
        let free = (i + 1) as u64;
        assert(!m.hooks.contains_key(free));
        assert(!m.full());
        let id = rs[i]->Ok_0;
        if id != free {
            assert(m.hooks.contains_key(free));
        }
        let hook = Hook { id, irq, handler, owner_context, policy };
        m.lemma_with_hook_wf(hook);
        assert forall|k: int| 0 <= k < n implies ms[n].hooks[(k + 1) as u64].is_for(
            regs[k].0 as int,
            regs[k].1,
            regs[k].2,
        ) by {
            if k < i {
                assert(m.hooks[(k + 1) as u64].is_for(regs[k].0 as int, regs[k].1, regs[k].2));
            }
        }
        assert forall|k: int| 0 <= k < n implies #[trigger] rs[k] == Ok::<u64, RegistrationError>(
            (k + 1) as u64,
        ) by {}
    }
}

/// From an empty table, registrations of distinct hooks take distinct ids:
/// the first `MAX_HOOK_IDS` succeed, the k-th (from zero) with id k + 1, and
/// the next one fails with `TableFull`.
pub proof fn law_registrations_take_distinct_ids(
    ms: Seq<TableModel>,
    regs: Seq<(usize, Handler, Option<i32>, u32)>,
    rs: Seq<Result<u64, RegistrationError>>,
)
    requires
        registration_run(ms, regs, rs),
        distinct_registrations(regs),
        forall|i: int| 0 <= i < regs.len() ==> valid_line(#[trigger] regs[i].0 as int),
        regs.len() <= MAX_HOOK_IDS + 1,
    ensures
        forall|i: int|
            0 <= i < regs.len() && i < MAX_HOOK_IDS ==> #[trigger] rs[i] == Ok::<
                u64,
                RegistrationError,
            >((i + 1) as u64),
        forall|i: int, j: int|
            0 <= i < j < regs.len() && j < MAX_HOOK_IDS ==> #[trigger] rs[i] != #[trigger] rs[j],
        regs.len() == MAX_HOOK_IDS + 1 ==> rs[MAX_HOOK_IDS as int] == Err::<u64, RegistrationError>(
            RegistrationError::TableFull,
        ),
{
    if regs.len() <= MAX_HOOK_IDS {
        lemma_run_prefix(ms, regs, rs, regs.len() as int);
    } else {
        let n = MAX_HOOK_IDS as int;
        lemma_run_prefix(ms, regs, rs, n);
        assert(ms[n].register_outcome(
            regs[n].0 as int,
            regs[n].1,
            regs[n].2,
            regs[n].3,
            ms[n + 1],
            rs[n],
        ));
        let m = ms[n];
        let (irq, handler, owner_context, policy) = regs[n];
        assert(m.register_outcome(irq as int, handler, owner_context, policy, ms[n + 1], rs[n]));
        if m.registered(irq as int, handler, owner_context) {
            let w = m.registered_id(irq as int, handler, owner_context);
            let k = (w - 1) as int;
            assert(m.hooks[(k + 1) as u64].is_for(regs[k].0 as int, regs[k].1, regs[k].2));
            assert(regs[k].0 == regs[n].0);
        }
        assert(m.full());
    }
}

/// Unregistering a registered hook shortens its line's chain by exactly one
/// and frees its id: the next registration of a hook that is not on its line
/// succeeds, with that id or a lower one.
pub proof fn law_unregister_frees_id(
    m0: TableModel,
    id: u64,
    m1: TableModel,
    irq: int,
    handler: Handler,
    owner_context: Option<i32>,
    policy: u32,
    m2: TableModel,
    r: Result<u64, RegistrationError>,
)
    requires
        m0.wf(),
        m0.hooks.contains_key(id),
        m0.unregister_outcome(id, m1),
        valid_line(irq),
        !m1.registered(irq, handler, owner_context),
        m1.register_outcome(irq, handler, owner_context, policy, m2, r),
    ensures
        m1.chains[m0.hooks[id].irq as int].len() == m0.chains[m0.hooks[id].irq as int].len() - 1,
        !m1.hooks.contains_key(id),
        r is Ok,
        r->Ok_0 <= id,
{
    m0.lemma_without_hook_wf(id);
    assert(!m1.hooks.contains_key(id));
    assert(!m1.full());
    if r->Ok_0 > id {
        assert(m1.hooks.contains_key(id));
    }
}

} // verus!
