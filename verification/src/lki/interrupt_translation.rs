//! Translation of Linux `request_irq` / `free_irq` onto SHER interrupt
//! handlers, with shared lines and per-handler latency accounting.
use vstd::prelude::*;
use crate::common::{owned, Error, ObjectId, Result};
use crate::keyed::VecMap;
use crate::lki::validation::{can_count, counted, validation_message, Validator};

verus! {

/// `request_irq` flag: the line may be shared with other drivers.
pub const IRQF_SHARED: u32 = 0x80;
/// `request_irq` flag: high priority handler.
pub const IRQF_HIGH_PRIO: u32 = 0x1;
/// `request_irq` flag: critical priority handler (wins over high).
pub const IRQF_CRITICAL: u32 = 0x2;

#[derive(Debug, Clone, Copy, PartialEq, Eq, Structural)]
pub enum IrqTrigger {
    Rising,
    Falling,
    HighLevel,
    LowLevel,
    Shared,
}

#[derive(Debug, Clone, Copy, PartialEq, Eq, Structural)]
pub enum IrqPriority {
    Low,
    Normal,
    High,
    Critical,
}

#[derive(Debug, Clone, Copy, PartialEq, Eq, Structural)]
pub enum IrqReturnValue {
    NotHandled,
    Handled,
    WakeThread,
}

/// The priority that `request_irq` gives a new handler for `flags`.
pub open spec fn flag_priority(flags: u32) -> IrqPriority {
    if flags & IRQF_CRITICAL != 0 {
        IrqPriority::Critical
    } else if flags & IRQF_HIGH_PRIO != 0 {
        IrqPriority::High
    } else {
        IrqPriority::Normal
    }
}

/// What the flags of `request_irq` make of a new handler's priority: the
/// critical flag, and it alone, makes it critical; it is high exactly when
/// the high-priority flag is given without the critical one; with neither
/// flag it keeps the normal priority a handler starts with; it is never low.
pub proof fn lemma_flag_priority(flags: u32)
    ensures
        flags & 0x3u32 == 0 ==> flag_priority(flags) == IrqPriority::Normal,
        (flag_priority(flags) == IrqPriority::Critical) <==> flags & 0x2u32 != 0,
        (flag_priority(flags) == IrqPriority::High) <==> (flags & 0x1u32 != 0 && flags & 0x2u32 == 0),
        (flag_priority(flags) == IrqPriority::Normal) <==> flags & 0x3u32 == 0,
        flag_priority(flags) != IrqPriority::Low,
{
    assert(flags & 0x3u32 == 0 <==> (flags & 0x1u32 == 0 && flags & 0x2u32 == 0)) by (bit_vector);
}

#[derive(Debug, Clone, Copy)]
pub struct InterruptHandler {
    pub handler_id: ObjectId,
    pub driver_id: ObjectId,
    pub irq_number: u32,
    pub trigger_type: IrqTrigger,
    pub priority: IrqPriority,
    pub enabled: bool,
    pub call_count: u64,
    pub error_count: u64,
    pub avg_latency_us: u32,
    pub peak_latency_us: u32,
}

impl InterruptHandler {
    /// A disabled, normal-priority handler with fresh identity and no calls.
    pub fn new(driver_id: ObjectId, irq_number: u32, trigger_type: IrqTrigger) -> (h: InterruptHandler)
        ensures
            h.handler_id.value != 0,
            h.driver_id == driver_id,
            h.irq_number == irq_number,
            h.trigger_type == trigger_type,
            h.priority == IrqPriority::Normal,
            !h.enabled,
            h.call_count == 0 && h.error_count == 0,
            h.avg_latency_us == 0 && h.peak_latency_us == 0,
    {
        InterruptHandler {
            handler_id: ObjectId::new(),
            driver_id,
            irq_number,
            trigger_type,
            priority: IrqPriority::Normal,
            enabled: false,
            call_count: 0,
            error_count: 0,
            avg_latency_us: 0,
            peak_latency_us: 0,
        }
    }

    pub fn with_priority(self, priority: IrqPriority) -> (h: InterruptHandler)
        ensures
            h == (InterruptHandler { priority, ..self }),
    {
        let mut h = self;
        h.priority = priority;
        h
    }

    pub fn enable(&mut self)
        ensures
            *final(self) == (InterruptHandler { enabled: true, ..*old(self) }),
    {
        self.enabled = true;
    }

    pub fn disable(&mut self)
        ensures
            *final(self) == (InterruptHandler { enabled: false, ..*old(self) }),
    {
        self.enabled = false;
    }

    /// Count one call of `latency_us`: the peak keeps the largest latency
    /// and the average becomes the running mean over all calls (truncated).
    pub fn record_call(&mut self, latency_us: u32)
        requires
            old(self).call_count < u64::MAX,
            old(self).avg_latency_us * old(self).call_count + latency_us <= u64::MAX,
        ensures
            final(self).call_count == old(self).call_count + 1,
            final(self).peak_latency_us == if latency_us > old(self).peak_latency_us { latency_us } else { old(self).peak_latency_us },
            final(self).avg_latency_us == ((old(self).avg_latency_us * old(self).call_count + latency_us)
                / (old(self).call_count + 1)) as u32,
            final(self).error_count == old(self).error_count,
            final(self).enabled == old(self).enabled,
            final(self).handler_id == old(self).handler_id,
            final(self).driver_id == old(self).driver_id,
            final(self).irq_number == old(self).irq_number,
            final(self).trigger_type == old(self).trigger_type,
            final(self).priority == old(self).priority,
    {
        let prior = self.call_count;
        self.call_count = self.call_count + 1;
        if latency_us > self.peak_latency_us {
            self.peak_latency_us = latency_us;
        }
        let avg = self.avg_latency_us as u64;
        assert(avg * prior <= u64::MAX) by (nonlinear_arith)
            requires
                avg * prior + latency_us <= u64::MAX,
                latency_us >= 0,
        ;
        let total = avg * prior + latency_us as u64;
        self.avg_latency_us = (total / self.call_count) as u32;
    }

    pub fn record_error(&mut self)
        requires
            old(self).error_count < u64::MAX,
        ensures
            *final(self) == (InterruptHandler { error_count: (old(self).error_count + 1) as u64, ..*old(self) }),
    {
        self.error_count = self.error_count + 1;
    }
}

/// Sum of the call counts of the handlers in `s`.
pub open spec fn sum_calls(s: Seq<(u32, InterruptHandler)>) -> nat
    decreases s.len(),
{
    if s.len() == 0 { 0 } else { sum_calls(s.drop_last()) + s.last().1.call_count as nat }
}

/// Sum of the error counts of the handlers in `s`.
pub open spec fn sum_errors(s: Seq<(u32, InterruptHandler)>) -> nat
    decreases s.len(),
{
    if s.len() == 0 { 0 } else { sum_errors(s.drop_last()) + s.last().1.error_count as nat }
}

/// Sum of the average latencies of the handlers in `s`.
pub open spec fn sum_avg_latency(s: Seq<(u32, InterruptHandler)>) -> nat
    decreases s.len(),
{
    if s.len() == 0 { 0 } else { sum_avg_latency(s.drop_last()) + s.last().1.avg_latency_us as nat }
}

/// Largest peak latency of the handlers in `s` (0 when there are none).
pub open spec fn max_peak(s: Seq<(u32, InterruptHandler)>) -> u32
    decreases s.len(),
{
    if s.len() == 0 {
        0
    } else {
        let m = max_peak(s.drop_last());
        if s.last().1.peak_latency_us > m { s.last().1.peak_latency_us } else { m }
    }
}

/// Number of enabled handlers in `s`.
pub open spec fn count_enabled(s: Seq<(u32, InterruptHandler)>) -> nat
    decreases s.len(),
{
    if s.len() == 0 { 0 } else { count_enabled(s.drop_last()) + if s.last().1.enabled { 1nat } else { 0nat } }
}

/// The peak latency reported is the largest peak of any handler: no
/// handler's peak exceeds it, and unless there are no handlers (or all
/// peaks are zero) some handler has exactly that peak. The enabled count
/// never exceeds the number of handlers.
pub proof fn lemma_max_peak(s: Seq<(u32, InterruptHandler)>)
    ensures
        forall|i: int| 0 <= i < s.len() ==> (#[trigger] s[i]).1.peak_latency_us <= max_peak(s),
        max_peak(s) == 0 || exists|i: int| 0 <= i < s.len() && (#[trigger] s[i]).1.peak_latency_us == max_peak(s),
        count_enabled(s) <= s.len(),
    decreases s.len(),
{
    if s.len() > 0 {
        let p = s.drop_last();
        lemma_max_peak(p);
        assert forall|i: int| 0 <= i < s.len() implies (#[trigger] s[i]).1.peak_latency_us <= max_peak(s) by {
            if i < p.len() {
                assert(s[i] == p[i]);
            }
        }
        if max_peak(s) != 0 && max_peak(s) != s.last().1.peak_latency_us {
            let i = choose|i: int| 0 <= i < p.len() && (#[trigger] p[i]).1.peak_latency_us == max_peak(p);
            assert(s[i] == p[i]);
        }
        if max_peak(s) == s.last().1.peak_latency_us {
            assert(s[s.len() - 1] == s.last());
        }
    }
}

#[derive(Debug, Clone, Copy)]
pub struct InterruptStats {
    pub total_registered: u64,
    pub active_interrupts: u64,
    pub total_interrupt_calls: u64,
    pub total_errors: u64,
    pub avg_latency_us: u32,
    pub peak_latency_us: u32,
}

/// Handlers by IRQ line, and for each line the drivers that share it.
#[derive(Debug, Clone)]
pub struct InterruptManager {
    pub validator: Validator,
    pub handlers: VecMap<u32, InterruptHandler>,
    pub total_interrupts: u64,
    pub shared_irqs: VecMap<u32, Vec<ObjectId>>,
}

impl Default for InterruptManager {
    fn default() -> (m: InterruptManager)
        ensures
            m.wf(),
            m.handlers@ == Map::<u32, InterruptHandler>::empty(),
            m.shared_irqs@ == Map::<u32, Vec<ObjectId>>::empty(),
            m.total_interrupts == 0,
            m.validator.valid_irq_range == (0u32, 0u32),
            m.validator.max_allocation_size == 0,
            m.validator.total_validations == 0 && m.validator.failed_validations == 0,
    {
        let m = InterruptManager {
            validator: Validator::default(),
            handlers: VecMap::new(),
            total_interrupts: 0,
            shared_irqs: VecMap::new(),
        };
        assert(m.handlers@.dom() =~= m.shared_irqs@.dom());
        m
    }
}

impl InterruptManager {
    /// Both maps are well formed, and a line has a handler exactly when it
    /// has a list of drivers.
    pub open spec fn wf(&self) -> bool {
        &&& self.handlers.wf()
        &&& self.shared_irqs.wf()
        &&& self.handlers@.dom() == self.shared_irqs@.dom()
    }

    /// Drivers registered on `irq`, in registration order.
    pub open spec fn sharers(&self, irq: u32) -> Seq<ObjectId> {
        if self.shared_irqs@.contains_key(irq) { self.shared_irqs@[irq]@ } else { Seq::empty() }
    }

    /// `driver` may free `irq`: the line has a handler that the driver owns
    /// or shares.
    pub open spec fn registered(&self, irq: u32, driver: ObjectId) -> bool {
        self.handlers@.contains_key(irq)
            && (self.handlers@[irq].driver_id == driver || self.sharers(irq).contains(driver))
    }

    /// No handlers; the validator accepts IRQ lines 0 to 255.
    pub fn new() -> (m: InterruptManager)
        ensures
            m.wf(),
            m.handlers@ == Map::<u32, InterruptHandler>::empty(),
            m.shared_irqs@ == Map::<u32, Vec<ObjectId>>::empty(),
            m.total_interrupts == 0,
            m.validator.valid_irq_range == (0u32, 255u32),
            m.validator.max_allocation_size == 1024 * 1024 * 1024,
            m.validator.total_validations == 0 && m.validator.failed_validations == 0,
    {
        let m = InterruptManager {
            validator: Validator::new(),
            handlers: VecMap::new(),
            total_interrupts: 0,
            shared_irqs: VecMap::new(),
        };
        assert(m.handlers@.dom() =~= m.shared_irqs@.dom());
        m
    }

    /// `request_irq`: validate the line, then either share an existing
    /// handler (only with `IRQF_SHARED`) or install a new enabled handler
    /// whose priority comes from the flags. Returns the line's handler id.
    pub fn request_irq(&mut self, driver_id: ObjectId, irq: u32, trigger_type: IrqTrigger, flags: u32) -> (r: Result<ObjectId>)
        requires
            old(self).wf(),
            can_count(old(self).validator),
            old(self).total_interrupts < u64::MAX,
        ensures
            final(self).wf(),
            ({
                let bad = irq < old(self).validator.valid_irq_range.0 || irq > old(self).validator.valid_irq_range.1;
                &&& final(self).validator == counted(old(self).validator, bad)
                &&& bad ==> {
                    &&& r matches Err(Error::Driver(m)) && m@ == "Invalid IRQ number"@
                    &&& final(self).handlers@ == old(self).handlers@
                    &&& final(self).shared_irqs@ == old(self).shared_irqs@
                    &&& final(self).total_interrupts == old(self).total_interrupts
                }
                &&& !bad && old(self).handlers@.contains_key(irq) && flags & IRQF_SHARED == 0 ==> {
                    &&& r matches Err(Error::Driver(_))
                    &&& final(self).handlers@ == old(self).handlers@
                    &&& final(self).shared_irqs@ == old(self).shared_irqs@
                    &&& final(self).total_interrupts == old(self).total_interrupts
                }
                &&& !bad && old(self).handlers@.contains_key(irq) && flags & IRQF_SHARED != 0 ==> {
                    &&& r == Ok::<ObjectId, Error>(old(self).handlers@[irq].handler_id)
                    &&& final(self).handlers@ == old(self).handlers@
                    &&& final(self).shared_irqs@.dom() == old(self).shared_irqs@.dom()
                    &&& final(self).sharers(irq) == old(self).sharers(irq).push(driver_id)
                    &&& forall|i: u32| i != irq ==> #[trigger] final(self).sharers(i) == old(self).sharers(i)
                    &&& final(self).total_interrupts == old(self).total_interrupts + 1
                }
                &&& !bad && !old(self).handlers@.contains_key(irq) ==> {
                    let h = final(self).handlers@[irq];
                    &&& r == Ok::<ObjectId, Error>(h.handler_id)
                    &&& final(self).handlers@ == old(self).handlers@.insert(irq, h)
                    &&& h.handler_id.value != 0
                    &&& h.driver_id == driver_id
                    &&& h.irq_number == irq
                    &&& h.trigger_type == trigger_type
                    &&& h.priority == flag_priority(flags)
                    &&& h.enabled
                    &&& h.call_count == 0 && h.error_count == 0
                    &&& h.avg_latency_us == 0 && h.peak_latency_us == 0
                    &&& final(self).shared_irqs@.dom() == old(self).shared_irqs@.dom().insert(irq)
                    &&& final(self).sharers(irq) == seq![driver_id]
                    &&& forall|i: u32| i != irq ==> #[trigger] final(self).sharers(i) == old(self).sharers(i)
                    &&& final(self).total_interrupts == old(self).total_interrupts + 1
                }
            }),
    {
        match self.validator.validate_irq(irq) {
            Ok(()) => {},
            Err(e) => {
                return Err(e.into_error());
            },
        }
        let id;
        match self.handlers.get(&irq) {
            Some(existing) => {
                if flags & IRQF_SHARED == 0 {
                    return Err(Error::Driver(owned("IRQ already in use (not shared)")));
                }
                id = existing.handler_id;
                match self.shared_irqs.index_of(&irq) {
                    Some(pos) => {
                        let ghost m0 = self.shared_irqs@;
                        let mut list = self.shared_irqs.replace_value(pos, Vec::new());
                        list.push(driver_id);
                        self.shared_irqs.set_value(pos, list);
                        assert(self.shared_irqs@ =~= m0.insert(irq, list));
                        assert(self.shared_irqs@.dom() =~= m0.dom());
                    },
                    None => {
                        assert(false);
                    },
                }
            },
            None => {
                let mut handler = InterruptHandler::new(driver_id, irq, trigger_type);
                if flags & IRQF_CRITICAL != 0 {
                    handler.priority = IrqPriority::Critical;
                } else if flags & IRQF_HIGH_PRIO != 0 {
                    handler.priority = IrqPriority::High;
                }
                handler.enable();
                id = handler.handler_id;
                self.handlers.insert(irq, handler);
                let mut list: Vec<ObjectId> = Vec::new();
                list.push(driver_id);
                self.shared_irqs.insert(irq, list);
                assert(self.handlers@.dom() =~= self.shared_irqs@.dom());
            },
        }
        self.total_interrupts = self.total_interrupts + 1;
        Ok(id)
    }

    /// `free_irq`: refused with `Error::Driver` unless `driver_id` owns or
    /// shares the line. Otherwise the handler is disabled and the driver
    /// leaves the line's sharers; when none remain, the line is released.
    pub fn free_irq(&mut self, irq: u32, driver_id: ObjectId) -> (r: Result<()>)
        requires
            old(self).wf(),
        ensures
            final(self).wf(),
            final(self).validator == old(self).validator,
            final(self).total_interrupts == old(self).total_interrupts,
            !old(self).registered(irq, driver_id) ==> {
                &&& r matches Err(Error::Driver(_))
                &&& final(self).handlers@ == old(self).handlers@
                &&& final(self).shared_irqs@ == old(self).shared_irqs@
            },
            old(self).registered(irq, driver_id) ==> {
                let rest = old(self).sharers(irq).filter(|d: ObjectId| d != driver_id);
                &&& r.is_ok()
                &&& rest.len() == 0 ==> {
                    &&& final(self).handlers@ == old(self).handlers@.remove(irq)
                    &&& final(self).shared_irqs@ == old(self).shared_irqs@.remove(irq)
                }
                &&& rest.len() > 0 ==> {
                    &&& final(self).handlers@ == old(self).handlers@.insert(irq,
                        InterruptHandler { enabled: false, ..old(self).handlers@[irq] })
                    &&& final(self).shared_irqs@.dom() == old(self).shared_irqs@.dom()
                    &&& final(self).sharers(irq) == rest
                    &&& forall|i: u32| i != irq ==> #[trigger] final(self).sharers(i) == old(self).sharers(i)
                }
            },
    {
        let is_registered = match self.handlers.get(&irq) {
            Some(h) => h.driver_id == driver_id || self.is_shared_irq(irq, driver_id),
            None => false,
        };
        if !is_registered {
            return Err(Error::Driver(owned("Driver did not register this IRQ")));
        }
        let hp = match self.handlers.index_of(&irq) {
            Some(p) => p,
            None => {
                assert(false);
                return Ok(());
            },
        };
        let mut h = self.handlers.entries[hp].1;
        h.disable();
        self.handlers.set_value(hp, h);
        let sp = match self.shared_irqs.index_of(&irq) {
            Some(p) => p,
            None => {
                assert(false);
                return Ok(());
            },
        };
        let ghost m0 = self.shared_irqs@;
        let ghost h0 = self.handlers@;
        let list = self.shared_irqs.replace_value(sp, Vec::new());
        let kept = without_driver(list, driver_id);
        if kept.len() == 0 {
            let _ = self.handlers.remove(&irq);
            let _ = self.shared_irqs.remove(&irq);
            assert(self.handlers@ =~= old(self).handlers@.remove(irq));
            assert(self.shared_irqs@ =~= old(self).shared_irqs@.remove(irq));
            assert(self.handlers@.dom() =~= self.shared_irqs@.dom());
        } else {
            self.shared_irqs.set_value(sp, kept);
            assert(self.shared_irqs@ =~= m0.insert(irq, kept));
            assert(self.shared_irqs@.dom() =~= m0.dom());
        }
        Ok(())
    }

    /// Whether `driver_id` is among the sharers of `irq`.
    pub fn is_shared_irq(&self, irq: u32, driver_id: ObjectId) -> (b: bool)
        requires
            self.wf(),
        ensures
            b == self.sharers(irq).contains(driver_id),
    {
        match self.shared_irqs.get(&irq) {
            Some(drivers) => contains_id(drivers, driver_id),
            None => false,
        }
    }

    /// Enable the handler of `irq`; `Error::Driver` when there is none.
    pub fn enable_irq(&mut self, irq: u32) -> (r: Result<()>)
        requires
            old(self).wf(),
        ensures
            final(self).wf(),
            final(self).validator == old(self).validator,
            final(self).total_interrupts == old(self).total_interrupts,
            final(self).shared_irqs@ == old(self).shared_irqs@,
            old(self).handlers@.contains_key(irq) ==> r.is_ok() && final(self).handlers@ == old(self).handlers@.insert(
                irq, InterruptHandler { enabled: true, ..old(self).handlers@[irq] }),
            !old(self).handlers@.contains_key(irq) ==> (r matches Err(Error::Driver(_)))
                && final(self).handlers@ == old(self).handlers@,
    {
        self.set_enabled(irq, true)
    }

    /// Disable the handler of `irq`; `Error::Driver` when there is none.
    pub fn disable_irq(&mut self, irq: u32) -> (r: Result<()>)
        requires
            old(self).wf(),
        ensures
            final(self).wf(),
            final(self).validator == old(self).validator,
            final(self).total_interrupts == old(self).total_interrupts,
            final(self).shared_irqs@ == old(self).shared_irqs@,
            old(self).handlers@.contains_key(irq) ==> r.is_ok() && final(self).handlers@ == old(self).handlers@.insert(
                irq, InterruptHandler { enabled: false, ..old(self).handlers@[irq] }),
            !old(self).handlers@.contains_key(irq) ==> (r matches Err(Error::Driver(_)))
                && final(self).handlers@ == old(self).handlers@,
    {
        self.set_enabled(irq, false)
    }

    fn set_enabled(&mut self, irq: u32, on: bool) -> (r: Result<()>)
        requires
            old(self).wf(),
        ensures
            final(self).wf(),
            final(self).validator == old(self).validator,
            final(self).total_interrupts == old(self).total_interrupts,
            final(self).shared_irqs@ == old(self).shared_irqs@,
            old(self).handlers@.contains_key(irq) ==> r.is_ok() && final(self).handlers@ == old(self).handlers@.insert(
                irq, InterruptHandler { enabled: on, ..old(self).handlers@[irq] }),
            !old(self).handlers@.contains_key(irq) ==> (r matches Err(Error::Driver(_)))
                && final(self).handlers@ == old(self).handlers@,
    {
        match self.handlers.index_of(&irq) {
            Some(pos) => {
                let mut h = self.handlers.entries[pos].1;
                h.enabled = on;
                self.handlers.set_value(pos, h);
                assert(self.handlers@.dom() =~= old(self).handlers@.dom());
                Ok(())
            },
            None => Err(Error::Driver(owned("IRQ not found"))),
        }
    }

    /// The handler of `irq`, if any.
    pub fn get_handler(&self, irq: u32) -> (r: Option<&InterruptHandler>)
        requires
            self.wf(),
        ensures
            match r {
                Some(h) => self.handlers@.contains_key(irq) && *h == self.handlers@[irq],
                None => !self.handlers@.contains_key(irq),
            },
    {
        self.handlers.get(&irq)
    }

    /// Number of enabled handlers.
    pub fn active_interrupts(&self) -> (n: usize)
        ensures
            n == count_enabled(self.handlers.entries@),
    {
        let mut n: usize = 0;
        let mut i: usize = 0;
        while i < self.handlers.entries.len()
            invariant
                i <= self.handlers.entries@.len(),
                n <= i,
                n == count_enabled(self.handlers.entries@.subrange(0, i as int)),
            decreases self.handlers.entries@.len() - i,
        {
            assert(self.handlers.entries@.subrange(0, i as int + 1).drop_last()
                =~= self.handlers.entries@.subrange(0, i as int));
            if self.handlers.entries[i].1.enabled {
                n = n + 1;
            }
            i = i + 1;
        }
        assert(self.handlers.entries@.subrange(0, i as int) =~= self.handlers.entries@);
        n
    }

    /// Number of IRQ lines with a handler.
    pub fn registered_interrupts(&self) -> (n: usize)
        requires
            self.wf(),
        ensures
            n == self.handlers@.len(),
    {
        self.handlers.len()
    }

    /// Handlers whose peak latency exceeds `threshold_us`, in table order.
    pub fn find_high_latency_irqs(&self, threshold_us: u32) -> (r: Vec<&InterruptHandler>)
        ensures
            r@.map_values(|h: &InterruptHandler| *h) == self.handlers.entries@.map_values(
                |e: (u32, InterruptHandler)| e.1).filter(|h: InterruptHandler| h.peak_latency_us > threshold_us),
    {
        let ghost hs = self.handlers.entries@.map_values(|e: (u32, InterruptHandler)| e.1);
        let ghost pred = |h: InterruptHandler| h.peak_latency_us > threshold_us;
        let mut out: Vec<&InterruptHandler> = Vec::new();
        let mut i: usize = 0;
        while i < self.handlers.entries.len()
            invariant
                i <= self.handlers.entries@.len(),
                hs == self.handlers.entries@.map_values(|e: (u32, InterruptHandler)| e.1),
                pred == (|h: InterruptHandler| h.peak_latency_us > threshold_us),
                out@.map_values(|h: &InterruptHandler| *h) == hs.subrange(0, i as int).filter(pred),
            decreases self.handlers.entries@.len() - i,
        {
            proof {
                assert(hs.subrange(0, i as int + 1) =~= hs.subrange(0, i as int).push(hs[i as int]));
                hs.subrange(0, i as int).lemma_filter_push(hs[i as int], pred);
            }
            let h = &self.handlers.entries[i].1;
            if h.peak_latency_us > threshold_us {
                out.push(h);
                assert(out@.map_values(|h: &InterruptHandler| *h) =~= hs.subrange(0, i as int).filter(pred).push(hs[i as int]));
            }
            i = i + 1;
        }
        assert(hs.subrange(0, i as int) =~= hs);
        out
    }

    /// Counts, call and error totals, the mean of the handlers' average
    /// latencies (0 when there are none) and the largest peak latency.
    pub fn get_stats(&self) -> (st: InterruptStats)
        requires
            self.wf(),
            sum_calls(self.handlers.entries@) <= u64::MAX,
            sum_errors(self.handlers.entries@) <= u64::MAX,
            sum_avg_latency(self.handlers.entries@) <= u64::MAX,
        ensures
            st.total_registered == self.handlers@.len(),
            st.active_interrupts == count_enabled(self.handlers.entries@),
            st.total_interrupt_calls == sum_calls(self.handlers.entries@),
            st.total_errors == sum_errors(self.handlers.entries@),
            st.avg_latency_us == if self.handlers.entries@.len() == 0 { 0u32 } else {
                (sum_avg_latency(self.handlers.entries@) / self.handlers.entries@.len()) as u32
            },
            st.peak_latency_us == max_peak(self.handlers.entries@),
    {
        let ghost s = self.handlers.entries@;
        let n = self.handlers.entries.len();
        let mut calls: u64 = 0;
        let mut errors: u64 = 0;
        let mut avg_sum: u64 = 0;
        let mut peak: u32 = 0;
        let mut i: usize = 0;
        while i < n
            invariant
                s == self.handlers.entries@,
                n == s.len(),
                i <= n,
                sum_calls(s) <= u64::MAX,
                sum_errors(s) <= u64::MAX,
                sum_avg_latency(s) <= u64::MAX,
                calls == sum_calls(s.subrange(0, i as int)),
                errors == sum_errors(s.subrange(0, i as int)),
                avg_sum == sum_avg_latency(s.subrange(0, i as int)),
                peak == max_peak(s.subrange(0, i as int)),
            decreases n - i,
        {
            proof {
                assert(s.subrange(0, i as int + 1).drop_last() =~= s.subrange(0, i as int));
                lemma_sums_prefix(s, i as int + 1);
            }
            let h = &self.handlers.entries[i].1;
            calls = calls + h.call_count;
            errors = errors + h.error_count;
            avg_sum = avg_sum + h.avg_latency_us as u64;
            if h.peak_latency_us > peak {
                peak = h.peak_latency_us;
            }
            i = i + 1;
        }
        assert(s.subrange(0, n as int) =~= s);
        let avg: u32 = if n == 0 { 0 } else { (avg_sum / n as u64) as u32 };
        InterruptStats {
            total_registered: self.handlers.len() as u64,
            active_interrupts: self.active_interrupts() as u64,
            total_interrupt_calls: calls,
            total_errors: errors,
            avg_latency_us: avg,
            peak_latency_us: peak,
        }
    }
}

/// Each running sum over a prefix is at most the sum over the whole table.
proof fn lemma_sums_prefix(s: Seq<(u32, InterruptHandler)>, i: int)
    requires
        0 <= i <= s.len(),
    ensures
        sum_calls(s.subrange(0, i)) <= sum_calls(s),
        sum_errors(s.subrange(0, i)) <= sum_errors(s),
        sum_avg_latency(s.subrange(0, i)) <= sum_avg_latency(s),
    decreases s.len() - i,
{
    if i < s.len() {
        lemma_sums_prefix(s, i + 1);
        assert(s.subrange(0, i + 1).drop_last() =~= s.subrange(0, i));
    } else {
        assert(s.subrange(0, i) =~= s);
    }
}

/// The identities of `list` other than `d`, in order.
fn without_driver(list: Vec<ObjectId>, d: ObjectId) -> (r: Vec<ObjectId>)
    ensures
        r@ == list@.filter(|x: ObjectId| x != d),
{
    let ghost pred = |x: ObjectId| x != d;
    let mut out: Vec<ObjectId> = Vec::new();
    let mut i: usize = 0;
    while i < list.len()
        invariant
            i <= list@.len(),
            pred == (|x: ObjectId| x != d),
            out@ == list@.subrange(0, i as int).filter(pred),
        decreases list@.len() - i,
    {
        proof {
            assert(list@.subrange(0, i as int + 1) =~= list@.subrange(0, i as int).push(list@[i as int]));
            list@.subrange(0, i as int).lemma_filter_push(list@[i as int], pred);
        }
        if list[i] != d {
            out.push(list[i]);
        }
        i = i + 1;
    }
    assert(list@.subrange(0, i as int) =~= list@);
    out
}

/// Whether `d` occurs in `list`.
fn contains_id(list: &Vec<ObjectId>, d: ObjectId) -> (b: bool)
    ensures
        b == list@.contains(d),
{
    let mut i: usize = 0;
    while i < list.len()
        invariant
            i <= list@.len(),
            forall|j: int| 0 <= j < i ==> list@[j] != d,
        decreases list@.len() - i,
    {
        if list[i] == d {
            assert(list@[i as int] == d);
            return true;
        }
        i = i + 1;
    }
    false
}

} // verus!
