//! Interrupt controller policy: registration, shared-line handler
//! ordering, enable/disable and dispatch bookkeeping. `dispatch` stands for
//! "an interrupt fired": it runs the enabled handlers of a line in priority
//! order and counts each invocation.
use vstd::prelude::*;
use crate::common::{owned, ObjectId};
use crate::text::{decimal, u64_to_decimal};
use crate::interrupt::handler::InterruptHandler;
use crate::keyed::{lemma_map_of_index, lemma_map_of_update, VecMap};

verus! {

/// Handler `a` runs before handler `b` on line `l`: higher priority first,
/// registration order among equals.
pub open spec fn runs_before(l: Seq<InterruptHandler>, a: int, b: int) -> bool {
    l[a].priority > l[b].priority || (l[a].priority == l[b].priority && a < b)
}

/// `o` lists exactly the enabled handlers of `l`, by position, in dispatch order.
pub open spec fn is_dispatch_order(l: Seq<InterruptHandler>, o: Seq<int>) -> bool {
    &&& forall|k: int| 0 <= k < o.len() ==> 0 <= #[trigger] o[k] < l.len() && l[o[k]].enabled
    &&& forall|i: int| 0 <= i < l.len() && (#[trigger] l[i]).enabled ==> o.contains(i)
    &&& forall|a: int, b: int| 0 <= a < b < o.len() ==> runs_before(l, #[trigger] o[a], #[trigger] o[b])
}

/// `h` is `g` after one more invocation.
pub open spec fn invoked_once(g: InterruptHandler, h: InterruptHandler) -> bool {
    h == InterruptHandler { invocation_count: (g.invocation_count + 1) as u64, ..g }
}

/// In a dispatch order of line `l`, handlers run by priority, highest
/// first, and among equal priorities in registration order; each enabled
/// handler runs exactly once.
pub proof fn lemma_dispatch_by_priority(l: Seq<InterruptHandler>, o: Seq<int>, a: int, b: int)
    requires
        is_dispatch_order(l, o),
        0 <= a < b < o.len(),
    ensures
        l[o[a]].priority >= l[o[b]].priority,
        l[o[a]].priority == l[o[b]].priority ==> o[a] < o[b],
        o[a] != o[b],
{
    assert(runs_before(l, o[a], o[b]));
}

/// The handler reported for a line has the highest priority on it.
pub proof fn lemma_top_handler_highest(l: Seq<InterruptHandler>, i: int, j: int)
    requires
        is_top_handler(l, i),
        0 <= j < l.len(),
    ensures
        l[j].priority <= l[i].priority,
{
}

/// `i` is the handler `get_handler` reports on line `l`: highest priority,
/// the last registered among equals.
pub open spec fn is_top_handler(l: Seq<InterruptHandler>, i: int) -> bool {
    &&& 0 <= i < l.len()
    &&& forall|j: int| 0 <= j < i ==> l[j].priority <= l[i].priority
    &&& forall|j: int| i < j < l.len() ==> l[j].priority < l[i].priority
}

#[derive(Debug)]
pub struct InterruptController {
    handlers: VecMap<u32, Vec<InterruptHandler>>,
}

impl InterruptController {
    pub closed spec fn wf(&self) -> bool {
        self.handlers.wf()
    }

    /// Whether any handler list exists for line `irq`.
    pub closed spec fn has_line(&self, irq: u32) -> bool {
        self.handlers@.contains_key(irq)
    }

    /// Handlers registered on line `irq`, in registration order.
    pub closed spec fn line(&self, irq: u32) -> Seq<InterruptHandler> {
        if self.handlers@.contains_key(irq) {
            self.handlers@[irq]@
        } else {
            Seq::empty()
        }
    }

    /// Every line other than `irq` is as in `other`.
    pub open spec fn other_lines_unchanged(&self, other: &InterruptController, irq: u32) -> bool {
        forall|n: u32| n != irq ==> #[trigger] self.has_line(n) == other.has_line(n)
            && self.line(n) == other.line(n)
    }

    pub fn new() -> (c: InterruptController)
        ensures
            c.wf(),
            forall|n: u32| !#[trigger] c.has_line(n) && c.line(n).len() == 0,
    {
        InterruptController { handlers: VecMap::new() }
    }

    /// Register `handler` on its own line, after any handlers already there.
    pub fn register_handler(&mut self, handler: InterruptHandler)
        requires
            old(self).wf(),
        ensures
            final(self).wf(),
            final(self).has_line(handler.irq_number),
            final(self).line(handler.irq_number) == old(self).line(handler.irq_number).push(handler),
            final(self).other_lines_unchanged(&*old(self), handler.irq_number),
    {
        let irq = handler.irq_number;
        match self.handlers.index_of(&irq) {
            Some(pos) => {
                let ghost s0 = self.handlers.entries@;
                let mut list: Vec<InterruptHandler> = Vec::new();
                std::mem::swap(&mut list, &mut self.handlers.entries[pos].1);
                list.push(handler);
                let ghost l1 = list;
                self.handlers.entries.set(pos, (irq, list));
                proof {
                    lemma_map_of_update(s0, pos as int, (irq, l1));
                    assert(self.handlers.entries@ == s0.update(pos as int, (irq, l1)));
                }
            },
            None => {
                let mut list: Vec<InterruptHandler> = Vec::new();
                list.push(handler);
                self.handlers.insert(irq, list);
            },
        }
    }

    /// Remove every handler registered on `irq_number` (the whole line).
    pub fn unregister_handler(&mut self, irq_number: u32)
        requires
            old(self).wf(),
        ensures
            final(self).wf(),
            !final(self).has_line(irq_number),
            final(self).line(irq_number).len() == 0,
            final(self).other_lines_unchanged(&*old(self), irq_number),
    {
        let _ = self.handlers.remove(&irq_number);
    }

    /// Remove the handlers with identity `handler_id` from line
    /// `irq_number`, keeping the others in order; the line disappears when it
    /// becomes empty. `true` when something was removed.
    pub fn unregister_by_id(&mut self, irq_number: u32, handler_id: ObjectId) -> (removed: bool)
        requires
            old(self).wf(),
        ensures
            final(self).wf(),
            final(self).other_lines_unchanged(&*old(self), irq_number),
            !old(self).has_line(irq_number) ==> !removed && *final(self) == *old(self),
            old(self).has_line(irq_number) ==> {
                &&& removed == exists|i: int| 0 <= i < old(self).line(irq_number).len()
                    && old(self).line(irq_number)[i].id == handler_id
                &&& final(self).line(irq_number) == old(self).line(irq_number).filter(
                    |h: InterruptHandler| h.id != handler_id)
                &&& final(self).has_line(irq_number) == (final(self).line(irq_number).len() > 0)
            },
    {
        let pos = match self.handlers.index_of(&irq_number) {
            Some(p) => p,
            None => return false,
        };
        let ghost s0 = self.handlers.entries@;
        let mut list: Vec<InterruptHandler> = Vec::new();
        std::mem::swap(&mut list, &mut self.handlers.entries[pos].1);
        let ghost l0 = list@;
        proof {
            lemma_map_of_index(s0, pos as int);
            assert(l0 == s0[pos as int].1@);
        }
        let before = list.len();
        let mut kept: Vec<InterruptHandler> = Vec::new();
        let ghost pred = |h: InterruptHandler| h.id != handler_id;
        let mut i: usize = 0;
        while i < list.len()
            invariant
                list@ == l0,
                i <= l0.len(),
                kept@ == l0.subrange(0, i as int).filter(pred),
                pred == (|h: InterruptHandler| h.id != handler_id),
            decreases l0.len() - i,
        {
            proof {
                assert(l0.subrange(0, i as int + 1).drop_last() == l0.subrange(0, i as int));
                l0.subrange(0, i as int + 1).lemma_filter_len_push(pred, l0[i as int]);
                assert(l0.subrange(0, i as int + 1) == l0.subrange(0, i as int).push(l0[i as int]));
                l0.subrange(0, i as int).lemma_filter_push(l0[i as int], pred);
            }
            if list[i].id != handler_id {
                let h = list[i].duplicate();
                kept.push(h);
            }
            i = i + 1;
        }
        assert(l0.subrange(0, l0.len() as int) == l0);
        let removed = kept.len() != before;
        proof {
            if exists|j: int| 0 <= j < l0.len() && l0[j].id == handler_id {
                let j = choose|j: int| 0 <= j < l0.len() && l0[j].id == handler_id;
                lemma_filter_strictly_shorter(l0, pred, j);
            } else {
                lemma_filter_keeps_all(l0, pred);
            }
            lemma_map_of_index(s0, pos as int);
        }
        if kept.len() == 0 {
            let ghost kv = kept;
            self.handlers.entries.set(pos, (irq_number, kept));
            proof {
                assert(self.handlers.entries@ == s0.update(pos as int, (irq_number, kv)));
                lemma_map_of_update(s0, pos as int, (irq_number, kv));
            }
            let _ = self.handlers.remove(&irq_number);
        } else {
            let ghost kv = kept;
            self.handlers.entries.set(pos, (irq_number, kept));
            proof {
                assert(self.handlers.entries@ == s0.update(pos as int, (irq_number, kv)));
                lemma_map_of_update(s0, pos as int, (irq_number, kv));
            }
        }
        removed
    }

    /// Highest-priority handler on `irq_number` (the last registered among
    /// equals), if the line has any.
    pub fn get_handler(&self, irq_number: u32) -> (r: Option<&InterruptHandler>)
        requires
            self.wf(),
        ensures
            self.line(irq_number).len() == 0 ==> r.is_none(),
            self.line(irq_number).len() > 0 ==> exists|i: int|
                is_top_handler(self.line(irq_number), i) && r == Some(&self.line(irq_number)[i]),
    {
        let list = match self.handlers.get(&irq_number) {
            Some(l) => l,
            None => return None,
        };
        if list.len() == 0 {
            return None;
        }
        let mut best: usize = 0;
        let mut i: usize = 1;
        while i < list.len()
            invariant
                best < i <= list@.len(),
                forall|j: int| 0 <= j < best ==> list@[j].priority <= list@[best as int].priority,
                forall|j: int| best < j < i ==> list@[j].priority < list@[best as int].priority,
            decreases list@.len() - i,
        {
            if list[i].priority >= list[best].priority {
                best = i;
            }
            i = i + 1;
        }
        assert(is_top_handler(list@, best as int));
        Some(&list[best])
    }

    /// The handlers registered on `irq_number`, in registration order.
    pub fn get_handlers(&self, irq_number: u32) -> (r: &[InterruptHandler])
        requires
            self.wf(),
        ensures
            r@ == self.line(irq_number),
    {
        match self.handlers.get(&irq_number) {
            Some(l) => l.as_slice(),
            None => &[],
        }
    }

    /// Set the `enabled` flag of every handler on a line.
    fn set_line_enabled(&mut self, irq_number: u32, on: bool)
        requires
            old(self).wf(),
        ensures
            final(self).wf(),
            final(self).other_lines_unchanged(&*old(self), irq_number),
            final(self).has_line(irq_number) == old(self).has_line(irq_number),
            final(self).line(irq_number).len() == old(self).line(irq_number).len(),
            forall|i: int| 0 <= i < old(self).line(irq_number).len() ==>
                #[trigger] final(self).line(irq_number)[i]
                == (InterruptHandler { enabled: on, ..old(self).line(irq_number)[i] }),
    {
        let pos = match self.handlers.index_of(&irq_number) {
            Some(p) => p,
            None => return,
        };
        let ghost s0 = self.handlers.entries@;
        let mut list: Vec<InterruptHandler> = Vec::new();
        std::mem::swap(&mut list, &mut self.handlers.entries[pos].1);
        let ghost l0 = list@;
        proof {
            lemma_map_of_index(s0, pos as int);
            assert(l0 == s0[pos as int].1@);
        }
        let mut i: usize = 0;
        while i < list.len()
            invariant
                list@.len() == l0.len(),
                i <= l0.len(),
                forall|j: int| 0 <= j < i ==> #[trigger] list@[j] == (InterruptHandler { enabled: on, ..l0[j] }),
                forall|j: int| i <= j < l0.len() ==> #[trigger] list@[j] == l0[j],
            decreases l0.len() - i,
        {
            let h = &mut list[i];
            h.enabled = on;
            i = i + 1;
        }
        let ghost lv = list;
        self.handlers.entries.set(pos, (irq_number, list));
        proof {
            assert(self.handlers.entries@ == s0.update(pos as int, (irq_number, lv)));
            lemma_map_of_index(s0, pos as int);
            lemma_map_of_update(s0, pos as int, (irq_number, lv));
        }
    }

    pub fn enable_irq(&mut self, irq_number: u32)
        requires
            old(self).wf(),
        ensures
            final(self).wf(),
            final(self).other_lines_unchanged(&*old(self), irq_number),
            final(self).has_line(irq_number) == old(self).has_line(irq_number),
            final(self).line(irq_number).len() == old(self).line(irq_number).len(),
            forall|i: int| 0 <= i < old(self).line(irq_number).len() ==>
                #[trigger] final(self).line(irq_number)[i]
                == (InterruptHandler { enabled: true, ..old(self).line(irq_number)[i] }),
    {
        self.set_line_enabled(irq_number, true)
    }

    pub fn disable_irq(&mut self, irq_number: u32)
        requires
            old(self).wf(),
        ensures
            final(self).wf(),
            final(self).other_lines_unchanged(&*old(self), irq_number),
            final(self).has_line(irq_number) == old(self).has_line(irq_number),
            final(self).line(irq_number).len() == old(self).line(irq_number).len(),
            forall|i: int| 0 <= i < old(self).line(irq_number).len() ==>
                #[trigger] final(self).line(irq_number)[i]
                == (InterruptHandler { enabled: false, ..old(self).line(irq_number)[i] }),
    {
        self.set_line_enabled(irq_number, false)
    }

    /// Positions of the enabled handlers of `list`, in dispatch order.
    fn dispatch_order(list: &Vec<InterruptHandler>) -> (o: Vec<usize>)
        ensures
            is_dispatch_order(list@, o@.map_values(|x: usize| x as int)),
    {
        let ghost l = list@;
        let mut order: Vec<usize> = Vec::new();
        let mut i: usize = 0;
        while i < list.len()
            invariant
                l == list@,
                i <= l.len(),
                forall|k: int| 0 <= k < order@.len() ==> (#[trigger] order@[k]) < i && l[order@[k] as int].enabled,
                forall|j: int| 0 <= j < i && (#[trigger] l[j]).enabled ==> order@.contains(j as usize),
                forall|a: int, b: int| 0 <= a < b < order@.len() ==>
                    runs_before(l, (#[trigger] order@[a]) as int, (#[trigger] order@[b]) as int),
            decreases l.len() - i,
        {
            if list[i].enabled {
                let mut p: usize = 0;
                while p < order.len() && list[order[p]].priority >= list[i].priority
                    invariant
                        l == list@,
                        i < l.len(),
                        p <= order@.len(),
                        forall|k: int| 0 <= k < order@.len() ==> (#[trigger] order@[k]) < i,
                        forall|k: int| 0 <= k < p ==> l[(#[trigger] order@[k]) as int].priority >= l[i as int].priority,
                    decreases order@.len() - p,
                {
                    p = p + 1;
                }
                let ghost o0 = order@;
                proof {
                    // Everything from position `p` on has strictly lower priority than `i`.
                    assert forall|k: int| p <= k < o0.len() implies l[(#[trigger] o0[k]) as int].priority < l[i as int].priority by {
                        assert(l[o0[p as int] as int].priority < l[i as int].priority);
                        if k > p {
                            assert(runs_before(l, o0[p as int] as int, o0[k] as int));
                        }
                    }
                }
                order.insert(p, i);
                proof {
                    let o1 = order@;
                    assert(o1 == o0.insert(p as int, i));
                    assert forall|a: int, b: int| 0 <= a < b < o1.len() implies
                        runs_before(l, (#[trigger] o1[a]) as int, (#[trigger] o1[b]) as int) by {
                        if b < p {
                            assert(o1[a] == o0[a] && o1[b] == o0[b]);
                        } else if b == p {
                            assert(o1[a] == o0[a]);
                        } else if a < p {
                            assert(o1[a] == o0[a] && o1[b] == o0[b - 1]);
                            assert(runs_before(l, o0[a] as int, o0[b - 1] as int));
                        } else if a == p {
                            assert(o1[b] == o0[b - 1]);
                        } else {
                            assert(o1[a] == o0[a - 1] && o1[b] == o0[b - 1]);
                        }
                    }
                    assert(o1[p as int] == i);
                    assert forall|j: int| 0 <= j < i + 1 && (#[trigger] l[j]).enabled implies o1.contains(j as usize) by {
                        if j < i {
                            let k = choose|k: int| 0 <= k < o0.len() && o0[k] == j as usize;
                            if k < p {
                                assert(o1[k] == o0[k]);
                            } else {
                                assert(o1[k + 1] == o0[k]);
                            }
                        }
                    }
                }
            }
            i = i + 1;
        }
        proof {
            let om = order@.map_values(|x: usize| x as int);
            assert forall|j: int| 0 <= j < l.len() && (#[trigger] l[j]).enabled implies om.contains(j) by {
                let k = choose|k: int| 0 <= k < order@.len() && order@[k] == j as usize;
                assert(om[k] == j);
            }
            assert forall|a: int, b: int| 0 <= a < b < om.len() implies runs_before(l, #[trigger] om[a], #[trigger] om[b]) by {
                assert(runs_before(l, order@[a] as int, order@[b] as int));
            }
        }
        order
    }

    /// Simulate an interrupt on `irq_number`: every enabled handler of the
    /// line runs once, highest priority first (registration order among
    /// equals); returns their identities in that order. An empty result
    /// (not an error) when all handlers there are disabled; an error when
    /// the line has no handler list at all (a spurious interrupt).
    pub fn dispatch(&mut self, irq_number: u32) -> (r: core::result::Result<Vec<ObjectId>, String>)
        requires
            old(self).wf(),
            forall|i: int| 0 <= i < old(self).line(irq_number).len() ==>
                (#[trigger] old(self).line(irq_number)[i]).invocation_count < u64::MAX,
        ensures
            final(self).wf(),
            final(self).other_lines_unchanged(&*old(self), irq_number),
            final(self).has_line(irq_number) == old(self).has_line(irq_number),
            !old(self).has_line(irq_number) ==> (r matches Err(m)
                && m@ == "spurious interrupt: no handler registered for IRQ "@ + decimal(irq_number as nat))
                && *final(self) == *old(self),
            old(self).has_line(irq_number) ==> r.is_ok() && exists|o: Seq<int>| {
                &&& #[trigger] is_dispatch_order(old(self).line(irq_number), o)
                &&& r.unwrap()@.len() == o.len()
                &&& forall|k: int| 0 <= k < o.len() ==> #[trigger] r.unwrap()@[k]
                    == old(self).line(irq_number)[o[k]].id
                &&& final(self).line(irq_number).len() == old(self).line(irq_number).len()
                &&& forall|j: int| 0 <= j < old(self).line(irq_number).len() ==>
                    if old(self).line(irq_number)[j].enabled {
                        invoked_once(old(self).line(irq_number)[j], #[trigger] final(self).line(irq_number)[j])
                    } else {
                        final(self).line(irq_number)[j] == old(self).line(irq_number)[j]
                    }
            },
    {
        let pos = match self.handlers.index_of(&irq_number) {
            Some(p) => p,
            None => {
                let msg = owned("spurious interrupt: no handler registered for IRQ ").concat(
                    u64_to_decimal(irq_number as u64).as_str());
                return Err(msg);
            },
        };
        let ghost s0 = self.handlers.entries@;
        proof {
            lemma_map_of_index(s0, pos as int);
        }
        let mut list: Vec<InterruptHandler> = Vec::new();
        std::mem::swap(&mut list, &mut self.handlers.entries[pos].1);
        let ghost l0 = list@;
        assert(l0 == s0[pos as int].1@);
        assert(l0 == old(self).line(irq_number));
        let order = Self::dispatch_order(&list);
        let ghost o = order@.map_values(|x: usize| x as int);
        let mut ids: Vec<ObjectId> = Vec::new();
        let mut k: usize = 0;
        while k < order.len()
            invariant
                is_dispatch_order(l0, o),
                o == order@.map_values(|x: usize| x as int),
                k <= order@.len(),
                list@.len() == l0.len(),
                forall|i: int| 0 <= i < l0.len() ==> (#[trigger] l0[i]).invocation_count < u64::MAX,
                ids@.len() == k,
                forall|m: int| 0 <= m < k ==> #[trigger] ids@[m] == l0[o[m]].id,
                forall|j: int| 0 <= j < l0.len() ==> if o.subrange(0, k as int).contains(j) {
                    invoked_once(l0[j], #[trigger] list@[j])
                } else {
                    list@[j] == l0[j]
                },
            decreases order@.len() - k,
        {
            let idx = order[k];
            proof {
                assert(o[k as int] == idx as int);
                let s0 = o.subrange(0, k as int);
                assert(!s0.contains(idx as int)) by {
                    if s0.contains(idx as int) {
                        let m = choose|m: int| 0 <= m < s0.len() && s0[m] == idx as int;
                        assert(o[m] == o[k as int]);
                        assert(runs_before(l0, o[m], o[k as int]));
                    }
                }
                assert(list@[idx as int] == l0[idx as int]);
            }
            let h = &mut list[idx];
            h.invocation_count = h.invocation_count + 1;
            ids.push(list[idx].id);
            proof {
                let s1 = o.subrange(0, k as int + 1);
                let s0 = o.subrange(0, k as int);
                assert forall|j: int| 0 <= j < l0.len() implies (if s1.contains(j) {
                    invoked_once(l0[j], #[trigger] list@[j])
                } else {
                    list@[j] == l0[j]
                }) by {
                    if j == idx as int {
                        assert(s1[k as int] == j);
                    } else {
                        if s1.contains(j) {
                            let m = choose|m: int| 0 <= m < s1.len() && s1[m] == j;
                            assert(m != k);
                            assert(s0[m] == j);
                        }
                        if s0.contains(j) {
                            let m = choose|m: int| 0 <= m < s0.len() && s0[m] == j;
                            assert(s1[m] == j);
                        }
                    }
                }
            }
            k = k + 1;
        }
        proof {
            assert(o.subrange(0, o.len() as int) == o);
        }
        let ghost lv = list;
        self.handlers.entries.set(pos, (irq_number, list));
        proof {
            assert(self.handlers.entries@ == s0.update(pos as int, (irq_number, lv)));
            lemma_map_of_update(s0, pos as int, (irq_number, lv));
            assert forall|j: int| 0 <= j < l0.len() implies (if l0[j].enabled {
                invoked_once(l0[j], #[trigger] lv@[j])
            } else {
                lv@[j] == l0[j]
            }) by {
                if l0[j].enabled {
                    assert(o.contains(j));
                } else if o.contains(j) {
                    let m = choose|m: int| 0 <= m < o.len() && o[m] == j;
                    assert(l0[o[m]].enabled);
                }
            }
            assert(final(self).line(irq_number) == lv@);
            assert(is_dispatch_order(old(self).line(irq_number), o));
        }
        Ok(ids)
    }
}

/// Filtering out an element that is present makes the sequence shorter.
proof fn lemma_filter_strictly_shorter(s: Seq<InterruptHandler>, p: spec_fn(InterruptHandler) -> bool, j: int)
    requires
        0 <= j < s.len(),
        !p(s[j]),
    ensures
        s.filter(p).len() < s.len(),
    decreases s.len(),
{
    reveal_with_fuel(Seq::filter, 1);
    let t = s.drop_last();
    assert(s == t.push(s.last()));
    t.lemma_filter_push(s.last(), p);
    if j == s.len() - 1 {
        t.lemma_filter_len(p);
    } else {
        lemma_filter_strictly_shorter(t, p, j);
    }
}

/// Filtering with a predicate that holds everywhere keeps the length.
proof fn lemma_filter_keeps_all(s: Seq<InterruptHandler>, p: spec_fn(InterruptHandler) -> bool)
    requires
        forall|j: int| 0 <= j < s.len() ==> p(#[trigger] s[j]),
    ensures
        s.filter(p).len() == s.len(),
    decreases s.len(),
{
    if s.len() > 0 {
        let t = s.drop_last();
        assert(s == t.push(s.last()));
        t.lemma_filter_push(s.last(), p);
        lemma_filter_keeps_all(t, p);
    }
}

} // verus!
