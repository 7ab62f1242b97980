//! Device class to driver name: the matching step between discovery and
//! sandboxed loading.
use vstd::prelude::*;
use crate::common::owned;
use crate::keyed::{keys_of, lemma_map_of_contains, lemma_map_of_index, lemma_map_of_len, VecMap};

verus! {

/// `a` comes no later than `b` in lexicographic character order, the order
/// of `str`.
pub open spec fn text_le(a: Seq<char>, b: Seq<char>) -> bool
    decreases a.len(),
{
    if a.len() == 0 {
        true
    } else if b.len() == 0 {
        false
    } else if a[0] != b[0] {
        (a[0] as u32) < (b[0] as u32)
    } else {
        text_le(a.drop_first(), b.drop_first())
    }
}

/// The texts of a sequence of string slices.
pub open spec fn texts(v: Seq<&str>) -> Seq<Seq<char>> {
    v.map_values(|s: &str| s@)
}

/// Sorts with `<[&str]>::sort_unstable`. Claimed: the result holds the same
/// strings (as a multiset) in non-decreasing lexicographic order, which is
/// how std orders `str` (byte order of UTF-8, the same as character order).
/// Which of two equal strings comes first is left open, as the method does.
#[verifier::external_body]
fn sort_strs(v: &mut Vec<&str>)
    ensures
        texts(final(v)@).to_multiset() == texts(old(v)@).to_multiset(),
        forall|i: int, j: int| 0 <= i < j < final(v)@.len() ==> text_le(final(v)@[i]@, final(v)@[j]@),
{
    v.sort_unstable();
}

#[derive(Debug)]
pub struct DriverRegistry {
    drivers: VecMap<String, String>,
}

impl Default for DriverRegistry {
    fn default() -> (r: DriverRegistry)
        ensures
            r.wf(),
            r.classes() == Map::<Seq<char>, String>::empty(),
    {
        DriverRegistry { drivers: VecMap::new() }
    }
}

impl DriverRegistry {
    pub closed spec fn wf(&self) -> bool {
        self.drivers.wf()
    }

    /// Device class to driver name.
    pub closed spec fn classes(&self) -> Map<Seq<char>, String> {
        self.drivers@
    }

    pub fn new() -> (r: DriverRegistry)
        ensures
            r.wf(),
            r.classes() == Map::<Seq<char>, String>::empty(),
    {
        DriverRegistry { drivers: VecMap::new() }
    }

    /// Map `device_class` to `driver_name`, replacing an earlier driver.
    pub fn register(&mut self, device_class: &str, driver_name: &str)
        requires
            old(self).wf(),
        ensures
            final(self).wf(),
            final(self).classes().contains_key(device_class@),
            final(self).classes()[device_class@]@ == driver_name@,
            final(self).classes().remove(device_class@) == old(self).classes().remove(device_class@),
    {
        let name = owned(driver_name);
        let ghost n = name;
        self.drivers.insert(owned(device_class), name);
        assert(self.drivers@.remove(device_class@) =~= old(self).drivers@.remove(device_class@));
        assert(self.drivers@[device_class@] == n);
    }

    /// Forget `device_class`; whether it was registered.
    pub fn unregister(&mut self, device_class: &str) -> (b: bool)
        requires
            old(self).wf(),
        ensures
            final(self).wf(),
            b == old(self).classes().contains_key(device_class@),
            final(self).classes() == old(self).classes().remove(device_class@),
    {
        self.drivers.remove(&owned(device_class)).is_some()
    }

    /// The driver registered for `device_class`, if any.
    pub fn match_driver(&self, device_class: &str) -> (r: Option<&str>)
        requires
            self.wf(),
        ensures
            match r {
                Some(name) => self.classes().contains_key(device_class@) && name@ == self.classes()[device_class@]@,
                None => !self.classes().contains_key(device_class@),
            },
    {
        match self.drivers.get(&owned(device_class)) {
            Some(name) => Some(name.as_str()),
            None => None,
        }
    }

    /// Every registered class, each once, in lexicographic order.
    pub fn registered_classes(&self) -> (r: Vec<&str>)
        requires
            self.wf(),
        ensures
            r@.len() == self.classes().len(),
            forall|k: Seq<char>| self.classes().contains_key(k) <==> #[trigger] texts(r@).contains(k),
            forall|i: int, j: int| 0 <= i < j < r@.len() ==> text_le(r@[i]@, r@[j]@),
            forall|i: int, j: int| 0 <= i < j < r@.len() ==> r@[i]@ != r@[j]@,
    {
        let ghost ks = keys_of(self.drivers.entries@);
        let mut out: Vec<&str> = Vec::new();
        let mut i: usize = 0;
        while i < self.drivers.entries.len()
            invariant
                i <= self.drivers.entries@.len(),
                ks == keys_of(self.drivers.entries@),
                texts(out@) == ks.subrange(0, i as int),
                out@.len() == i,
            decreases self.drivers.entries@.len() - i,
        {
            let ghost prev = out@;
            let t = self.drivers.entries[i].0.as_str();
            out.push(t);
            proof {
                assert(t@ == ks[i as int]);
                assert forall|k: int| 0 <= k < i + 1 implies #[trigger] texts(out@)[k] == ks.subrange(0, i as int + 1)[k] by {
                    if k < i {
                        assert(out@[k] == prev[k]);
                        assert(texts(prev)[k] == ks.subrange(0, i as int)[k]);
                    }
                }
            }
            assert(texts(out@) =~= ks.subrange(0, i as int + 1));
            i = i + 1;
        }
        assert(ks.subrange(0, i as int) =~= ks);
        sort_strs(&mut out);
        proof {
            ks.lemma_multiset_has_no_duplicates();
            texts(out@).lemma_multiset_has_no_duplicates_conv();
            assert forall|i: int, j: int| 0 <= i < j < out@.len() implies out@[i]@ != out@[j]@ by {
                assert(texts(out@)[i] == out@[i]@);
                assert(texts(out@)[j] == out@[j]@);
            }
            broadcast use vstd::seq_lib::group_to_multiset_ensures;
            lemma_map_of_len(self.drivers.entries@);
            let views = texts(out@);
            assert(views.len() == views.to_multiset().len());
            assert(ks.len() == ks.to_multiset().len());
            assert forall|k: Seq<char>| self.drivers@.contains_key(k) <==> #[trigger] views.contains(k) by {
                assert(views.contains(k) <==> views.to_multiset().count(k) > 0);
                assert(ks.contains(k) <==> ks.to_multiset().count(k) > 0);
            }
        }
        out
    }
}

} // verus!
