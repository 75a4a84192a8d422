//! A view of state values that other shards push: a fixed set of keys,
//! each with a slot that waits for its value, over a base view that
//! answers for every other key.

use vstd::prelude::*;

verus! {

/// A state key, as bytes.
pub type StateKey = Vec<u8>;

/// A state value, as bytes.
pub type StateValue = Vec<u8>;

/// What a slot holds, as a mathematical value.
pub enum SlotView {
    /// The other shard has not pushed the value yet.
    Waiting,
    /// The value that the other shard pushed; `None` where the key has no value.
    Ready(Option<Seq<u8>>),
}

/// The view of an optional value.
pub open spec fn value_view(value: Option<StateValue>) -> Option<Seq<u8>> {
    match value {
        Some(v) => Some(v@),
        None => None,
    }
}

/// Whether a slot has its value yet.
pub enum CrossShardValueStatus {
    /// The value is available as a result of the execution on another shard.
    Ready(Option<StateValue>),
    /// The other shard has yet to push the value.
    Waiting,
}

/// Outcome of a read through the view.
#[derive(Debug, PartialEq, Eq)]
pub enum StateValueLookup {
    /// The key belongs to the view and its value has arrived.
    Ready(Option<StateValue>),
    /// The key belongs to the view and its value has not arrived: the
    /// reader blocks until `set_value` is called for the key.
    Waiting,
    /// The key does not belong to the view: the base view answers.
    Base,
}

/// Storage usage as this view reports it.
#[derive(Clone, Copy, Debug, PartialEq, Eq)]
pub enum StorageUsage {
    Measured { items: usize, bytes: usize },
    Untracked,
}

/// Copies an optional value.
fn copy_value(value: &Option<StateValue>) -> (r: Option<StateValue>)
    ensures
        value_view(r) == value_view(*value),
{
    match value {
        Some(v) => Some(v.clone()),
        None => None,
    }
}

/// Whether two keys hold the same bytes.
fn same_key(a: &StateKey, b: &StateKey) -> (r: bool)
    ensures
        r == (a@ == b@),
{
    if a.len() != b.len() {
        return false;
    }
    let mut i: usize = 0;
    while i < a.len()
        invariant
            a@.len() == b@.len(),
            0 <= i <= a@.len(),
            forall|k: int| 0 <= k < i ==> a@[k] == b@[k],
        decreases a@.len() - i,
    {
        if a[i] != b[i] {
            return false;
        }
        i = i + 1;
    }
    assert(a@ =~= b@);
    true
}

/// One slot of the view.
pub struct CrossShardStateValue {
    status: CrossShardValueStatus,
}

impl View for CrossShardStateValue {
    type V = SlotView;

    closed spec fn view(&self) -> SlotView {
        match self.status {
            CrossShardValueStatus::Ready(v) => SlotView::Ready(value_view(v)),
            CrossShardValueStatus::Waiting => SlotView::Waiting,
        }
    }
}

impl CrossShardStateValue {
    /// A slot whose value has not arrived.
    pub fn waiting() -> (r: Self)
        ensures
            r@ == SlotView::Waiting,
    {
        CrossShardStateValue { status: CrossShardValueStatus::Waiting }
    }

    /// Stores the value that the other shard pushed.
    pub fn set_value(&mut self, value: Option<StateValue>)
        ensures
            final(self)@ == SlotView::Ready(value_view(value)),
    {
        self.status = CrossShardValueStatus::Ready(value);
    }

    /// The value of the slot, or `None` while it has not arrived.
    pub fn get_value(&self) -> (r: Option<Option<StateValue>>)
        ensures
            match self@ {
                SlotView::Waiting => r.is_none(),
                SlotView::Ready(v) => r matches Some(got) && value_view(got) == v,
            },
    {
        match &self.status {
            CrossShardValueStatus::Ready(value) => Some(copy_value(value)),
            CrossShardValueStatus::Waiting => None,
        }
    }
}

/// The keys that other shards will push, with a slot for each. The set
/// of keys is fixed when the view is made; only the slots change.
pub struct CrossShardStateView {
    keys: Vec<StateKey>,
    cross_shard_data: Vec<CrossShardStateValue>,
}

impl View for CrossShardStateView {
    type V = Map<Seq<u8>, SlotView>;

    closed spec fn view(&self) -> Map<Seq<u8>, SlotView> {
        Map::new(|k: Seq<u8>| self.holds(k), |k: Seq<u8>| self.cross_shard_data@[self.index_of(k)]@)
    }
}

impl CrossShardStateView {
    /// Whether `k` is one of the keys.
    closed spec fn holds(&self, k: Seq<u8>) -> bool {
        exists|i: int| 0 <= i < self.keys@.len() && (#[trigger] self.keys@[i])@ == k
    }

    /// The place of `k` among the keys.
    closed spec fn index_of(&self, k: Seq<u8>) -> int {
        choose|i: int| 0 <= i < self.keys@.len() && (#[trigger] self.keys@[i])@ == k
    }

    /// Every key has its slot, and no key occurs twice.
    pub closed spec fn wf(&self) -> bool {
        &&& self.keys@.len() == self.cross_shard_data@.len()
        &&& forall|i: int, j: int|
            0 <= i < j < self.keys@.len() ==> (#[trigger] self.keys@[i])@ != (#[trigger] self.keys@[j])@
    }

    /// The place of `key` among the keys, if it is one of them.
    fn find(&self, key: &StateKey) -> (r: Option<usize>)
        requires
            self.wf(),
        ensures
            r.is_some() <==> self.holds(key@),
            r matches Some(i) ==> i < self.keys@.len() && self.keys@[i as int]@ == key@ && i == self.index_of(key@),
    {
        let mut i: usize = 0;
        while i < self.keys.len()
            invariant
                self.wf(),
                0 <= i <= self.keys@.len(),
                forall|k: int| 0 <= k < i ==> (#[trigger] self.keys@[k])@ != key@,
            decreases self.keys@.len() - i,
        {
            if same_key(&self.keys[i], key) {
                proof {
                    let j = self.index_of(key@);
                    assert(self.keys@[i as int]@ == key@);
                    assert(0 <= j < self.keys@.len() && self.keys@[j]@ == key@);
                    if j < i {
                        assert(self.keys@[j]@ != self.keys@[i as int]@);
                    } else if i < j {
                        assert(self.keys@[i as int]@ != self.keys@[j]@);
                    }
                }
                return Some(i);
            }
            i = i + 1;
        }
        None
    }

    /// A view that waits for a value for each of `cross_shard_keys`. A key
    /// that is listed twice gets one slot.
    pub fn new(cross_shard_keys: Vec<StateKey>) -> (r: Self)
        ensures
            r.wf(),
            forall|k: Seq<u8>|
                r@.contains_key(k) <==> exists|i: int|
                    0 <= i < cross_shard_keys@.len() && (#[trigger] cross_shard_keys@[i])@ == k,
            forall|k: Seq<u8>| r@.contains_key(k) ==> r@[k] == SlotView::Waiting,
    {
        let mut r = CrossShardStateView { keys: Vec::new(), cross_shard_data: Vec::new() };
        let mut n: usize = 0;
        while n < cross_shard_keys.len()
            invariant
                0 <= n <= cross_shard_keys@.len(),
                r.wf(),
                forall|k: Seq<u8>|
                    r.holds(k) <==> exists|i: int| 0 <= i < n && (#[trigger] cross_shard_keys@[i])@ == k,
                forall|i: int| 0 <= i < r.cross_shard_data@.len() ==> (#[trigger] r.cross_shard_data@[i])@
                    == SlotView::Waiting,
            decreases cross_shard_keys@.len() - n,
        {
            let ghost before = r;
            let key = &cross_shard_keys[n];
            let found = r.find(key);
            if found.is_none() {
                r.keys.push(key.clone());
                r.cross_shard_data.push(CrossShardStateValue::waiting());
                assert(r.keys@[r.keys@.len() - 1]@ == key@);
                assert forall|i: int, j: int| 0 <= i < j < r.keys@.len() implies (#[trigger] r.keys@[i])@ != (
                #[trigger] r.keys@[j])@ by {
                    if j == r.keys@.len() - 1 {
                        assert(before.keys@[i]@ != key@);
                    } else {
                        assert(before.keys@[i]@ != before.keys@[j]@);
                    }
                }
            }
            assert forall|k: Seq<u8>| r.holds(k) <==> exists|i: int|
                0 <= i < n + 1 && (#[trigger] cross_shard_keys@[i])@ == k by {
                if r.holds(k) {
                    let j = choose|j: int| 0 <= j < r.keys@.len() && (#[trigger] r.keys@[j])@ == k;
                    if j < before.keys@.len() {
                        assert(before.keys@[j]@ == k);
                        assert(before.holds(k));
                    } else {
                        assert(cross_shard_keys@[n as int]@ == k);
                    }
                }
                if exists|i: int| 0 <= i < n + 1 && (#[trigger] cross_shard_keys@[i])@ == k {
                    let i = choose|i: int| 0 <= i < n + 1 && (#[trigger] cross_shard_keys@[i])@ == k;
                    if i < n {
                        assert(before.holds(k));
                        let j = choose|j: int| 0 <= j < before.keys@.len() && (#[trigger] before.keys@[j])@ == k;
                        assert(r.keys@[j]@ == k);
                    } else if found.is_some() {
                        assert(before.holds(k));
                    } else {
                        assert(r.keys@[r.keys@.len() - 1]@ == k);
                    }
                }
            }
            n = n + 1;
        }
        proof {
            assert forall|k: Seq<u8>| r@.contains_key(k) implies r@[k] == SlotView::Waiting by {
                let j = r.index_of(k);
                assert(r.cross_shard_data@[j]@ == SlotView::Waiting);
            }
        }
        r
    }

    /// Stores the value that another shard pushed for `state_key`. A key
    /// that does not belong to the view is ignored.
    pub fn set_value(&mut self, state_key: &StateKey, state_value: Option<StateValue>)
        requires
            old(self).wf(),
        ensures
            final(self).wf(),
            final(self)@ == if old(self)@.contains_key(state_key@) {
                old(self)@.insert(state_key@, SlotView::Ready(value_view(state_value)))
            } else {
                old(self)@
            },
    {
        match self.find(state_key) {
            Some(i) => {
                self.cross_shard_data[i].set_value(state_value);
                proof {
                    let expected = old(self)@.insert(state_key@, SlotView::Ready(value_view(state_value)));
                    assert(self.keys == old(self).keys);
                    assert forall|k: Seq<u8>| self@.contains_key(k) <==> expected.contains_key(k) by {
                        assert(self.holds(k) == old(self).holds(k));
                    }
                    assert forall|k: Seq<u8>| self@.contains_key(k) implies self@[k] == expected[k] by {
                        assert(self.index_of(k) == old(self).index_of(k));
                        let j = self.index_of(k);
                        if k != state_key@ {
                            assert(self.keys@[j]@ == k);
                            assert(j != i);
                        }
                    }
                    assert(self@ =~= expected);
                }
            },
            None => {},
        }
    }

    /// Reads `state_key` through the view.
    pub fn get_state_value(&self, state_key: &StateKey) -> (r: StateValueLookup)
        requires
            self.wf(),
        ensures
            match r {
                StateValueLookup::Base => !self@.contains_key(state_key@),
                StateValueLookup::Waiting => self@.contains_key(state_key@) && self@[state_key@] == SlotView::Waiting,
                StateValueLookup::Ready(v) => self@.contains_key(state_key@) && self@[state_key@] == SlotView::Ready(
                    value_view(v),
                ),
            },
    {
        match self.find(state_key) {
            Some(i) => match self.cross_shard_data[i].get_value() {
                Some(value) => StateValueLookup::Ready(value),
                None => StateValueLookup::Waiting,
            },
            None => StateValueLookup::Base,
        }
    }

    /// The view does not track storage usage.
    pub fn get_usage(&self) -> (r: StorageUsage)
        ensures
            r == StorageUsage::Untracked,
    {
        StorageUsage::Untracked
    }
}

} // verus!
