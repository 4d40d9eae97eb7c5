use std::collections::HashMap;
use vstd::prelude::*;

verus! {

broadcast use vstd::std_specs::hash::group_hash_axioms;

/// An unordered pair of fixture entities: (a, b) and (b, a) are one key.
#[derive(Clone, Copy, Debug, PartialEq, Eq, Structural)]
pub struct ContactKey {
    low: u64,
    high: u64,
}

/// The number that identifies the normalized pair (`low`, `high`).
pub open spec fn pair_code(low: u64, high: u64) -> u128 {
    (low as int * 0x1_0000_0000_0000_0000 + high as int) as u128
}

impl View for ContactKey {
    type V = (u64, u64);

    closed spec fn view(&self) -> (u64, u64) {
        (self.low, self.high)
    }
}

/// The number that identifies key `k`.
pub open spec fn code_of(k: ContactKey) -> u128 {
    pair_code(k@.0, k@.1)
}

/// The normalized key of fixtures `a` and `b`.
pub open spec fn key_view(a: u64, b: u64) -> (u64, u64) {
    if a <= b {
        (a, b)
    } else {
        (b, a)
    }
}

impl ContactKey {
    /// The key of the contact between fixtures `a` and `b`, in either order.
    pub fn new(a: u64, b: u64) -> (r: ContactKey)
        ensures
            r@ == key_view(a, b),
    {
        if a <= b {
            ContactKey { low: a, high: b }
        } else {
            ContactKey { low: b, high: a }
        }
    }

    /// The smaller fixture entity.
    pub fn fixture_a(&self) -> (r: u64)
        ensures
            r == self@.0,
    {
        self.low
    }

    /// The larger fixture entity.
    pub fn fixture_b(&self) -> (r: u64)
        ensures
            r == self@.1,
    {
        self.high
    }

    fn code(&self) -> (r: u128)
        ensures
            r == code_of(*self),
    {
        let l = self.low as u128;
        let h = self.high as u128;
        assert(l * 0x1_0000_0000_0000_0000 + h <= u128::MAX) by (nonlinear_arith)
            requires
                l <= u64::MAX,
                h <= u64::MAX,
        ;
        l * 0x1_0000_0000_0000_0000 + h
    }
}

/// The begin event of key `k`: its data from the live contacts, or, where it
/// already ended within the same step, from the ended contacts.
pub open spec fn begin_event<D>(
    current: Map<u128, (ContactKey, D)>,
    ended: Map<u128, (ContactKey, D)>,
    k: ContactKey,
) -> Seq<(ContactKey, D)> {
    if current.contains_key(code_of(k)) {
        seq![(k, current[code_of(k)].1)]
    } else if ended.contains_key(code_of(k)) {
        seq![(k, ended[code_of(k)].1)]
    } else {
        Seq::empty()
    }
}

/// The begin events of the keys `ks`, in order.
pub open spec fn begin_events<D>(
    current: Map<u128, (ContactKey, D)>,
    ended: Map<u128, (ContactKey, D)>,
    ks: Seq<ContactKey>,
) -> Seq<(ContactKey, D)>
    decreases ks.len(),
{
    if ks.len() == 0 {
        Seq::empty()
    } else {
        begin_events(current, ended, ks.drop_last()) + begin_event(current, ended, ks.last())
    }
}

/// What the tracker holds: live contacts, the keys that began and the
/// contacts that ended since the last drain.
pub struct ContactModel<D> {
    pub current: Map<u128, (ContactKey, D)>,
    pub begun: Seq<ContactKey>,
    pub ended: Map<u128, (ContactKey, D)>,
    pub ended_order: Seq<ContactKey>,
}

impl<D> ContactModel<D> {
    /// Nothing began or ended since the last drain.
    pub open spec fn settled(self) -> bool {
        self.begun.len() == 0 && self.ended.dom().is_empty() && self.ended_order.len() == 0
    }

    /// The model after the simulator reports that contact `k` began.
    pub open spec fn began(self, k: ContactKey, d: D) -> ContactModel<D> {
        ContactModel {
            current: self.current.insert(code_of(k), (k, d)),
            begun: if self.begun.contains(k) {
                self.begun
            } else {
                self.begun.push(k)
            },
            ..self
        }
    }

    /// The model after the simulator reports that contact `k` ended.
    pub open spec fn ended_with(self, k: ContactKey, d: D) -> ContactModel<D> {
        ContactModel {
            current: self.current.remove(code_of(k)),
            ended: self.ended.insert(code_of(k), (k, d)),
            ended_order: if self.ended.contains_key(code_of(k)) {
                self.ended_order
            } else {
                self.ended_order.push(k)
            },
            ..self
        }
    }

    /// The begin events that a drain emits.
    pub open spec fn begin_events(self) -> Seq<(ContactKey, D)> {
        begin_events(self.current, self.ended, self.begun)
    }

    /// The end events that a drain emits: each ended contact with its last data.
    pub open spec fn end_events(self) -> Seq<(ContactKey, D)> {
        Seq::new(self.ended_order.len(), |i: int| self.ended[code_of(self.ended_order[i])])
    }

    /// The model after a drain: the live contacts stay as the baseline.
    pub open spec fn drained(self) -> ContactModel<D> {
        ContactModel {
            current: self.current,
            begun: Seq::empty(),
            ended: Map::empty(),
            ended_order: Seq::empty(),
        }
    }
}

/// Tracks the simulator's fixture contacts and turns their changes into
/// begin and end events.
pub struct ContactTracker<D> {
    current: HashMap<u128, (ContactKey, D)>,
    begun: Vec<ContactKey>,
    ended: HashMap<u128, (ContactKey, D)>,
    ended_order: Vec<ContactKey>,
}

impl<D> View for ContactTracker<D> {
    type V = ContactModel<D>;

    closed spec fn view(&self) -> ContactModel<D> {
        ContactModel {
            current: self.current@,
            begun: self.begun@,
            ended: self.ended@,
            ended_order: self.ended_order@,
        }
    }
}

impl<D: Copy> ContactTracker<D> {
    /// Each live or ended entry is filed under its key's number, and the
    /// ended keys are listed once each, in the order they ended.
    pub closed spec fn wf(&self) -> bool {
        &&& forall|c: u128| #[trigger]
            self.current@.contains_key(c) ==> code_of(self.current@[c].0) == c
        &&& forall|c: u128| #[trigger]
            self.ended@.contains_key(c) ==> code_of(self.ended@[c].0) == c
        &&& self.ended_order@.no_duplicates()
        &&& forall|i: int|
            0 <= i < self.ended_order@.len() ==> self.ended@.contains_key(
                code_of(#[trigger] self.ended_order@[i]),
            )
        &&& forall|c: u128| #[trigger]
            self.ended@.contains_key(c) ==> self.ended_order@.contains(self.ended@[c].0)
    }

    pub fn new() -> (r: ContactTracker<D>)
        ensures
            r.wf(),
            r@.settled(),
            r@.current == Map::<u128, (ContactKey, D)>::empty(),
    {
        let r = ContactTracker {
            current: HashMap::new(),
            begun: Vec::new(),
            ended: HashMap::new(),
            ended_order: Vec::new(),
        };
        proof {
            assert(r@.ended.dom() =~= Set::<u128>::empty());
        }
        r
    }

    /// The data of live contact `k`, if it is touching.
    pub fn touching(&self, k: &ContactKey) -> (r: Option<D>)
        ensures
            r == (if self@.current.contains_key(code_of(*k)) {
                Some(self@.current[code_of(*k)].1)
            } else {
                None::<D>
            }),
    {
        match self.current.get(&k.code()) {
            Some(e) => Some(e.1),
            None => None,
        }
    }

    /// The number of live contacts.
    pub fn touching_count(&self) -> (r: usize)
        ensures
            r == self@.current.len(),
    {
        self.current.len()
    }

    /// Records that the simulator reported contact `k` beginning, with data `d`.
    pub fn begin_contact(&mut self, k: ContactKey, d: D)
        requires
            old(self).wf(),
        ensures
            final(self).wf(),
            final(self)@ == old(self)@.began(k, d),
    {
        let c = k.code();
        self.current.insert(c, (k, d));
        if !contains_key_in(&self.begun, &k) {
            self.begun.push(k);
        }
    }

    /// Records that the simulator reported contact `k` ending, with data `d`.
    pub fn end_contact(&mut self, k: ContactKey, d: D)
        requires
            old(self).wf(),
        ensures
            final(self).wf(),
            final(self)@ == old(self)@.ended_with(k, d),
    {
        let c = k.code();
        let ghost o = self@;
        self.current.remove(&c);
        if !self.ended.contains_key(&c) {
            proof {
                if self.ended_order@.contains(k) {
                    let i = choose|i: int|
                        0 <= i < self.ended_order@.len() && self.ended_order@[i] == k;
                    assert(self.ended@.contains_key(code_of(self.ended_order@[i])));
                }
            }
            let ghost before = self.ended_order@;
            self.ended_order.push(k);
            proof {
                assert forall|a: int, b: int|
                    0 <= a < b < self.ended_order@.len() implies self.ended_order@[a]
                    != self.ended_order@[b] by {
                    if b == before.len() {
                        assert(before[a] == self.ended_order@[a]);
                        assert(before.contains(before[a]));
                    }
                }
            }
        }
        let ghost pre = self.ended_order@;
        self.ended.insert(c, (k, d));
        proof {
            assert forall|i: int| 0 <= i < self.ended_order@.len() implies self.ended@.contains_key(
                code_of(#[trigger] self.ended_order@[i]),
            ) by {
                if code_of(self.ended_order@[i]) != c {
                    if i == self.ended_order@.len() - 1 && !o.ended.contains_key(c) {
                    } else {
                        assert(o.ended_order[i] == self.ended_order@[i]);
                    }
                }
            }
            assert forall|x: u128| #[trigger] self.ended@.contains_key(x) implies self.ended_order@.contains(
                self.ended@[x].0,
            ) by {
                if x == c {
                    if o.ended.contains_key(c) {
                        assert(o.ended_order.contains(o.ended[c].0));
                        assert(code_of(o.ended[c].0) == c);
                        lemma_code_injective(o.ended[c].0, k);
                    } else {
                        assert(self.ended_order@[self.ended_order@.len() - 1] == k);
                    }
                } else {
                    let j = choose|j: int|
                        0 <= j < o.ended_order.len() && o.ended_order[j] == o.ended[x].0;
                    assert(self.ended_order@[j] == o.ended[x].0);
                }
            }
            assert(self@ == o.ended_with(k, d));
        }
    }

    /// Emits the begin events, then the end events, of the changes since the
    /// last drain, and keeps the live contacts as the baseline for the next.
    pub fn take_events(&mut self) -> (r: (Vec<(ContactKey, D)>, Vec<(ContactKey, D)>))
        requires
            old(self).wf(),
        ensures
            final(self).wf(),
            final(self)@ == old(self)@.drained(),
            r.0@ == old(self)@.begin_events(),
            r.1@ == old(self)@.end_events(),
    {
        let mut begins: Vec<(ContactKey, D)> = Vec::new();
        let mut i: usize = 0;
        while i < self.begun.len()
            invariant
                0 <= i <= self.begun@.len(),
                begins@ == begin_events(self.current@, self.ended@, self.begun@.take(i as int)),
            decreases self.begun@.len() - i,
        {
            let k = self.begun[i];
            let c = k.code();
            let ghost before = begins@;
            match self.current.get(&c) {
                Some(e) => {
                    begins.push((k, e.1));
                },
                None => match self.ended.get(&c) {
                    Some(e) => {
                        begins.push((k, e.1));
                    },
                    None => {},
                },
            }
            proof {
                assert(self.begun@.take(i + 1).drop_last() =~= self.begun@.take(i as int));
                assert(begins@ =~= before + begin_event(self.current@, self.ended@, k));
            }
            i += 1;
        }
        proof {
            assert(self.begun@.take(self.begun@.len() as int) =~= self.begun@);
        }
        let mut ends: Vec<(ContactKey, D)> = Vec::new();
        let mut i: usize = 0;
        while i < self.ended_order.len()
            invariant
                self.wf(),
                0 <= i <= self.ended_order@.len(),
                ends@.len() == i,
                forall|n: int|
                    0 <= n < i ==> #[trigger] ends@[n] == self.ended@[code_of(
                        self.ended_order@[n],
                    )],
            decreases self.ended_order@.len() - i,
        {
            let k = self.ended_order[i];
            let c = k.code();
            assert(self.ended@.contains_key(code_of(self.ended_order@[i as int])));
            match self.ended.get(&c) {
                Some(e) => {
                    ends.push(*e);
                },
                None => {},
            }
            i += 1;
        }
        proof {
            assert(ends@ =~= self@.end_events());
        }
        self.begun.clear();
        self.ended.clear();
        self.ended_order.clear();
        proof {
            assert(self@.ended.dom() =~= Set::<u128>::empty());
        }
        (begins, ends)
    }
}

/// Distinct keys have distinct numbers.
pub proof fn lemma_code_injective(a: ContactKey, b: ContactKey)
    requires
        code_of(a) == code_of(b),
    ensures
        a == b,
{
    let m: int = 0x1_0000_0000_0000_0000;
    let ca = a@.0 as int * m + a@.1 as int;
    let cb = b@.0 as int * m + b@.1 as int;
    assert(0 <= ca < 0x1_0000_0000_0000_0000_0000_0000_0000_0000) by (nonlinear_arith)
        requires
            ca == a@.0 as int * m + a@.1 as int,
            0 <= a@.0 <= u64::MAX,
            0 <= a@.1 <= u64::MAX,
            m == 0x1_0000_0000_0000_0000,
    ;
    assert(0 <= cb < 0x1_0000_0000_0000_0000_0000_0000_0000_0000) by (nonlinear_arith)
        requires
            cb == b@.0 as int * m + b@.1 as int,
            0 <= b@.0 <= u64::MAX,
            0 <= b@.1 <= u64::MAX,
            m == 0x1_0000_0000_0000_0000,
    ;
    assert(ca == cb);
    vstd::arithmetic::div_mod::lemma_fundamental_div_mod_converse(ca, m, a@.0 as int, a@.1 as int);
    vstd::arithmetic::div_mod::lemma_fundamental_div_mod_converse(cb, m, b@.0 as int, b@.1 as int);
    assert(a@ == b@);
}

fn contains_key_in(v: &Vec<ContactKey>, k: &ContactKey) -> (r: bool)
    ensures
        r == v@.contains(*k),
{
    let mut i: usize = 0;
    while i < v.len()
        invariant
            0 <= i <= v@.len(),
            forall|n: int| 0 <= n < i ==> v@[n] != *k,
        decreases v@.len() - i,
    {
        if v[i] == *k {
            assert(v@[i as int] == *k);
            return true;
        }
        i += 1;
    }
    false
}

/// A contact that is live over two steps and gone in the third gives one
/// begin event, when it first appears, and one end event, when it goes:
/// nothing at all in the step where it merely persists.
pub proof fn lemma_contact_begins_and_ends_once<D>(
    m: ContactModel<D>,
    k: ContactKey,
    d: D,
    last: D,
)
    requires
        m.settled(),
    ensures
        m.began(k, d).begin_events() == seq![(k, d)],
        m.began(k, d).end_events() == Seq::<(ContactKey, D)>::empty(),
        m.began(k, d).drained().begin_events() == Seq::<(ContactKey, D)>::empty(),
        m.began(k, d).drained().end_events() == Seq::<(ContactKey, D)>::empty(),
        m.began(k, d).drained().drained().ended_with(k, last).begin_events() == Seq::<
            (ContactKey, D),
        >::empty(),
        m.began(k, d).drained().drained().ended_with(k, last).end_events() == seq![(k, last)],
{
    let s1 = m.began(k, d);
    assert(s1.begun =~= seq![k]);
    assert(seq![k].drop_last() =~= Seq::<ContactKey>::empty());
    assert(begin_events(s1.current, s1.ended, Seq::<ContactKey>::empty()) =~= Seq::empty());
    assert(begin_events(s1.current, s1.ended, s1.begun) == begin_events(
        s1.current,
        s1.ended,
        Seq::<ContactKey>::empty(),
    ) + begin_event(s1.current, s1.ended, k));
    assert(begin_event(s1.current, s1.ended, k) =~= seq![(k, d)]);
    assert(s1.begin_events() =~= seq![(k, d)]);
    assert(s1.end_events() =~= Seq::<(ContactKey, D)>::empty());
    let s2 = s1.drained();
    assert(s2.end_events() =~= Seq::<(ContactKey, D)>::empty());
    let s3 = s2.drained().ended_with(k, last);
    assert(s3.ended_order =~= seq![k]);
    assert(s3.end_events() =~= seq![(k, last)]);
}

/// A contact that begins and ends within one step still gives exactly one
/// begin event and one end event, both with the data it ended with.
pub proof fn lemma_contact_within_one_step<D>(m: ContactModel<D>, k: ContactKey, d: D, last: D)
    requires
        m.settled(),
    ensures
        m.began(k, d).ended_with(k, last).begin_events() == seq![(k, last)],
        m.began(k, d).ended_with(k, last).end_events() == seq![(k, last)],
{
    let s = m.began(k, d).ended_with(k, last);
    assert(s.begun =~= seq![k]);
    assert(seq![k].drop_last() =~= Seq::<ContactKey>::empty());
    assert(!s.current.contains_key(code_of(k)));
    assert(begin_events(s.current, s.ended, Seq::<ContactKey>::empty()) =~= Seq::empty());
    assert(begin_events(s.current, s.ended, s.begun) == begin_events(
        s.current,
        s.ended,
        Seq::<ContactKey>::empty(),
    ) + begin_event(s.current, s.ended, k));
    assert(begin_event(s.current, s.ended, k) =~= seq![(k, last)]);
    assert(s.begin_events() =~= seq![(k, last)]);
    assert(s.ended_order =~= seq![k]);
    assert(s.end_events() =~= seq![(k, last)]);
}

} // verus!
