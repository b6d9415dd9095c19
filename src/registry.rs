//! The registry owning, per namespace, the most recently built index.
//!
//! An index is a disposable snapshot of the store: it is rebuilt wholesale
//! and swapped in, never updated in place. Each rebuild draws a generation
//! before it lists the store, and a finished index replaces the current one
//! only if it was drawn later, so when racing rebuilds settle the namespace
//! holds the index built from the latest listing whatever order they finish
//! in. A rebuild that fails installs nothing and the previous index stays.
use vstd::prelude::*;

verus! {

struct Slot<I> {
    namespace: String,
    generation: u64,
    index: I,
}

/// Namespaces mapped to their current index, each with the generation it was
/// built at. The index type is left to the caller.
pub struct IndexRegistry<I> {
    slots: Vec<Slot<I>>,
    next_generation: u64,
    contents: Ghost<Map<Seq<char>, (u64, I)>>,
}

/// The registry `m` after offering it index `idx`, built at generation `g`,
/// for namespace `ns`: it is taken if the namespace has no index or one built
/// at an earlier generation.
pub open spec fn installed<I>(m: Map<Seq<char>, (u64, I)>, ns: Seq<char>, g: u64, idx: I) -> Map<
    Seq<char>,
    (u64, I),
> {
    if !m.contains_key(ns) || m[ns].0 < g {
        m.insert(ns, (g, idx))
    } else {
        m
    }
}

/// Racing rebuilds of one namespace settle the same way whichever finishes
/// first: offering two indices built at different generations, in either
/// order, leaves the same registry.
pub proof fn lemma_racing_rebuilds_commute<I>(
    m: Map<Seq<char>, (u64, I)>,
    ns: Seq<char>,
    g1: u64,
    a: I,
    g2: u64,
    b: I,
)
    requires
        g1 != g2,
    ensures
        installed(installed(m, ns, g1, a), ns, g2, b) == installed(
            installed(m, ns, g2, b),
            ns,
            g1,
            a,
        ),
{
    let l = installed(installed(m, ns, g1, a), ns, g2, b);
    let r = installed(installed(m, ns, g2, b), ns, g1, a);
    assert(l =~= r);
}

/// After an index is offered, the namespace holds one built at that
/// generation or later, and no other namespace changes.
pub proof fn lemma_install_keeps_latest<I>(
    m: Map<Seq<char>, (u64, I)>,
    ns: Seq<char>,
    g: u64,
    idx: I,
    other: Seq<char>,
)
    ensures
        installed(m, ns, g, idx).contains_key(ns),
        installed(m, ns, g, idx)[ns].0 >= g,
        m.contains_key(ns) ==> installed(m, ns, g, idx)[ns].0 >= m[ns].0,
        other != ns ==> installed(m, ns, g, idx).get(other) == m.get(other),
{
}

/// The registry `m` after the finished rebuilds `offers`, each a namespace,
/// the generation it drew and the index it built, are offered in order.
pub open spec fn install_all<I>(m: Map<Seq<char>, (u64, I)>, offers: Seq<(Seq<char>, u64, I)>) -> Map<
    Seq<char>,
    (u64, I),
>
    decreases offers.len(),
{
    if offers.len() == 0 {
        m
    } else {
        let last = offers.last();
        installed(install_all(m, offers.drop_last()), last.0, last.1, last.2)
    }
}

/// A namespace to which no rebuild ever offered an index has none, so a query
/// on it finds nothing.
pub proof fn lemma_unwritten_namespace_has_no_index<I>(
    offers: Seq<(Seq<char>, u64, I)>,
    ns: Seq<char>,
)
    requires
        forall|i: int| 0 <= i < offers.len() ==> (#[trigger] offers[i]).0 != ns,
    ensures
        !install_all(Map::<Seq<char>, (u64, I)>::empty(), offers).contains_key(ns),
    decreases offers.len(),
{
    if offers.len() > 0 {
        let prefix = offers.drop_last();
        assert forall|i: int| 0 <= i < prefix.len() implies (#[trigger] prefix[i]).0 != ns by {
            assert(prefix[i] == offers[i]);
        }
        lemma_unwritten_namespace_has_no_index(prefix, ns);
        assert(offers[offers.len() - 1].0 != ns);
    }
}

proof fn lemma_offers_below<I>(
    m: Map<Seq<char>, (u64, I)>,
    offers: Seq<(Seq<char>, u64, I)>,
    ns: Seq<char>,
    bound: u64,
)
    requires
        m.contains_key(ns) ==> m[ns].0 < bound,
        forall|i: int| 0 <= i < offers.len() && (#[trigger] offers[i]).0 == ns ==> offers[i].1 < bound,
    ensures
        install_all(m, offers).contains_key(ns) ==> install_all(m, offers)[ns].0 < bound,
    decreases offers.len(),
{
    if offers.len() > 0 {
        let prefix = offers.drop_last();
        assert forall|i: int| 0 <= i < prefix.len() && (#[trigger] prefix[i]).0 == ns implies prefix[i].1
            < bound by {
            assert(prefix[i] == offers[i]);
        }
        lemma_offers_below(m, prefix, ns, bound);
        assert(offers.last() == offers[offers.len() - 1]);
    }
}

/// However racing rebuilds of a namespace finish, once all are offered the
/// namespace holds the index of the rebuild that drew the latest generation,
/// that is, the one built from the latest listing of the store.
pub proof fn lemma_racing_rebuilds_settle_on_latest<I>(
    m: Map<Seq<char>, (u64, I)>,
    offers: Seq<(Seq<char>, u64, I)>,
    latest: int,
)
    requires
        0 <= latest < offers.len(),
        m.contains_key(offers[latest].0) ==> m[offers[latest].0].0 < offers[latest].1,
        forall|i: int|
            0 <= i < offers.len() && i != latest && (#[trigger] offers[i]).0 == offers[latest].0
                ==> offers[i].1 < offers[latest].1,
    ensures
        install_all(m, offers).contains_key(offers[latest].0),
        install_all(m, offers)[offers[latest].0] == (offers[latest].1, offers[latest].2),
    decreases offers.len(),
{
    let ns = offers[latest].0;
    let g = offers[latest].1;
    let prefix = offers.drop_last();
    if latest == offers.len() - 1 {
        assert forall|i: int| 0 <= i < prefix.len() && (#[trigger] prefix[i]).0 == ns implies prefix[i].1
            < g by {
            assert(prefix[i] == offers[i]);
        }
        lemma_offers_below(m, prefix, ns, g);
    } else {
        assert(prefix[latest] == offers[latest]);
        assert forall|i: int|
            0 <= i < prefix.len() && i != latest && (#[trigger] prefix[i]).0 == prefix[latest].0
                implies prefix[i].1 < prefix[latest].1 by {
            assert(prefix[i] == offers[i]);
        }
        lemma_racing_rebuilds_settle_on_latest(m, prefix, latest);
        assert(offers.last() == offers[offers.len() - 1]);
    }
}

impl<I> View for IndexRegistry<I> {
    type V = Map<Seq<char>, (u64, I)>;

    closed spec fn view(&self) -> Map<Seq<char>, (u64, I)> {
        self.contents@
    }
}

impl<I> IndexRegistry<I> {
    /// The slots agree with the namespace map, one slot per namespace.
    pub closed spec fn wf(&self) -> bool {
        &&& forall|i: int|
            0 <= i < self.slots@.len() ==> {
                &&& self.contents@.contains_key(#[trigger] self.slots@[i].namespace@)
                &&& self.contents@[self.slots@[i].namespace@] == (
                    self.slots@[i].generation,
                    self.slots@[i].index,
                )
            }
        &&& forall|ns: Seq<char>| #[trigger]
            self.contents@.contains_key(ns) ==> exists|i: int|
                0 <= i < self.slots@.len() && #[trigger] self.slots@[i].namespace@ == ns
        &&& forall|i: int, j: int|
            0 <= i < self.slots@.len() && 0 <= j < self.slots@.len() && i != j ==> #[trigger] self.slots@[i].namespace@
                != #[trigger] self.slots@[j].namespace@
    }

    /// The generation the next rebuild will draw.
    pub closed spec fn spec_next_generation(&self) -> u64 {
        self.next_generation
    }

    /// An empty registry, as at startup before any namespace is loaded.
    pub fn new() -> (r: Self)
        ensures
            r.wf(),
            r@ == Map::<Seq<char>, (u64, I)>::empty(),
            r.spec_next_generation() == 0,
    {
        IndexRegistry { slots: Vec::new(), next_generation: 0, contents: Ghost(Map::empty()) }
    }

    fn find(&self, namespace: &String) -> (r: Option<usize>)
        requires
            self.wf(),
        ensures
            match r {
                Some(i) => i < self.slots@.len() && self.slots@[i as int].namespace@ == namespace@,
                None => !self@.contains_key(namespace@),
            },
    {
        let mut i: usize = 0;
        while i < self.slots.len()
            invariant
                self.wf(),
                i <= self.slots@.len(),
                forall|j: int| 0 <= j < i ==> self.slots@[j].namespace@ != namespace@,
            decreases self.slots@.len() - i,
        {
            if self.slots[i].namespace == *namespace {
                return Some(i);
            }
            i += 1;
        }
        None
    }

    /// Whether the namespace has an index; one without needs loading.
    pub fn contains(&self, namespace: &String) -> (r: bool)
        requires
            self.wf(),
        ensures
            r == self@.contains_key(namespace@),
    {
        self.find(namespace).is_some()
    }

    /// The namespace's current index, if it has one. Queries are answered
    /// from it and never build one.
    pub fn lookup(&self, namespace: &String) -> (r: Option<&I>)
        requires
            self.wf(),
        ensures
            match r {
                Some(x) => self@.contains_key(namespace@) && *x == self@[namespace@].1,
                None => !self@.contains_key(namespace@),
            },
    {
        match self.find(namespace) {
            Some(i) => Some(&self.slots[i].index),
            None => None,
        }
    }

    /// The generation at which the namespace's current index was built.
    pub fn generation(&self, namespace: &String) -> (r: Option<u64>)
        requires
            self.wf(),
        ensures
            match r {
                Some(g) => self@.contains_key(namespace@) && g == self@[namespace@].0,
                None => !self@.contains_key(namespace@),
            },
    {
        match self.find(namespace) {
            Some(i) => Some(self.slots[i].generation),
            None => None,
        }
    }

    /// Draws the generation of a rebuild that is about to list the store.
    /// Generations only grow; `None` once they are used up.
    pub fn begin_rebuild(&mut self) -> (r: Option<u64>)
        requires
            old(self).wf(),
        ensures
            final(self).wf(),
            final(self)@ == old(self)@,
            old(self).spec_next_generation() == u64::MAX ==> r is None,
            old(self).spec_next_generation() == u64::MAX ==> final(self).spec_next_generation()
                == u64::MAX,
            old(self).spec_next_generation() < u64::MAX ==> r == Some(
                old(self).spec_next_generation(),
            ),
            old(self).spec_next_generation() < u64::MAX ==> final(self).spec_next_generation()
                == old(self).spec_next_generation() + 1,
    {
        if self.next_generation == u64::MAX {
            None
        } else {
            let g = self.next_generation;
            self.next_generation = g + 1;
            assert(self.slots@ == old(self).slots@ && self.contents@ == old(self).contents@);
            Some(g)
        }
    }

    /// Offers the index a rebuild finished, built at `generation`. It replaces
    /// the namespace's index unless that one was built at the same or a later
    /// generation; other namespaces are untouched. Returns whether it was taken.
    pub fn install(&mut self, namespace: String, generation: u64, index: I) -> (r: bool)
        requires
            old(self).wf(),
        ensures
            final(self).wf(),
            final(self)@ == installed(old(self)@, namespace@, generation, index),
            r == (!old(self)@.contains_key(namespace@) || old(self)@[namespace@].0 < generation),
            final(self).spec_next_generation() == old(self).spec_next_generation(),
    {
        let ghost ns = namespace@;
        match self.find(&namespace) {
            Some(i) => {
                if self.slots[i].generation < generation {
                    let ghost before = self.slots@;
                    self.slots.set(i, Slot { namespace, generation, index });
                    self.contents = Ghost(self.contents@.insert(ns, (generation, index)));
                    proof {
                        assert forall|n: Seq<char>| #[trigger]
                            self.contents@.contains_key(n) implies exists|j: int|
                            0 <= j < self.slots@.len() && #[trigger] self.slots@[j].namespace@
                                == n by {
                            if n != ns {
                                let j = choose|j: int|
                                    0 <= j < before.len() && #[trigger] before[j].namespace@ == n;
                                assert(self.slots@[j].namespace@ == n);
                            } else {
                                assert(self.slots@[i as int].namespace@ == n);
                            }
                        }
                    }
                    true
                } else {
                    false
                }
            },
            None => {
                let ghost before = self.slots@;
                self.slots.push(Slot { namespace, generation, index });
                self.contents = Ghost(self.contents@.insert(ns, (generation, index)));
                proof {
                    assert forall|n: Seq<char>| #[trigger]
                        self.contents@.contains_key(n) implies exists|j: int|
                        0 <= j < self.slots@.len() && #[trigger] self.slots@[j].namespace@
                            == n by {
                        if n != ns {
                            let j = choose|j: int|
                                0 <= j < before.len() && #[trigger] before[j].namespace@ == n;
                            assert(self.slots@[j].namespace@ == n);
                        } else {
                            assert(self.slots@[before.len() as int].namespace@ == n);
                        }
                    }
                }
                true
            },
        }
    }
}

} // verus!
