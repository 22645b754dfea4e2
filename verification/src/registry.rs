//! Sets of receipts: the inflight registry and the finished buffer.
use vstd::prelude::*;

verus! {

/// A finite set of receipts, kept in the order in which they came in.
pub struct ReceiptSet {
    items: Vec<String>,
}

impl View for ReceiptSet {
    type V = Set<Seq<char>>;

    /// The receipts held, as a set.
    open spec fn view(&self) -> Set<Seq<char>> {
        self.order().to_set()
    }
}

impl ReceiptSet {
    /// The receipts held, oldest first.
    pub closed spec fn order(&self) -> Seq<Seq<char>> {
        self.items.deep_view()
    }

    /// No receipt is held twice.
    pub open spec fn wf(&self) -> bool {
        self.order().no_duplicates()
    }

    /// A well-formed set is finite and has as many members as its order has
    /// places.
    pub proof fn lemma_len(&self)
        requires
            self.wf(),
        ensures
            self@.finite(),
            self@.len() == self.order().len(),
    {
        self.order().unique_seq_to_set();
        vstd::seq_lib::seq_to_set_is_finite(self.order());
    }

    /// The empty set.
    pub fn new() -> (s: ReceiptSet)
        ensures
            s.wf(),
            s.order() == Seq::<Seq<char>>::empty(),
            s@ == Set::<Seq<char>>::empty(),
    {
        let s = ReceiptSet { items: Vec::new() };
        assert(s.order() =~= Seq::<Seq<char>>::empty());
        assert(s@ =~= Set::<Seq<char>>::empty());
        s
    }

    /// Number of receipts held.
    pub fn len(&self) -> (n: usize)
        requires
            self.wf(),
        ensures
            n == self@.len(),
            n == self.order().len(),
    {
        proof {
            self.lemma_len();
        }
        self.items.len()
    }

    /// Whether no receipt is held.
    pub fn is_empty(&self) -> (b: bool)
        ensures
            b == (self@ == Set::<Seq<char>>::empty()),
            b == (self.order().len() == 0),
    {
        let b = self.items.len() == 0;
        proof {
            if b {
                assert(self@ =~= Set::<Seq<char>>::empty());
            } else {
                assert(self@.contains(self.order()[0]));
            }
        }
        b
    }

    /// Place of `receipt` in the order, if it is held.
    fn position(&self, receipt: &String) -> (at: Option<usize>)
        ensures
            match at {
                Some(i) => i < self.order().len() && self.order()[i as int] == receipt@,
                None => !self@.contains(receipt@),
            },
    {
        let mut i: usize = 0;
        while i < self.items.len()
            invariant
                i <= self.items.len(),
                self.order().len() == self.items.len(),
                forall|k: int| 0 <= k < i ==> self.order()[k] != receipt@,
            decreases self.items.len() - i,
        {
            assert(self.order()[i as int] == self.items[i as int]@);
            if self.items[i] == *receipt {
                return Some(i);
            }
            i += 1;
        }
        None
    }

    /// Whether `receipt` is held.
    pub fn contains(&self, receipt: &String) -> (b: bool)
        ensures
            b == self@.contains(receipt@),
    {
        self.position(receipt).is_some()
    }

    /// Adds `receipt`; returns whether it was new. A receipt already held
    /// keeps its place.
    pub fn insert(&mut self, receipt: String) -> (fresh: bool)
        requires
            old(self).wf(),
        ensures
            final(self).wf(),
            fresh == !old(self)@.contains(receipt@),
            final(self)@ == old(self)@.insert(receipt@),
            final(self).order() == if fresh {
                old(self).order().push(receipt@)
            } else {
                old(self).order()
            },
    {
        if self.position(&receipt).is_some() {
            assert(self@ =~= self@.insert(receipt@));
            false
        } else {
            let ghost before = self.order();
            self.items.push(receipt);
            assert(self.order() =~= before.push(receipt@));
            assert(self@ =~= old(self)@.insert(receipt@)) by {
                before.lemma_push_to_set_commute(receipt@);
            }
            true
        }
    }

    /// Takes `receipt` out; returns whether it was held. The others keep
    /// their order.
    pub fn remove(&mut self, receipt: &String) -> (found: bool)
        requires
            old(self).wf(),
        ensures
            final(self).wf(),
            found == old(self)@.contains(receipt@),
            final(self)@ == old(self)@.remove(receipt@),
            final(self).order() == if found {
                old(self).order().remove(old(self).order().index_of(receipt@))
            } else {
                old(self).order()
            },
    {
        match self.position(receipt) {
            Some(i) => {
                let ghost before = self.order();
                self.items.remove(i);
                proof {
                    assert(before.index_of(receipt@) == i as int);
                    assert(self.order() =~= before.remove(i as int));
                    assert forall|x: Seq<char>|
                        self@.contains(x) <==> old(self)@.remove(receipt@).contains(x) by {
                        if self@.contains(x) {
                            let k = choose|k: int| 0 <= k < self.order().len() && self.order()[k] == x;
                            let k0: int = if k < i { k } else { k + 1 };
                            assert(before[k0] == x);
                        }
                        if old(self)@.remove(receipt@).contains(x) {
                            let k0 = choose|k: int| 0 <= k < before.len() && before[k] == x;
                            let k: int = if k0 < i { k0 } else { k0 - 1 };
                            assert(self.order()[k] == x);
                        }
                    }
                    assert(self@ =~= old(self)@.remove(receipt@));
                }
                true
            },
            None => {
                assert(self@ =~= self@.remove(receipt@));
                false
            },
        }
    }

    /// The receipts held, oldest first.
    pub fn snapshot(&self) -> (receipts: Vec<String>)
        ensures
            receipts.deep_view() == self.order(),
    {
        let mut receipts: Vec<String> = Vec::new();
        let mut i: usize = 0;
        while i < self.items.len()
            invariant
                i <= self.items.len(),
                receipts.len() == i,
                forall|k: int| 0 <= k < i ==> receipts[k]@ == self.items[k]@,
            decreases self.items.len() - i,
        {
            receipts.push(self.items[i].clone());
            i += 1;
        }
        assert(receipts.deep_view() =~= self.order());
        receipts
    }

    /// Adds every receipt that `other` holds, in `other`'s order. Receipts
    /// already held keep their places.
    pub fn insert_all(&mut self, other: &ReceiptSet)
        requires
            old(self).wf(),
            other.wf(),
        ensures
            final(self).wf(),
            final(self)@ == old(self)@.union(other@),
            final(self).order() == old(self).order() + other.order().filter(
                absent_from(old(self)@),
            ),
    {
        let ghost before = self.order();
        let ghost added = other.order();
        let ghost fresh = absent_from(old(self)@);
        let mut i: usize = 0;
        assert(added.take(0) =~= Seq::<Seq<char>>::empty());
        assert(self.order() =~= before + added.take(0).filter(fresh)) by {
            reveal(Seq::filter);
        }
        assert(self@ =~= old(self)@.union(added.take(0).to_set()));
        while i < other.items.len()
            invariant
                other.order() == added,
                added.no_duplicates(),
                added.len() == other.items.len(),
                fresh == absent_from(old(self)@),
                before == old(self).order(),
                i <= other.items.len(),
                self.wf(),
                self.order() == before + added.take(i as int).filter(fresh),
                self@ == old(self)@.union(added.take(i as int).to_set()),
            decreases other.items.len() - i,
        {
            let ghost seen = added.take(i as int);
            let ghost next = added.take(i + 1);
            let ghost x = added[i as int];
            proof {
                assert(x == other.items[i as int]@);
                assert(next =~= seen.push(x));
                seen.lemma_filter_push(x, fresh);
                assert(!seen.contains(x));
                assert(self@.contains(x) == old(self)@.contains(x));
                seen.lemma_push_to_set_commute(x);
            }
            self.insert(other.items[i].clone());
            proof {
                assert(self.order() =~= before + next.filter(fresh));
                assert(self@ =~= old(self)@.union(next.to_set()));
            }
            i += 1;
        }
        proof {
            assert(added.take(i as int) =~= added);
        }
    }

    /// Takes out every receipt that `other` holds. The others keep their
    /// order.
    pub fn remove_all(&mut self, other: &ReceiptSet)
        requires
            old(self).wf(),
        ensures
            final(self).wf(),
            final(self)@ == old(self)@.difference(other@),
            final(self).order() == old(self).order().filter(absent_from(other@)),
    {
        let ghost before = self.order();
        let ghost keep = absent_from(other@);
        let mut kept: Vec<String> = Vec::new();
        let mut i: usize = 0;
        assert(before.take(0) =~= Seq::<Seq<char>>::empty());
        assert(kept.deep_view() =~= before.take(0).filter(keep)) by {
            reveal(Seq::filter);
        }
        while i < self.items.len()
            invariant
                self.order() == before,
                before.len() == self.items.len(),
                keep == absent_from(other@),
                i <= self.items.len(),
                kept.deep_view() == before.take(i as int).filter(keep),
            decreases self.items.len() - i,
        {
            let ghost held = kept.deep_view();
            proof {
                assert(before[i as int] == self.items[i as int]@);
                assert(before.take(i + 1) =~= before.take(i as int).push(before[i as int]));
                before.take(i as int).lemma_filter_push(before[i as int], keep);
            }
            if !other.contains(&self.items[i]) {
                kept.push(self.items[i].clone());
                assert(kept.deep_view() =~= held.push(before[i as int]));
            }
            i += 1;
        }
        proof {
            assert(before.take(i as int) =~= before);
            lemma_filter_absent(before, other@);
        }
        self.items = kept;
    }
}

/// The receipts that `other` does not hold.
pub open spec fn absent_from(other: Set<Seq<char>>) -> spec_fn(Seq<char>) -> bool {
    |r: Seq<char>| !other.contains(r)
}

/// Taking the receipts of `gone` out of an order that holds each receipt
/// once leaves the other receipts, each once; where the order holds none of
/// them, it leaves the order as it was.
pub proof fn lemma_filter_absent(order: Seq<Seq<char>>, gone: Set<Seq<char>>)
    requires
        order.no_duplicates(),
    ensures
        order.filter(absent_from(gone)).no_duplicates(),
        order.filter(absent_from(gone)).to_set() == order.to_set().difference(gone),
        order.to_set().disjoint(gone) ==> order.filter(absent_from(gone)) == order,
    decreases order.len(),
{
    let keep = absent_from(gone);
    let kept = order.filter(keep);
    if order.len() == 0 {
        reveal(Seq::filter);
        assert(kept =~= order);
        assert(kept.to_set() =~= order.to_set().difference(gone));
    } else {
        let init = order.drop_last();
        let x = order.last();
        assert(order =~= init.push(x));
        lemma_filter_absent(init, gone);
        init.lemma_filter_push(x, keep);
        let held = init.filter(keep);
        assert(!init.contains(x));
        assert(!held.contains(x)) by {
            if held.contains(x) {
                assert(held.to_set().contains(x));
                assert(init.to_set().contains(x));
            }
        }
        assert forall|r: Seq<char>| kept.to_set().contains(r) <==> order.to_set().difference(
            gone,
        ).contains(r) by {
            if kept.contains(r) {
                if keep(x) && r == x {
                    assert(order[order.len() - 1] == r);
                } else {
                    assert(held.contains(r)) by {
                        let k = choose|k: int| 0 <= k < kept.len() && kept[k] == r;
                        if keep(x) {
                            assert(k < held.len());
                            assert(held[k] == r);
                        }
                    }
                    assert(held.to_set().contains(r));
                    assert(init.to_set().contains(r));
                    let m = choose|m: int| 0 <= m < init.len() && init[m] == r;
                    assert(order[m] == r);
                }
            }
            if order.contains(r) && !gone.contains(r) {
                let m = choose|m: int| 0 <= m < order.len() && order[m] == r;
                if m < init.len() {
                    assert(init[m] == r);
                    assert(init.to_set().difference(gone).contains(r));
                    assert(held.to_set().contains(r));
                    let k = choose|k: int| 0 <= k < held.len() && held[k] == r;
                    assert(kept[k] == r);
                } else {
                    assert(kept[held.len() as int] == r);
                }
            }
        }
        assert(kept.to_set() =~= order.to_set().difference(gone));
        if order.to_set().disjoint(gone) {
            assert(init.to_set().disjoint(gone)) by {
                assert forall|r: Seq<char>| !(init.to_set().contains(r) && gone.contains(r)) by {
                    if init.contains(r) {
                        let m = choose|m: int| 0 <= m < init.len() && init[m] == r;
                        assert(order[m] == r);
                        assert(order.to_set().contains(r));
                    }
                }
            }
            assert(order.to_set().contains(x)) by {
                assert(order[order.len() - 1] == x);
            }
            assert(kept =~= order);
        }
    }
}

} // verus!
