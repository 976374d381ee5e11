//! The read-only target-address index.
//!
//! Built once at startup from the address strings that the loader hands
//! over (as UTF-8 bytes), deduplicated, and then only read: every scanner
//! iteration tests its derived address for membership. The view of the
//! index is the mathematical set of the addresses it holds, and the
//! contracts state construction and membership exactly over that set.

use vstd::prelude::*;

verus! {

/// The set of addresses named by a sequence of byte strings.
pub open spec fn addr_set(s: Seq<Seq<u8>>) -> Set<Seq<u8>> {
    Set::new(|x: Seq<u8>| exists|j: int| 0 <= j < s.len() && s[j] == x)
}

/// An element of the deep view of a vector of byte strings is the view of
/// the byte string at the same place.
pub broadcast proof fn lemma_bytes_deep_view_index(v: Vec<Vec<u8>>, i: int)
    requires
        0 <= i < v@.len(),
    ensures
        #[trigger] v.deep_view()[i] == v@[i]@,
{
    assert(v.deep_view()[i] =~= v@[i]@);
}

/// The deep view of a vector of byte strings keeps its length.
pub broadcast proof fn lemma_bytes_deep_view_len(v: Vec<Vec<u8>>)
    ensures
        #[trigger] v.deep_view().len() == v@.len(),
{
}

/// Immutable-after-build set of target addresses.
pub struct AddressIndex {
    addrs: Vec<Vec<u8>>,
}

impl View for AddressIndex {
    type V = Set<Seq<u8>>;

    closed spec fn view(&self) -> Set<Seq<u8>> {
        addr_set(self.addrs.deep_view())
    }
}

/// Compare two byte strings for equality.
pub fn byte_vec_eq(a: &Vec<u8>, b: &Vec<u8>) -> (r: bool)
    ensures
        r == (a@ == b@),
{
    if a.len() != b.len() {
        proof {
            assert(a@ != b@);
        }
        return false;
    }
    let mut i: usize = 0;
    while i < a.len()
        invariant
            i <= a.len(),
            a@.len() == b@.len(),
            forall|j: int| 0 <= j < i ==> a@[j] == b@[j],
        decreases a.len() - i,
    {
        if a[i] != b[i] {
            return false;
        }
        i = i + 1;
    }
    proof {
        assert(a@ =~= b@);
    }
    true
}

impl AddressIndex {
    /// Deduplication invariant: the stored addresses are pairwise distinct.
    pub closed spec fn wf(&self) -> bool {
        forall|i: int, j: int|
            0 <= i < j < self.addrs.len() ==> self.addrs.deep_view()[i] != self.addrs.deep_view()[j]
    }

    /// An empty index; scanning against it never matches.
    pub fn new() -> (r: AddressIndex)
        ensures
            r.wf(),
            r@ == Set::<Seq<u8>>::empty(),
    {
        let r = AddressIndex { addrs: Vec::new() };
        proof {
            assert(r@ =~= Set::<Seq<u8>>::empty());
        }
        r
    }

    /// Membership test: true iff the address is in the index.
    pub fn contains(&self, a: &Vec<u8>) -> (b: bool)
        ensures
            b == self@.contains(a@),
    {
        broadcast use lemma_bytes_deep_view_index, lemma_bytes_deep_view_len;

        let mut i: usize = 0;
        while i < self.addrs.len()
            invariant
                i <= self.addrs.len(),
                forall|j: int| 0 <= j < i ==> self.addrs.deep_view()[j] != a@,
            decreases self.addrs.len() - i,
        {
            let hit = byte_vec_eq(&self.addrs[i], a);
            proof {
                lemma_bytes_deep_view_index(self.addrs, i as int);
            }
            if hit {
                assert(self.addrs.deep_view()[i as int] == a@);
                return true;
            }
            i = i + 1;
        }
        proof {
            assert(!self@.contains(a@));
        }
        false
    }

    /// Add one address, keeping the index deduplicated.
    pub fn insert(&mut self, a: Vec<u8>)
        requires
            old(self).wf(),
        ensures
            final (self).wf(),
            final (self)@ == old(self)@.insert(a@),
    {
        broadcast use lemma_bytes_deep_view_index, lemma_bytes_deep_view_len;

        if !self.contains(&a) {
            let ghost pre = self.addrs.deep_view();
            self.addrs.push(a);
            proof {
                let post = self.addrs.deep_view();
                assert(post =~= pre.push(a@));
                assert forall|x: Seq<u8>| self@.contains(x) implies old(self)@.insert(a@).contains(
                    x,
                ) by {
                    let j = choose|j: int| #![auto] 0 <= j < post.len() && post[j] == x;
                    if j < pre.len() {
                        assert(old(self)@.contains(x));
                    }
                }
                assert forall|x: Seq<u8>| old(self)@.insert(a@).contains(x) implies self@.contains(
                    x,
                ) by {
                    if x == a@ {
                        assert(post[pre.len() as int] == x);
                    } else {
                        let j = choose|j: int| #![auto] 0 <= j < pre.len() && pre[j] == x;
                        assert(post[j] == x);
                    }
                }
                assert(self@ =~= old(self)@.insert(a@));
            }
        } else {
            proof {
                assert(old(self)@.insert(a@) =~= old(self)@);
            }
        }
    }

    /// Add every address of one batch; the view grows by exactly the set
    /// of addresses in the batch.
    pub fn insert_all(&mut self, batch: &Vec<Vec<u8>>)
        requires
            old(self).wf(),
        ensures
            final (self).wf(),
            final (self)@ == old(self)@ + addr_set(batch.deep_view()),
    {
        broadcast use lemma_bytes_deep_view_index, lemma_bytes_deep_view_len;

        let ghost orig = self@;
        let ghost bv = batch.deep_view();
        let mut j: usize = 0;
        proof {
            assert(self@ =~= orig + addr_set(bv.take(0)));
        }
        while j < batch.len()
            invariant
                j <= batch.len(),
                bv == batch.deep_view(),
                self.wf(),
                self@ == orig + addr_set(bv.take(j as int)),
            decreases batch.len() - j,
        {
            let a = copy_bytes(&batch[j]);
            proof {
                assert(a@ == bv[j as int]);
            }
            self.insert(a);
            proof {
                let jj = j as int;
                let t0 = bv.take(jj);
                let t1 = bv.take(jj + 1);
                assert forall|x: Seq<u8>| addr_set(t1).contains(x) implies addr_set(t0).insert(
                    bv[jj],
                ).contains(x) by {
                    let k = choose|k: int| #![auto] 0 <= k < t1.len() && t1[k] == x;
                    if k < jj {
                        assert(t0[k] == x);
                    }
                }
                assert forall|x: Seq<u8>| addr_set(t0).insert(bv[jj]).contains(x) implies addr_set(
                    t1,
                ).contains(x) by {
                    if x == bv[jj] {
                        assert(t1[jj] == x);
                    } else {
                        let k = choose|k: int| #![auto] 0 <= k < t0.len() && t0[k] == x;
                        assert(t1[k] == x);
                    }
                }
                assert(addr_set(t1) =~= addr_set(t0).insert(bv[jj]));
                assert(self@ =~= orig + addr_set(t1));
            }
            j = j + 1;
        }
        proof {
            assert(bv.take(batch.len() as int) =~= bv);
        }
    }

    /// How many addresses the index holds: exactly the cardinality of its
    /// view, since construction keeps the index deduplicated.
    pub fn len(&self) -> (n: usize)
        ensures
            self.wf() ==> n == self@.len(),
    {
        proof {
            if self.wf() {
                lemma_distinct_addr_set_len(self.addrs.deep_view());
            }
        }
        self.addrs.len()
    }
}

/// A deduplicated address sequence names a set of exactly its length.
proof fn lemma_distinct_addr_set_len(s: Seq<Seq<u8>>)
    requires
        forall|i: int, j: int| 0 <= i < j < s.len() ==> s[i] != s[j],
    ensures
        addr_set(s).finite(),
        addr_set(s).len() == s.len(),
    decreases s.len(),
{
    if s.len() == 0 {
        assert(addr_set(s) =~= Set::<Seq<u8>>::empty());
    } else {
        let t = s.drop_last();
        lemma_distinct_addr_set_len(t);
        assert forall|x: Seq<u8>| addr_set(s).contains(x) implies addr_set(t).insert(
            s.last(),
        ).contains(x) by {
            let k = choose|k: int| #![auto] 0 <= k < s.len() && s[k] == x;
            if k < t.len() {
                assert(t[k] == x);
            }
        }
        assert forall|x: Seq<u8>| addr_set(t).insert(s.last()).contains(x) implies addr_set(
            s,
        ).contains(x) by {
            if x == s.last() {
                assert(s[s.len() - 1] == x);
            } else {
                let k = choose|k: int| #![auto] 0 <= k < t.len() && t[k] == x;
                assert(s[k] == x);
            }
        }
        assert(addr_set(s) =~= addr_set(t).insert(s.last()));
        assert(!addr_set(t).contains(s.last()));
    }
}

/// Copy one byte string.
fn copy_bytes(v: &Vec<u8>) -> (r: Vec<u8>)
    ensures
        r@ == v@,
{
    let mut r: Vec<u8> = Vec::new();
    let mut i: usize = 0;
    while i < v.len()
        invariant
            i <= v.len(),
            r@ == v@.take(i as int),
        decreases v.len() - i,
    {
        r.push(v[i]);
        proof {
            assert(r@ =~= v@.take(i as int + 1));
        }
        i = i + 1;
    }
    proof {
        assert(v@.take(v@.len() as int) =~= v@);
    }
    r
}

/// Membership is exactly presence among the supplied addresses: an index
/// built from them answers true for an address iff it occurred somewhere
/// in the input, with duplicates immaterial.
pub proof fn lemma_membership_iff_supplied(s: Seq<Seq<u8>>, a: Seq<u8>)
    ensures
        addr_set(s).contains(a) <==> s.contains(a),
{
    if addr_set(s).contains(a) {
        let j = choose|j: int| #![auto] 0 <= j < s.len() && s[j] == a;
        assert(s[j] == a);
    }
    if s.contains(a) {
        let j = choose|j: int| #![auto] 0 <= j < s.len() && s[j] == a;
        assert(0 <= j < s.len() && s[j] == a);
    }
}

/// Rebuilding the index from the same addresses in another order yields
/// the same set, hence the same membership for every test address.
pub proof fn lemma_build_order_irrelevant(s1: Seq<Seq<u8>>, s2: Seq<Seq<u8>>)
    requires
        s1.to_multiset() == s2.to_multiset(),
    ensures
        addr_set(s1) == addr_set(s2),
{
    assert forall|x: Seq<u8>| addr_set(s1).contains(x) implies addr_set(s2).contains(x) by {
        let j = choose|j: int| #![auto] 0 <= j < s1.len() && s1[j] == x;
        assert(s1.contains(x));
        vstd::seq_lib::to_multiset_contains(s1, x);
        vstd::seq_lib::to_multiset_contains(s2, x);
        assert(s2.contains(x));
        let k = choose|k: int| #![auto] 0 <= k < s2.len() && s2[k] == x;
        assert(0 <= k < s2.len() && s2[k] == x);
    }
    assert forall|x: Seq<u8>| addr_set(s2).contains(x) implies addr_set(s1).contains(x) by {
        let j = choose|j: int| #![auto] 0 <= j < s2.len() && s2[j] == x;
        assert(s2.contains(x));
        vstd::seq_lib::to_multiset_contains(s1, x);
        vstd::seq_lib::to_multiset_contains(s2, x);
        assert(s1.contains(x));
        let k = choose|k: int| #![auto] 0 <= k < s1.len() && s1[k] == x;
        assert(0 <= k < s1.len() && s1[k] == x);
    }
    assert(addr_set(s1) =~= addr_set(s2));
}

} // verus!
