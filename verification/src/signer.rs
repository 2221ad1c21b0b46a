//! The signer registry: pluggable signing capabilities, each able to sign for
//! one key origin, kept in descending priority order per key-chain role.
use vstd::prelude::*;

verus! {

/// One registered signing capability: an identifier for the capability (the
/// caller maps it to the object that actually signs), the key-origin
/// fingerprint whose inputs it recognizes, and its ordering priority.
pub struct SignerEntry {
    pub id: u64,
    pub fingerprint: String,
    pub ordering: u32,
}

pub struct SignerEntryView {
    pub id: u64,
    pub fingerprint: Seq<char>,
    pub ordering: u32,
}

impl View for SignerEntry {
    type V = SignerEntryView;

    open spec fn view(&self) -> SignerEntryView {
        SignerEntryView { id: self.id, fingerprint: self.fingerprint@, ordering: self.ordering }
    }
}

/// Entries stand in descending priority order: higher priorities sign first.
pub open spec fn registry_ordered(s: Seq<SignerEntryView>) -> bool {
    forall|i: int, j: int| 0 <= i < j < s.len() ==> s[i].ordering >= s[j].ordering
}

/// Where a new entry of this priority goes: after every entry of at least the
/// same priority.
pub open spec fn insert_pos(s: Seq<SignerEntryView>, ordering: u32) -> int
    decreases s.len(),
{
    if s.len() == 0 {
        0
    } else if s[0].ordering < ordering {
        0
    } else {
        1 + insert_pos(s.skip(1), ordering)
    }
}

proof fn lemma_insert_pos_facts(s: Seq<SignerEntryView>, ordering: u32)
    ensures
        0 <= insert_pos(s, ordering) <= s.len(),
        forall|m: int| 0 <= m < insert_pos(s, ordering) ==> s[m].ordering >= ordering,
        insert_pos(s, ordering) < s.len() ==> s[insert_pos(s, ordering)].ordering < ordering,
    decreases s.len(),
{
    if s.len() != 0 && !(s[0].ordering < ordering) {
        lemma_insert_pos_facts(s.skip(1), ordering);
        let t = s.skip(1);
        let p = insert_pos(s, ordering);
        assert forall|m: int| 0 <= m < p implies s[m].ordering >= ordering by {
            if m > 0 {
                assert(t[m - 1] == s[m]);
            }
        }
        if p < s.len() {
            assert(t[p - 1] == s[p]);
        }
    }
}

/// The first entry, in priority order, whose fingerprint matches.
pub open spec fn spec_first_match(s: Seq<SignerEntryView>, fp: Seq<char>) -> Option<u64>
    decreases s.len(),
{
    if s.len() == 0 {
        None
    } else if s[0].fingerprint == fp {
        Some(s[0].id)
    } else {
        spec_first_match(s.skip(1), fp)
    }
}

/// If no entry's fingerprint matches, nothing is found.
pub proof fn lemma_first_match_none(s: Seq<SignerEntryView>, fp: Seq<char>)
    requires
        forall|i: int| 0 <= i < s.len() ==> (#[trigger] s[i]).fingerprint != fp,
    ensures
        spec_first_match(s, fp) is None,
    decreases s.len(),
{
    if s.len() != 0 {
        let t = s.skip(1);
        assert(forall|i: int| 0 <= i < t.len() ==> (#[trigger] t[i]) == s[i + 1]);
        lemma_first_match_none(t, fp);
    }
}

/// An ordered collection of signing capabilities for one key-chain role.
pub struct SignerRegistry {
    pub entries: Vec<SignerEntry>,
}

impl View for SignerRegistry {
    type V = Seq<SignerEntryView>;

    open spec fn view(&self) -> Seq<SignerEntryView> {
        self.entries@.map_values(|e: SignerEntry| e@)
    }
}

impl SignerRegistry {
    pub fn new() -> (r: SignerRegistry)
        ensures
            r@ == Seq::<SignerEntryView>::empty(),
            registry_ordered(r@),
    {
        let r = SignerRegistry { entries: Vec::new() };
        assert(r@ =~= Seq::<SignerEntryView>::empty());
        r
    }

    /// Registers a capability, keeping the registry in descending priority
    /// order; among equal priorities, earlier registrations stay first.
    pub fn register(&mut self, entry: SignerEntry)
        requires
            registry_ordered(old(self)@),
        ensures
            final(self)@ == old(self)@.insert(insert_pos(old(self)@, entry.ordering), entry@),
            registry_ordered(final(self)@),
            final(self)@.len() == old(self)@.len() + 1,
    {
        let ghost s = self@;
        proof {
            lemma_insert_pos_facts(s, entry.ordering);
        }
        let mut i: usize = 0;
        while i < self.entries.len() && self.entries[i].ordering >= entry.ordering
            invariant
                0 <= i <= self.entries.len(),
                s == self@,
                s.len() == self.entries.len(),
                forall|m: int| 0 <= m < s.len() ==> s[m] == (#[trigger] self.entries@[m])@,
                forall|m: int| 0 <= m < i ==> s[m].ordering >= entry.ordering,
            decreases self.entries.len() - i,
        {
            i = i + 1;
        }
        proof {
            // The scan stops exactly at the specified insertion point.
            let p = insert_pos(s, entry.ordering);
            if i < s.len() {
                assert(s[i as int].ordering < entry.ordering);
            }
            assert(p == i as int) by {
                lemma_insert_pos_facts(s, entry.ordering);
                if p < i as int {
                    assert(s[p].ordering >= entry.ordering);
                    assert(s[p].ordering < entry.ordering);
                } else if p > i as int {
                    assert(i < s.len());
                    assert(s[i as int].ordering >= entry.ordering);
                }
            }
        }
        let ghost ev = entry@;
        self.entries.insert(i, entry);
        proof {
            assert(self@ =~= s.insert(i as int, ev));
            let ns = self@;
            lemma_insert_pos_facts(s, ev.ordering);
            assert forall|a: int, b: int| 0 <= a < b < ns.len() implies ns[a].ordering
                >= ns[b].ordering by {
                let p = i as int;
                if a < p && b < p {
                } else if a < p && b == p {
                } else if a < p && b > p {
                    assert(ns[b] == s[b - 1]);
                } else if a == p && b > p {
                    assert(ns[b] == s[b - 1]);
                } else if a > p && b > p {
                    assert(ns[a] == s[a - 1]);
                    assert(ns[b] == s[b - 1]);
                }
            }
        }
    }

    /// The highest-priority capability that recognizes this key origin.
    pub fn first_match(&self, fp: &String) -> (r: Option<u64>)
        ensures
            r == spec_first_match(self@, fp@),
    {
        let ghost s = self@;
        assert(s.skip(0) =~= s);
        let mut i: usize = 0;
        while i < self.entries.len()
            invariant
                0 <= i <= self.entries.len(),
                s == self@,
                s.len() == self.entries.len(),
                forall|m: int| 0 <= m < s.len() ==> s[m] == (#[trigger] self.entries@[m])@,
                spec_first_match(s, fp@) == spec_first_match(s.skip(i as int), fp@),
            decreases self.entries.len() - i,
        {
            assert(s.skip(i as int)[0] == s[i as int]);
            if self.entries[i].fingerprint.eq(fp) {
                return Some(self.entries[i].id);
            }
            proof {
                assert(s.skip(i as int).skip(1) =~= s.skip((i + 1) as int));
            }
            i = i + 1;
        }
        assert(s.skip(i as int) =~= Seq::<SignerEntryView>::empty());
        None
    }
}

} // verus!
