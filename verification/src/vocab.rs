//! The static id-to-label mapping loaded with the resource.
//!
//! Label ids are the column indices of the score matrix; id 0 is reserved to
//! mean "no entity". The mapping is dense: a vocabulary of `n` labels maps
//! exactly the ids `0 .. n`.

use vstd::prelude::*;

verus! {

/// The label views of a sequence of label strings.
pub open spec fn views_of(labels: Seq<String>) -> Seq<Seq<char>> {
    labels.map_values(|s: String| s@)
}

/// A label-mapping document is well keyed when its ids are exactly
/// `0 .. n`: every key in range and no key twice.
pub open spec fn entries_well_keyed(es: Seq<(u64, String)>) -> bool {
    &&& forall|j: int| 0 <= j < es.len() ==> (#[trigger] es[j]).0 < es.len()
    &&& forall|j: int, k: int| 0 <= j < k < es.len() ==> es[j].0 != es[k].0
}

/// How many slots are filled.
spec fn num_filled(s: Seq<Option<String>>) -> int
    decreases s.len(),
{
    if s.len() == 0 {
        0int
    } else {
        num_filled(s.drop_last()) + if s.last() is Some {
            1int
        } else {
            0int
        }
    }
}

proof fn lemma_num_filled_le(s: Seq<Option<String>>)
    ensures
        num_filled(s) <= s.len(),
    decreases s.len(),
{
    if s.len() > 0 {
        lemma_num_filled_le(s.drop_last());
    }
}

proof fn lemma_num_filled_full(s: Seq<Option<String>>)
    requires
        num_filled(s) == s.len(),
    ensures
        forall|k: int| 0 <= k < s.len() ==> (#[trigger] s[k]) is Some,
    decreases s.len(),
{
    if s.len() > 0 {
        lemma_num_filled_le(s.drop_last());
        assert(s.last() is Some);
        lemma_num_filled_full(s.drop_last());
        assert forall|k: int| 0 <= k < s.len() implies (#[trigger] s[k]) is Some by {
            if k < s.len() - 1 {
                assert(s[k] == s.drop_last()[k]);
            }
        }
    }
}

proof fn lemma_num_filled_update(s: Seq<Option<String>>, i: int, v: String)
    requires
        0 <= i < s.len(),
        s[i] is None,
    ensures
        num_filled(s.update(i, Some(v))) == num_filled(s) + 1,
    decreases s.len(),
{
    let t = s.update(i, Some(v));
    if i == s.len() - 1 {
        assert(t.drop_last() =~= s.drop_last());
    } else {
        assert(t.drop_last() =~= s.drop_last().update(i, Some(v)));
        lemma_num_filled_update(s.drop_last(), i, v);
        assert(t.last() == s.last());
    }
}

/// The id-to-label mapping of a loaded resource: index is label id.
pub struct LabelVocab {
    labels: Vec<String>,
}

impl View for LabelVocab {
    type V = Seq<Seq<char>>;

    closed spec fn view(&self) -> Seq<Seq<char>> {
        views_of(self.labels@)
    }
}

impl LabelVocab {
    /// Well-formed: the reserved "no entity" id (0) has a label.
    pub open spec fn wf(&self) -> bool {
        self@.len() >= 1
    }

    /// Builds the mapping from label strings ordered by id.
    pub fn new(labels: Vec<String>) -> (v: LabelVocab)
        ensures
            v@ == views_of(labels@),
    {
        LabelVocab { labels }
    }

    /// The number of labels, which is also the width of every score row.
    pub fn len(&self) -> (n: usize)
        ensures
            n == self@.len(),
    {
        self.labels.len()
    }

    /// The label string of an id.
    pub fn get(&self, id: usize) -> (label: &String)
        requires
            id < self@.len(),
        ensures
            label@ == self@[id as int],
    {
        &self.labels[id]
    }

    /// Builds the mapping from the entries of a label-mapping document.
    ///
    /// Succeeds exactly when the entries' ids are exactly `0 .. n`; the
    /// label of each id is then the entry's string. Anything else — an id
    /// out of range, an id twice — is a malformed document and yields
    /// nothing.
    pub fn from_entries(entries: &Vec<(u64, String)>) -> (r: Option<LabelVocab>)
        ensures
            ({
                match r {
                    Some(v) => entries_well_keyed(entries@) && v@.len() == entries@.len() && (
                    forall|j: int|
                        0 <= j < entries@.len() ==> v@[(#[trigger] entries@[j]).0 as int]
                            == entries@[j].1@),
                    None => !entries_well_keyed(entries@),
                }
            }),
    {
        let n = entries.len();
        let mut slots: Vec<Option<String>> = Vec::new();
        let mut i: usize = 0;
        while i < n
            invariant
                i <= n,
                slots@.len() == i,
                num_filled(slots@) == 0,
                forall|k: int| 0 <= k < i ==> (#[trigger] slots@[k]) is None,
            decreases n - i,
        {
            let ghost prev = slots@;
            slots.push(None);
            proof {
                assert(slots@.drop_last() =~= prev);
            }
            i += 1;
        }

        let mut j: usize = 0;
        while j < n
            invariant
                j <= n,
                n == entries@.len(),
                slots@.len() == n,
                num_filled(slots@) == j,
                forall|m: int| 0 <= m < j ==> (#[trigger] entries@[m]).0 < n,
                forall|m1: int, m2: int|
                    0 <= m1 < m2 < j ==> entries@[m1].0 != entries@[m2].0,
                forall|k: int|
                    0 <= k < n && (#[trigger] slots@[k]) is Some ==> exists|m: int|
                        0 <= m < j && (#[trigger] entries@[m]).0 == k && slots@[k] == Some(
                            entries@[m].1,
                        ),
                forall|k: int, m: int|
                    0 <= k < n && (#[trigger] slots@[k]) is None && 0 <= m < j ==> (
                    #[trigger] entries@[m]).0 != k,
            decreases n - j,
        {
            let key = entries[j].0;
            if key >= n as u64 {
                proof {
                    assert(entries@[j as int].0 >= entries@.len());
                }
                return None;
            }
            let idx = key as usize;
            let filled = match &slots[idx] {
                Some(_) => true,
                None => false,
            };
            if filled {
                proof {
                    let m = choose|m: int|
                        0 <= m < j && (#[trigger] entries@[m]).0 == idx as int && slots@[idx as int]
                            == Some(entries@[m].1);
                    assert(entries@[m].0 == entries@[j as int].0);
                }
                return None;
            }
            let label = entries[j].1.clone();
            proof {
                lemma_num_filled_update(slots@, idx as int, label);
            }
            slots[idx] = Some(label);
            j += 1;
        }

        proof {
            lemma_num_filled_full(slots@);
        }
        let mut labels: Vec<String> = Vec::new();
        let mut id: usize = 0;
        while id < n
            invariant
                id <= n,
                n == entries@.len(),
                slots@.len() == n,
                labels@.len() == id,
                forall|k: int| 0 <= k < n ==> (#[trigger] slots@[k]) is Some,
                forall|k: int|
                    0 <= k < id ==> Some(#[trigger] labels@[k]) == slots@[k],
                forall|k: int|
                    0 <= k < n && (#[trigger] slots@[k]) is Some ==> exists|m: int|
                        0 <= m < n && (#[trigger] entries@[m]).0 == k && slots@[k] == Some(
                            entries@[m].1,
                        ),
                forall|m: int| 0 <= m < n ==> (#[trigger] entries@[m]).0 < n,
                forall|m1: int, m2: int|
                    0 <= m1 < m2 < n ==> entries@[m1].0 != entries@[m2].0,
            decreases n - id,
        {
            match &slots[id] {
                Some(s) => {
                    labels.push(s.clone());
                },
                None => {
                    proof {
                        assert(false);
                    }
                    return None;
                },
            }
            id += 1;
        }

        let vocab = LabelVocab { labels };
        proof {
            assert forall|j: int|
                0 <= j < entries@.len() implies vocab@[(#[trigger] entries@[j]).0 as int]
                == entries@[j].1@ by {
                let k = entries@[j].0 as int;
                let m = choose|m: int|
                    0 <= m < n && (#[trigger] entries@[m]).0 == k && slots@[k] == Some(
                        entries@[m].1,
                    );
                assert(m == j);
                assert(Some(vocab.labels@[k]) == slots@[k]);
            }
        }
        Some(vocab)
    }
}

} // verus!
