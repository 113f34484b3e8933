//! Progress state shared with the display: per title, the chapters
//! finished so far and the chapter total fixed when the title was taken
//! up.  One worker owns each key; readers take point-in-time snapshots.

use vstd::prelude::*;

verus! {

/// The association a tracker holds, as a map from title name to the pair
/// (completed chapters, total chapters).
pub open spec fn spec_progress_map(titles: Seq<Seq<char>>, counts: Seq<(u64, u64)>) -> Map<
    Seq<char>,
    (u64, u64),
>
    decreases titles.len(),
{
    if titles.len() == 0 || counts.len() == 0 {
        Map::empty()
    } else {
        spec_progress_map(titles.drop_last(), counts.drop_last()).insert(
            titles.last(),
            counts.last(),
        )
    }
}

/// Live progress of a run, keyed by title name.
pub struct ProgressTracker {
    titles: Vec<String>,
    counts: Vec<(u64, u64)>,
}

proof fn lemma_map_contains_at(titles: Seq<Seq<char>>, counts: Seq<(u64, u64)>, i: int)
    requires
        titles.len() == counts.len(),
        0 <= i < titles.len(),
    ensures
        spec_progress_map(titles, counts).contains_key(titles[i]),
    decreases titles.len(),
{
    if i < titles.len() - 1 {
        lemma_map_contains_at(titles.drop_last(), counts.drop_last(), i);
    }
}

proof fn lemma_map_at(titles: Seq<Seq<char>>, counts: Seq<(u64, u64)>, i: int)
    requires
        titles.len() == counts.len(),
        0 <= i < titles.len(),
        forall|a: int, b: int| 0 <= a < b < titles.len() ==> titles[a] != titles[b],
    ensures
        spec_progress_map(titles, counts).contains_key(titles[i]),
        spec_progress_map(titles, counts)[titles[i]] == counts[i],
    decreases titles.len(),
{
    if i < titles.len() - 1 {
        lemma_map_at(titles.drop_last(), counts.drop_last(), i);
        assert(titles[i] != titles.last());
    }
}

proof fn lemma_map_key_has_index(titles: Seq<Seq<char>>, counts: Seq<(u64, u64)>, t: Seq<char>)
    requires
        titles.len() == counts.len(),
        spec_progress_map(titles, counts).contains_key(t),
    ensures
        exists|i: int| 0 <= i < titles.len() && titles[i] == t,
    decreases titles.len(),
{
    if titles.len() > 0 {
        if t == titles.last() {
            assert(titles[titles.len() - 1] == t);
        } else {
            lemma_map_key_has_index(titles.drop_last(), counts.drop_last(), t);
            let i = choose|i: int| 0 <= i < titles.len() - 1 && titles.drop_last()[i] == t;
            assert(titles[i] == t);
        }
    }
}

proof fn lemma_map_update(titles: Seq<Seq<char>>, counts: Seq<(u64, u64)>, i: int, v: (u64, u64))
    requires
        titles.len() == counts.len(),
        0 <= i < titles.len(),
        forall|a: int, b: int| 0 <= a < b < titles.len() ==> titles[a] != titles[b],
    ensures
        spec_progress_map(titles, counts.update(i, v)) == spec_progress_map(
            titles,
            counts,
        ).insert(titles[i], v),
    decreases titles.len(),
{
    let n = titles.len();
    if i == n - 1 {
        assert(counts.update(i, v).drop_last() =~= counts.drop_last());
        assert(counts.update(i, v).last() == v);
        assert(spec_progress_map(titles, counts.update(i, v)) =~= spec_progress_map(
            titles,
            counts,
        ).insert(titles[i], v));
    } else {
        assert(counts.update(i, v).drop_last() =~= counts.drop_last().update(i, v));
        assert(counts.update(i, v).last() == counts.last());
        lemma_map_update(titles.drop_last(), counts.drop_last(), i, v);
        assert(titles[i] != titles.last());
        assert(spec_progress_map(titles.drop_last(), counts.drop_last()).insert(
            titles[i],
            v,
        ).insert(titles.last(), counts.last()) =~= spec_progress_map(
            titles.drop_last(),
            counts.drop_last(),
        ).insert(titles.last(), counts.last()).insert(titles[i], v));
    }
}

impl View for ProgressTracker {
    type V = Map<Seq<char>, (u64, u64)>;

    closed spec fn view(&self) -> Map<Seq<char>, (u64, u64)> {
        spec_progress_map(self.titles.deep_view(), self.counts@)
    }
}

impl ProgressTracker {
    /// The title names the tracker holds, in the order they were taken up.
    pub closed spec fn spec_titles(&self) -> Seq<Seq<char>> {
        self.titles.deep_view()
    }

    pub closed spec fn spec_counts(&self) -> Seq<(u64, u64)> {
        self.counts@
    }

    /// Well formed: one count per title, no title taken up twice, and no
    /// completed count past its total.
    pub closed spec fn wf(&self) -> bool {
        &&& self.titles.len() == self.counts.len()
        &&& forall|a: int, b: int|
            0 <= a < b < self.titles@.len() ==> self.titles.deep_view()[a]
                != self.titles.deep_view()[b]
        &&& forall|i: int| 0 <= i < self.counts@.len() ==> self.counts@[i].0 <= self.counts@[i].1
    }

    /// An empty tracker: no title yet.
    pub fn new() -> (r: ProgressTracker)
        ensures
            r.wf(),
            r@ == Map::<Seq<char>, (u64, u64)>::empty(),
            r.spec_titles().len() == 0,
    {
        let r = ProgressTracker { titles: Vec::new(), counts: Vec::new() };
        proof {
            assert(r.titles.deep_view().len() == 0);
        }
        r
    }

    /// Takes a title up, with its chapter total, before any of its
    /// chapters is processed.  Called once per title.
    pub fn initialize(&mut self, title: String, total: u64)
        requires
            old(self).wf(),
            !old(self)@.contains_key(title@),
        ensures
            final(self).wf(),
            final(self)@ == old(self)@.insert(title@, (0u64, total)),
            final(self).spec_titles() == old(self).spec_titles().push(title@),
    {
        proof {
            assert forall|i: int| 0 <= i < self.titles.deep_view().len() implies self
                .titles
                .deep_view()[i] != title@ by {
                lemma_map_contains_at(self.titles.deep_view(), self.counts@, i);
            }
        }
        let ghost old_titles = self.titles.deep_view();
        let ghost old_counts = self.counts@;
        self.titles.push(title);
        self.counts.push((0, total));
        proof {
            assert(self.titles.deep_view().drop_last() =~= old_titles);
            assert(self.counts@.drop_last() =~= old_counts);
            assert(self.titles.deep_view() =~= old_titles.push(title@));
            assert(self.titles.deep_view().last() == title@);
        }
    }

    /// Records that another chapter of the title has finished: the
    /// completed count moves forward, never past the fixed total, and
    /// the total stays as it was.
    pub fn advance(&mut self, title: &String, completed: u64)
        requires
            old(self).wf(),
            old(self)@.contains_key(title@),
            completed >= old(self)@[title@].0,
            completed <= old(self)@[title@].1,
        ensures
            final(self).wf(),
            final(self)@ == old(self)@.insert(title@, (completed, old(self)@[title@].1)),
            final(self).spec_titles() == old(self).spec_titles(),
    {
        let n = self.titles.len();
        let mut i: usize = 0;
        while i < n
            invariant
                self == old(self),
                old(self).wf(),
                old(self)@.contains_key(title@),
                completed <= old(self)@[title@].1,
                n == self.titles@.len(),
                i <= n,
                forall|j: int| 0 <= j < i ==> self.titles.deep_view()[j] != title@,
            decreases n - i,
        {
            if self.titles[i].eq(title) {
                let total = self.counts[i].1;
                proof {
                    lemma_map_at(self.titles.deep_view(), self.counts@, i as int);
                    lemma_map_update(
                        self.titles.deep_view(),
                        self.counts@,
                        i as int,
                        (completed, total),
                    );
                }
                self.counts.set(i, (completed, total));
                return ;
            }
            i = i + 1;
        }
        proof {
            lemma_map_key_has_index(self.titles.deep_view(), self.counts@, title@);
        }
    }

    /// Reads one title's progress, if the title has been taken up.
    pub fn get(&self, title: &String) -> (r: Option<(u64, u64)>)
        requires
            self.wf(),
        ensures
            match r {
                Some(p) => self@.contains_key(title@) && p == self@[title@] && p.0 <= p.1,
                None => !self@.contains_key(title@),
            },
    {
        let n = self.titles.len();
        let mut i: usize = 0;
        while i < n
            invariant
                n == self.titles@.len(),
                i <= n,
                self.wf(),
                forall|j: int| 0 <= j < i ==> self.titles.deep_view()[j] != title@,
            decreases n - i,
        {
            if self.titles[i].eq(title) {
                proof {
                    lemma_map_at(self.titles.deep_view(), self.counts@, i as int);
                }
                return Some(self.counts[i]);
            }
            i = i + 1;
        }
        proof {
            if self@.contains_key(title@) {
                lemma_map_key_has_index(self.titles.deep_view(), self.counts@, title@);
            }
        }
        None
    }

    /// How many titles the tracker holds.
    pub fn len(&self) -> (n: usize)
        requires
            self.wf(),
        ensures
            n == self.spec_titles().len(),
    {
        proof {
            assert(self.titles.deep_view().len() == self.titles@.len());
        }
        self.titles.len()
    }

    /// One row of a snapshot: title name, completed count, total count.
    pub fn entry_at(&self, i: usize) -> (e: (String, u64, u64))
        requires
            self.wf(),
            i < self.spec_titles().len(),
        ensures
            e.0@ == self.spec_titles()[i as int],
            self@.contains_key(e.0@),
            self@[e.0@] == (e.1, e.2),
            e.1 <= e.2,
    {
        proof {
            lemma_map_at(self.titles.deep_view(), self.counts@, i as int);
        }
        let c = self.counts[i];
        (self.titles[i].clone(), c.0, c.1)
    }
}

} // verus!
