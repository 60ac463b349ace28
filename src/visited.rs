use vstd::prelude::*;

verus! {

/// The ledger of URLs already claimed for processing. It only ever grows.
pub struct VisitedSet {
    urls: Vec<String>,
}

impl View for VisitedSet {
    type V = Set<Seq<char>>;

    closed spec fn view(&self) -> Set<Seq<char>> {
        Set::new(|s: Seq<char>| exists|i: int| 0 <= i < self.urls@.len() && self.urls@[i]@ == s)
    }
}

impl VisitedSet {
    /// How many entries the ledger holds.
    pub closed spec fn size(&self) -> nat {
        self.urls@.len()
    }

    pub fn new() -> (r: VisitedSet)
        ensures
            r@ == Set::<Seq<char>>::empty(),
            r.size() == 0,
    {
        let r = VisitedSet { urls: Vec::new() };
        assert(r@ =~= Set::<Seq<char>>::empty());
        r
    }

    pub fn len(&self) -> (r: usize)
        ensures
            r == self.size(),
    {
        self.urls.len()
    }

    pub fn contains(&self, url: &str) -> (r: bool)
        ensures
            r == self@.contains(url@),
    {
        let key = String::from_str(url);
        let mut i: usize = 0;
        while i < self.urls.len()
            invariant
                0 <= i <= self.urls@.len(),
                key@ == url@,
                forall|k: int| 0 <= k < i ==> self.urls@[k]@ != url@,
            decreases self.urls@.len() - i,
        {
            if self.urls[i] == key {
                assert(self@.contains(url@));
                return true;
            }
            i = i + 1;
        }
        false
    }

    /// Test-and-set: records `url` and reports whether this call was the
    /// first to record it.
    pub fn mark_visited(&mut self, url: &str) -> (r: bool)
        ensures
            r == !old(self)@.contains(url@),
            final(self)@ == old(self)@.insert(url@),
            final(self).size() == old(self).size() + (if r { 1nat } else { 0nat }),
    {
        if self.contains(url) {
            assert(self@ =~= self@.insert(url@));
            false
        } else {
            let ghost before = self.urls@;
            self.urls.push(String::from_str(url));
            assert forall|s: Seq<char>| #[trigger] self@.contains(s) == old(self)@.insert(url@).contains(s) by {
                if old(self)@.contains(s) {
                    let i = choose|i: int| 0 <= i < before.len() && before[i]@ == s;
                    assert(self.urls@[i]@ == s);
                }
                if s == url@ {
                    assert(self.urls@[before.len() as int]@ == s);
                }
            }
            assert(self@ =~= old(self)@.insert(url@));
            true
        }
    }
}

/// The ledger after a run of marks has recorded the first `i` URLs of `urls`.
pub open spec fn marked_after(start: Set<Seq<char>>, urls: Seq<Seq<char>>, i: int) -> Set<Seq<char>> {
    start + urls.subrange(0, i).to_set()
}

/// Whether the mark at position `i` of a run is the first to record its URL.
pub open spec fn reports_first(start: Set<Seq<char>>, urls: Seq<Seq<char>>, i: int) -> bool {
    !start.contains(urls[i]) && !urls.subrange(0, i).contains(urls[i])
}

/// Marks made one after another on the ledger, starting from `start`: each
/// mark sees the ledger that the earlier ones left and reports first exactly
/// when its URL was absent. Of all marks of one URL `u`, at most one reports
/// first, and one does exactly when `u` was not recorded at the start.
pub proof fn lemma_first_mark_wins(start: Set<Seq<char>>, urls: Seq<Seq<char>>, u: Seq<char>)
    requires
        urls.contains(u),
    ensures
        forall|i: int|
            0 <= i < urls.len() ==> #[trigger] marked_after(start, urls, i + 1) == marked_after(
                start,
                urls,
                i,
            ).insert(urls[i]) && reports_first(start, urls, i) == !marked_after(
                start,
                urls,
                i,
            ).contains(urls[i]),
        forall|i: int, j: int|
            0 <= i < j < urls.len() && urls[i] == u && urls[j] == u ==> !reports_first(
                start,
                urls,
                j,
            ),
        (exists|i: int| 0 <= i < urls.len() && urls[i] == u && reports_first(start, urls, i))
            == !start.contains(u),
{
    assert forall|i: int| 0 <= i < urls.len() implies #[trigger] marked_after(start, urls, i + 1)
        == marked_after(start, urls, i).insert(urls[i]) && reports_first(start, urls, i)
        == !marked_after(start, urls, i).contains(urls[i]) by {
        let pre = urls.subrange(0, i);
        assert(urls.subrange(0, i + 1) =~= pre.push(urls[i]));
        pre.lemma_push_to_set_commute(urls[i]);
        assert(marked_after(start, urls, i + 1) =~= marked_after(start, urls, i).insert(urls[i]));
        assert(pre.contains(urls[i]) == pre.to_set().contains(urls[i]));
    }
    assert forall|i: int, j: int|
        0 <= i < j < urls.len() && urls[i] == u && urls[j] == u implies !reports_first(
            start,
            urls,
            j,
        ) by {
        assert(urls.subrange(0, j)[i] == u);
    }
    urls.index_of_first_ensures(u);
    if !start.contains(u) {
        let k = urls.index_of_first(u).unwrap();
        assert(!urls.subrange(0, k).contains(u)) by {
            if urls.subrange(0, k).contains(u) {
                let m = choose|m: int| 0 <= m < k && urls.subrange(0, k)[m] == u;
                assert(urls[m] == u);
            }
        }
        assert(reports_first(start, urls, k));
    }
}

} // verus!
