use vstd::prelude::*;

verus! {

/// One query-string parameter: a (name, value) pair.
pub type QueryParam = (String, String);

/// One split dimension: a parameter name together with the discrete values
/// the full listing fetch is repeated for.
pub type QuerySplitter<'a> = (String, &'a [String]);

/// The mathematical content of a pair list: the mapping built by inserting
/// the pairs in order, so a later pair overwrites an earlier one of the same
/// name.
pub open spec fn pairs_map(s: Seq<(String, String)>) -> Map<Seq<char>, Seq<char>>
    decreases s.len(),
{
    if s.len() == 0 {
        Map::empty()
    } else {
        pairs_map(s.drop_last()).insert(s.last().0@, s.last().1@)
    }
}

/// No two pairs share a name.
pub open spec fn unique_keys(s: Seq<(String, String)>) -> bool {
    forall|i: int, j: int| 0 <= i < j < s.len() ==> s[i].0@ != s[j].0@
}

/// Every binding of `a` also stands in `b`.
pub open spec fn submap_view(a: Map<Seq<char>, Seq<char>>, b: Map<Seq<char>, Seq<char>>) -> bool {
    forall|k: Seq<char>| #[trigger] a.contains_key(k) ==> b.contains_key(k) && b[k] == a[k]
}

/// The query parameters of one request: a mapping from parameter name to
/// parameter value. Order is irrelevant to its meaning; two values are
/// compared as whole mappings to detect pagination convergence.
pub struct QueryParams {
    pub pairs: Vec<(String, String)>,
}

impl View for QueryParams {
    type V = Map<Seq<char>, Seq<char>>;

    open spec fn view(&self) -> Map<Seq<char>, Seq<char>> {
        pairs_map(self.pairs@)
    }
}

pub proof fn lemma_pairs_map_contains(s: Seq<(String, String)>, k: Seq<char>)
    ensures
        pairs_map(s).contains_key(k) <==> exists|i: int| 0 <= i < s.len() && s[i].0@ == k,
    decreases s.len(),
{
    if s.len() == 0 {
    } else {
        lemma_pairs_map_contains(s.drop_last(), k);
        if s.last().0@ == k {
            assert(s[s.len() - 1].0@ == k);
        } else {
            if pairs_map(s).contains_key(k) {
                let i = choose|i: int| 0 <= i < s.drop_last().len() && s.drop_last()[i].0@ == k;
                assert(s[i].0@ == k);
            }
            if exists|i: int| 0 <= i < s.len() && s[i].0@ == k {
                let i = choose|i: int| 0 <= i < s.len() && s[i].0@ == k;
                assert(i < s.len() - 1);
                assert(s.drop_last()[i].0@ == k);
            }
        }
    }
}

pub proof fn lemma_pairs_map_value(s: Seq<(String, String)>, i: int)
    requires
        unique_keys(s),
        0 <= i < s.len(),
    ensures
        pairs_map(s).contains_key(s[i].0@),
        pairs_map(s)[s[i].0@] == s[i].1@,
    decreases s.len(),
{
    if i == s.len() - 1 {
    } else {
        assert(unique_keys(s.drop_last()));
        assert(s.drop_last()[i] == s[i]);
        lemma_pairs_map_value(s.drop_last(), i);
        assert(s[i].0@ != s.last().0@);
    }
}

impl QueryParams {
    /// The internal pair list holds each name at most once.
    pub open spec fn wf(&self) -> bool {
        unique_keys(self.pairs@)
    }

    /// An empty query.
    pub fn new() -> (r: Self)
        ensures
            r.wf(),
            r@ == Map::<Seq<char>, Seq<char>>::empty(),
    {
        QueryParams { pairs: Vec::new() }
    }

    fn find_index(&self, name: &String) -> (r: Option<usize>)
        ensures
            match r {
                Some(i) => i < self.pairs@.len() && self.pairs@[i as int].0@ == name@,
                None => forall|i: int| 0 <= i < self.pairs@.len() ==> self.pairs@[i].0@ != name@,
            },
    {
        let mut i: usize = 0;
        while i < self.pairs.len()
            invariant
                i <= self.pairs@.len(),
                forall|j: int| 0 <= j < i ==> self.pairs@[j].0@ != name@,
            decreases self.pairs@.len() - i,
        {
            if self.pairs[i].0 == *name {
                return Some(i);
            }
            i = i + 1;
        }
        None
    }

    /// The value stored under `name`, if any.
    pub fn get<'a>(&'a self, name: &String) -> (r: Option<&'a String>)
        requires
            self.wf(),
        ensures
            match r {
                Some(v) => self@.contains_key(name@) && self@[name@] == v@,
                None => !self@.contains_key(name@),
            },
    {
        proof {
            lemma_pairs_map_contains(self.pairs@, name@);
        }
        match self.find_index(name) {
            Some(i) => {
                proof {
                    lemma_pairs_map_value(self.pairs@, i as int);
                }
                Some(&self.pairs[i].1)
            },
            None => None,
        }
    }

    /// Insert `value` under `name`, overwriting any earlier value of that name.
    pub fn insert(&mut self, name: String, value: String)
        requires
            old(self).wf(),
        ensures
            final(self).wf(),
            final(self)@ == old(self)@.insert(name@, value@),
    {
        match self.find_index(&name) {
            Some(i) => {
                proof {
                    lemma_pairs_map_remove(self.pairs@, i as int);
                }
                self.pairs.remove(i);
            },
            None => {},
        }
        proof {
            lemma_pairs_map_contains(self.pairs@, name@);
        }
        assert(forall|j: int| 0 <= j < self.pairs@.len() ==> self.pairs@[j].0@ != name@);
        proof {
            lemma_pairs_map_push(self.pairs@, name@, value@);
        }
        let ghost before = self.pairs@;
        self.pairs.push((name, value));
        proof {
            assert(self.pairs@.drop_last() =~= before);
            assert(final(self)@ == old(self)@.insert(name@, value@)) by {
                assert(pairs_map(self.pairs@) =~= old(self)@.insert(name@, value@));
            }
        }
    }

    fn is_submap_of(&self, other: &QueryParams) -> (r: bool)
        requires
            self.wf(),
            other.wf(),
        ensures
            r <==> submap_view(self@, other@),
    {
        let mut i: usize = 0;
        while i < self.pairs.len()
            invariant
                self.wf(),
                other.wf(),
                i <= self.pairs@.len(),
                forall|j: int| 0 <= j < i ==> other@.contains_key(#[trigger] self.pairs@[j].0@)
                    && other@[self.pairs@[j].0@] == self.pairs@[j].1@,
            decreases self.pairs@.len() - i,
        {
            proof {
                lemma_pairs_map_value(self.pairs@, i as int);
            }
            match other.get(&self.pairs[i].0) {
                Some(v) => {
                    if !(*v == self.pairs[i].1) {
                        proof {
                            assert(!submap_view(self@, other@)) by {
                                assert(self@.contains_key(self.pairs@[i as int].0@)
                                    && !(other@[self.pairs@[i as int].0@]
                                        == self@[self.pairs@[i as int].0@]));
                            }
                        }
                        return false;
                    }
                },
                None => {
                    proof {
                        assert(!submap_view(self@, other@)) by {
                            assert(self@.contains_key(self.pairs@[i as int].0@)
                                && !other@.contains_key(self.pairs@[i as int].0@));
                        }
                    }
                    return false;
                },
            }
            i = i + 1;
        }
        proof {
            assert(submap_view(self@, other@)) by {
                assert forall|k: Seq<char>|
                    #![trigger self@.contains_key(k)]
                    self@.contains_key(k) implies other@.contains_key(k)
                    && other@[k] == self@[k] by {
                    lemma_pairs_map_contains(self.pairs@, k);
                    let j = choose|j: int| 0 <= j < self.pairs@.len() && self.pairs@[j].0@ == k;
                    lemma_pairs_map_value(self.pairs@, j);
                }
            }
        }
        true
    }

    /// Whole-mapping equality: the two queries bind the same names to the
    /// same values, whatever the order the pairs were added in.
    pub fn same_query(&self, other: &QueryParams) -> (r: bool)
        requires
            self.wf(),
            other.wf(),
        ensures
            r <==> self@ == other@,
    {
        let fwd = self.is_submap_of(other);
        let bwd = other.is_submap_of(self);
        if fwd && bwd {
            proof {
                assert forall|k: Seq<char>| self@.dom().contains(k)
                    implies other@.dom().contains(k) by {
                    assert(self@.contains_key(k));
                }
                assert forall|k: Seq<char>| other@.dom().contains(k)
                    implies self@.dom().contains(k) by {
                    assert(other@.contains_key(k));
                }
                assert(self@.dom() =~= other@.dom());
                assert forall|k: Seq<char>| self@.dom().contains(k)
                    implies self@[k] == other@[k] by {
                    assert(self@.contains_key(k));
                }
                assert(self@ =~= other@);
            }
            true
        } else {
            false
        }
    }
}

impl Clone for QueryParams {
    fn clone(&self) -> (res: Self)
        ensures
            res.pairs@ == self.pairs@,
            res@ == self@,
            res.wf() <==> self.wf(),
    {
        let mut pairs: Vec<(String, String)> = Vec::new();
        let mut i: usize = 0;
        while i < self.pairs.len()
            invariant
                i <= self.pairs@.len(),
                pairs@.len() == i,
                forall|j: int| 0 <= j < i ==> pairs@[j] == self.pairs@[j],
            decreases self.pairs@.len() - i,
        {
            pairs.push((self.pairs[i].0.clone(), self.pairs[i].1.clone()));
            i = i + 1;
        }
        proof {
            assert(pairs@ =~= self.pairs@);
        }
        QueryParams { pairs }
    }
}

proof fn lemma_pairs_map_push(s: Seq<(String, String)>, name: Seq<char>, value: Seq<char>)
    ensures
        forall|p: (String, String)| p.0@ == name && p.1@ == value
            ==> pairs_map(s.push(p)) == pairs_map(s).insert(name, value),
{
    assert forall|p: (String, String)| p.0@ == name && p.1@ == value
        implies pairs_map(s.push(p)) == pairs_map(s).insert(name, value) by {
        assert(s.push(p).drop_last() =~= s);
        assert(s.push(p).last() == p);
    }
}

proof fn lemma_pairs_map_remove(s: Seq<(String, String)>, i: int)
    requires
        unique_keys(s),
        0 <= i < s.len(),
    ensures
        unique_keys(s.remove(i)),
        pairs_map(s.remove(i)) == pairs_map(s).remove(s[i].0@),
    decreases s.len(),
{
    assert(unique_keys(s.remove(i))) by {
        assert forall|a: int, b: int| 0 <= a < b < s.remove(i).len()
            implies s.remove(i)[a].0@ != s.remove(i)[b].0@ by {
            if a < i {
                assert(s.remove(i)[a] == s[a]);
            } else {
                assert(s.remove(i)[a] == s[a + 1]);
            }
            if b < i {
                assert(s.remove(i)[b] == s[b]);
            } else {
                assert(s.remove(i)[b] == s[b + 1]);
            }
        }
    }
    if i == s.len() - 1 {
        assert(s.remove(i) =~= s.drop_last());
        lemma_pairs_map_contains(s.drop_last(), s[i].0@);
        assert forall|j: int| 0 <= j < s.drop_last().len()
            implies s.drop_last()[j].0@ != s[i].0@ by {
            assert(s.drop_last()[j] == s[j]);
        }
        assert(!pairs_map(s.drop_last()).contains_key(s[i].0@));
        assert(pairs_map(s.remove(i)) =~= pairs_map(s).remove(s[i].0@));
    } else {
        assert(s.remove(i).drop_last() =~= s.drop_last().remove(i));
        assert(s.remove(i).last() == s.last());
        assert(unique_keys(s.drop_last()));
        assert(s.drop_last()[i] == s[i]);
        lemma_pairs_map_remove(s.drop_last(), i);
        assert(s[i].0@ != s.last().0@);
        assert(pairs_map(s.remove(i))
            == pairs_map(s.drop_last()).remove(s[i].0@).insert(s.last().0@, s.last().1@));
        assert(pairs_map(s).remove(s[i].0@)
            == pairs_map(s.drop_last()).insert(s.last().0@, s.last().1@).remove(s[i].0@));
        assert(pairs_map(s.drop_last()).remove(s[i].0@).insert(s.last().0@, s.last().1@)
            =~= pairs_map(s.drop_last()).insert(s.last().0@, s.last().1@).remove(s[i].0@));
    }
}

} // verus!
