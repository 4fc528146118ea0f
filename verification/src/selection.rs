//! The selection state: the set of file identifiers the user has
//! ticked, mutated only by an explicit toggle.  Identifiers are
//! canonical path strings, so the set is stable across rerenders.

use vstd::prelude::*;

use crate::chars::{chars_of, vec_eq_str};
use crate::order::{lex_sorted, sort_strings, string_views};

verus! {

/// One toggle of `id` on the abstract set: out if in, in if out.
pub open spec fn toggle_spec(s: Set<Seq<char>>, id: Seq<char>) -> Set<Seq<char>> {
    if s.contains(id) {
        s.remove(id)
    } else {
        s.insert(id)
    }
}

/// Law: toggling the same identifier twice restores the set.
pub proof fn lemma_toggle_twice(s: Set<Seq<char>>, id: Seq<char>)
    ensures
        toggle_spec(toggle_spec(s, id), id) == s,
{
    broadcast use vstd::set::group_set_axioms;

    if s.contains(id) {
        assert(toggle_spec(toggle_spec(s, id), id) =~= s);
    } else {
        assert(toggle_spec(toggle_spec(s, id), id) =~= s);
    }
}

/// A set of node identifiers.
#[derive(Debug)]
pub struct SelectionSet {
    ids: Vec<String>,
}

impl SelectionSet {
    /// The abstract set of selected identifiers.
    pub closed spec fn sel(&self) -> Set<Seq<char>> {
        string_views(self.ids@).to_set()
    }

    /// The representation holds each identifier once.
    pub closed spec fn wf(&self) -> bool {
        string_views(self.ids@).no_duplicates()
    }

    /// The empty selection.
    pub fn new() -> (r: Self)
        ensures
            r.wf(),
            r.sel() == Set::<Seq<char>>::empty(),
    {
        let r = SelectionSet { ids: Vec::new() };
        proof {
            assert(string_views(r.ids@) =~= Seq::<Seq<char>>::empty());
            assert(string_views(r.ids@).to_set() =~= Set::<Seq<char>>::empty());
        }
        r
    }

    fn position_of(&self, id: &str) -> (r: Option<usize>)
        ensures
            r matches Some(i) ==> i < self.ids@.len() && self.ids@[i as int]@ == id@,
            r is None ==> !self.sel().contains(id@),
    {
        let cs = chars_of(id);
        let mut i: usize = 0;
        while i < self.ids.len()
            invariant
                i <= self.ids@.len(),
                cs@ == id@,
                forall|k: int| 0 <= k < i ==> self.ids@[k]@ != id@,
            decreases self.ids@.len() - i,
        {
            if vec_eq_str(&cs, self.ids[i].as_str()) {
                return Some(i);
            }
            i = i + 1;
        }
        proof {
            let vs = string_views(self.ids@);
            assert(forall|k: int| 0 <= k < vs.len() ==> vs[k] == self.ids@[k]@);
            assert(!vs.contains(id@));
            if vs.to_set().contains(id@) {
                assert(vs.contains(id@));
            }
        }
        None
    }

    /// Whether `id` is selected.
    pub fn contains(&self, id: &str) -> (r: bool)
        ensures
            r == self.sel().contains(id@),
    {
        match self.position_of(id) {
            Some(i) => {
                proof {
                    let vs = string_views(self.ids@);
                    assert(vs[i as int] == self.ids@[i as int]@);
                    assert(vs.contains(id@));
                }
                true
            },
            None => false,
        }
    }

    /// Flips membership of `id`: selected becomes unselected and the
    /// other way round.
    pub fn toggle(&mut self, id: &str)
        requires
            old(self).wf(),
        ensures
            final(self).wf(),
            final(self).sel() == toggle_spec(old(self).sel(), id@),
    {
        broadcast use vstd::seq_lib::group_to_multiset_ensures;
        broadcast use vstd::set::group_set_axioms;

        match self.position_of(id) {
            Some(i) => {
                let ghost before = self.ids@;
                self.ids.remove(i);
                proof {
                    let vs_old = string_views(before);
                    let vs_new = string_views(self.ids@);
                    assert(vs_old.contains(id@)) by {
                        assert(vs_old[i as int] == before[i as int]@);
                    }
                    assert(vs_new =~= vs_old.remove(i as int)) by {
                        assert(vs_new.len() == self.ids@.len());
                        assert forall|k: int| 0 <= k < vs_new.len() implies vs_new[k]
                            == vs_old.remove(i as int)[k] by {
                            assert(vs_new[k] == self.ids@[k]@);
                            if k < i {
                                assert(self.ids@[k] == before[k]);
                                assert(vs_old[k] == before[k]@);
                            } else {
                                assert(self.ids@[k] == before[k + 1]);
                                assert(vs_old[k + 1] == before[k + 1]@);
                            }
                        }
                    }
                    // removing position i keeps the rest unique and
                    // drops exactly id from the set
                    assert(vs_new.no_duplicates()) by {
                        assert forall|p: int, q: int|
                            0 <= p < q < vs_new.len() implies vs_new[p] != vs_new[q] by {
                            let p0 = if p < i { p } else { p + 1 };
                            let q0 = if q < i { q } else { q + 1 };
                            assert(vs_new[p] == vs_old[p0]);
                            assert(vs_new[q] == vs_old[q0]);
                        }
                    }
                    assert(vs_new.to_set() =~= vs_old.to_set().remove(id@)) by {
                        assert(vs_old[i as int] == id@);
                        assert forall|x: Seq<char>| vs_new.to_set().contains(x) implies vs_old
                            .to_set().remove(id@).contains(x) by {
                            assert(vs_new.contains(x));
                            let k = choose|k: int| 0 <= k < vs_new.len() && vs_new[k] == x;
                            let k0 = if k < i { k } else { k + 1 };
                            assert(vs_old[k0] == x);
                            assert(vs_old.contains(x));
                            assert(x != id@) by {
                                if x == id@ {
                                    assert(vs_old[k0] == vs_old[i as int]);
                                    assert(k0 != i);
                                }
                            }
                        }
                        assert forall|x: Seq<char>|
                            vs_old.to_set().remove(id@).contains(x) implies vs_new
                            .to_set().contains(x) by {
                            assert(vs_old.contains(x));
                            let k = choose|k: int| 0 <= k < vs_old.len() && vs_old[k] == x;
                            assert(k != i);
                            let k1 = if k < i { k } else { k - 1 };
                            assert(vs_new[k1] == vs_old[k]);
                            assert(vs_new.contains(x));
                        }
                    }
                }
            },
            None => {
                let ghost before = self.ids@;
                self.ids.push(id.to_owned());
                proof {
                    let vs_old = string_views(before);
                    let vs_new = string_views(self.ids@);
                    assert(vs_new =~= vs_old.push(id@)) by {
                        assert(vs_new.len() == self.ids@.len());
                        assert forall|k: int| 0 <= k < vs_new.len() implies vs_new[k]
                            == vs_old.push(id@)[k] by {
                            assert(vs_new[k] == self.ids@[k]@);
                            if k < vs_old.len() {
                                assert(self.ids@[k] == before[k]);
                                assert(vs_old[k] == before[k]@);
                            }
                        }
                    }
                    assert(!vs_old.contains(id@)) by {
                        if vs_old.contains(id@) {
                            assert(vs_old.to_set().contains(id@));
                        }
                    }
                    assert(vs_new.no_duplicates()) by {
                        assert forall|p: int, q: int|
                            0 <= p < q < vs_new.len() implies vs_new[p] != vs_new[q] by {
                            if q == vs_new.len() - 1 {
                                assert(vs_new[q] == id@);
                                assert(vs_old.contains(vs_old[p]));
                            }
                        }
                    }
                    assert(vs_new.to_set() =~= vs_old.to_set().insert(id@)) by {
                        Seq::lemma_push_to_set_commute(vs_old, id@);
                    }
                }
            },
        }
    }

    /// How many identifiers are selected.
    pub fn len(&self) -> (r: usize)
        requires
            self.wf(),
        ensures
            r == self.sel().len(),
    {
        proof {
            string_views(self.ids@).unique_seq_to_set();
            assert(string_views(self.ids@).len() == self.ids@.len());
        }
        self.ids.len()
    }

    /// Whether nothing is selected.
    pub fn is_empty(&self) -> (r: bool)
        requires
            self.wf(),
        ensures
            r == (self.sel().len() == 0),
    {
        self.len() == 0
    }

    /// The selected identifiers, sorted lexicographically — the order
    /// the export walks them in.
    pub fn sorted_ids(&self) -> (r: Vec<String>)
        requires
            self.wf(),
        ensures
            lex_sorted(string_views(r@)),
            string_views(r@).no_duplicates(),
            string_views(r@).to_set() == self.sel(),
            r@.len() == self.sel().len(),
    {
        broadcast use vstd::seq_lib::group_to_multiset_ensures;

        let r = sort_strings(&self.ids);
        proof {
            let vs_old = string_views(self.ids@);
            let vs_new = string_views(r@);
            assert(vs_new.no_duplicates()) by {
                vs_old.lemma_multiset_has_no_duplicates();
                vs_new.lemma_multiset_has_no_duplicates_conv();
            }
            assert(vs_new.to_set() =~= vs_old.to_set()) by {
                assert forall|x: Seq<char>| vs_new.to_set().contains(x) implies vs_old
                    .to_set().contains(x) by {
                    assert(vs_new.contains(x));
                    assert(vs_new.to_multiset().count(x) > 0);
                    assert(vs_old.to_multiset().count(x) > 0);
                    assert(vs_old.contains(x));
                }
                assert forall|x: Seq<char>| vs_old.to_set().contains(x) implies vs_new
                    .to_set().contains(x) by {
                    assert(vs_old.contains(x));
                    assert(vs_old.to_multiset().count(x) > 0);
                    assert(vs_new.to_multiset().count(x) > 0);
                    assert(vs_new.contains(x));
                }
            }
            vs_new.unique_seq_to_set();
            assert(vs_new.len() == r@.len());
        }
        r
    }
}

} // verus!
