//! Ordered sets of names.
use crate::text;
use crate::text::{str_eq, str_le};
use vstd::prelude::*;

verus! {

/// Whether `s` is in the order of strings and repeats none.
pub open spec fn increasing(s: Seq<Seq<char>>) -> bool {
    forall|i: int, j: int|
        0 <= i < j < s.len() ==> text::text_le(#[trigger] s[i], #[trigger] s[j]) && s[i] != s[j]
}

/// Whether `s` is the listing of `set` in order, each name once.
pub open spec fn lists(s: Seq<Seq<char>>, set: Set<Seq<char>>) -> bool {
    &&& increasing(s)
    &&& forall|x: Seq<char>| #[trigger] s.contains(x) <==> set.contains(x)
}

/// The names of `set` in order, each once.
pub open spec fn in_order(set: Set<Seq<char>>) -> Seq<Seq<char>> {
    choose|s: Seq<Seq<char>>| lists(s, set)
}

/// A set of names has one listing.
pub proof fn lemma_listing_unique(a: Seq<Seq<char>>, b: Seq<Seq<char>>, set: Set<Seq<char>>)
    requires
        lists(a, set),
        lists(b, set),
    ensures
        a == b,
{
    let le = text::text_order();
    text::lemma_text_order();
    assert(a.no_duplicates());
    assert(b.no_duplicates());
    a.lemma_multiset_has_no_duplicates();
    b.lemma_multiset_has_no_duplicates();
    a.to_multiset_ensures();
    b.to_multiset_ensures();
    assert forall|x: Seq<char>| a.to_multiset().count(x) == b.to_multiset().count(x) by {
        assert(a.contains(x) <==> a.to_multiset().count(x) > 0);
        assert(b.contains(x) <==> b.to_multiset().count(x) > 0);
        if a.contains(x) {
            assert(a.to_multiset().contains(x));
            assert(b.to_multiset().contains(x));
        }
    }
    assert(a.to_multiset() =~= b.to_multiset());
    assert forall|i: int, j: int| 0 <= i < j < a.len() implies #[trigger] le(a[i], a[j]) by {}
    assert forall|i: int, j: int| 0 <= i < j < b.len() implies #[trigger] le(b[i], b[j]) by {}
    vstd::seq_lib::lemma_sorted_unique(a, b, le);
}

/// A listing of a set is the one that `in_order` names.
pub proof fn lemma_in_order(s: Seq<Seq<char>>, set: Set<Seq<char>>)
    requires
        lists(s, set),
    ensures
        in_order(set) == s,
{
    lemma_listing_unique(s, in_order(set), set);
}

proof fn lemma_to_seq_len(set: Set<Seq<char>>)
    requires
        set.finite(),
    ensures
        set.to_seq().len() == set.len(),
    decreases set.len(),
{
    if set.len() > 0 {
        lemma_to_seq_len(set.remove(set.choose()));
    }
}

/// A finite set of names has a listing.
pub proof fn lemma_listing_exists(set: Set<Seq<char>>)
    requires
        set.finite(),
    ensures
        lists(in_order(set), set),
{
    let le = text::text_order();
    text::lemma_text_order();
    let s = set.to_seq();
    let t = s.sort_by(le);
    s.lemma_sort_by_ensures(le);
    s.to_multiset_ensures();
    t.to_multiset_ensures();
    set.lemma_to_seq_to_set_id();
    assert forall|x: Seq<char>| #[trigger] t.contains(x) <==> set.contains(x) by {
        assert(t.contains(x) <==> t.to_multiset().count(x) > 0);
        assert(s.contains(x) <==> s.to_multiset().count(x) > 0);
        assert(s.to_set().contains(x) <==> set.contains(x));
    }
    assert(t.to_set() =~= set);
    lemma_to_seq_len(set);
    assert(t.len() == s.len());
    t.lemma_no_dup_set_cardinality();
    assert(increasing(t)) by {
        assert forall|i: int, j: int| 0 <= i < j < t.len() implies text::text_le(
            #[trigger] t[i],
            #[trigger] t[j],
        ) && t[i] != t[j] by {
            assert(le(t[i], t[j]));
        }
    }
    assert(lists(t, set));
}

/// A set of names, kept in the order of strings.
pub struct NameSet {
    names: Vec<String>,
}

impl View for NameSet {
    type V = Set<Seq<char>>;

    closed spec fn view(&self) -> Set<Seq<char>> {
        text::views(self.names@).to_set()
    }
}

impl NameSet {
    #[verifier::type_invariant]
    spec fn wf(self) -> bool {
        increasing(text::views(self.names@))
    }

    /// The set without names.
    pub fn new() -> (r: NameSet)
        ensures
            r@ == Set::<Seq<char>>::empty(),
    {
        let r = NameSet { names: Vec::new() };
        proof {
            assert(r@ =~= Set::<Seq<char>>::empty());
        }
        r
    }

    /// The position of `name` in the listing, and whether it is there.
    fn position(&self, name: &str) -> (r: (usize, bool))
        ensures
            r.0 <= self.names@.len(),
            r.1 == self@.contains(name@),
            r.1 ==> r.0 < self.names@.len() && self.names@[r.0 as int]@ == name@,
            !r.1 ==> {
                &&& forall|j: int|
                    0 <= j < r.0 ==> text::text_le(#[trigger] text::views(self.names@)[j], name@)
                &&& forall|j: int|
                    r.0 <= j < self.names@.len() ==> text::text_le(
                        name@,
                        #[trigger] text::views(self.names@)[j],
                    )
            },
    {
        proof {
            use_type_invariant(self);
            text::lemma_text_order();
        }
        let ghost le = text::text_order();
        let mut i: usize = 0;
        while i < self.names.len() && str_le(self.names[i].as_str(), name)
            invariant
                i <= self.names@.len(),
                forall|j: int|
                    0 <= j < i ==> text::text_le(#[trigger] text::views(self.names@)[j], name@),
                forall|j: int| 0 <= j < i ==> #[trigger] text::views(self.names@)[j] != name@,
            ensures
                i <= self.names@.len(),
                forall|j: int|
                    0 <= j < i ==> text::text_le(#[trigger] text::views(self.names@)[j], name@),
                forall|j: int| 0 <= j < i ==> #[trigger] text::views(self.names@)[j] != name@,
                i < self.names@.len() ==> !text::text_le(
                    text::views(self.names@)[i as int],
                    name@,
                ),
            decreases self.names@.len() - i,
        {
            if str_eq(self.names[i].as_str(), name) {
                proof {
                    assert(text::views(self.names@)[i as int] == name@);
                    assert(text::views(self.names@).contains(name@));
                }
                return (i, true);
            }
            i = i + 1;
        }
        proof {
            let s = text::views(self.names@);
            assert forall|j: int| i <= j < s.len() implies text::text_le(name@, #[trigger] s[j])
                && s[j] != name@ by {
                assert(le(name@, s[i as int]) || le(s[i as int], name@));
                if j > i {
                    assert(le(s[i as int], s[j]));
                    assert(le(name@, s[j]));
                    if s[j] == name@ {
                        assert(le(s[i as int], name@));
                    }
                }
            }
        }
        (i, false)
    }

    /// Whether `name` is in the set.
    pub fn contains(&self, name: &str) -> (r: bool)
        ensures
            r == self@.contains(name@),
    {
        self.position(name).1
    }

    /// Adds `name` to the set.
    pub fn insert(&mut self, name: &str)
        ensures
            final(self)@ == old(self)@.insert(name@),
    {
        let (at, present) = self.position(name);
        if present {
            proof {
                assert(self@.insert(name@) =~= self@);
            }
            return;
        }
        proof {
            use_type_invariant(&*self);
        }
        let ghost s = text::views(self.names@);
        let mut names: Vec<String> = Vec::new();
        std::mem::swap(&mut names, &mut self.names);
        names.insert(at, name.to_owned());
        proof {
            let t = text::views(names@);
            assert(t =~= s.insert(at as int, name@));
            assert forall|x: Seq<char>| #[trigger] s.contains(x) implies t.contains(x) by {
                let k = s.index_of(x);
                if k < at {
                    assert(t[k] == x);
                } else {
                    assert(t[k + 1] == x);
                }
            }
            assert(t[at as int] == name@);
            assert(t.contains(name@));
            assert forall|x: Seq<char>| #[trigger] t.contains(x) implies x == name@
                || s.contains(x) by {
                let k = t.index_of(x);
                if k < at {
                    assert(s[k] == x);
                } else if k > at {
                    assert(s[k - 1] == x);
                }
            }
            assert(t.to_set() =~= s.to_set().insert(name@));
            assert(!s.contains(name@));
            assert forall|i: int, j: int| 0 <= i < j < t.len() implies text::text_le(
                #[trigger] t[i],
                #[trigger] t[j],
            ) && t[i] != t[j] by {
                if i == at {
                    assert(t[j] == s[j - 1]);
                } else if j == at {
                    assert(t[i] == s[i]);
                } else {
                    let a = if i < at { i } else { i - 1 };
                    let b = if j < at { j } else { j - 1 };
                    assert(t[i] == s[a] && t[j] == s[b]);
                }
            }
        }
        self.names = names;
    }

    /// The names in order, each once.
    pub fn names(&self) -> (r: &Vec<String>)
        ensures
            lists(text::views(r@), self@),
            text::views(r@) == in_order(self@),
    {
        proof {
            use_type_invariant(self);
            lemma_in_order(text::views(self.names@), self@);
        }
        &self.names
    }
}

/// A finite set of names is listed in the order of strings, each name once, and
/// nothing else.
pub proof fn law_names_are_listed_in_order(set: Set<Seq<char>>)
    requires
        set.finite(),
    ensures
        in_order(set).len() == set.len(),
        forall|x: Seq<char>| #[trigger] in_order(set).contains(x) <==> set.contains(x),
        forall|i: int, j: int|
            0 <= i < j < in_order(set).len() ==> text::text_le(
                #[trigger] in_order(set)[i],
                #[trigger] in_order(set)[j],
            ) && in_order(set)[i] != in_order(set)[j],
{
    lemma_listing_exists(set);
    let s = in_order(set);
    assert(s.no_duplicates());
    s.unique_seq_to_set();
    assert(s.to_set() =~= set);
}

} // verus!
