use vstd::prelude::*;

use crate::test_id::{id_contains, lemma_path_lt_order, path_lt, TestId};

verus! {

/// A selection of tests in one document: no selected id lies within another.
pub struct TestIdContainer {
    ids: Vec<TestId>,
}

/// The paths of a list of ids.
pub open spec fn paths_of(v: Seq<TestId>) -> Seq<Seq<Seq<char>>> {
    v.map_values(|t: TestId| t@)
}

/// The paths of `s` that do not lie within `x`, in their order.
pub open spec fn outside_of(s: Seq<Seq<Seq<char>>>, x: Seq<Seq<char>>) -> Seq<Seq<Seq<char>>>
    decreases s.len(),
{
    if s.len() == 0 {
        s
    } else {
        let init = outside_of(s.drop_last(), x);
        if id_contains(x, s.last()) {
            init
        } else {
            init.push(s.last())
        }
    }
}

/// The first index of `s` whose path comes after `x`, or the length of `s`.
pub open spec fn insert_position(s: Seq<Seq<Seq<char>>>, x: Seq<Seq<char>>) -> int
    decreases s.len(),
{
    if s.len() == 0 {
        0
    } else if path_lt(x, s[0]) {
        0
    } else {
        1 + insert_position(s.drop_first(), x)
    }
}

/// Whether some path of `s` contains `x`.
pub open spec fn covered(s: Seq<Seq<Seq<char>>>, x: Seq<Seq<char>>) -> bool {
    exists|i: int| 0 <= i < s.len() && id_contains(#[trigger] s[i], x)
}

/// Adding `x` to the selection `s`: refused where an element already contains
/// `x`; otherwise the elements within `x` leave and `x` goes in before the
/// first remaining element that comes after it.
pub open spec fn add_spec(s: Seq<Seq<Seq<char>>>, x: Seq<Seq<char>>) -> (bool, Seq<Seq<Seq<char>>>) {
    if covered(s, x) {
        (false, s)
    } else {
        let rest = outside_of(s, x);
        (true, rest.insert(insert_position(rest, x), x))
    }
}

/// No element contains another, and the elements are in strictly increasing order.
pub open spec fn well_formed(s: Seq<Seq<Seq<char>>>) -> bool {
    &&& forall|i: int, j: int|
        0 <= i < s.len() && 0 <= j < s.len() && i != j ==> !id_contains(#[trigger] s[i], #[trigger] s[j])
    &&& forall|i: int, j: int| 0 <= i < j < s.len() ==> path_lt(#[trigger] s[i], #[trigger] s[j])
}

impl View for TestIdContainer {
    type V = Seq<Seq<Seq<char>>>;

    closed spec fn view(&self) -> Seq<Seq<Seq<char>>> {
        paths_of(self.ids@)
    }
}

proof fn lemma_insert_position(s: Seq<Seq<Seq<char>>>, x: Seq<Seq<char>>, k: int)
    requires
        0 <= k <= s.len(),
        forall|j: int| 0 <= j < k ==> !path_lt(x, #[trigger] s[j]),
        k == s.len() || path_lt(x, s[k]),
    ensures
        insert_position(s, x) == k,
    decreases k,
{
    if k > 0 {
        assert(!path_lt(x, s[0]));
        assert forall|j: int| 0 <= j < k - 1 implies !path_lt(x, #[trigger] s.drop_first()[j]) by {
            assert(s.drop_first()[j] == s[j + 1]);
        }
        lemma_insert_position(s.drop_first(), x, k - 1);
    }
}

proof fn lemma_outside_of_root(s: Seq<Seq<Seq<char>>>)
    ensures
        outside_of(s, Seq::<Seq<char>>::empty()) =~= Seq::<Seq<Seq<char>>>::empty(),
    decreases s.len(),
{
    if s.len() > 0 {
        lemma_outside_of_root(s.drop_last());
        assert(Seq::<Seq<char>>::empty() =~= s.last().subrange(0, 0));
    }
}

impl TestIdContainer {
    #[verifier::type_invariant]
    spec fn inv(&self) -> bool {
        well_formed(self@)
    }

    pub fn empty() -> (r: TestIdContainer)
        ensures
            r@ == Seq::<Seq<Seq<char>>>::empty(),
            well_formed(r@),
    {
        let r = TestIdContainer { ids: Vec::new() };
        assert(r@ =~= Seq::<Seq<Seq<char>>>::empty());
        r
    }

    /// The selection of the whole document.
    pub fn full() -> (r: TestIdContainer)
        ensures
            r@ == seq![Seq::<Seq<char>>::empty()],
            well_formed(r@),
    {
        let mut ids: Vec<TestId> = Vec::new();
        ids.push(TestId::root());
        let r = TestIdContainer { ids };
        assert(r@ =~= seq![Seq::<Seq<char>>::empty()]);
        r
    }

    pub fn ids(self) -> (r: Vec<TestId>)
        ensures
            paths_of(r@) == self@,
    {
        self.ids
    }

    pub fn len(&self) -> (r: usize)
        ensures
            r == self@.len(),
    {
        self.ids.len()
    }

    /// Adds `new_id` unless an element already contains it; returns whether it went in.
    pub fn add(&mut self, new_id: TestId) -> (r: bool)
        ensures
            (r, final(self)@) == add_spec(old(self)@, new_id@),
            well_formed(final(self)@),
    {
        proof {
            use_type_invariant(&*self);
        }
        let ghost s = self@;
        let n = self.ids.len();
        let mut i: usize = 0;
        while i < n
            invariant
                n == self.ids@.len(),
                s == self@,
                i <= n,
                forall|j: int| 0 <= j < i ==> !id_contains(#[trigger] s[j], new_id@),
            decreases n - i,
        {
            if self.ids[i].contains(&new_id) {
                assert(id_contains(s[i as int], new_id@));
                proof {
                    use_type_invariant(&*self);
                }
                return false;
            }
            i = i + 1;
        }
        assert(!covered(s, new_id@));
        let mut kept: Vec<TestId> = Vec::new();
        let mut i: usize = 0;
        while i < n
            invariant
                n == self.ids@.len(),
                s == self@,
                i <= n,
                paths_of(kept@) =~= outside_of(s.subrange(0, i as int), new_id@),
            decreases n - i,
        {
            assert(s.subrange(0, i + 1).drop_last() =~= s.subrange(0, i as int));
            if !new_id.contains(&self.ids[i]) {
                kept.push(self.ids[i].clone());
            }
            i = i + 1;
        }
        assert(s.subrange(0, n as int) =~= s);
        let ghost rest = paths_of(kept@);
        let mut k: usize = 0;
        let mut found = false;
        while !found && k < kept.len()
            invariant
                rest == paths_of(kept@),
                k <= kept@.len(),
                forall|j: int| 0 <= j < k ==> !path_lt(new_id@, #[trigger] rest[j]),
                found ==> k < kept@.len() && path_lt(new_id@, rest[k as int]),
            decreases kept@.len() - k + (if found { 0int } else { 1int }),
        {
            if new_id.compare(&kept[k]) < 0 {
                found = true;
            } else {
                k = k + 1;
            }
        }
        proof {
            lemma_insert_position(rest, new_id@, k as int);
        }
        kept.insert(k, new_id);
        assert(paths_of(kept@) =~= rest.insert(k as int, new_id@));
        proof {
            lemma_add_keeps_well_formed(s, new_id@);
        }
        self.ids = kept;
        true
    }
}

proof fn lemma_outside_of(s: Seq<Seq<Seq<char>>>, x: Seq<Seq<char>>)
    requires
        well_formed(s),
    ensures
        well_formed(outside_of(s, x)),
        forall|i: int|
            0 <= i < outside_of(s, x).len() ==> !id_contains(x, #[trigger] outside_of(s, x)[i])
                && s.contains(outside_of(s, x)[i]),
    decreases s.len(),
{
    if s.len() > 0 {
        let t = s.drop_last();
        assert(well_formed(t)) by {
            assert forall|i: int, j: int| 0 <= i < t.len() && 0 <= j < t.len() && i != j implies !id_contains(#[trigger] t[i], #[trigger] t[j]) by {
                assert(t[i] == s[i] && t[j] == s[j]);
            }
            assert forall|i: int, j: int| 0 <= i < j < t.len() implies path_lt(#[trigger] t[i], #[trigger] t[j]) by {
                assert(t[i] == s[i] && t[j] == s[j]);
            }
        }
        lemma_outside_of(t, x);
        let o = outside_of(t, x);
        assert forall|i: int| 0 <= i < o.len() implies exists|j: int| 0 <= j < s.len() - 1 && s[j] == #[trigger] o[i] by {
            let j = choose|j: int| 0 <= j < t.len() && t[j] == o[i];
            assert(s[j] == t[j]);
        }
        if !id_contains(x, s.last()) {
            let r = o.push(s.last());
            assert(r == outside_of(s, x));
            let n = s.len() - 1;
            assert forall|i: int, j: int| 0 <= i < r.len() && 0 <= j < r.len() && i != j implies !id_contains(#[trigger] r[i], #[trigger] r[j]) by {
                if i < o.len() && j < o.len() {
                    assert(r[i] == o[i] && r[j] == o[j]);
                } else if i < o.len() {
                    let a = choose|a: int| 0 <= a < s.len() - 1 && s[a] == o[i];
                    assert(r[i] == s[a] && r[j] == s[n]);
                } else {
                    let b = choose|b: int| 0 <= b < s.len() - 1 && s[b] == o[j];
                    assert(r[j] == s[b] && r[i] == s[n]);
                }
            }
            assert forall|i: int, j: int| 0 <= i < j < r.len() implies path_lt(#[trigger] r[i], #[trigger] r[j]) by {
                if j < o.len() {
                    assert(r[i] == o[i] && r[j] == o[j]);
                } else {
                    let a = choose|a: int| 0 <= a < s.len() - 1 && s[a] == o[i];
                    assert(r[i] == s[a] && r[j] == s[n]);
                }
            }
            assert forall|i: int| 0 <= i < r.len() implies !id_contains(x, #[trigger] r[i]) && s.contains(r[i]) by {
                if i < o.len() {
                    assert(r[i] == o[i]);
                    let a = choose|a: int| 0 <= a < s.len() - 1 && s[a] == o[i];
                    assert(s[a] == r[i]);
                } else {
                    assert(s[n] == r[i]);
                }
            }
        } else {
            assert forall|i: int| 0 <= i < o.len() implies !id_contains(x, #[trigger] o[i]) && s.contains(o[i]) by {
                let a = choose|a: int| 0 <= a < s.len() - 1 && s[a] == o[i];
            }
        }
    }
}

proof fn lemma_insert_position_props(s: Seq<Seq<Seq<char>>>, x: Seq<Seq<char>>)
    ensures
        0 <= insert_position(s, x) <= s.len(),
        forall|j: int| 0 <= j < insert_position(s, x) ==> !path_lt(x, #[trigger] s[j]),
        insert_position(s, x) < s.len() ==> path_lt(x, s[insert_position(s, x)]),
    decreases s.len(),
{
    if s.len() > 0 && !path_lt(x, s[0]) {
        let t = s.drop_first();
        lemma_insert_position_props(t, x);
        assert forall|j: int| 0 <= j < insert_position(s, x) implies !path_lt(x, #[trigger] s[j]) by {
            if j > 0 {
                assert(s[j] == t[j - 1]);
            }
        }
        if insert_position(s, x) < s.len() {
            assert(s[insert_position(s, x)] == t[insert_position(t, x)]);
        }
    }
}

proof fn lemma_add_keeps_well_formed(s: Seq<Seq<Seq<char>>>, x: Seq<Seq<char>>)
    requires
        well_formed(s),
        !covered(s, x),
    ensures
        well_formed(add_spec(s, x).1),
{
    lemma_outside_of(s, x);
    let rest = outside_of(s, x);
    lemma_insert_position_props(rest, x);
    let k = insert_position(rest, x);
    let r = rest.insert(k, x);
    assert forall|i: int| 0 <= i < rest.len() implies !id_contains(#[trigger] rest[i], x) && rest[i] != x by {
        let a = choose|a: int| 0 <= a < s.len() && s[a] == rest[i];
        lemma_contains_itself(x);
    }
    assert forall|i: int| 0 <= i < r.len() implies (i < k ==> r[i] == rest[i]) && (i == k ==> r[i] == x) && (i > k ==> r[i] == rest[i - 1]) by {}
    assert forall|i: int, j: int| 0 <= i < r.len() && 0 <= j < r.len() && i != j implies !id_contains(#[trigger] r[i], #[trigger] r[j]) by {
        if i != k && j != k {
            let a = if i < k { i } else { i - 1 };
            let b = if j < k { j } else { j - 1 };
            assert(r[i] == rest[a] && r[j] == rest[b]);
        } else if i == k {
            let b = if j < k { j } else { j - 1 };
            assert(r[j] == rest[b]);
        } else {
            let a = if i < k { i } else { i - 1 };
            assert(r[i] == rest[a]);
        }
    }
    assert forall|i: int, j: int| 0 <= i < j < r.len() implies path_lt(#[trigger] r[i], #[trigger] r[j]) by {
        if j < k {
            assert(r[i] == rest[i] && r[j] == rest[j]);
        } else if j == k {
            assert(r[i] == rest[i]);
            lemma_path_lt_order(rest[i], x, x);
        } else if i == k {
            assert(r[j] == rest[j - 1]);
            lemma_path_lt_order(x, rest[k], rest[j - 1]);
        } else if i < k {
            assert(r[i] == rest[i] && r[j] == rest[j - 1]);
        } else {
            assert(r[i] == rest[i - 1] && r[j] == rest[j - 1]);
        }
    }
}

proof fn lemma_contains_itself(x: Seq<Seq<char>>)
    ensures
        id_contains(x, x),
{
    assert(x =~= x.subrange(0, x.len() as int));
}

/// Selecting the root in a non-empty selection of other ids leaves the root
/// alone; once the root is selected, every further id is refused and the
/// selection stays as it is.
pub proof fn lemma_root_absorbs(c: TestIdContainer, x: TestId)
    ensures
        c@.len() > 0 && (forall|i: int| 0 <= i < c@.len() ==> (#[trigger] c@[i]).len() > 0)
            ==> add_spec(c@, Seq::<Seq<char>>::empty()) == (
            true,
            seq![Seq::<Seq<char>>::empty()],
        ),
        c@.contains(Seq::<Seq<char>>::empty()) ==> add_spec(c@, x@) == (false, c@),
{
    let root = Seq::<Seq<char>>::empty();
    if c@.len() > 0 && (forall|i: int| 0 <= i < c@.len() ==> (#[trigger] c@[i]).len() > 0) {
        lemma_outside_of_root(c@);
        assert(!covered(c@, root));
        assert(Seq::<Seq<Seq<char>>>::empty().insert(0, root) =~= seq![root]);
    }
    if c@.contains(root) {
        let i = choose|i: int| 0 <= i < c@.len() && c@[i] == root;
        assert(root =~= x@.subrange(0, 0));
        assert(id_contains(c@[i], x@));
    }
}


} // verus!
