use vstd::prelude::*;

verus! {

/// The address of a test inside a document: a path of segments.
/// The empty path is the root, the whole document.
#[derive(PartialEq, Eq, PartialOrd, Ord, Debug)]
pub struct TestId {
    id_path: Vec<String>,
}

/// The segments of a path as character sequences.
pub open spec fn texts_of(v: Seq<String>) -> Seq<Seq<char>> {
    v.map_values(|s: String| s@)
}

/// `a` is a prefix of `b`, segment by segment.
pub open spec fn id_contains(a: Seq<Seq<char>>, b: Seq<Seq<char>>) -> bool {
    a.len() <= b.len() && a =~= b.subrange(0, a.len() as int)
}

/// `s` cut at every occurrence of `sep`; an empty `s` gives one empty piece.
pub open spec fn split_on(s: Seq<char>, sep: char) -> Seq<Seq<char>>
    decreases s.len(),
{
    if s.len() == 0 {
        seq![Seq::<char>::empty()]
    } else {
        let init = split_on(s.drop_last(), sep);
        if s.last() == sep {
            init.push(Seq::<char>::empty())
        } else {
            init.update(init.len() - 1, init.last().push(s.last()))
        }
    }
}

/// The pieces of `segs` with `sep` between each two neighbours.
pub open spec fn join_with(segs: Seq<Seq<char>>, sep: char) -> Seq<char>
    decreases segs.len(),
{
    if segs.len() == 0 {
        Seq::<char>::empty()
    } else if segs.len() == 1 {
        segs[0]
    } else {
        join_with(segs.drop_last(), sep) + seq![sep] + segs.last()
    }
}

/// The path that a dotted text denotes: the empty text is the root.
pub open spec fn dotted_path(s: Seq<char>) -> Seq<Seq<char>> {
    if s.len() == 0 {
        Seq::<Seq<char>>::empty()
    } else {
        split_on(s, '.')
    }
}

pub proof fn lemma_split_on_never_empty(s: Seq<char>, sep: char)
    ensures
        split_on(s, sep).len() >= 1,
    decreases s.len(),
{
    if s.len() > 0 {
        lemma_split_on_never_empty(s.drop_last(), sep);
    }
}

impl View for TestId {
    type V = Seq<Seq<char>>;

    closed spec fn view(&self) -> Seq<Seq<char>> {
        texts_of(self.id_path@)
    }
}

impl Clone for TestId {
    fn clone(&self) -> (r: TestId)
        ensures
            r@ == self@,
    {
        let mut v: Vec<String> = Vec::new();
        let mut i: usize = 0;
        while i < self.id_path.len()
            invariant
                i <= self.id_path@.len(),
                v@ =~= self.id_path@.subrange(0, i as int),
            decreases self.id_path@.len() - i,
        {
            v.push(self.id_path[i].clone());
            i = i + 1;
        }
        assert(self.id_path@.subrange(0, i as int) =~= self.id_path@);
        TestId { id_path: v }
    }
}

impl TestId {
    pub fn new(id_path: Vec<String>) -> (r: TestId)
        ensures
            r@ == texts_of(id_path@),
    {
        TestId { id_path }
    }

    pub fn root() -> (r: TestId)
        ensures
            r@ == Seq::<Seq<char>>::empty(),
    {
        let r = TestId { id_path: Vec::new() };
        assert(r@ =~= Seq::<Seq<char>>::empty());
        r
    }

    /// Reads a dotted text (`group.case`); the empty text is the root.
    pub fn from(str: &str) -> (r: TestId)
        ensures
            r@ == dotted_path(str@),
    {
        let n = str.unicode_len();
        if n == 0 {
            return TestId::root();
        }
        let segs = split_text(str, '.');
        TestId { id_path: segs }
    }

    pub fn id_path(self) -> (r: Vec<String>)
        ensures
            texts_of(r@) == self@,
    {
        self.id_path
    }

    /// Whether `other` lies at or below `self`.
    pub fn contains(&self, other: &TestId) -> (r: bool)
        ensures
            r == id_contains(self@, other@),
    {
        let n = self.id_path.len();
        if n > other.id_path.len() {
            return false;
        }
        let mut i: usize = 0;
        while i < n
            invariant
                n == self.id_path@.len(),
                n <= other.id_path@.len(),
                i <= n,
                forall|j: int| 0 <= j < i ==> self.id_path@[j]@ == other.id_path@[j]@,
            decreases n - i,
        {
            if self.id_path[i] != other.id_path[i] {
                assert(self@[i as int] != other@.subrange(0, n as int)[i as int]);
                return false;
            }
            i = i + 1;
        }
        assert(self@ =~= other@.subrange(0, n as int));
        true
    }

    pub fn is_root(&self) -> (r: bool)
        ensures
            r == (self@.len() == 0),
    {
        self.id_path.len() == 0
    }

    /// The segments joined by dots; the root gives the empty text.
    pub fn to_string(&self) -> (r: String)
        ensures
            r@ == join_with(self@, '.'),
    {
        let mut out = String::new();
        let mut i: usize = 0;
        while i < self.id_path.len()
            invariant
                i <= self.id_path@.len(),
                out@ == join_with(self@.subrange(0, i as int), '.'),
            decreases self.id_path@.len() - i,
        {
            let ghost before = self@.subrange(0, i as int);
            let ghost after = self@.subrange(0, i + 1);
            assert(after.drop_last() =~= before);
            proof {
                reveal_strlit(".");
            }
            if i > 0 {
                out.append(".");
            }
            out.append(self.id_path[i].as_str());
            proof {
                if i == 0 {
                    assert(out@ =~= after[0]);
                } else {
                    assert(out@ =~= join_with(before, '.') + seq!['.'] + after.last());
                }
            }
            i = i + 1;
        }
        assert(self@.subrange(0, i as int) =~= self@);
        out
    }

    /// Three-way lexicographic comparison of two paths; the result is
    /// negative, zero or positive as `self` is before, equal to or after `other`.
    pub fn compare(&self, other: &TestId) -> (r: i8)
        ensures
            (r < 0) == path_lt(self@, other@),
            (r == 0) == (self@ == other@),
            (r > 0) == path_lt(other@, self@),
    {
        let n = self.id_path.len();
        let m = other.id_path.len();
        let mut i: usize = 0;
        while i < n && i < m
            invariant
                n == self@.len(),
                m == other@.len(),
                i <= n,
                i <= m,
                self@.subrange(0, i as int) =~= other@.subrange(0, i as int),
            decreases n - i,
        {
            let c = compare_text(self.id_path[i].as_str(), other.id_path[i].as_str());
            if c != 0 {
                proof {
                    lemma_path_lt_at(self@, other@, i as int);
                    lemma_path_lt_at(other@, self@, i as int);
                    text_lt_irreflexive_or_differs(self@[i as int], other@[i as int]);
                }
                return c;
            }
            assert(self@.subrange(0, i + 1) =~= other@.subrange(0, i + 1));
            i = i + 1;
        }
        proof {
            lemma_path_lt_prefix(self@, other@, i as int);
            lemma_path_lt_prefix(other@, self@, i as int);
        }
        if n < m {
            -1
        } else if n > m {
            1
        } else {
            assert(self@ =~= other@.subrange(0, i as int));
            assert(other@ =~= other@.subrange(0, i as int));
            0
        }
    }
}

/// Cuts `s` at every `sep`.
pub fn split_text(s: &str, sep: char) -> (r: Vec<String>)
    ensures
        texts_of(r@) == split_on(s@, sep),
{
    let n = s.unicode_len();
    let mut segs: Vec<String> = Vec::new();
    let mut start: usize = 0;
    let mut i: usize = 0;
    assert(texts_of(segs@) =~= Seq::<Seq<char>>::empty());
    assert(s@.subrange(0, 0) =~= Seq::<char>::empty());
    while i < n
        invariant
            n == s@.len(),
            start <= i <= n,
            texts_of(segs@).push(s@.subrange(start as int, i as int)) =~= split_on(
                s@.subrange(0, i as int),
                sep,
            ),
        decreases n - i,
    {
        let c = s.get_char(i);
        let ghost prev = s@.subrange(0, i as int);
        let ghost next = s@.subrange(0, i + 1);
        assert(next.drop_last() =~= prev);
        assert(next.last() == c);
        if c == sep {
            let piece = String::from_str(s.substring_char(start, i));
            segs.push(piece);
            start = i + 1;
            assert(s@.subrange(start as int, i + 1) =~= Seq::<char>::empty());
        } else {
            assert(s@.subrange(start as int, i + 1) =~= s@.subrange(start as int, i as int).push(c));
        }
        i = i + 1;
    }
    let last = String::from_str(s.substring_char(start, n));
    segs.push(last);
    assert(s@.subrange(0, n as int) =~= s@);
    segs
}

/// Lexicographic order of texts by character code.
pub open spec fn text_lt(a: Seq<char>, b: Seq<char>) -> bool
    decreases a.len(),
{
    if a.len() == 0 {
        b.len() > 0
    } else if b.len() == 0 {
        false
    } else if a[0] != b[0] {
        (a[0] as int) < (b[0] as int)
    } else {
        text_lt(a.drop_first(), b.drop_first())
    }
}

/// Lexicographic order of paths, segments compared by `text_lt`.
pub open spec fn path_lt(a: Seq<Seq<char>>, b: Seq<Seq<char>>) -> bool
    decreases a.len(),
{
    if a.len() == 0 {
        b.len() > 0
    } else if b.len() == 0 {
        false
    } else if a[0] != b[0] {
        text_lt(a[0], b[0])
    } else {
        path_lt(a.drop_first(), b.drop_first())
    }
}

pub proof fn text_lt_irreflexive_or_differs(a: Seq<char>, b: Seq<char>)
    ensures
        !text_lt(a, a),
        text_lt(a, b) ==> a != b,
    decreases a.len(),
{
    if a.len() > 0 {
        text_lt_irreflexive_or_differs(a.drop_first(), a.drop_first());
    }
}

proof fn lemma_text_lt_at(a: Seq<char>, b: Seq<char>, i: int)
    requires
        0 <= i < a.len(),
        i < b.len(),
        a.subrange(0, i) =~= b.subrange(0, i),
    ensures
        text_lt(a, b) == (if a[i] != b[i] {
            (a[i] as int) < (b[i] as int)
        } else {
            text_lt(a.subrange(i + 1, a.len() as int), b.subrange(i + 1, b.len() as int))
        }),
    decreases i,
{
    if i > 0 {
        assert(a[0] == a.subrange(0, i)[0]);
        assert(b[0] == b.subrange(0, i)[0]);
        assert(a.drop_first().subrange(0, i - 1) =~= b.drop_first().subrange(0, i - 1)) by {
            assert forall|k: int| 0 <= k < i - 1 implies a.drop_first()[k] == b.drop_first()[k] by {
                assert(a.subrange(0, i)[k + 1] == b.subrange(0, i)[k + 1]);
            }
        }
        lemma_text_lt_at(a.drop_first(), b.drop_first(), i - 1);
        assert(a.drop_first().subrange(i, a.len() - 1) =~= a.subrange(i + 1, a.len() as int));
        assert(b.drop_first().subrange(i, b.len() - 1) =~= b.subrange(i + 1, b.len() as int));
    } else {
        assert(a.drop_first() =~= a.subrange(1, a.len() as int));
        assert(b.drop_first() =~= b.subrange(1, b.len() as int));
    }
}

proof fn lemma_text_lt_prefix(a: Seq<char>, b: Seq<char>, i: int)
    requires
        0 <= i <= a.len(),
        i <= b.len(),
        i == a.len() || i == b.len(),
        a.subrange(0, i) =~= b.subrange(0, i),
    ensures
        text_lt(a, b) == (a.len() < b.len()),
    decreases i,
{
    if i > 0 {
        assert(a[0] == a.subrange(0, i)[0]);
        assert(b[0] == b.subrange(0, i)[0]);
        assert(a.drop_first().subrange(0, i - 1) =~= b.drop_first().subrange(0, i - 1)) by {
            assert forall|k: int| 0 <= k < i - 1 implies a.drop_first()[k] == b.drop_first()[k] by {
                assert(a.subrange(0, i)[k + 1] == b.subrange(0, i)[k + 1]);
            }
        }
        lemma_text_lt_prefix(a.drop_first(), b.drop_first(), i - 1);
    }
}

proof fn lemma_path_lt_at(a: Seq<Seq<char>>, b: Seq<Seq<char>>, i: int)
    requires
        0 <= i < a.len(),
        i < b.len(),
        a.subrange(0, i) =~= b.subrange(0, i),
    ensures
        a[i] != b[i] ==> path_lt(a, b) == text_lt(a[i], b[i]),
    decreases i,
{
    if i > 0 {
        assert(a[0] == a.subrange(0, i)[0]);
        assert(b[0] == b.subrange(0, i)[0]);
        assert(a.drop_first().subrange(0, i - 1) =~= b.drop_first().subrange(0, i - 1)) by {
            assert forall|k: int| 0 <= k < i - 1 implies a.drop_first()[k] == b.drop_first()[k] by {
                assert(a.subrange(0, i)[k + 1] == b.subrange(0, i)[k + 1]);
            }
        }
        lemma_path_lt_at(a.drop_first(), b.drop_first(), i - 1);
    }
}

proof fn lemma_path_lt_prefix(a: Seq<Seq<char>>, b: Seq<Seq<char>>, i: int)
    requires
        0 <= i <= a.len(),
        i <= b.len(),
        i == a.len() || i == b.len(),
        a.subrange(0, i) =~= b.subrange(0, i),
    ensures
        path_lt(a, b) == (a.len() < b.len()),
    decreases i,
{
    if i > 0 {
        assert(a[0] == a.subrange(0, i)[0]);
        assert(b[0] == b.subrange(0, i)[0]);
        assert(a.drop_first().subrange(0, i - 1) =~= b.drop_first().subrange(0, i - 1)) by {
            assert forall|k: int| 0 <= k < i - 1 implies a.drop_first()[k] == b.drop_first()[k] by {
                assert(a.subrange(0, i)[k + 1] == b.subrange(0, i)[k + 1]);
            }
        }
        lemma_path_lt_prefix(a.drop_first(), b.drop_first(), i - 1);
    }
}

pub proof fn lemma_text_lt_transitive(a: Seq<char>, b: Seq<char>, c: Seq<char>)
    requires
        text_lt(a, b),
        text_lt(b, c),
    ensures
        text_lt(a, c),
    decreases a.len(),
{
    if a.len() > 0 && a[0] == b[0] && b[0] == c[0] {
        lemma_text_lt_transitive(a.drop_first(), b.drop_first(), c.drop_first());
    }
}

pub proof fn lemma_text_lt_total(a: Seq<char>, b: Seq<char>)
    requires
        a != b,
    ensures
        text_lt(a, b) || text_lt(b, a),
    decreases a.len(),
{
    if a.len() > 0 && b.len() > 0 {
        if a[0] == b[0] {
            if a.drop_first() == b.drop_first() {
                assert(a =~= seq![a[0]] + a.drop_first());
                assert(b =~= seq![b[0]] + b.drop_first());
            }
            lemma_text_lt_total(a.drop_first(), b.drop_first());
        } else {
            assert((a[0] as int) != (b[0] as int));
        }
    } else if a.len() == 0 && b.len() == 0 {
        assert(a =~= b);
    }
}

/// The order of paths is a strict total order.
pub proof fn lemma_path_lt_order(a: Seq<Seq<char>>, b: Seq<Seq<char>>, c: Seq<Seq<char>>)
    ensures
        !path_lt(a, a),
        path_lt(a, b) && path_lt(b, c) ==> path_lt(a, c),
        a != b ==> path_lt(a, b) || path_lt(b, a),
{
    lemma_path_lt_irreflexive(a);
    if path_lt(a, b) && path_lt(b, c) {
        lemma_path_lt_transitive(a, b, c);
    }
    if a != b {
        lemma_path_lt_total(a, b);
    }
}

proof fn lemma_path_lt_irreflexive(a: Seq<Seq<char>>)
    ensures
        !path_lt(a, a),
    decreases a.len(),
{
    if a.len() > 0 {
        lemma_path_lt_irreflexive(a.drop_first());
    }
}

proof fn lemma_path_lt_transitive(a: Seq<Seq<char>>, b: Seq<Seq<char>>, c: Seq<Seq<char>>)
    requires
        path_lt(a, b),
        path_lt(b, c),
    ensures
        path_lt(a, c),
    decreases a.len(),
{
    if a.len() > 0 && b.len() > 0 && c.len() > 0 {
        if a[0] == b[0] && b[0] == c[0] {
            lemma_path_lt_transitive(a.drop_first(), b.drop_first(), c.drop_first());
        } else if a[0] != b[0] && b[0] != c[0] {
            lemma_text_lt_transitive(a[0], b[0], c[0]);
            text_lt_irreflexive_or_differs(a[0], c[0]);
        }
    }
}

proof fn lemma_path_lt_total(a: Seq<Seq<char>>, b: Seq<Seq<char>>)
    requires
        a != b,
    ensures
        path_lt(a, b) || path_lt(b, a),
    decreases a.len(),
{
    if a.len() > 0 && b.len() > 0 {
        if a[0] == b[0] {
            if a.drop_first() == b.drop_first() {
                assert(a =~= seq![a[0]] + a.drop_first());
                assert(b =~= seq![b[0]] + b.drop_first());
            }
            lemma_path_lt_total(a.drop_first(), b.drop_first());
        } else {
            lemma_text_lt_total(a[0], b[0]);
        }
    } else if a.len() == 0 && b.len() == 0 {
        assert(a =~= b);
    }
}

/// Three-way comparison of two texts by `text_lt`.
pub fn compare_text(a: &str, b: &str) -> (r: i8)
    ensures
        (r < 0) == text_lt(a@, b@),
        (r == 0) == (a@ == b@),
        (r > 0) == text_lt(b@, a@),
{
    let n = a.unicode_len();
    let m = b.unicode_len();
    let mut i: usize = 0;
    while i < n && i < m
        invariant
            n == a@.len(),
            m == b@.len(),
            i <= n,
            i <= m,
            a@.subrange(0, i as int) =~= b@.subrange(0, i as int),
        decreases n - i,
    {
        let x = a.get_char(i);
        let y = b.get_char(i);
        if x != y {
            proof {
                lemma_text_lt_at(a@, b@, i as int);
                lemma_text_lt_at(b@, a@, i as int);
            }
            if (x as u32) < (y as u32) {
                return -1;
            } else {
                return 1;
            }
        }
        assert(a@.subrange(0, i + 1) =~= b@.subrange(0, i + 1));
        i = i + 1;
    }
    proof {
        lemma_text_lt_prefix(a@, b@, i as int);
        lemma_text_lt_prefix(b@, a@, i as int);
    }
    if n < m {
        -1
    } else if n > m {
        1
    } else {
        assert(a@ =~= b@.subrange(0, i as int));
        assert(b@ =~= b@.subrange(0, i as int));
        0
    }
}

/// Containment is reflexive and transitive, and the root contains every path.
pub proof fn lemma_contains_preorder(a: TestId, b: TestId, c: TestId)
    ensures
        id_contains(a@, a@),
        id_contains(a@, b@) && id_contains(b@, c@) ==> id_contains(a@, c@),
        id_contains(Seq::<Seq<char>>::empty(), a@),
{
    assert(a@ =~= a@.subrange(0, a@.len() as int));
    assert(Seq::<Seq<char>>::empty() =~= a@.subrange(0, 0));
    if id_contains(a@, b@) && id_contains(b@, c@) {
        assert(a@ =~= c@.subrange(0, a@.len() as int)) by {
            assert forall|k: int| 0 <= k < a@.len() implies a@[k] == c@[k] by {
                assert(a@[k] == b@.subrange(0, a@.len() as int)[k]);
                assert(b@[k] == c@.subrange(0, b@.len() as int)[k]);
            }
        }
    }
}

} // verus!
