use vstd::prelude::*;

verus! {

/// Whether `order` lists the indices `0..n` each once, so that every index comes before
/// those it ranks above and, among indices that rank alike, the smaller comes first.
pub open spec fn sorted_stably(n: int, above: spec_fn(int, int) -> bool, order: Seq<usize>) -> bool {
    &&& order.len() == n
    &&& forall|a: int| 0 <= a < n ==> #[trigger] order[a] < n
    &&& forall|a: int, b: int| 0 <= a < b < n ==> #[trigger] order[a] != #[trigger] order[b]
    &&& forall|a: int, b: int|
        0 <= a < b < n ==> #[trigger] above(order[a] as int, order[b] as int) || (!above(
            order[b] as int,
            order[a] as int,
        ) && order[a] < #[trigger] order[b])
}

/// Whether `a` comes after `b` in the lexicographic order of their characters, which is
/// the order in which std compares strings (UTF-8 keeps the order of code points).
pub open spec fn lex_above(a: Seq<char>, b: Seq<char>) -> bool
    decreases a.len(),
{
    if a.len() == 0 {
        false
    } else if b.len() == 0 {
        true
    } else if a[0] != b[0] {
        (a[0] as u32) > (b[0] as u32)
    } else {
        lex_above(a.drop_first(), b.drop_first())
    }
}

/// `lex_above` is a strict total order.
pub proof fn lemma_lex_order(a: Seq<char>, b: Seq<char>, c: Seq<char>)
    ensures
        !lex_above(a, a),
        lex_above(a, b) && lex_above(b, c) ==> lex_above(a, c),
        !lex_above(a, b) && !lex_above(b, a) ==> a == b,
    decreases a.len(),
{
    if a.len() > 0 {
        if b.len() > 0 && c.len() > 0 {
            lemma_lex_order(a.drop_first(), b.drop_first(), c.drop_first());
        } else if b.len() > 0 {
            lemma_lex_order(a.drop_first(), b.drop_first(), b.drop_first());
        } else {
            lemma_lex_order(a.drop_first(), a.drop_first(), a.drop_first());
        }
        if !lex_above(a, b) && !lex_above(b, a) {
            assert(b.len() > 0);
            vstd::utf8::char_u32_cast(a[0], a[0] as u32);
            vstd::utf8::char_u32_cast(b[0], b[0] as u32);
            assert(a[0] == b[0]);
            assert(a =~= seq![a[0]] + a.drop_first());
            assert(b =~= seq![b[0]] + b.drop_first());
        }
    } else {
        if !lex_above(b, a) {
            assert(b.len() == 0);
            assert(a =~= b);
        }
    }
}

/// A key by which items are listed in descending order.
pub trait RankKey: Sized {
    /// Whether `self` is listed before `other`.
    spec fn ranks_above(&self, other: &Self) -> bool;

    /// The ranking is a strict weak order.
    proof fn lemma_rank_order(a: &Self, b: &Self, c: &Self)
        ensures
            !a.ranks_above(a),
            a.ranks_above(b) && b.ranks_above(c) ==> a.ranks_above(c),
            !a.ranks_above(b) && !b.ranks_above(a) && c.ranks_above(a) ==> c.ranks_above(b),
            !a.ranks_above(b) && !b.ranks_above(a) && a.ranks_above(c) ==> b.ranks_above(c),
    ;

    /// Whether `self` is listed before `other`.
    fn above(&self, other: &Self) -> (r: bool)
        ensures
            r == self.ranks_above(other),
    ;
}

impl RankKey for u64 {
    open spec fn ranks_above(&self, other: &Self) -> bool {
        *self > *other
    }

    proof fn lemma_rank_order(a: &Self, b: &Self, c: &Self) {
    }

    fn above(&self, other: &Self) -> (r: bool) {
        *self > *other
    }
}

impl RankKey for Vec<char> {
    open spec fn ranks_above(&self, other: &Self) -> bool {
        lex_above(self@, other@)
    }

    proof fn lemma_rank_order(a: &Self, b: &Self, c: &Self) {
        lemma_lex_order(a@, b@, c@);
        lemma_lex_order(b@, c@, a@);
        lemma_lex_order(c@, a@, b@);
        lemma_lex_order(a@, c@, b@);
    }

    fn above(&self, other: &Self) -> (r: bool) {
        let mut i: usize = 0;
        assert(self@.subrange(0, self@.len() as int) =~= self@);
        assert(other@.subrange(0, other@.len() as int) =~= other@);
        while i < self.len() && i < other.len()
            invariant
                i <= self@.len(),
                i <= other@.len(),
                lex_above(self@, other@) == lex_above(
                    self@.subrange(i as int, self@.len() as int),
                    other@.subrange(i as int, other@.len() as int),
                ),
            decreases self@.len() - i,
        {
            let ghost s = self@.subrange(i as int, self@.len() as int);
            let ghost t = other@.subrange(i as int, other@.len() as int);
            if self[i] != other[i] {
                return (self[i] as u32) > (other[i] as u32);
            }
            assert(s.drop_first() =~= self@.subrange(i + 1, self@.len() as int));
            assert(t.drop_first() =~= other@.subrange(i + 1, other@.len() as int));
            i += 1;
        }
        i < self.len()
    }
}

/// The indices of `keys`, listed so that a higher key comes first and equal keys keep
/// their order.
pub fn stable_order<K: RankKey>(keys: &Vec<K>) -> (order: Vec<usize>)
    ensures
        sorted_stably(
            keys@.len() as int,
            |i: int, j: int| keys@[i].ranks_above(&keys@[j]),
            order@,
        ),
{
    let ghost above = |i: int, j: int| keys@[i].ranks_above(&keys@[j]);
    let mut order: Vec<usize> = Vec::new();
    let mut i: usize = 0;
    while i < keys.len()
        invariant
            i <= keys@.len(),
            above == (|i: int, j: int| keys@[i].ranks_above(&keys@[j])),
            sorted_stably(i as int, above, order@),
        decreases keys@.len() - i,
    {
        let mut p: usize = 0;
        while p < order.len() && !keys[i].above(&keys[order[p]])
            invariant
                i < keys@.len(),
                p <= order@.len(),
                order@.len() == i,
                sorted_stably(i as int, above, order@),
                above == (|i: int, j: int| keys@[i].ranks_above(&keys@[j])),
                forall|a: int| 0 <= a < p ==> !above(i as int, #[trigger] order@[a] as int),
            decreases order@.len() - p,
        {
            p += 1;
        }
        let ghost old_order = order@;
        proof {
            if p < old_order.len() {
                assert(above(i as int, old_order[p as int] as int));
            }
            assert forall|b: int| p <= b < old_order.len() implies above(
                i as int,
                #[trigger] old_order[b] as int,
            ) by {
                if b > p {
                    let x = old_order[p as int] as int;
                    let y = old_order[b] as int;
                    assert(above(x, y) || (!above(y, x) && x < y));
                    K::lemma_rank_order(&keys@[i as int], &keys@[x], &keys@[y]);
                    K::lemma_rank_order(&keys@[x], &keys@[y], &keys@[i as int]);
                    K::lemma_rank_order(&keys@[y], &keys@[x], &keys@[i as int]);
                }
            }
        }
        order.insert(p, i);
        proof {
            let o = order@;
            assert forall|a: int| 0 <= a < i + 1 implies #[trigger] o[a] < i + 1 by {
                if a < p {
                    assert(o[a] == old_order[a]);
                } else if a > p {
                    assert(o[a] == old_order[a - 1]);
                }
            }
            assert forall|a: int, b: int| 0 <= a < b < i + 1 implies #[trigger] o[a]
                != #[trigger] o[b] by {
                if a < p && b < p {
                    assert(old_order[a] != old_order[b]);
                } else if a < p && b > p {
                    assert(old_order[a] != old_order[b - 1]);
                } else if a > p && b > p {
                    assert(old_order[a - 1] != old_order[b - 1]);
                } else if a == p {
                    assert(o[b] == old_order[b - 1]);
                } else {
                    assert(o[a] == old_order[a]);
                }
            }
            assert forall|a: int, b: int| 0 <= a < b < i + 1 implies #[trigger] above(
                o[a] as int,
                o[b] as int,
            ) || (!above(o[b] as int, o[a] as int) && o[a] < #[trigger] o[b]) by {
                if a < p && b < p {
                    assert(o[a] == old_order[a] && o[b] == old_order[b]);
                } else if a < p && b > p {
                    assert(o[a] == old_order[a] && o[b] == old_order[b - 1]);
                } else if a > p && b > p {
                    assert(o[a] == old_order[a - 1] && o[b] == old_order[b - 1]);
                } else if a == p {
                    assert(o[b] == old_order[b - 1]);
                } else {
                    assert(o[a] == old_order[a]);
                    let x = o[a] as int;
                    K::lemma_rank_order(&keys@[x], &keys@[i as int], &keys@[x]);
                    if !above(i as int, x) && !above(x, i as int) {
                    }
                }
            }
        }
        i += 1;
    }
    order
}

/// An order that is stable under one ranking is stable under another that agrees with
/// it on the indices listed.
pub proof fn lemma_sorted_stably_transfer(
    n: int,
    f: spec_fn(int, int) -> bool,
    g: spec_fn(int, int) -> bool,
    order: Seq<usize>,
)
    requires
        sorted_stably(n, f, order),
        forall|i: int, j: int| 0 <= i < n && 0 <= j < n ==> #[trigger] f(i, j) == g(i, j),
    ensures
        sorted_stably(n, g, order),
{
    assert forall|a: int, b: int| 0 <= a < b < n implies #[trigger] g(
        order[a] as int,
        order[b] as int,
    ) || (!g(order[b] as int, order[a] as int) && order[a] < #[trigger] order[b]) by {
        assert(f(order[a] as int, order[b] as int) || (!f(order[b] as int, order[a] as int)
            && order[a] < order[b]));
    }
}

/// The indices of `counts`, highest count first, equal counts in their order.
pub fn order_by_count_desc(counts: &Vec<u64>) -> (order: Vec<usize>)
    ensures
        sorted_stably(counts@.len() as int, |i: int, j: int| counts@[i] > counts@[j], order@),
{
    let order = stable_order(counts);
    assert((|i: int, j: int| counts@[i].ranks_above(&counts@[j])) =~= (|i: int, j: int|
        counts@[i] > counts@[j]));
    order
}

/// The indices of `names`, the name last in lexicographic order first, equal names in
/// their order.
pub fn order_by_name_desc(names: &Vec<String>) -> (order: Vec<usize>)
    ensures
        sorted_stably(
            names@.len() as int,
            |i: int, j: int| lex_above(names@[i]@, names@[j]@),
            order@,
        ),
{
    let mut keys: Vec<Vec<char>> = Vec::new();
    let mut i: usize = 0;
    while i < names.len()
        invariant
            i <= names@.len(),
            keys@.len() == i,
            forall|j: int| 0 <= j < i ==> #[trigger] keys@[j]@ == names@[j]@,
        decreases names@.len() - i,
    {
        keys.push(crate::text::chars_of(names[i].as_str()));
        i += 1;
    }
    let order = stable_order(&keys);
    proof {
        lemma_sorted_stably_transfer(
            names@.len() as int,
            |i: int, j: int| keys@[i].ranks_above(&keys@[j]),
            |i: int, j: int| lex_above(names@[i]@, names@[j]@),
            order@,
        );
    }
    order
}

} // verus!
