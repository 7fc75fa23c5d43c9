//! Lexicographic order on sequences of integers and on sequences of those.

use vstd::prelude::*;

verus! {

/// How one key stands to another in an order.
#[derive(Clone, Copy, PartialEq, Eq, Structural)]
pub enum Comparison {
    Before,
    Same,
    After,
}

/// `a` comes strictly before `b`, element by element; a proper prefix comes first.
pub open spec fn lex_before(a: Seq<int>, b: Seq<int>) -> bool
    decreases a.len(),
{
    if b.len() == 0 {
        false
    } else if a.len() == 0 {
        true
    } else if a[0] == b[0] {
        lex_before(a.drop_first(), b.drop_first())
    } else {
        a[0] < b[0]
    }
}

/// `a` comes strictly before `b`, where each element is itself ordered by [`lex_before`].
pub open spec fn rank_before(a: Seq<Seq<int>>, b: Seq<Seq<int>>) -> bool
    decreases a.len(),
{
    if b.len() == 0 {
        false
    } else if a.len() == 0 {
        true
    } else if a[0] == b[0] {
        rank_before(a.drop_first(), b.drop_first())
    } else {
        lex_before(a[0], b[0])
    }
}

/// The verdict on two sequences of integers.
pub open spec fn lex_comparison(a: Seq<int>, b: Seq<int>) -> Comparison {
    if a == b {
        Comparison::Same
    } else if lex_before(a, b) {
        Comparison::Before
    } else {
        Comparison::After
    }
}

/// The verdict on two ranks.
pub open spec fn rank_comparison(a: Seq<Seq<int>>, b: Seq<Seq<int>>) -> Comparison {
    if a == b {
        Comparison::Same
    } else if rank_before(a, b) {
        Comparison::Before
    } else {
        Comparison::After
    }
}

/// The first place where two sequences part decides between them.
pub proof fn lemma_lex_decided(a: Seq<int>, b: Seq<int>, i: int)
    requires
        0 <= i <= a.len(),
        i <= b.len(),
        forall|k: int| 0 <= k < i ==> #[trigger] a[k] == b[k],
        i == a.len() || i == b.len() || a[i] != b[i],
    ensures
        lex_before(a, b) <==> i < b.len() && (i == a.len() || a[i] < b[i]),
        a == b <==> i == a.len() && i == b.len(),
    decreases i,
{
    if i > 0 {
        let x = a.drop_first();
        let y = b.drop_first();
        assert(a[0] == b[0]);
        assert forall|k: int| 0 <= k < i - 1 implies #[trigger] x[k] == y[k] by {
            assert(a[k + 1] == b[k + 1]);
        }
        lemma_lex_decided(x, y, i - 1);
    }
    if i == a.len() && i == b.len() {
        assert(a =~= b);
    }
}

/// The first place where two ranks part decides between them.
pub proof fn lemma_rank_decided(a: Seq<Seq<int>>, b: Seq<Seq<int>>, i: int)
    requires
        0 <= i <= a.len(),
        i <= b.len(),
        forall|k: int| 0 <= k < i ==> #[trigger] a[k] == b[k],
        i == a.len() || i == b.len() || a[i] != b[i],
    ensures
        rank_before(a, b) <==> i < b.len() && (i == a.len() || lex_before(a[i], b[i])),
        a == b <==> i == a.len() && i == b.len(),
    decreases i,
{
    if i > 0 {
        let x = a.drop_first();
        let y = b.drop_first();
        assert(a[0] == b[0]);
        assert forall|k: int| 0 <= k < i - 1 implies #[trigger] x[k] == y[k] by {
            assert(a[k + 1] == b[k + 1]);
        }
        lemma_rank_decided(x, y, i - 1);
    }
    if i == a.len() && i == b.len() {
        assert(a =~= b);
    }
}

/// The integers that bytes stand for.
pub open spec fn byte_values(s: Seq<u8>) -> Seq<int> {
    s.map_values(|b: u8| b as int)
}

/// The integers that characters stand for.
pub open spec fn char_values(s: Seq<char>) -> Seq<int> {
    s.map_values(|c: char| c as int)
}

/// How one byte string stands to another.
pub fn compare_bytes(a: &[u8], b: &[u8]) -> (comparison: Comparison)
    ensures
        comparison == lex_comparison(byte_values(a@), byte_values(b@)),
{
    let mut i: usize = 0;
    while i < a.len() && i < b.len() && a[i] == b[i]
        invariant
            i <= a@.len(),
            i <= b@.len(),
            forall|k: int| 0 <= k < i ==> a@[k] == b@[k],
        decreases a@.len() - i,
    {
        i += 1;
    }
    proof {
        lemma_lex_decided(byte_values(a@), byte_values(b@), i as int);
    }
    if i == a.len() && i == b.len() {
        Comparison::Same
    } else if i == a.len() {
        Comparison::Before
    } else if i == b.len() {
        Comparison::After
    } else if a[i] < b[i] {
        Comparison::Before
    } else {
        Comparison::After
    }
}

/// How one text stands to another, by the code points of its characters.
pub fn compare_chars(a: &[char], b: &[char]) -> (comparison: Comparison)
    ensures
        comparison == lex_comparison(char_values(a@), char_values(b@)),
{
    let mut i: usize = 0;
    while i < a.len() && i < b.len() && a[i] == b[i]
        invariant
            i <= a@.len(),
            i <= b@.len(),
            forall|k: int| 0 <= k < i ==> a@[k] == b@[k],
        decreases a@.len() - i,
    {
        i += 1;
    }
    proof {
        lemma_lex_decided(char_values(a@), char_values(b@), i as int);
    }
    if i == a.len() && i == b.len() {
        Comparison::Same
    } else if i == a.len() {
        Comparison::Before
    } else if i == b.len() {
        Comparison::After
    } else if a[i] < b[i] {
        Comparison::Before
    } else {
        Comparison::After
    }
}

/// No sequence comes before itself, and of two different ones exactly one comes first.
pub proof fn lex_before_is_total(a: Seq<int>, b: Seq<int>)
    ensures
        a == b ==> !lex_before(a, b),
        a != b ==> lex_before(a, b) != lex_before(b, a),
    decreases a.len(),
{
    if a.len() > 0 && b.len() > 0 {
        lex_before_is_total(a.drop_first(), b.drop_first());
        assert(a =~= seq![a[0]] + a.drop_first());
        assert(b =~= seq![b[0]] + b.drop_first());
    } else if a.len() == 0 && b.len() == 0 {
        assert(a =~= b);
    }
}

/// The order on sequences of integers is transitive.
pub proof fn lex_before_is_transitive(a: Seq<int>, b: Seq<int>, c: Seq<int>)
    requires
        lex_before(a, b),
        lex_before(b, c),
    ensures
        lex_before(a, c),
    decreases a.len(),
{
    if a.len() > 0 && a[0] == b[0] && b[0] == c[0] {
        lex_before_is_transitive(a.drop_first(), b.drop_first(), c.drop_first());
    }
}

/// No rank comes before itself, and of two different ones exactly one comes first.
pub proof fn rank_before_is_total(a: Seq<Seq<int>>, b: Seq<Seq<int>>)
    ensures
        a == b ==> !rank_before(a, b),
        a != b ==> rank_before(a, b) != rank_before(b, a),
    decreases a.len(),
{
    if a.len() > 0 && b.len() > 0 {
        rank_before_is_total(a.drop_first(), b.drop_first());
        lex_before_is_total(a[0], b[0]);
        assert(a =~= seq![a[0]] + a.drop_first());
        assert(b =~= seq![b[0]] + b.drop_first());
    } else if a.len() == 0 && b.len() == 0 {
        assert(a =~= b);
    }
}

/// The order on ranks is transitive.
pub proof fn rank_before_is_transitive(a: Seq<Seq<int>>, b: Seq<Seq<int>>, c: Seq<Seq<int>>)
    requires
        rank_before(a, b),
        rank_before(b, c),
    ensures
        rank_before(a, c),
    decreases a.len(),
{
    if a.len() > 0 {
        if a[0] == b[0] && b[0] == c[0] {
            rank_before_is_transitive(a.drop_first(), b.drop_first(), c.drop_first());
        } else if a[0] != b[0] && b[0] != c[0] {
            lex_before_is_transitive(a[0], b[0], c[0]);
            lex_before_is_total(a[0], c[0]);
        }
    }
}

} // verus!
