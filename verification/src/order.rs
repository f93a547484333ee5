//! Facts about selecting the elements of a sequence that satisfy a
//! predicate (`Seq::filter`), used to state what sorting keeps: a sort
//! keeps, for each key, the elements with that key in their original order.
use vstd::prelude::*;

verus! {

/// Selecting from a sequence none of whose elements qualifies gives nothing.
pub proof fn lemma_filter_none<A>(s: Seq<A>, pred: spec_fn(A) -> bool)
    requires
        forall|i: int| 0 <= i < s.len() ==> !pred(#[trigger] s[i]),
    ensures
        s.filter(pred) == Seq::<A>::empty(),
    decreases s.len(),
{
    reveal(Seq::filter);
    if s.len() > 0 {
        let rest = s.drop_last();
        assert forall|i: int| 0 <= i < rest.len() implies !pred(#[trigger] rest[i]) by {
            assert(rest[i] == s[i]);
        }
        lemma_filter_none(rest, pred);
        assert(!pred(s[s.len() - 1]));
    }
}

/// Selecting from a sequence with one element inserted at `p` selects from
/// the part before `p`, then the new element if it qualifies, then the part
/// from `p` on.
pub proof fn lemma_filter_insert<A>(s: Seq<A>, p: int, x: A, pred: spec_fn(A) -> bool)
    requires
        0 <= p <= s.len(),
    ensures
        s.insert(p, x).filter(pred) == s.subrange(0, p).filter(pred) + (if pred(x) {
            seq![x]
        } else {
            Seq::<A>::empty()
        }) + s.subrange(p, s.len() as int).filter(pred),
        s.filter(pred) == s.subrange(0, p).filter(pred) + s.subrange(p, s.len() as int).filter(pred),
{
    let a = s.subrange(0, p);
    let b = s.subrange(p, s.len() as int);
    assert(s.insert(p, x) =~= a + seq![x] + b);
    assert(s =~= a + b);
    Seq::filter_distributes_over_add(a + seq![x], b, pred);
    Seq::filter_distributes_over_add(a, seq![x], pred);
    Seq::filter_distributes_over_add(a, b, pred);
    Seq::<A>::empty().lemma_filter_push(x, pred);
    reveal(Seq::filter);
    assert(Seq::<A>::empty().push(x) =~= seq![x]);
    assert(Seq::<A>::empty().filter(pred) =~= Seq::<A>::empty());
    if !pred(x) {
        assert(a.filter(pred) + Seq::<A>::empty() =~= a.filter(pred));
    }
}

/// Lexicographic order of texts by character (code point): a proper prefix
/// comes first. For UTF-8 this is also the order of their bytes.
pub open spec fn text_le(a: Seq<char>, b: Seq<char>) -> bool
    decreases a.len(),
{
    if a.len() == 0 {
        true
    } else if b.len() == 0 {
        false
    } else if a[0] != b[0] {
        (a[0] as int) < (b[0] as int)
    } else {
        text_le(a.drop_first(), b.drop_first())
    }
}

/// Pairs of texts ordered by their first text, then by their second.
pub open spec fn pair_le(x: (Seq<char>, Seq<char>), y: (Seq<char>, Seq<char>)) -> bool {
    if x.0 == y.0 {
        text_le(x.1, y.1)
    } else {
        text_le(x.0, y.0)
    }
}

/// The same order as a value usable with `Seq::sort_by`.
pub open spec fn pair_order() -> spec_fn((Seq<char>, Seq<char>), (Seq<char>, Seq<char>)) -> bool {
    |x: (Seq<char>, Seq<char>), y: (Seq<char>, Seq<char>)| pair_le(x, y)
}

/// Every text comes no later than itself.
pub proof fn lemma_text_le_reflexive(a: Seq<char>)
    ensures
        text_le(a, a),
    decreases a.len(),
{
    if a.len() > 0 {
        lemma_text_le_reflexive(a.drop_first());
    }
}

/// Texts each no later than the other are equal.
pub proof fn lemma_text_le_antisymmetric(a: Seq<char>, b: Seq<char>)
    requires
        text_le(a, b),
        text_le(b, a),
    ensures
        a == b,
    decreases a.len(),
{
    if a.len() > 0 && b.len() > 0 {
        if a[0] == b[0] {
            lemma_text_le_antisymmetric(a.drop_first(), b.drop_first());
            assert(a =~= seq![a[0]] + a.drop_first());
            assert(b =~= seq![b[0]] + b.drop_first());
        }
    } else {
        assert(a.len() == 0 && b.len() == 0);
        assert(a =~= b);
    }
}

/// The order of texts is transitive.
pub proof fn lemma_text_le_transitive(a: Seq<char>, b: Seq<char>, c: Seq<char>)
    requires
        text_le(a, b),
        text_le(b, c),
    ensures
        text_le(a, c),
    decreases a.len(),
{
    if a.len() > 0 && b.len() > 0 && c.len() > 0 {
        if a[0] == b[0] && b[0] == c[0] {
            lemma_text_le_transitive(a.drop_first(), b.drop_first(), c.drop_first());
        }
    }
}

/// Any two texts are ordered one way or the other.
pub proof fn lemma_text_le_connected(a: Seq<char>, b: Seq<char>)
    ensures
        text_le(a, b) || text_le(b, a),
    decreases a.len(),
{
    if a.len() > 0 && b.len() > 0 && a[0] == b[0] {
        lemma_text_le_connected(a.drop_first(), b.drop_first());
    }
}

/// The order of pairs of texts is a total order.
pub proof fn lemma_pair_order_total()
    ensures
        vstd::relations::total_ordering(pair_order()),
{
    let le = pair_order();
    assert forall|x: (Seq<char>, Seq<char>)| #[trigger] le(x, x) by {
        lemma_text_le_reflexive(x.1);
    }
    assert forall|x: (Seq<char>, Seq<char>), y: (Seq<char>, Seq<char>)|
        #[trigger] le(x, y) && #[trigger] le(y, x) implies x == y by {
        if x.0 == y.0 {
            lemma_text_le_antisymmetric(x.1, y.1);
        } else {
            lemma_text_le_antisymmetric(x.0, y.0);
        }
    }
    assert forall|x: (Seq<char>, Seq<char>), y: (Seq<char>, Seq<char>), z: (Seq<char>, Seq<char>)|
        #[trigger] le(x, y) && #[trigger] le(y, z) implies le(x, z) by {
        if x.0 == y.0 && y.0 == z.0 {
            lemma_text_le_transitive(x.1, y.1, z.1);
        } else if x.0 == y.0 {
            assert(text_le(x.0, z.0));
        } else if y.0 == z.0 {
            assert(text_le(x.0, z.0));
        } else {
            lemma_text_le_transitive(x.0, y.0, z.0);
            if x.0 == z.0 {
                lemma_text_le_antisymmetric(x.0, y.0);
            }
        }
    }
    assert forall|x: (Seq<char>, Seq<char>), y: (Seq<char>, Seq<char>)|
        #[trigger] le(x, y) || #[trigger] le(y, x) by {
        if x.0 == y.0 {
            lemma_text_le_connected(x.1, y.1);
        } else {
            lemma_text_le_connected(x.0, y.0);
        }
    }
}

/// Whether `a` comes no later than `b` in character order.
pub fn text_le_exec(a: &str, b: &str) -> (r: bool)
    ensures
        r == text_le(a@, b@),
{
    let ac = crate::text::chars_of(a);
    let bc = crate::text::chars_of(b);
    let mut i: usize = 0;
    proof {
        assert(a@.subrange(0, a@.len() as int) == a@);
        assert(b@.subrange(0, b@.len() as int) == b@);
    }
    while i < ac.len() && i < bc.len() && ac[i] == bc[i]
        invariant
            ac@ == a@,
            bc@ == b@,
            i <= ac@.len(),
            i <= bc@.len(),
            text_le(a@, b@) == text_le(a@.subrange(i as int, a@.len() as int), b@.subrange(i as int, b@.len() as int)),
        decreases ac@.len() - i,
    {
        proof {
            let sa = a@.subrange(i as int, a@.len() as int);
            let sb = b@.subrange(i as int, b@.len() as int);
            assert(sa.drop_first() =~= a@.subrange(i + 1, a@.len() as int));
            assert(sb.drop_first() =~= b@.subrange(i + 1, b@.len() as int));
        }
        i = i + 1;
    }
    proof {
        let sa = a@.subrange(i as int, a@.len() as int);
        let sb = b@.subrange(i as int, b@.len() as int);
        if i < ac@.len() && i < bc@.len() {
            assert(sa[0] == a@[i as int]);
            assert(sb[0] == b@[i as int]);
        }
    }
    if i == ac.len() {
        true
    } else if i == bc.len() {
        false
    } else {
        ac[i] < bc[i]
    }
}

/// Partition keys (symbol text, day) ordered by symbol, then by day,
/// strictly.
pub open spec fn key_lt(a: (Seq<char>, int), b: (Seq<char>, int)) -> bool {
    if a.0 == b.0 {
        a.1 < b.1
    } else {
        text_le(a.0, b.0)
    }
}

/// The strict order of partition keys is transitive, and of two different
/// keys one comes before the other.
pub proof fn lemma_key_lt(a: (Seq<char>, int), b: (Seq<char>, int), c: (Seq<char>, int))
    ensures
        key_lt(a, b) && key_lt(b, c) ==> key_lt(a, c),
        a != b ==> key_lt(a, b) || key_lt(b, a),
        !(key_lt(a, b) && key_lt(b, a)),
        !key_lt(a, a),
{
    if a.0 != b.0 {
        lemma_text_le_connected(a.0, b.0);
        if text_le(a.0, b.0) && text_le(b.0, a.0) {
            lemma_text_le_antisymmetric(a.0, b.0);
        }
    }
    if key_lt(a, b) && key_lt(b, c) {
        if a.0 == b.0 && b.0 == c.0 {
        } else if a.0 == b.0 || b.0 == c.0 {
        } else {
            lemma_text_le_transitive(a.0, b.0, c.0);
            if a.0 == c.0 {
                lemma_text_le_antisymmetric(a.0, b.0);
            }
        }
    }
}

} // verus!
