//! The order of strings, and sorting by it.

use vstd::prelude::*;

use crate::text::{texts, to_chars};

verus! {

/// Whether `a` is at or before `b` in the order of strings: the first
/// difference decides by code point, and a prefix comes first.
pub open spec fn at_or_before(a: Seq<char>, b: Seq<char>) -> bool
    decreases a.len(),
{
    if a.len() == 0 {
        true
    } else if b.len() == 0 {
        false
    } else if a[0] == b[0] {
        at_or_before(a.drop_first(), b.drop_first())
    } else {
        a[0] < b[0]
    }
}

/// Whether every text is at or before each later one.
pub open spec fn in_order(s: Seq<Seq<char>>) -> bool {
    forall|i: int, j: int| 0 <= i <= j < s.len() ==> at_or_before(#[trigger] s[i], #[trigger] s[j])
}

/// Any two texts stand in order one way or the other.
pub proof fn lemma_order_total(a: Seq<char>, b: Seq<char>)
    ensures
        at_or_before(a, b) || at_or_before(b, a),
    decreases a.len(),
{
    if a.len() > 0 && b.len() > 0 && a[0] == b[0] {
        lemma_order_total(a.drop_first(), b.drop_first());
    }
}

/// Two texts at or before each other are the same text.
pub proof fn lemma_order_antisymmetric(a: Seq<char>, b: Seq<char>)
    requires
        at_or_before(a, b),
        at_or_before(b, a),
    ensures
        a == b,
    decreases a.len(),
{
    if a.len() > 0 && b.len() > 0 {
        lemma_order_antisymmetric(a.drop_first(), b.drop_first());
        assert(a =~= seq![a[0]] + a.drop_first());
        assert(b =~= seq![b[0]] + b.drop_first());
    } else {
        assert(a =~= b);
    }
}

/// The order of texts is transitive.
pub proof fn lemma_order_transitive(a: Seq<char>, b: Seq<char>, c: Seq<char>)
    requires
        at_or_before(a, b),
        at_or_before(b, c),
    ensures
        at_or_before(a, c),
    decreases a.len(),
{
    if a.len() > 0 && a[0] == b[0] && b[0] == c[0] {
        lemma_order_transitive(a.drop_first(), b.drop_first(), c.drop_first());
    }
}

/// Whether `left` is at or before `right` in the order of strings.
pub fn text_at_or_before(left: &str, right: &str) -> (r: bool)
    ensures
        r == at_or_before(left@, right@),
{
    let a = to_chars(left);
    let b = to_chars(right);
    let mut i: usize = 0;
    assert(a@.skip(0) =~= a@);
    assert(b@.skip(0) =~= b@);
    while i < a.len() && i < b.len()
        invariant
            i <= a.len(),
            i <= b.len(),
            a@ == left@,
            b@ == right@,
            at_or_before(left@, right@) == at_or_before(a@.skip(i as int), b@.skip(i as int)),
        decreases a.len() - i,
    {
        if a[i] != b[i] {
            return a[i] < b[i];
        }
        assert(a@.skip(i as int).drop_first() =~= a@.skip(i + 1));
        assert(b@.skip(i as int).drop_first() =~= b@.skip(i + 1));
        i += 1;
    }
    i == a.len()
}

/// Put one more text into an ordered list, after the texts at or before it.
fn insert_in_order(list: &mut Vec<String>, item: String)
    requires
        in_order(texts(old(list)@)),
    ensures
        in_order(texts(final(list)@)),
        exists|at: int|
            0 <= at <= old(list)@.len() && final(list)@ == #[trigger] old(list)@.insert(at, item),
{
    let mut at: usize = list.len();
    let ghost before = texts(list@);
    while at > 0 && !text_at_or_before(list[at - 1].as_str(), item.as_str())
        invariant
            at <= list.len(),
            *list == *old(list),
            before == texts(list@),
            in_order(before),
            forall|j: int| at <= j < list.len() ==> at_or_before(item@, #[trigger] before[j]),
        decreases at,
    {
        proof {
            assert(before[at - 1] == list@[at - 1]@);
            lemma_order_total(item@, before[at - 1]);
        }
        at -= 1;
    }
    proof {
        let after = texts(list@.insert(at as int, item));
        assert(at > 0 ==> before[at - 1] == list@[at - 1]@);
        assert(after =~= before.insert(at as int, item@));
        assert forall|i: int, j: int| 0 <= i <= j < after.len() implies at_or_before(
            #[trigger] after[i],
            #[trigger] after[j],
        ) by {
            lemma_order_total(item@, item@);
            if i < at && j == at {
                assert(at_or_before(before[i], before[at - 1]));
                lemma_order_transitive(before[i], before[at - 1], item@);
            }
        }
    }
    list.insert(at, item);
}

/// Inserting into a sequence adds the item to its multiset.
proof fn lemma_insert_multiset<T>(s: Seq<T>, at: int, item: T)
    requires
        0 <= at <= s.len(),
    ensures
        s.insert(at, item).to_multiset() == s.to_multiset().insert(item),
{
    broadcast use vstd::seq_lib::group_to_multiset_ensures;

    let left = s.take(at);
    let right = s.skip(at);
    assert(s.insert(at, item) =~= left.push(item) + right);
    assert(s =~= left + right);
    vstd::seq_lib::lemma_multiset_commutative(left.push(item), right);
    vstd::seq_lib::lemma_multiset_commutative(left, right);
    assert(s.insert(at, item).to_multiset() =~= s.to_multiset().insert(item));
}

/// Sort strings.
pub fn sort_texts(list: Vec<String>) -> (r: Vec<String>)
    ensures
        in_order(texts(r@)),
        r@.to_multiset() == list@.to_multiset(),
        r@.len() == list@.len(),
{
    broadcast use vstd::seq_lib::group_to_multiset_ensures;

    let mut out: Vec<String> = Vec::new();
    let mut i: usize = 0;
    assert(out@ =~= list@.take(0));
    while i < list.len()
        invariant
            i <= list.len(),
            in_order(texts(out@)),
            out@.to_multiset() == list@.take(i as int).to_multiset(),
            out@.len() == i,
        decreases list.len() - i,
    {
        let ghost before = out@;
        insert_in_order(&mut out, list[i].clone());
        proof {
            let at = choose|at: int|
                0 <= at <= before.len() && out@ == #[trigger] before.insert(at, list@[i as int]);
            lemma_insert_multiset(before, at, list@[i as int]);
            list@.take(i as int).to_multiset_ensures();
            assert(list@.take(i + 1) =~= list@.take(i as int).push(list@[i as int]));
        }
        i += 1;
    }
    assert(list@.take(i as int) =~= list@);
    out
}

/// Sort 128-bit numbers in ascending order.
pub fn sort_numbers(list: Vec<u128>) -> (r: Vec<u128>)
    ensures
        forall|i: int, j: int| 0 <= i <= j < r@.len() ==> r@[i] <= r@[j],
        r@.to_multiset() == list@.to_multiset(),
        r@.len() == list@.len(),
{
    broadcast use vstd::seq_lib::group_to_multiset_ensures;

    let mut out: Vec<u128> = Vec::new();
    let mut i: usize = 0;
    assert(out@ =~= list@.take(0));
    while i < list.len()
        invariant
            i <= list.len(),
            forall|a: int, b: int| 0 <= a <= b < out@.len() ==> out@[a] <= out@[b],
            out@.to_multiset() == list@.take(i as int).to_multiset(),
            out@.len() == i,
        decreases list.len() - i,
    {
        let item: u128 = list[i];
        let mut at: usize = out.len();
        while at > 0 && out[at - 1] > item
            invariant
                at <= out.len(),
                forall|a: int, b: int| 0 <= a <= b < out@.len() ==> out@[a] <= out@[b],
                forall|j: int| at <= j < out@.len() ==> item <= out@[j],
            decreases at,
        {
            at -= 1;
        }
        let ghost before = out@;
        out.insert(at, item);
        proof {
            lemma_insert_multiset(before, at as int, item);
            list@.take(i as int).to_multiset_ensures();
            assert(list@.take(i + 1) =~= list@.take(i as int).push(item));
        }
        i += 1;
    }
    assert(list@.take(i as int) =~= list@);
    out
}

/// Texts are ordered by the first character in which they differ, and a text before any longer
/// one that it begins.
pub proof fn law_texts_are_ordered_by_their_first_difference(a: Seq<char>, b: Seq<char>, i: int)
    requires
        0 <= i <= a.len(),
        i <= b.len(),
        a.take(i) == b.take(i),
    ensures
        i < a.len() && i < b.len() && a[i] < b[i] ==> at_or_before(a, b) && !at_or_before(b, a),
        i == a.len() ==> at_or_before(a, b),
        i == a.len() && i < b.len() ==> !at_or_before(b, a),
    decreases i,
{
    if i > 0 {
        assert(a[0] == a.take(i)[0]);
        assert(b[0] == b.take(i)[0]);
        let p = a.drop_first();
        let q = b.drop_first();
        assert(p.take(i - 1) =~= a.take(i).drop_first());
        assert(q.take(i - 1) =~= b.take(i).drop_first());
        law_texts_are_ordered_by_their_first_difference(p, q, i - 1);
        if i < a.len() {
            assert(p[i - 1] == a[i]);
        }
        if i < b.len() {
            assert(q[i - 1] == b[i]);
        }
    }
}

} // verus!
