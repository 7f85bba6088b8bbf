//! Texts in the order of their characters.
use vstd::prelude::*;
use vstd::relations::*;
use vstd::seq_lib::*;

use crate::text;

verus! {

/// `a` does not come after `b`: at the first character that differs, or where
/// one of them ends.
pub open spec fn at_most(a: Seq<char>, b: Seq<char>) -> bool
    decreases a.len(),
{
    if a.len() == 0 {
        true
    } else if b.len() == 0 {
        false
    } else if a[0] == b[0] {
        at_most(a.drop_first(), b.drop_first())
    } else {
        a[0] < b[0]
    }
}

/// The order of texts as a relation.
pub open spec fn text_order() -> spec_fn(Seq<char>, Seq<char>) -> bool {
    |a: Seq<char>, b: Seq<char>| at_most(a, b)
}

/// The same texts in ascending order.
pub open spec fn ascending(items: Seq<Seq<char>>) -> Seq<Seq<char>> {
    items.sort_by(text_order())
}

proof fn lemma_reflexive(a: Seq<char>)
    ensures
        at_most(a, a),
    decreases a.len(),
{
    if a.len() > 0 {
        lemma_reflexive(a.drop_first());
    }
}

proof fn lemma_total(a: Seq<char>, b: Seq<char>)
    ensures
        at_most(a, b) || at_most(b, a),
    decreases a.len(),
{
    if a.len() > 0 && b.len() > 0 && a[0] == b[0] {
        lemma_total(a.drop_first(), b.drop_first());
    }
}

proof fn lemma_antisymmetric(a: Seq<char>, b: Seq<char>)
    requires
        at_most(a, b),
        at_most(b, a),
    ensures
        a == b,
    decreases a.len(),
{
    if a.len() > 0 && b.len() > 0 {
        lemma_antisymmetric(a.drop_first(), b.drop_first());
        assert(a == seq![a[0]] + a.drop_first());
        assert(b == seq![b[0]] + b.drop_first());
    } else {
        assert(a == b);
    }
}

proof fn lemma_transitive(a: Seq<char>, b: Seq<char>, c: Seq<char>)
    requires
        at_most(a, b),
        at_most(b, c),
    ensures
        at_most(a, c),
    decreases a.len(),
{
    if a.len() > 0 && b.len() > 0 && c.len() > 0 && a[0] == b[0] && b[0] == c[0] {
        lemma_transitive(a.drop_first(), b.drop_first(), c.drop_first());
    }
}

/// Texts are totally ordered.
pub proof fn lemma_text_order()
    ensures
        total_ordering(text_order()),
{
    let order = text_order();
    assert forall|a: Seq<char>| #[trigger] order(a, a) by {
        lemma_reflexive(a);
    }
    assert forall|a: Seq<char>, b: Seq<char>| #[trigger] order(a, b) && #[trigger] order(
        b,
        a,
    ) implies a == b by {
        lemma_antisymmetric(a, b);
    }
    assert forall|a: Seq<char>, b: Seq<char>, c: Seq<char>| #[trigger] order(a, b)
        && #[trigger] order(b, c) implies order(a, c) by {
        lemma_transitive(a, b, c);
    }
    assert forall|a: Seq<char>, b: Seq<char>| #[trigger] order(a, b) || #[trigger] order(b, a) by {
        lemma_total(a, b);
    }
}

/// The ascending arrangement is the only one: whatever holds the same texts in
/// ascending order is it.
pub proof fn lemma_ascending_unique(items: Seq<Seq<char>>, arranged: Seq<Seq<char>>)
    requires
        arranged.to_multiset() == items.to_multiset(),
        sorted_by(arranged, text_order()),
    ensures
        arranged == ascending(items),
{
    lemma_text_order();
    items.lemma_sort_by_ensures(text_order());
    lemma_sorted_unique(arranged, ascending(items), text_order());
}

/// The ascending arrangement does not depend on the order in which the texts
/// come.
pub proof fn law_ascending_ignores_order(a: Seq<Seq<char>>, b: Seq<Seq<char>>)
    requires
        a.to_multiset() == b.to_multiset(),
    ensures
        ascending(a) == ascending(b),
{
    lemma_text_order();
    a.lemma_sort_by_ensures(text_order());
    lemma_ascending_unique(b, ascending(a));
}

/// The ascending arrangement holds every text as often as it came, and each
/// comes no later than any that follows it.
pub proof fn law_ascending(items: Seq<Seq<char>>)
    ensures
        ascending(items).to_multiset() == items.to_multiset(),
        forall|i: int, j: int|
            0 <= i < j < items.len() ==> at_most(
                #[trigger] ascending(items)[i],
                #[trigger] ascending(items)[j],
            ),
        ascending(items).len() == items.len(),
{
    broadcast use group_to_multiset_ensures;

    lemma_text_order();
    items.lemma_sort_by_ensures(text_order());
    let order = text_order();
    assert(ascending(items).to_multiset().len() == items.to_multiset().len());
    assert forall|i: int, j: int| 0 <= i < j < items.len() implies at_most(
        #[trigger] ascending(items)[i],
        #[trigger] ascending(items)[j],
    ) by {
        assert(order(ascending(items)[i], ascending(items)[j]));
    }
}

fn is_at_most(a: &str, b: &str) -> (r: bool)
    ensures
        r == at_most(a@, b@),
{
    let x = text::chars_of(a);
    let y = text::chars_of(b);
    let mut i: usize = 0;
    assert(x@.skip(0) == a@);
    assert(y@.skip(0) == b@);
    while i < x.len() && i < y.len()
        invariant
            i <= x.len(),
            i <= y.len(),
            at_most(x@.skip(i as int), y@.skip(i as int)) == at_most(a@, b@),
        decreases x.len() - i,
    {
        let c = x[i];
        let d = y[i];
        if c != d {
            return c < d;
        }
        assert(x@.skip(i as int).drop_first() == x@.skip(i + 1));
        assert(y@.skip(i as int).drop_first() == y@.skip(i + 1));
        i = i + 1;
    }
    i == x.len()
}

fn insert_in_order(items: &mut Vec<String>, item: String)
    requires
        sorted_by(text::views(old(items)@), text_order()),
    ensures
        sorted_by(text::views(final(items)@), text_order()),
        text::views(final(items)@).to_multiset() == text::views(old(items)@).to_multiset().insert(
            item@,
        ),
{
    broadcast use group_to_multiset_ensures;

    let ghost before = text::views(items@);
    let ghost order = text_order();
    let mut at: usize = items.len();
    while at > 0 && !is_at_most(items[at - 1].as_str(), item.as_str())
        invariant
            at <= items.len(),
            before == text::views(items@),
            order == text_order(),
            sorted_by(before, order),
            forall|j: int| at <= j < before.len() ==> order(item@, #[trigger] before[j]),
        decreases at,
    {
        proof {
            lemma_total(items@[at - 1]@, item@);
            assert(before[at - 1] == items@[at - 1]@);
        }
        at = at - 1;
    }
    proof {
        lemma_text_order();
        assert forall|j: int| 0 <= j < at implies order(#[trigger] before[j], item@) by {
            assert(before[at - 1] == items@[at - 1]@);
            assert(order(before[at - 1], item@));
            if j < at - 1 {
                assert(order(before[j], before[at - 1]));
            }
        }
        let after = before.insert(at as int, item@);
        assert forall|i: int, j: int| 0 <= i < j < after.len() implies #[trigger] order(
            after[i],
            after[j],
        ) by {
            if i < at && j > at {
                assert(order(before[i], before[j - 1]));
            } else if i > at {
                assert(order(before[i - 1], before[j - 1]));
            } else if j < at {
                assert(order(before[i], before[j]));
            } else if i == at {
                assert(after[j] == before[j - 1]);
            } else {
                assert(after[i] == before[i]);
            }
        }
    }
    items.insert(at, item);
    assert(text::views(items@) == before.insert(at as int, item@));
}

/// The same texts in ascending order.
pub fn sort(items: Vec<String>) -> (sorted: Vec<String>)
    ensures
        text::views(sorted@) == ascending(text::views(items@)),
{
    let ghost all = text::views(items@);
    let mut sorted: Vec<String> = Vec::new();
    assert(text::views(sorted@) == all.take(0));
    for i in 0..items.len()
        invariant
            all == text::views(items@),
            sorted_by(text::views(sorted@), text_order()),
            text::views(sorted@).to_multiset() == all.take(i as int).to_multiset(),
    {
        insert_in_order(&mut sorted, items[i].clone());
        proof {
            to_multiset_build(all.take(i as int), items@[i as int]@);
            assert(all.take(i + 1) == all.take(i as int).push(items@[i as int]@));
        }
    }
    proof {
        assert(all.take(all.len() as int) == all);
        lemma_ascending_unique(all, text::views(sorted@));
    }
    sorted
}

/// Where two texts differ first decides their order: by the code points of the
/// characters there, or by which of them ends.
pub proof fn law_first_difference(a: Seq<char>, b: Seq<char>, k: int)
    requires
        0 <= k <= a.len(),
        k <= b.len(),
        a.take(k) == b.take(k),
        k < a.len() && k < b.len() ==> a[k] != b[k],
    ensures
        at_most(a, b) <==> (k == a.len() || (k < b.len() && (a[k] as int) < (b[k] as int))),
    decreases k,
{
    if k > 0 {
        assert(a.take(k)[0] == b.take(k)[0]);
        let x = a.drop_first();
        let y = b.drop_first();
        assert(x.take(k - 1) == a.take(k).drop_first());
        assert(y.take(k - 1) == b.take(k).drop_first());
        law_first_difference(x, y, k - 1);
        assert(a.take(k)[0] == a[0] && b.take(k)[0] == b[0]);
        assert(at_most(a, b) == at_most(x, y));
        if k < a.len() && k < b.len() {
            assert(x[k - 1] == a[k] && y[k - 1] == b[k]);
        }
    }
}

} // verus!
