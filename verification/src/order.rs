//! The order in which the cards of a result are listed.
//!
//! Cards are compared by how often they occur and, where two cards occur
//! equally often, by name. The result lists them from the greatest down.

use vstd::prelude::*;
use vstd::relations::sorted_by;
use vstd::relations::total_ordering;
use crate::text::name_leq;

verus! {

/// A card with the number of times it occurs, as contracts see it.
pub type Entry = (Seq<char>, u32);

/// Whether `a` ranks below `b` or equals it: fewer occurrences first, and
/// among equal counts the name that comes first.
pub open spec fn entry_leq(a: Entry, b: Entry) -> bool {
    a.1 < b.1 || (a.1 == b.1 && name_leq(a.0, b.0))
}

/// [`entry_leq`] as a relation.
pub open spec fn card_order() -> spec_fn(Entry, Entry) -> bool {
    |a: Entry, b: Entry| entry_leq(a, b)
}

/// The cards in the order of a result: sorted upwards by count, then by
/// name, and the whole list reversed. The most frequent card comes first,
/// and of two cards with the same count the one whose name comes later.
pub open spec fn ranking(cards: Seq<Entry>) -> Seq<Entry> {
    cards.sort_by(card_order()).reverse()
}

/// Whether `cards` runs from the greatest entry down.
pub open spec fn descending(cards: Seq<Entry>) -> bool {
    forall|i: int, j: int| 0 <= i < j < cards.len() ==> entry_leq(cards[j], cards[i])
}

/// Every name equals itself in the order of names.
pub proof fn lemma_name_leq_reflexive(a: Seq<char>)
    ensures
        name_leq(a, a),
    decreases a.len(),
{
    if a.len() > 0 {
        lemma_name_leq_reflexive(a.drop_first());
    }
}

/// Two names that each come before the other are the same name.
pub proof fn lemma_name_leq_antisymmetric(a: Seq<char>, b: Seq<char>)
    requires
        name_leq(a, b),
        name_leq(b, a),
    ensures
        a == b,
    decreases a.len(),
{
    if a.len() == 0 {
        assert(b.len() == 0);
        assert(a =~= b);
    } else {
        assert(b.len() > 0);
        assert(a[0] == b[0]);
        lemma_name_leq_antisymmetric(a.drop_first(), b.drop_first());
        assert(a =~= seq![a[0]] + a.drop_first());
        assert(b =~= seq![b[0]] + b.drop_first());
    }
}

/// The order of names is transitive.
pub proof fn lemma_name_leq_transitive(a: Seq<char>, b: Seq<char>, c: Seq<char>)
    requires
        name_leq(a, b),
        name_leq(b, c),
    ensures
        name_leq(a, c),
    decreases a.len(),
{
    if a.len() > 0 {
        assert(b.len() > 0);
        assert(c.len() > 0);
        if a[0] == b[0] && b[0] == c[0] {
            lemma_name_leq_transitive(a.drop_first(), b.drop_first(), c.drop_first());
        }
    }
}

/// Of two names one comes before the other.
pub proof fn lemma_name_leq_total(a: Seq<char>, b: Seq<char>)
    ensures
        name_leq(a, b) || name_leq(b, a),
    decreases a.len(),
{
    if a.len() > 0 && b.len() > 0 {
        if a[0] == b[0] {
            lemma_name_leq_total(a.drop_first(), b.drop_first());
        } else {
            assert(a[0] as int != b[0] as int);
        }
    }
}

/// The order of cards is a total order: any two entries compare, and two
/// entries that each rank below the other are the same entry.
pub proof fn lemma_card_order_total()
    ensures
        total_ordering(card_order()),
{
    let r = card_order();
    assert forall|x: Entry| #[trigger] r(x, x) by {
        lemma_name_leq_reflexive(x.0);
    }
    assert forall|x: Entry, y: Entry| #[trigger] r(x, y) && #[trigger] r(y, x) implies x == y by {
        lemma_name_leq_antisymmetric(x.0, y.0);
    }
    assert forall|x: Entry, y: Entry, z: Entry| #[trigger] r(x, y) && #[trigger] r(y, z) implies r(
        x,
        z,
    ) by {
        if x.1 == y.1 && y.1 == z.1 {
            lemma_name_leq_transitive(x.0, y.0, z.0);
        }
    }
    assert forall|x: Entry, y: Entry| #[trigger] r(x, y) || #[trigger] r(y, x) by {
        lemma_name_leq_total(x.0, y.0);
    }
}

/// A list that runs from the greatest entry down and holds the same entries
/// as `cards`, each as often, is the ranking of `cards`.
pub proof fn lemma_descending_is_ranking(cards: Seq<Entry>, ranked: Seq<Entry>)
    requires
        descending(ranked),
        ranked.to_multiset() == cards.to_multiset(),
    ensures
        ranked == ranking(cards),
{
    let r = card_order();
    lemma_card_order_total();
    cards.lemma_sort_by_ensures(r);
    let up = ranked.reverse();
    ranked.lemma_reverse_to_multiset();
    assert(sorted_by(up, r)) by {
        assert forall|i: int, j: int| 0 <= i < j < up.len() implies #[trigger] r(up[i], up[j]) by {
            assert(up[i] == ranked[ranked.len() - 1 - i]);
            assert(up[j] == ranked[ranked.len() - 1 - j]);
        }
    }
    vstd::seq_lib::lemma_sorted_unique(up, cards.sort_by(r), r);
    assert(up.reverse() =~= ranked);
}

/// The ranking of `cards` runs from the greatest entry down and holds the
/// same entries as `cards`, each as often.
pub proof fn lemma_ranking(cards: Seq<Entry>)
    ensures
        descending(ranking(cards)),
        ranking(cards).to_multiset() == cards.to_multiset(),
        ranking(cards).len() == cards.len(),
{
    broadcast use vstd::seq_lib::group_to_multiset_ensures;

    let r = card_order();
    lemma_card_order_total();
    cards.lemma_sort_by_ensures(r);
    let up = cards.sort_by(r);
    up.lemma_reverse_to_multiset();
    let down = up.reverse();
    assert forall|i: int, j: int| 0 <= i < j < down.len() implies entry_leq(down[j], down[i]) by {
        assert(r(up[up.len() - 1 - j], up[up.len() - 1 - i]));
    }
    assert(down.len() == down.to_multiset().len());
    assert(cards.len() == cards.to_multiset().len());
}

} // verus!
