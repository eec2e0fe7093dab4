//! What a search form has selected: the colors ticked on its check list,
//! the cards whose combos are to be shown, and the card name typed in.

use vstd::prelude::*;
use crate::aggregate::card_names;
use crate::aggregate::rank_cards;
use crate::aggregate::tally;
use crate::aggregate::tally_cards;
use crate::color::Color;
use crate::order::ranking;
use crate::order::Entry;
use crate::report::holds_card;
use crate::report::with_card;
use crate::report::lemma_filter_next;
use crate::text::own;
use crate::text::str_eq;

verus! {

/// A card on the form, as contracts see it: its name, whether its combos
/// are to be shown, and whether it is in the combo pool.
pub type CardRow = (Seq<char>, bool, bool);

/// Whether an entry of a check list is ticked.
pub open spec fn is_ticked() -> spec_fn((Color, bool)) -> bool {
    |entry: (Color, bool)| entry.1
}

/// The colors ticked on `list`, in the order of the list.
pub open spec fn ticked_colors(list: Seq<(Color, bool)>) -> Seq<Color> {
    list.filter(is_ticked()).map_values(|entry: (Color, bool)| entry.0)
}

/// Whether a card's combos are to be shown.
pub open spec fn is_shown() -> spec_fn(CardRow) -> bool {
    |row: CardRow| row.1
}

/// The names of the cards whose combos are to be shown, in the order of
/// the form.
pub open spec fn shown_cards(cards: Seq<CardRow>) -> Seq<Seq<char>> {
    cards.filter(is_shown()).map_values(|row: CardRow| row.0)
}

/// Whether a card goes by another name than `name`.
pub open spec fn is_other(name: Seq<char>) -> spec_fn(CardRow) -> bool {
    |row: CardRow| row.0 != name
}

/// The card name that a search asks for when `text` was typed in: none
/// where nothing was typed.
pub open spec fn typed_card(text: Seq<char>) -> Option<Seq<char>> {
    if text.len() == 0 {
        None
    } else {
        Some(text)
    }
}

/// The colors ticked on `list`, in the order of the list.
pub fn selected_colors(list: &Vec<(Color, bool)>) -> (colors: Vec<Color>)
    ensures
        colors@ == ticked_colors(list@),
{
    let mut colors: Vec<Color> = Vec::new();
    let mut i: usize = 0;
    proof {
        reveal(Seq::filter);
        assert(list@.take(0) =~= Seq::empty());
        assert(colors@ =~= ticked_colors(list@.take(0)));
    }
    while i < list.len()
        invariant
            i <= list.len(),
            colors@ == ticked_colors(list@.take(i as int)),
        decreases list.len() - i,
    {
        proof {
            lemma_filter_next(list@, i as int, is_ticked());
        }
        if list[i].1 {
            let ghost prior = colors@;
            colors.push(list[i].0);
            assert(colors@ =~= ticked_colors(list@.take(i + 1)));
        }
        i += 1;
    }
    assert(list@.take(list.len() as int) =~= list@);
    colors
}

/// The names of the cards whose combos are to be shown, in the order of
/// the form.
pub fn selected_cards(cards: &Vec<(String, bool, bool)>) -> (names: Vec<String>)
    ensures
        names.deep_view() == shown_cards(cards.deep_view()),
{
    let ghost all = cards.deep_view();
    let mut names: Vec<String> = Vec::new();
    let mut i: usize = 0;
    proof {
        reveal(Seq::filter);
        assert(all.take(0) =~= Seq::empty());
        assert(names.deep_view() =~= shown_cards(all.take(0)));
    }
    while i < cards.len()
        invariant
            i <= cards.len(),
            all == cards.deep_view(),
            names.deep_view() == shown_cards(all.take(i as int)),
        decreases cards.len() - i,
    {
        proof {
            lemma_filter_next(all, i as int, is_shown());
            assert(all[i as int] == (cards@[i as int].0@, cards@[i as int].1, cards@[i as int].2));
        }
        if cards[i].1 {
            let ghost prior = names.deep_view();
            let ghost shown = all.take(i as int).filter(is_shown());
            names.push(cards[i].0.clone());
            proof {
                assert(names.deep_view() =~= prior.push(all[i as int].0));
                assert(shown.push(all[i as int]).map_values(|row: CardRow| row.0)
                    =~= shown.map_values(|row: CardRow| row.0).push(all[i as int].0));
            }
        }
        i += 1;
    }
    assert(all.take(cards.len() as int) =~= all);
    names
}

/// The card name that a search asks for when `text` was typed in.
pub fn card_name(text: &str) -> (name: Option<String>)
    ensures
        name.deep_view() == typed_card(text@),
{
    if str_eq(text, "") {
        proof {
            reveal_strlit("");
        }
        None
    } else {
        proof {
            reveal_strlit("");
            if text@.len() == 0 {
                assert(text@ =~= ""@);
            }
        }
        Some(own(text))
    }
}

/// The form's cards with nothing selected: no card's combos are to be
/// shown, and no card is in the combo pool.
pub fn unselect_all(cards: &mut Vec<(String, bool, bool)>)
    ensures
        final(cards).deep_view() == old(cards).deep_view().map_values(
            |row: CardRow| (row.0, false, false),
        ),
{
    let ghost before = cards.deep_view();
    let mut i: usize = 0;
    while i < cards.len()
        invariant
            i <= cards.len(),
            cards.len() == before.len(),
            forall|j: int| 0 <= j < i ==> #[trigger] cards.deep_view()[j] == (before[j].0, false, false),
            forall|j: int| i <= j < cards.len() ==> #[trigger] cards.deep_view()[j] == before[j],
        decreases cards.len() - i,
    {
        let ghost prior = cards@;
        let ghost prior_view = cards.deep_view();
        let name = cards[i].0.clone();
        cards.set(i, (name, false, false));
        proof {
            assert(prior_view[i as int] == (prior[i as int].0@, prior[i as int].1, prior[i as int].2));
            assert forall|j: int| 0 <= j < cards.len() && j != i implies cards.deep_view()[j]
                == prior_view[j] by {
                assert(cards@[j] == prior[j]);
                assert(cards.deep_view()[j] == cards@[j].deep_view());
                assert(prior_view[j] == prior[j].deep_view());
            }
            assert(cards.deep_view()[i as int] == cards@[i as int].deep_view());
            assert(cards.deep_view()[i as int] == (before[i as int].0, false, false));
            assert forall|j: int| 0 <= j < i + 1 implies #[trigger] cards.deep_view()[j] == (
                before[j].0,
                false,
                false,
            ) by {
                if j < i {
                    assert(cards.deep_view()[j] == prior_view[j]);
                }
            }
            assert forall|j: int| i + 1 <= j < cards.len() implies #[trigger] cards.deep_view()[j]
                == before[j] by {
                assert(cards.deep_view()[j] == prior_view[j]);
            }
        }
        i += 1;
    }
    assert(cards.deep_view() =~= before.map_values(|row: CardRow| (row.0, false, false)));
}

/// The form's cards without the cards named `name`.
pub fn remove_card(cards: &mut Vec<(String, bool, bool)>, name: &str)
    ensures
        final(cards).deep_view() == old(cards).deep_view().filter(is_other(name@)),
{
    let ghost before = cards.deep_view();
    let ghost keep = is_other(name@);
    let mut kept: Vec<(String, bool, bool)> = Vec::new();
    let mut i: usize = 0;
    proof {
        reveal(Seq::filter);
        assert(before.take(0) =~= Seq::empty());
        assert(kept.deep_view() =~= before.take(0).filter(keep));
    }
    while i < cards.len()
        invariant
            i <= cards.len(),
            before == cards.deep_view(),
            keep == is_other(name@),
            kept.deep_view() == before.take(i as int).filter(keep),
        decreases cards.len() - i,
    {
        proof {
            lemma_filter_next(before, i as int, keep);
            assert(before[i as int] == (cards@[i as int].0@, cards@[i as int].1, cards@[i as int].2));
        }
        if !str_eq(cards[i].0.as_str(), name) {
            let ghost prior = kept.deep_view();
            kept.push((cards[i].0.clone(), cards[i].1, cards[i].2));
            assert(kept.deep_view() =~= prior.push(before[i as int]));
        }
        i += 1;
    }
    assert(before.take(cards.len() as int) =~= before);
    *cards = kept;
}

/// The cards that stand in combos with `card`: every card of the combos
/// that hold `card`, with the number of times it occurs in them, in the
/// order of a result.
pub open spec fn companions(combos: Seq<Seq<Seq<char>>>, card: Seq<char>) -> Seq<Entry> {
    ranking(tally(card_names(combos.filter(holds_card(Some(card))))))
}

/// The cards that stand in combos with `card`, the most frequent first.
pub fn related_cards(combos: &Vec<Vec<String>>, card: &str) -> (cards: Vec<(String, u32)>)
    ensures
        cards.deep_view() == companions(combos.deep_view(), card@),
{
    let wanted = Some(own(card));
    let held = with_card(&wanted, combos);
    rank_cards(tally_cards(&held))
}

} // verus!
