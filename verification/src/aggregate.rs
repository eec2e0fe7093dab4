//! Aggregation of the combos a crawl has found: how often each card occurs,
//! the combos without repetitions, and the cards in the order of a result.

use vstd::prelude::*;
use crate::color::Color;
use crate::color::Format;
use crate::order::descending;
use crate::order::entry_leq;
use crate::order::lemma_descending_is_ranking;
use crate::order::ranking;
use crate::order::Entry;
use crate::text::name_precedes;

verus! {

/// A card, by its name.
pub type Card = String;

/// How often a card occurs.
pub type NumResults = u32;

/// What a crawl has found for a search.
#[derive(Debug, Clone)]
pub struct CrawlerResult {
    /// The colors the search was scoped to.
    pub colors: Vec<Color>,
    /// The card the search asked for, if any.
    pub card: Option<Card>,
    /// The format the search was scoped to, if any.
    pub format: Option<Format>,
    /// Every card of the combos found, with the number of times it occurs
    /// in them, the most frequent card first.
    pub cards: Vec<(Card, NumResults)>,
    /// The combos found, each of them once.
    pub combos: Vec<Vec<Card>>,
}

/// A result, as contracts see it.
pub struct ResultView {
    pub colors: Seq<Color>,
    pub card: Option<Seq<char>>,
    pub format: Option<Format>,
    pub cards: Seq<Entry>,
    pub combos: Seq<Seq<Seq<char>>>,
}

impl View for CrawlerResult {
    type V = ResultView;

    open spec fn view(&self) -> ResultView {
        ResultView {
            colors: self.colors@,
            card: self.card.deep_view(),
            format: self.format,
            cards: self.cards.deep_view(),
            combos: self.combos.deep_view(),
        }
    }
}

/// `s` without repetitions: of equal items only the first stays, and the
/// items that stay keep their order.
pub open spec fn distinct<T>(s: Seq<T>) -> Seq<T>
    decreases s.len(),
{
    if s.len() == 0 {
        Seq::empty()
    } else {
        let front = distinct(s.drop_last());
        if front.contains(s.last()) {
            front
        } else {
            front.push(s.last())
        }
    }
}

/// `n` as a count of occurrences: counts beyond the largest number that a
/// count can hold are cut down to it.
pub open spec fn saturated(n: nat) -> u32 {
    if n > u32::MAX {
        u32::MAX
    } else {
        n as u32
    }
}

/// How often `name` occurs in `names`.
pub open spec fn occurrences(names: Seq<Seq<char>>, name: Seq<char>) -> nat {
    names.to_multiset().count(name)
}

/// The tally of `names`: each name once, in the order of first occurrence,
/// with the number of times it occurs.
pub open spec fn tally(names: Seq<Seq<char>>) -> Seq<Entry> {
    distinct(names).map_values(|name: Seq<char>| (name, saturated(occurrences(names, name))))
}

/// The names of all cards of `combos`, repetitions included, combo after
/// combo.
pub open spec fn card_names(combos: Seq<Seq<Seq<char>>>) -> Seq<Seq<char>> {
    combos.flatten()
}

/// The result of a crawl that has found `combos`, repetitions included, for
/// the search given by `colors`, `card` and `format`. The cards are counted
/// over the combos as found and listed in the order of a result; the combos
/// are listed once each.
pub open spec fn summary(
    colors: Seq<Color>,
    card: Option<Seq<char>>,
    format: Option<Format>,
    combos: Seq<Seq<Seq<char>>>,
) -> ResultView {
    ResultView {
        colors,
        card,
        format,
        cards: ranking(tally(card_names(combos))),
        combos: distinct(combos),
    }
}

/// `distinct(s)` holds exactly the items of `s`, and none of them twice.
pub proof fn lemma_distinct<T>(s: Seq<T>)
    ensures
        distinct(s).no_duplicates(),
        distinct(s).len() <= s.len(),
        forall|x: T| distinct(s).contains(x) <==> s.contains(x),
    decreases s.len(),
{
    if s.len() > 0 {
        let front = s.drop_last();
        lemma_distinct(front);
        let d = distinct(front);
        assert forall|x: T| distinct(s).contains(x) <==> s.contains(x) by {
            if s.contains(x) {
                let i = choose|i: int| 0 <= i < s.len() && s[i] == x;
                if i < s.len() - 1 {
                    assert(front[i] == x);
                    assert(front.contains(x));
                    assert(d.contains(x));
                    if !d.contains(s.last()) {
                        let k = choose|k: int| 0 <= k < d.len() && d[k] == x;
                        assert(d.push(s.last())[k] == x);
                    }
                } else {
                    if !d.contains(s.last()) {
                        assert(d.push(s.last())[d.len() as int] == x);
                    }
                }
            }
            if distinct(s).contains(x) {
                let k = choose|k: int| 0 <= k < distinct(s).len() && distinct(s)[k] == x;
                if k < d.len() {
                    assert(d[k] == x);
                    assert(d.contains(x));
                    assert(front.contains(x));
                    let i = choose|i: int| 0 <= i < front.len() && front[i] == x;
                    assert(s[i] == x);
                } else {
                    assert(s[s.len() - 1] == x);
                }
            }
        }
    }
}

/// Removing repetitions from a list that has none changes nothing:
/// removing them twice is removing them once.
pub proof fn law_distinct_once<T>(s: Seq<T>)
    ensures
        s.no_duplicates() ==> distinct(s) == s,
        distinct(distinct(s)) == distinct(s),
{
    if s.no_duplicates() {
        lemma_distinct_fixed(s);
    }
    lemma_distinct(s);
    lemma_distinct_fixed(distinct(s));
}

proof fn lemma_distinct_fixed<T>(s: Seq<T>)
    requires
        s.no_duplicates(),
    ensures
        distinct(s) == s,
    decreases s.len(),
{
    if s.len() > 0 {
        let front = s.drop_last();
        lemma_distinct_fixed(front);
        lemma_distinct(front);
        if front.contains(s.last()) {
            let i = choose|i: int| 0 <= i < front.len() && front[i] == s.last();
            assert(s[i] == s[s.len() - 1]);
        }
        assert(front.push(s.last()) =~= s);
    } else {
        assert(distinct(s) =~= s);
    }
}

/// What one more name does to a tally. A name that the tally holds has its
/// count raised by one, up to the largest count; a new name enters at the
/// end with a count of one.
pub proof fn lemma_tally_push(names: Seq<Seq<char>>, name: Seq<char>)
    ensures
        distinct(names).contains(name) ==> forall|k: int|
            0 <= k < distinct(names).len() && distinct(names)[k] == name ==> tally(
                names.push(name),
            ) == #[trigger] tally(names).update(
                k,
                (name, saturated(occurrences(names, name) + 1)),
            ),
        !distinct(names).contains(name) ==> tally(names.push(name)) == tally(names).push(
            (name, 1u32),
        ),
{
    broadcast use vstd::seq_lib::group_to_multiset_ensures;
    broadcast use vstd::multiset::group_multiset_axioms;

    let more = names.push(name);
    assert(more.drop_last() =~= names);
    assert(more.last() == name);
    lemma_distinct(names);
    assert(more.to_multiset() =~= names.to_multiset().insert(name));
    let d = distinct(names);
    if d.contains(name) {
        assert(distinct(more) == d);
        assert forall|k: int| 0 <= k < d.len() && d[k] == name implies tally(more)
            == #[trigger] tally(names).update(
            k,
            (name, saturated(occurrences(names, name) + 1)),
        ) by {
            let target = tally(names).update(k, (name, saturated(occurrences(names, name) + 1)));
            assert forall|j: int| 0 <= j < d.len() implies tally(more)[j] == target[j] by {
                if j != k {
                    assert(d[j] != d[k]);
                }
            }
            assert(tally(more) =~= target);
        }
    } else {
        assert(distinct(more) == d.push(name));
        assert(!names.contains(name));
        assert(occurrences(names, name) == 0);
        let target = tally(names).push((name, 1u32));
        assert forall|j: int| 0 <= j < d.len() + 1 implies tally(more)[j] == target[j] by {
            if j < d.len() {
                assert(d[j] != name);
            }
        }
        assert(tally(more) =~= target);
    }
}

/// Whether two combos hold the same names in the same order.
pub fn same_combo(a: &Vec<String>, b: &Vec<String>) -> (same: bool)
    ensures
        same == (a.deep_view() == b.deep_view()),
{
    if a.len() != b.len() {
        assert(a.deep_view().len() != b.deep_view().len());
        return false;
    }
    let mut i: usize = 0;
    while i < a.len()
        invariant
            i <= a.len(),
            a.len() == b.len(),
            forall|j: int| 0 <= j < i ==> a@[j]@ == b@[j]@,
        decreases a.len() - i,
    {
        if a[i] != b[i] {
            assert(a.deep_view()[i as int] != b.deep_view()[i as int]);
            return false;
        }
        i += 1;
    }
    assert(a.deep_view() =~= b.deep_view());
    true
}

/// A copy of `combo`.
pub fn copy_combo(combo: &Vec<String>) -> (copy: Vec<String>)
    ensures
        copy.deep_view() == combo.deep_view(),
        copy@.len() == combo@.len(),
{
    let mut copy: Vec<String> = Vec::new();
    let mut i: usize = 0;
    while i < combo.len()
        invariant
            i <= combo.len(),
            copy@.len() == i,
            forall|j: int| 0 <= j < i ==> copy@[j]@ == combo@[j]@,
        decreases combo.len() - i,
    {
        copy.push(combo[i].clone());
        i += 1;
    }
    assert(copy.deep_view() =~= combo.deep_view());
    copy
}

/// Whether `combos` holds a combo equal to `combo`.
pub fn holds_combo(combos: &Vec<Vec<String>>, combo: &Vec<String>) -> (found: bool)
    ensures
        found == combos.deep_view().contains(combo.deep_view()),
{
    let mut k: usize = 0;
    while k < combos.len()
        invariant
            k <= combos.len(),
            forall|j: int| 0 <= j < k ==> combos.deep_view()[j] != combo.deep_view(),
        decreases combos.len() - k,
    {
        if same_combo(&combos[k], combo) {
            assert(combos.deep_view()[k as int] == combo.deep_view());
            return true;
        }
        k += 1;
    }
    false
}

/// The combos without repetitions: of equal combos only the first stays.
/// Two combos are equal where they hold the same names in the same order.
pub fn dedup_combos(combos: &Vec<Vec<String>>) -> (unique: Vec<Vec<String>>)
    ensures
        unique.deep_view() == distinct(combos.deep_view()),
{
    let mut unique: Vec<Vec<String>> = Vec::new();
    let mut i: usize = 0;
    assert(combos.deep_view().take(0) =~= Seq::empty());
    assert(unique.deep_view() =~= Seq::empty());
    while i < combos.len()
        invariant
            i <= combos.len(),
            unique.deep_view() == distinct(combos.deep_view().take(i as int)),
        decreases combos.len() - i,
    {
        let ghost before = combos.deep_view().take(i as int);
        let ghost upto = combos.deep_view().take(i + 1);
        let ghost seen = unique.deep_view();
        proof {
            assert(upto.drop_last() =~= before);
            assert(upto.last() == combos@[i as int].deep_view());
        }
        let found = holds_combo(&unique, &combos[i]);
        if !found {
            unique.push(copy_combo(&combos[i]));
            assert(unique.deep_view() =~= seen.push(combos@[i as int].deep_view()));
        }
        i += 1;
    }
    assert(combos.deep_view().take(combos.len() as int) =~= combos.deep_view());
    unique
}

/// Counts one more occurrence of `name` in `cards`.
fn count_card(cards: &mut Vec<(String, u32)>, name: &String, Ghost(names): Ghost<Seq<Seq<char>>>)
    requires
        old(cards).deep_view() == tally(names),
    ensures
        final(cards).deep_view() == tally(names.push(name@)),
{
    let ghost before = cards.deep_view();
    let mut k: usize = 0;
    while k < cards.len()
        invariant
            k <= cards.len(),
            cards.deep_view() == before,
            before == tally(names),
            before.len() == distinct(names).len(),
            forall|j: int| 0 <= j < k ==> distinct(names)[j] != name@,
        decreases cards.len() - k,
    {
        proof {
            assert(before.len() == distinct(names).len());
            assert(tally(names)[k as int] == (
                distinct(names)[k as int],
                saturated(occurrences(names, distinct(names)[k as int])),
            ));
            assert(before[k as int] == cards@[k as int].deep_view());
        }
        if cards[k].0 == *name {
            let n: u32 = cards[k].1;
            let more: u32 = if n < u32::MAX {
                n + 1
            } else {
                n
            };
            proof {
                assert(before[k as int] == (name@, n));
                assert(distinct(names)[k as int] == name@);
                assert(distinct(names).contains(name@));
                assert(more == saturated(occurrences(names, name@) + 1));
                lemma_tally_push(names, name@);
                assert(tally(names.push(name@)) == tally(names).update(
                    k as int,
                    (name@, saturated(occurrences(names, name@) + 1)),
                ));
            }
            cards.set(k, (name.clone(), more));
            assert(cards.deep_view() =~= before.update(k as int, (name@, more)));
            return ;
        }
        k += 1;
    }
    cards.push((name.clone(), 1));
    proof {
        lemma_tally_push(names, name@);
        assert(cards.deep_view() =~= before.push((name@, 1u32)));
    }
}

/// How often each card occurs in `combos`: each name once, in the order of
/// first occurrence, with its number of occurrences. A card that occurs
/// twice in one combo counts twice.
pub fn tally_cards(combos: &Vec<Vec<String>>) -> (cards: Vec<(String, u32)>)
    ensures
        cards.deep_view() == tally(card_names(combos.deep_view())),
{
    let mut cards: Vec<(String, u32)> = Vec::new();
    let ghost all = combos.deep_view();
    let mut i: usize = 0;
    assert(all.take(0) =~= Seq::empty());
    assert(cards.deep_view() =~= tally(Seq::empty()));
    while i < combos.len()
        invariant
            i <= combos.len(),
            all == combos.deep_view(),
            cards.deep_view() == tally(card_names(all.take(i as int))),
        decreases combos.len() - i,
    {
        let combo = &combos[i];
        let ghost done = card_names(all.take(i as int));
        let ghost here = combo.deep_view();
        let mut j: usize = 0;
        assert(done + here.take(0) =~= done);
        while j < combo.len()
            invariant
                j <= combo.len(),
                here == combo.deep_view(),
                cards.deep_view() == tally(done + here.take(j as int)),
            decreases combo.len() - j,
        {
            count_card(&mut cards, &combo[j], Ghost(done + here.take(j as int)));
            assert((done + here.take(j as int)).push(combo@[j as int]@) =~= done + here.take(
                j + 1,
            ));
            j += 1;
        }
        proof {
            assert(here.take(combo.len() as int) =~= here);
            let upto = all.take(i + 1);
            assert(upto.drop_last() =~= all.take(i as int));
            assert(upto.last() == here);
            assert(upto =~= all.take(i as int).push(here));
            all.take(i as int).lemma_flatten_push(here);
        }
        i += 1;
    }
    assert(all.take(combos.len() as int) =~= all);
    cards
}

/// Whether `a` ranks below `b` or equals it.
pub fn ranks_below(a: &(String, u32), b: &(String, u32)) -> (leq: bool)
    ensures
        leq == entry_leq(a.deep_view(), b.deep_view()),
{
    if a.1 < b.1 {
        true
    } else if a.1 == b.1 {
        name_precedes(a.0.as_str(), b.0.as_str())
    } else {
        false
    }
}

/// Where the greatest entry of `cards` stands.
fn greatest(cards: &Vec<(String, u32)>) -> (at: usize)
    requires
        cards.len() > 0,
    ensures
        at < cards.len(),
        forall|j: int|
            0 <= j < cards.len() ==> entry_leq(
                #[trigger] cards.deep_view()[j],
                cards.deep_view()[at as int],
            ),
{
    let mut at: usize = 0;
    let mut k: usize = 1;
    proof {
        crate::order::lemma_name_leq_reflexive(cards.deep_view()[0].0);
    }
    while k < cards.len()
        invariant
            at < k <= cards.len(),
            forall|j: int|
                0 <= j < k ==> entry_leq(
                    #[trigger] cards.deep_view()[j],
                    cards.deep_view()[at as int],
                ),
        decreases cards.len() - k,
    {
        if !ranks_below(&cards[k], &cards[at]) {
            proof {
                let top = cards.deep_view()[k as int];
                let was = cards.deep_view()[at as int];
                crate::order::lemma_name_leq_total(top.0, was.0);
                crate::order::lemma_name_leq_reflexive(top.0);
                assert(entry_leq(was, top));
                assert forall|j: int| 0 <= j < k + 1 implies entry_leq(
                    #[trigger] cards.deep_view()[j],
                    top,
                ) by {
                    let e = cards.deep_view()[j];
                    if j < k {
                        assert(entry_leq(e, was));
                        if e.1 == was.1 && was.1 == top.1 {
                            crate::order::lemma_name_leq_transitive(e.0, was.0, top.0);
                        }
                    }
                }
            }
            at = k;
        }
        k += 1;
    }
    at
}

/// The cards in the order of a result: the most frequent card first, and
/// of two cards with the same count the one whose name comes later.
pub fn rank_cards(cards: Vec<(String, u32)>) -> (ranked: Vec<(String, u32)>)
    ensures
        ranked.deep_view() == ranking(cards.deep_view()),
{
    broadcast use vstd::seq_lib::group_to_multiset_ensures;
    broadcast use vstd::multiset::group_multiset_axioms;

    let ghost given = cards.deep_view();
    let mut rest = cards;
    let mut ranked: Vec<(String, u32)> = Vec::new();
    assert(ranked.deep_view() =~= Seq::empty());
    while rest.len() > 0
        invariant
            descending(ranked.deep_view()),
            forall|i: int, j: int|
                0 <= i < ranked.len() && 0 <= j < rest.len() ==> entry_leq(
                    #[trigger] rest.deep_view()[j],
                    #[trigger] ranked.deep_view()[i],
                ),
            ranked.deep_view().to_multiset().add(rest.deep_view().to_multiset())
                == given.to_multiset(),
        decreases rest.len(),
    {
        let ghost pool = rest.deep_view();
        let ghost sofar = ranked.deep_view();
        let at = greatest(&rest);
        let top = rest.remove(at);
        proof {
            assert(rest.deep_view() =~= pool.remove(at as int));
            assert(top.deep_view() == pool[at as int]);
            vstd::seq_lib::to_multiset_remove(pool, at as int);
        }
        ranked.push(top);
        proof {
            let now = ranked.deep_view();
            assert(now =~= sofar.push(pool[at as int]));
            vstd::seq_lib::to_multiset_build(sofar, pool[at as int]);
            assert(pool.contains(pool[at as int]));
            vstd::seq_lib::to_multiset_contains(pool, pool[at as int]);
            assert(now.to_multiset().add(rest.deep_view().to_multiset()) =~= sofar.to_multiset().add(
                pool.to_multiset(),
            ));
            assert forall|i: int, j: int| 0 <= i < j < now.len() implies entry_leq(
                now[j],
                now[i],
            ) by {
                if j == now.len() - 1 {
                    assert(entry_leq(pool[at as int], sofar[i]));
                }
            }
            assert forall|i: int, j: int|
                0 <= i < ranked.len() && 0 <= j < rest.len() implies entry_leq(
                #[trigger] rest.deep_view()[j],
                #[trigger] ranked.deep_view()[i],
            ) by {
                let e = rest.deep_view()[j];
                if j < at {
                    assert(e == pool[j]);
                } else {
                    assert(e == pool[j + 1]);
                }
            }
        }
    }
    proof {
        assert(rest.deep_view() =~= Seq::empty());
        assert(ranked.deep_view().to_multiset() =~= given.to_multiset());
        lemma_descending_is_ranking(given, ranked.deep_view());
    }
    ranked
}

/// The result of a crawl that has found `combos` for the search given by
/// `colors`, `card` and `format`. The cards are counted over all combos as
/// found, repetitions included; the combos are then listed once each.
pub fn aggregate(
    colors: Vec<Color>,
    card: Option<String>,
    format: Option<Format>,
    combos: &Vec<Vec<String>>,
) -> (result: CrawlerResult)
    ensures
        result@ == summary(colors@, card.deep_view(), format, combos.deep_view()),
{
    let cards = rank_cards(tally_cards(combos));
    let unique = dedup_combos(combos);
    CrawlerResult { colors, card, format, cards, combos: unique }
}

/// A result lists no combo twice, and lists exactly the combos found.
pub proof fn law_combos_listed_once(
    colors: Seq<Color>,
    card: Option<Seq<char>>,
    format: Option<Format>,
    combos: Seq<Seq<Seq<char>>>,
)
    ensures
        summary(colors, card, format, combos).combos.no_duplicates(),
        forall|combo: Seq<Seq<char>>|
            summary(colors, card, format, combos).combos.contains(combo) <==> combos.contains(
                combo,
            ),
{
    lemma_distinct(combos);
}

/// The tally holds each name that occurs exactly once, and with it the
/// number of times the name occurs.
pub proof fn lemma_tally(names: Seq<Seq<char>>)
    ensures
        forall|i: int|
            0 <= i < tally(names).len() ==> (#[trigger] tally(names)[i]).1 == saturated(
                occurrences(names, tally(names)[i].0),
            ) && occurrences(names, tally(names)[i].0) > 0,
        forall|i: int, j: int|
            0 <= i < j < tally(names).len() ==> (#[trigger] tally(names)[i]).0 != (
            #[trigger] tally(names)[j]).0,
        forall|name: Seq<char>|
            names.contains(name) <==> exists|i: int|
                0 <= i < tally(names).len() && (#[trigger] tally(names)[i]).0 == name,
{
    broadcast use vstd::seq_lib::group_to_multiset_ensures;

    lemma_distinct(names);
    let d = distinct(names);
    let t = tally(names);
    assert forall|i: int| 0 <= i < t.len() implies (#[trigger] t[i]).1 == saturated(
        occurrences(names, t[i].0),
    ) && occurrences(names, t[i].0) > 0 by {
        assert(d.contains(d[i]));
    }
    assert forall|name: Seq<char>| names.contains(name) <==> exists|i: int|
        0 <= i < t.len() && (#[trigger] t[i]).0 == name by {
        if names.contains(name) {
            assert(d.contains(name));
            let i = choose|i: int| 0 <= i < d.len() && d[i] == name;
            assert(t[i].0 == name);
        }
        if exists|i: int| 0 <= i < t.len() && (#[trigger] t[i]).0 == name {
            let i = choose|i: int| 0 <= i < t.len() && (#[trigger] t[i]).0 == name;
            assert(d.contains(d[i]));
        }
    }
}

/// In a result, every card of the combos found stands exactly once, with
/// the number of times it occurs in the combos as found, before
/// repetitions among the combos are removed; and the cards run from the
/// most frequent down, cards of equal count from the last name down.
pub proof fn law_cards_counted_and_ranked(
    colors: Seq<Color>,
    card: Option<Seq<char>>,
    format: Option<Format>,
    combos: Seq<Seq<Seq<char>>>,
)
    ensures
        descending(summary(colors, card, format, combos).cards),
        forall|i: int|
            0 <= i < summary(colors, card, format, combos).cards.len() ==> ({
                let entry = #[trigger] summary(colors, card, format, combos).cards[i];
                &&& entry.1 == saturated(occurrences(card_names(combos), entry.0))
                &&& occurrences(card_names(combos), entry.0) > 0
            }),
        forall|i: int, j: int|
            0 <= i < j < summary(colors, card, format, combos).cards.len() ==> (#[trigger] summary(
                colors,
                card,
                format,
                combos,
            ).cards[i]).0 != (#[trigger] summary(colors, card, format, combos).cards[j]).0,
        forall|name: Seq<char>|
            card_names(combos).contains(name) <==> exists|i: int|
                0 <= i < summary(colors, card, format, combos).cards.len() && (#[trigger] summary(
                    colors,
                    card,
                    format,
                    combos,
                ).cards[i]).0 == name,
{
    broadcast use vstd::seq_lib::group_to_multiset_ensures;

    let names = card_names(combos);
    let t = tally(names);
    let cards = summary(colors, card, format, combos).cards;
    assert(cards == ranking(t));
    lemma_tally(names);
    crate::order::lemma_ranking(t);
    assert forall|i: int| 0 <= i < cards.len() implies t.contains(#[trigger] cards[i]) by {
        assert(cards.contains(cards[i]));
        assert(cards.to_multiset().count(cards[i]) > 0);
    }
    assert forall|i: int| 0 <= i < t.len() implies cards.contains(#[trigger] t[i]) by {
        assert(t.contains(t[i]));
        assert(t.to_multiset().count(t[i]) > 0);
    }
    assert forall|i: int| 0 <= i < cards.len() implies (#[trigger] cards[i]).1 == saturated(
        occurrences(names, cards[i].0),
    ) && occurrences(names, cards[i].0) > 0 by {
        assert(t.contains(cards[i]));
        let k = choose|k: int| 0 <= k < t.len() && t[k] == cards[i];
        assert(t[k].1 == saturated(occurrences(names, t[k].0)));
    }
    assert(t.no_duplicates()) by {
        assert forall|x: int, y: int| 0 <= x < t.len() && 0 <= y < t.len() && x != y implies t[x]
            != t[y] by {
            if x < y {
                assert(t[x].0 != t[y].0);
            } else {
                assert(t[y].0 != t[x].0);
            }
        }
    }
    assert(cards.no_duplicates()) by {
        t.lemma_multiset_has_no_duplicates();
        cards.lemma_multiset_has_no_duplicates_conv();
    }
    assert forall|i: int, j: int| 0 <= i < j < cards.len() implies (#[trigger] cards[i]).0 != (
    #[trigger] cards[j]).0 by {
        assert(t.contains(cards[i]));
        assert(t.contains(cards[j]));
        let a = choose|a: int| 0 <= a < t.len() && t[a] == cards[i];
        let b = choose|b: int| 0 <= b < t.len() && t[b] == cards[j];
        assert(cards[i] != cards[j]);
        if a < b {
            assert(t[a].0 != t[b].0);
        } else if b < a {
            assert(t[b].0 != t[a].0);
        }
    }
    assert forall|name: Seq<char>| names.contains(name) <==> exists|i: int|
        0 <= i < cards.len() && (#[trigger] cards[i]).0 == name by {
        if names.contains(name) {
            let k = choose|k: int| 0 <= k < t.len() && (#[trigger] t[k]).0 == name;
            assert(cards.contains(t[k]));
            let i = choose|i: int| 0 <= i < cards.len() && cards[i] == t[k];
            assert(cards[i].0 == name);
        }
        if exists|i: int| 0 <= i < cards.len() && (#[trigger] cards[i]).0 == name {
            let i = choose|i: int| 0 <= i < cards.len() && (#[trigger] cards[i]).0 == name;
            assert(t.contains(cards[i]));
            let k = choose|k: int| 0 <= k < t.len() && t[k] == cards[i];
            assert(t[k].0 == name);
        }
    }
}

/// A crawl that has found no combo has an empty result: no combos and no
/// cards.
pub proof fn law_nothing_found(colors: Seq<Color>, card: Option<Seq<char>>, format: Option<Format>)
    ensures
        summary(colors, card, format, Seq::empty()).combos == Seq::<Seq<Seq<char>>>::empty(),
        summary(colors, card, format, Seq::empty()).cards == Seq::<Entry>::empty(),
{
    let none = Seq::<Seq<Seq<char>>>::empty();
    assert(card_names(none) =~= Seq::empty());
    assert(tally(Seq::empty()) =~= Seq::empty());
    crate::order::lemma_ranking(Seq::<Entry>::empty());
    assert(ranking(Seq::<Entry>::empty()) =~= Seq::empty());
    assert(distinct(none) =~= Seq::empty());
}

} // verus!
