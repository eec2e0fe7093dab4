//! The combo report: what the crawls around one card have found, boiled
//! down to the combos worth reading.
//!
//! The crawls for the cards that stand in combos with a card each come back
//! with their combos. The report takes the small ones among them, drops the
//! combos that hold a card seen too rarely, drops repetitions that stand
//! next to each other, and lists the cards and the combos that are left.

use vstd::prelude::*;
use crate::aggregate::card_names;
use crate::aggregate::copy_combo;
use crate::aggregate::distinct;
use crate::aggregate::lemma_tally;
use crate::aggregate::occurrences;
use crate::aggregate::same_combo;
use crate::aggregate::saturated;
use crate::aggregate::tally;
use crate::aggregate::tally_cards;
use crate::aggregate::CrawlerResult;
use crate::text::decimal;
use crate::text::join;
use crate::text::push_decimal;
use crate::text::push_joined;
use crate::text::push_str;
use crate::text::str_eq;
use crate::text::text_of;

verus! {

/// A combo, as contracts see it.
pub type Combo = Seq<Seq<char>>;

/// The rules of a report.
#[derive(Debug, Clone, Copy, PartialEq, Eq, Structural)]
pub struct ReportRules {
    /// The most cards a combo may hold to be taken into account.
    pub max_cards: usize,
    /// How often a card has to occur for its combos to be reported.
    pub min_count: u32,
}

/// What a report lists.
#[derive(Debug, Clone)]
pub struct ComboReport {
    /// The card asked for and the cards of the combos left, each once.
    pub cards: Vec<String>,
    /// The combos left that hold the card asked for.
    pub combos: Vec<Vec<String>>,
}

/// A report, as contracts see it.
pub struct ReportView {
    pub cards: Seq<Seq<char>>,
    pub combos: Seq<Combo>,
}

impl View for ComboReport {
    type V = ReportView;

    open spec fn view(&self) -> ReportView {
        ReportView { cards: self.cards.deep_view(), combos: self.combos.deep_view() }
    }
}

/// Whether a combo holds `max_cards` cards at most.
pub open spec fn is_small(max_cards: usize) -> spec_fn(Combo) -> bool {
    |combo: Combo| combo.len() <= max_cards
}

/// Whether `name` is seen too rarely among `names` for its combos to be
/// reported: fewer than `min_count` times. The card asked for is never
/// rare.
pub open spec fn is_rare(
    names: Seq<Seq<char>>,
    card: Option<Seq<char>>,
    min_count: u32,
    name: Seq<char>,
) -> bool {
    saturated(occurrences(names, name)) < min_count && card != Some(name)
}

/// Whether a combo holds a card, and no card that is rare among `names`.
pub open spec fn is_usable(names: Seq<Seq<char>>, card: Option<Seq<char>>, min_count: u32)
    -> spec_fn(Combo) -> bool {
    |combo: Combo|
        combo.len() > 0 && forall|k: int|
            0 <= k < combo.len() ==> !is_rare(names, card, min_count, #[trigger] combo[k])
}

/// Whether a combo holds the card asked for; every combo does where no
/// card was asked for.
pub open spec fn holds_card(card: Option<Seq<char>>) -> spec_fn(Combo) -> bool {
    |combo: Combo|
        match card {
            Some(name) => combo.contains(name),
            None => true,
        }
}

/// `s` without the repetitions that stand next to each other: of a run of
/// equal items only the first stays.
pub open spec fn squeeze<T>(s: Seq<T>) -> Seq<T>
    decreases s.len(),
{
    if s.len() <= 1 {
        s
    } else {
        let front = squeeze(s.drop_last());
        if s.last() == s[s.len() - 2] {
            front
        } else {
            front.push(s.last())
        }
    }
}

/// The combos of all results, result after result.
pub open spec fn all_combos(results: Seq<CrawlerResult>) -> Seq<Combo>
    decreases results.len(),
{
    if results.len() == 0 {
        Seq::empty()
    } else {
        all_combos(results.drop_last()) + results.last()@.combos
    }
}

/// The combos that a report goes by: the small ones among the combos
/// found.
pub open spec fn pool(found: Seq<Combo>, rules: ReportRules) -> Seq<Combo> {
    found.filter(is_small(rules.max_cards))
}

/// The combos left for a report: those of the pool that hold a card and no
/// rare card, without repetitions that stand next to each other.
pub open spec fn combos_left(found: Seq<Combo>, card: Option<Seq<char>>, rules: ReportRules) -> Seq<
    Combo,
> {
    let small = pool(found, rules);
    squeeze(small.filter(is_usable(card_names(small), card, rules.min_count)))
}

/// The card asked for, as a list of one name or none.
pub open spec fn asked(card: Option<Seq<char>>) -> Seq<Seq<char>> {
    match card {
        Some(name) => seq![name],
        None => Seq::empty(),
    }
}

/// The report on the combos `found` around `card`.
pub open spec fn report(found: Seq<Combo>, card: Option<Seq<char>>, rules: ReportRules)
    -> ReportView {
    let left = combos_left(found, card, rules);
    ReportView {
        cards: distinct(asked(card) + card_names(left)),
        combos: left.filter(holds_card(card)),
    }
}

/// The text of a report: the number of cards and the cards, one to a line,
/// then the number of combos and the combos, one to a line, the cards of a
/// combo set apart by commas.
pub open spec fn report_text(report: ReportView) -> Seq<char> {
    "-----\nCards: "@ + decimal(report.cards.len()) + "\n-----\n"@ + join(report.cards, "\n"@)
        + "\n\n\n\n-----\nCombos: "@ + decimal(report.combos.len()) + "\n-----\n"@ + join(
        report.combos.map_values(|combo: Combo| join(combo, ", "@)),
        "\n"@,
    )
}

/// The first `i + 1` items, filtered, are the first `i` items, filtered,
/// and then the next item where it passes.
pub proof fn lemma_filter_next<T>(s: Seq<T>, i: int, pred: spec_fn(T) -> bool)
    requires
        0 <= i < s.len(),
    ensures
        s.take(i + 1).filter(pred) == if pred(s[i]) {
            s.take(i).filter(pred).push(s[i])
        } else {
            s.take(i).filter(pred)
        },
{
    reveal(Seq::filter);
    let upto = s.take(i + 1);
    assert(upto.drop_last() =~= s.take(i));
    assert(upto.last() == s[i]);
}

/// The first `i + 1` items, squeezed, are the first `i` items, squeezed,
/// and then the next item where it differs from the one before it.
pub proof fn lemma_squeeze_next<T>(s: Seq<T>, i: int)
    requires
        0 <= i < s.len(),
    ensures
        squeeze(s.take(i + 1)) == if i > 0 && s[i] == s[i - 1] {
            squeeze(s.take(i))
        } else {
            squeeze(s.take(i)).push(s[i])
        },
        i > 0 ==> squeeze(s.take(i)).len() > 0 && squeeze(s.take(i)).last() == s[i - 1],
    decreases i,
{
    let upto = s.take(i + 1);
    assert(upto.drop_last() =~= s.take(i));
    assert(upto.last() == s[i]);
    if i == 0 {
        assert(squeeze(s.take(0)) =~= Seq::empty());
        assert(upto =~= Seq::<T>::empty().push(s[0]));
    } else {
        assert(upto[upto.len() - 2] == s[i - 1]);
        lemma_squeeze_next(s, i - 1);
    }
}

/// Whether `combo` holds the card `name`.
pub fn holds_name(combo: &Vec<String>, name: &str) -> (found: bool)
    ensures
        found == combo.deep_view().contains(name@),
{
    let mut k: usize = 0;
    while k < combo.len()
        invariant
            k <= combo.len(),
            forall|j: int| 0 <= j < k ==> combo.deep_view()[j] != name@,
        decreases combo.len() - k,
    {
        if str_eq(combo[k].as_str(), name) {
            assert(combo.deep_view()[k as int] == name@);
            return true;
        }
        k += 1;
    }
    false
}

/// Appends to `out` the combos of `combos` that hold `max_cards` cards at
/// most.
fn take_small(out: &mut Vec<Vec<String>>, combos: &Vec<Vec<String>>, max_cards: usize)
    ensures
        final(out).deep_view() == old(out).deep_view() + combos.deep_view().filter(
            is_small(max_cards),
        ),
{
    let ghost before = out.deep_view();
    let ghost all = combos.deep_view();
    let mut i: usize = 0;
    proof {
        reveal(Seq::filter);
        assert(all.take(0) =~= Seq::empty());
        assert(out.deep_view() =~= before + all.take(0).filter(is_small(max_cards)));
    }
    while i < combos.len()
        invariant
            i <= combos.len(),
            all == combos.deep_view(),
            out.deep_view() == before + all.take(i as int).filter(is_small(max_cards)),
        decreases combos.len() - i,
    {
        proof {
            lemma_filter_next(all, i as int, is_small(max_cards));
        }
        if combos[i].len() <= max_cards {
            let ghost prior = out.deep_view();
            out.push(copy_combo(&combos[i]));
            assert(out.deep_view() =~= prior.push(all[i as int]));
        }
        i += 1;
    }
    assert(all.take(combos.len() as int) =~= all);
}

/// The small combos among the combos of all results.
pub fn gather(results: &Vec<CrawlerResult>, rules: ReportRules) -> (small: Vec<Vec<String>>)
    ensures
        small.deep_view() == pool(all_combos(results@), rules),
{
    let mut small: Vec<Vec<String>> = Vec::new();
    let mut i: usize = 0;
    proof {
        reveal(Seq::filter);
        assert(results@.take(0) =~= Seq::empty());
        assert(small.deep_view() =~= pool(all_combos(results@.take(0)), rules));
    }
    while i < results.len()
        invariant
            i <= results.len(),
            small.deep_view() == pool(all_combos(results@.take(i as int)), rules),
        decreases results.len() - i,
    {
        take_small(&mut small, &results[i].combos, rules.max_cards);
        proof {
            let upto = results@.take(i + 1);
            assert(upto.drop_last() =~= results@.take(i as int));
            assert(upto.last() == results@[i as int]);
            Seq::filter_distributes_over_add(
                all_combos(results@.take(i as int)),
                results@[i as int]@.combos,
                is_small(rules.max_cards),
            );
        }
        i += 1;
    }
    assert(results@.take(results.len() as int) =~= results@);
    small
}

/// Whether `name` is the card asked for.
fn is_asked(card: &Option<String>, name: &str) -> (same: bool)
    ensures
        same == (card.deep_view() == Some(name@)),
{
    match card {
        Some(asked) => str_eq(asked.as_str(), name),
        None => false,
    }
}

/// Whether `combo` holds a card, and no card that is rare.
fn usable(
    combo: &Vec<String>,
    counts: &Vec<(String, u32)>,
    card: &Option<String>,
    min_count: u32,
    Ghost(names): Ghost<Seq<Seq<char>>>,
) -> (keep: bool)
    requires
        counts.deep_view() == tally(names),
        forall|k: int| 0 <= k < combo.len() ==> names.contains(#[trigger] combo.deep_view()[k]),
    ensures
        keep == is_usable(names, card.deep_view(), min_count)(combo.deep_view()),
{
    if combo.len() == 0 {
        return false;
    }
    let ghost seen = combo.deep_view();
    let mut k: usize = 0;
    while k < combo.len()
        invariant
            k <= combo.len(),
            seen == combo.deep_view(),
            counts.deep_view() == tally(names),
            forall|j: int| 0 <= j < combo.len() ==> names.contains(#[trigger] seen[j]),
            forall|j: int|
                0 <= j < k ==> !is_rare(names, card.deep_view(), min_count, #[trigger] seen[j]),
        decreases combo.len() - k,
    {
        assert(seen[k as int] == combo@[k as int]@);
        assert(names.contains(seen[k as int]));
        let count = count_of(counts, combo[k].as_str(), Ghost(names));
        if count < min_count && !is_asked(card, combo[k].as_str()) {
            assert(is_rare(names, card.deep_view(), min_count, seen[k as int]));
            return false;
        }
        k += 1;
    }
    true
}

/// How often `name` occurs, by the tally `counts`.
fn count_of(counts: &Vec<(String, u32)>, name: &str, Ghost(names): Ghost<Seq<Seq<char>>>) -> (count:
    u32)
    requires
        counts.deep_view() == tally(names),
        names.contains(name@),
    ensures
        count == saturated(occurrences(names, name@)),
{
    proof {
        lemma_tally(names);
    }
    let mut i: usize = 0;
    while i < counts.len()
        invariant
            i <= counts.len(),
            counts.deep_view() == tally(names),
            forall|j: int| 0 <= j < i ==> (#[trigger] tally(names)[j]).0 != name@,
        decreases counts.len() - i,
    {
        assert(counts.deep_view()[i as int] == (counts@[i as int].0@, counts@[i as int].1));
        if str_eq(counts[i].0.as_str(), name) {
            proof {
                lemma_tally(names);
            }
            return counts[i].1;
        }
        i += 1;
    }
    proof {
        lemma_tally(names);
    }
    unreached()
}

/// The combos left for a report, out of the small combos.
fn sift(small: &Vec<Vec<String>>, card: &Option<String>, min_count: u32) -> (left: Vec<
    Vec<String>,
>)
    ensures
        left.deep_view() == squeeze(
            small.deep_view().filter(
                is_usable(card_names(small.deep_view()), card.deep_view(), min_count),
            ),
        ),
{
    let counts = tally_cards(small);
    let ghost all = small.deep_view();
    let ghost names = card_names(all);
    let ghost keep = is_usable(names, card.deep_view(), min_count);
    let mut kept: Vec<Vec<String>> = Vec::new();
    let mut i: usize = 0;
    proof {
        reveal(Seq::filter);
        assert(all.take(0) =~= Seq::empty());
        assert(kept.deep_view() =~= all.take(0).filter(keep));
    }
    while i < small.len()
        invariant
            i <= small.len(),
            all == small.deep_view(),
            names == card_names(all),
            keep == is_usable(names, card.deep_view(), min_count),
            counts.deep_view() == tally(names),
            kept.deep_view() == all.take(i as int).filter(keep),
        decreases small.len() - i,
    {
        proof {
            lemma_filter_next(all, i as int, keep);
            assert forall|k: int| 0 <= k < small@[i as int].len() implies names.contains(
                #[trigger] small@[i as int].deep_view()[k],
            ) by {
                lemma_flatten_holds(all, i as int, k);
            }
        }
        if usable(&small[i], &counts, card, min_count, Ghost(names)) {
            let ghost prior = kept.deep_view();
            kept.push(copy_combo(&small[i]));
            assert(kept.deep_view() =~= prior.push(all[i as int]));
        }
        i += 1;
    }
    assert(all.take(small.len() as int) =~= all);
    let ghost usable = kept.deep_view();
    let mut left: Vec<Vec<String>> = Vec::new();
    let mut j: usize = 0;
    assert(usable.take(0) =~= Seq::empty());
    assert(left.deep_view() =~= squeeze(usable.take(0)));
    while j < kept.len()
        invariant
            j <= kept.len(),
            usable == kept.deep_view(),
            left.deep_view() == squeeze(usable.take(j as int)),
        decreases kept.len() - j,
    {
        proof {
            lemma_squeeze_next(usable, j as int);
        }
        if j == 0 || !same_combo(&kept[j], &kept[j - 1]) {
            let ghost prior = left.deep_view();
            left.push(copy_combo(&kept[j]));
            assert(left.deep_view() =~= prior.push(usable[j as int]));
        }
        j += 1;
    }
    assert(usable.take(kept.len() as int) =~= usable);
    left
}

/// Every card of every combo stands among the names of all combos.
pub proof fn lemma_flatten_holds(combos: Seq<Combo>, i: int, k: int)
    requires
        0 <= i < combos.len(),
        0 <= k < combos[i].len(),
    ensures
        card_names(combos).contains(combos[i][k]),
    decreases combos.len(),
{
    let rest = combos.drop_first();
    assert(combos.flatten() =~= combos[0] + rest.flatten());
    if i == 0 {
        assert((combos[0] + rest.flatten())[k] == combos[0][k]);
    } else {
        lemma_flatten_holds(rest, i - 1, k);
        let at = choose|at: int| 0 <= at < rest.flatten().len() && rest.flatten()[at] == rest[i - 1][k];
        assert((combos[0] + rest.flatten())[combos[0].len() + at] == combos[i][k]);
    }
}

/// Adds `name` to `cards` unless it stands there.
fn note_card(cards: &mut Vec<String>, name: &String, Ghost(names): Ghost<Seq<Seq<char>>>)
    requires
        old(cards).deep_view() == distinct(names),
    ensures
        final(cards).deep_view() == distinct(names.push(name@)),
{
    let ghost before = cards.deep_view();
    proof {
        assert(names.push(name@).drop_last() =~= names);
    }
    if !holds_name(cards, name.as_str()) {
        cards.push(name.clone());
        assert(cards.deep_view() =~= before.push(name@));
    }
}

/// The card asked for and the cards of `combos`, each once, in the order
/// of first occurrence.
fn list_cards(card: &Option<String>, combos: &Vec<Vec<String>>) -> (cards: Vec<String>)
    ensures
        cards.deep_view() == distinct(asked(card.deep_view()) + card_names(combos.deep_view())),
{
    let ghost all = combos.deep_view();
    let ghost first = asked(card.deep_view());
    let mut cards: Vec<String> = Vec::new();
    assert(cards.deep_view() =~= distinct(Seq::<Seq<char>>::empty()));
    match card {
        Some(name) => {
            note_card(&mut cards, name, Ghost(Seq::empty()));
            assert(Seq::<Seq<char>>::empty().push(name@) =~= first);
        },
        None => {
            assert(first =~= Seq::empty());
        },
    }
    let mut i: usize = 0;
    assert(all.take(0) =~= Seq::empty());
    assert(first + card_names(all.take(0)) =~= first);
    while i < combos.len()
        invariant
            i <= combos.len(),
            all == combos.deep_view(),
            cards.deep_view() == distinct(first + card_names(all.take(i as int))),
        decreases combos.len() - i,
    {
        let combo = &combos[i];
        let ghost done = first + card_names(all.take(i as int));
        let ghost here = combo.deep_view();
        let mut j: usize = 0;
        assert(done + here.take(0) =~= done);
        while j < combo.len()
            invariant
                j <= combo.len(),
                here == combo.deep_view(),
                cards.deep_view() == distinct(done + here.take(j as int)),
            decreases combo.len() - j,
        {
            note_card(&mut cards, &combo[j], Ghost(done + here.take(j as int)));
            assert((done + here.take(j as int)).push(combo@[j as int]@) =~= done + here.take(
                j + 1,
            ));
            j += 1;
        }
        proof {
            assert(here.take(combo.len() as int) =~= here);
            let upto = all.take(i + 1);
            assert(upto =~= all.take(i as int).push(here));
            all.take(i as int).lemma_flatten_push(here);
            assert(done + here =~= first + card_names(upto));
        }
        i += 1;
    }
    assert(all.take(combos.len() as int) =~= all);
    cards
}

/// The combos of `combos` that hold the card asked for; all of them where
/// no card was asked for.
pub fn with_card(card: &Option<String>, combos: &Vec<Vec<String>>) -> (held: Vec<Vec<String>>)
    ensures
        held.deep_view() == combos.deep_view().filter(holds_card(card.deep_view())),
{
    let ghost all = combos.deep_view();
    let ghost keep = holds_card(card.deep_view());
    let mut held: Vec<Vec<String>> = Vec::new();
    let mut i: usize = 0;
    proof {
        reveal(Seq::filter);
        assert(all.take(0) =~= Seq::empty());
        assert(held.deep_view() =~= all.take(0).filter(keep));
    }
    while i < combos.len()
        invariant
            i <= combos.len(),
            all == combos.deep_view(),
            keep == holds_card(card.deep_view()),
            held.deep_view() == all.take(i as int).filter(keep),
        decreases combos.len() - i,
    {
        proof {
            lemma_filter_next(all, i as int, keep);
        }
        let wanted = match card {
            Some(name) => holds_name(&combos[i], name.as_str()),
            None => true,
        };
        if wanted {
            let ghost prior = held.deep_view();
            held.push(copy_combo(&combos[i]));
            assert(held.deep_view() =~= prior.push(all[i as int]));
        }
        i += 1;
    }
    assert(all.take(combos.len() as int) =~= all);
    held
}

/// The report on what the crawls `results` have found around `card`.
pub fn make_report(results: &Vec<CrawlerResult>, card: &Option<String>, rules: ReportRules) -> (made:
    ComboReport)
    ensures
        made@ == report(all_combos(results@), card.deep_view(), rules),
{
    let small = gather(results, rules);
    let left = sift(&small, card, rules.min_count);
    ComboReport { cards: list_cards(card, &left), combos: with_card(card, &left) }
}

/// The names of the cards of `result` other than the card asked for, in
/// the order of the result: the cards to crawl next.
pub open spec fn next_cards(cards: Seq<(Seq<char>, u32)>, card: Option<Seq<char>>) -> Seq<
    Seq<char>,
> {
    cards.map_values(|entry: (Seq<char>, u32)| entry.0).filter(
        |name: Seq<char>| card != Some(name),
    )
}

/// The names of the cards of `result` other than the card asked for.
pub fn follow_up_cards(result: &CrawlerResult, card: &Option<String>) -> (names: Vec<String>)
    ensures
        names.deep_view() == next_cards(result@.cards, card.deep_view()),
{
    let ghost all = result@.cards.map_values(|entry: (Seq<char>, u32)| entry.0);
    let ghost keep = |name: Seq<char>| card.deep_view() != Some(name);
    let mut names: Vec<String> = Vec::new();
    let mut i: usize = 0;
    proof {
        reveal(Seq::filter);
        assert(all.take(0) =~= Seq::empty());
        assert(names.deep_view() =~= all.take(0).filter(keep));
    }
    while i < result.cards.len()
        invariant
            i <= result.cards.len(),
            all == result@.cards.map_values(|entry: (Seq<char>, u32)| entry.0),
            all.len() == result.cards.len(),
            keep == |name: Seq<char>| card.deep_view() != Some(name),
            names.deep_view() == all.take(i as int).filter(keep),
        decreases result.cards.len() - i,
    {
        proof {
            lemma_filter_next(all, i as int, keep);
            assert(all[i as int] == result.cards@[i as int].0@);
        }
        if !is_asked(card, result.cards[i].0.as_str()) {
            let ghost prior = names.deep_view();
            names.push(result.cards[i].0.clone());
            assert(names.deep_view() =~= prior.push(all[i as int]));
        }
        i += 1;
    }
    assert(all.take(result.cards.len() as int) =~= all);
    names
}

/// The text of `report`.
pub fn render_report(report: &ComboReport) -> (text: String)
    ensures
        text@ == report_text(report@),
{
    let mut out: Vec<char> = Vec::new();
    push_str(&mut out, "-----\nCards: ");
    push_decimal(&mut out, report.cards.len() as u64);
    push_str(&mut out, "\n-----\n");
    push_joined(&mut out, &report.cards, "\n");
    push_str(&mut out, "\n\n\n\n-----\nCombos: ");
    push_decimal(&mut out, report.combos.len() as u64);
    push_str(&mut out, "\n-----\n");
    let ghost head = out@;
    let ghost lines = report@.combos.map_values(|combo: Combo| join(combo, ", "@));
    let mut i: usize = 0;
    assert(lines.take(0) =~= Seq::empty());
    assert(out@ =~= head + join(lines.take(0), "\n"@));
    while i < report.combos.len()
        invariant
            i <= report.combos.len(),
            lines == report@.combos.map_values(|combo: Combo| join(combo, ", "@)),
            lines.len() == report.combos.len(),
            out@ == head + join(lines.take(i as int), "\n"@),
        decreases report.combos.len() - i,
    {
        if i > 0 {
            push_str(&mut out, "\n");
        }
        push_joined(&mut out, &report.combos[i], ", ");
        proof {
            let upto = lines.take(i + 1);
            assert(upto.drop_last() =~= lines.take(i as int));
            assert(upto.last() == join(report.combos@[i as int].deep_view(), ", "@));
            if i == 0 {
                assert(upto[0] == upto.last());
            }
            assert(out@ =~= head + join(upto, "\n"@));
        }
        i += 1;
    }
    assert(lines.take(report.combos.len() as int) =~= lines);
    assert(out@ =~= report_text(report@));
    text_of(&out)
}

/// What is squeezed holds the items it held before, and no two equal
/// items next to each other.
pub proof fn lemma_squeeze<T>(s: Seq<T>)
    ensures
        forall|x: T| squeeze(s).contains(x) <==> s.contains(x),
        forall|i: int|
            0 <= i < squeeze(s).len() - 1 ==> #[trigger] squeeze(s)[i] != squeeze(s)[i + 1],
        s.len() > 0 ==> squeeze(s).len() > 0 && squeeze(s).last() == s.last(),
        squeeze(s).len() <= s.len(),
    decreases s.len(),
{
    if s.len() > 1 {
        let front = s.drop_last();
        lemma_squeeze(front);
        let q = squeeze(front);
        let same = s.last() == s[s.len() - 2];
        assert(front.last() == s[s.len() - 2]);
        assert(squeeze(s) == if same {
            q
        } else {
            q.push(s.last())
        });
        assert forall|x: T| s.contains(x) implies squeeze(s).contains(x) by {
            let i = choose|i: int| 0 <= i < s.len() && s[i] == x;
            if i < s.len() - 1 {
                assert(front[i] == x);
                assert(front.contains(x));
                assert(q.contains(x));
                let k = choose|k: int| 0 <= k < q.len() && q[k] == x;
                assert(squeeze(s)[k] == x);
            } else if same {
                assert(q[q.len() - 1] == x);
            } else {
                assert(q.push(s.last())[q.len() as int] == x);
            }
        }
        assert forall|x: T| squeeze(s).contains(x) implies s.contains(x) by {
            let k = choose|k: int| 0 <= k < squeeze(s).len() && squeeze(s)[k] == x;
            if k < q.len() {
                assert(q[k] == x);
                assert(q.contains(x));
                assert(front.contains(x));
                let i = choose|i: int| 0 <= i < front.len() && front[i] == x;
                assert(s[i] == x);
            } else {
                assert(s[s.len() - 1] == x);
            }
        }
    } else if s.len() == 1 {
        assert(squeeze(s)[0] == s[0]);
    }
}

/// What a report lists. Each combo listed was found, holds a card and no
/// more cards than the rules allow, holds the card asked for, and holds no
/// card that is rare among the small combos found. The cards listed are
/// listed once each, and the card asked for comes first.
pub proof fn law_report_keeps_the_rules(
    found: Seq<Combo>,
    card: Option<Seq<char>>,
    rules: ReportRules,
)
    ensures
        forall|i: int|
            0 <= i < report(found, card, rules).combos.len() ==> ({
                let combo = #[trigger] report(found, card, rules).combos[i];
                &&& found.contains(combo)
                &&& 0 < combo.len() <= rules.max_cards
                &&& holds_card(card)(combo)
                &&& is_usable(card_names(pool(found, rules)), card, rules.min_count)(combo)
            }),
        report(found, card, rules).cards.no_duplicates(),
        card matches Some(name) ==> report(found, card, rules).cards.len() > 0 && report(
            found,
            card,
            rules,
        ).cards[0] == name,
{
    let small = pool(found, rules);
    let keep = is_usable(card_names(small), card, rules.min_count);
    let usable = small.filter(keep);
    let left = squeeze(usable);
    let listed = left.filter(holds_card(card));
    assert(listed == report(found, card, rules).combos);
    lemma_squeeze(usable);
    assert forall|i: int| 0 <= i < listed.len() implies ({
        let combo = #[trigger] listed[i];
        &&& found.contains(combo)
        &&& 0 < combo.len() <= rules.max_cards
        &&& holds_card(card)(combo)
        &&& keep(combo)
    }) by {
        let combo = listed[i];
        left.lemma_filter_pred(holds_card(card), i);
        lemma_filter_holds(left, holds_card(card), combo);
        assert(usable.contains(combo));
        lemma_filter_holds(small, keep, combo);
        lemma_filter_holds(found, is_small(rules.max_cards), combo);
    }
    let names = asked(card) + card_names(left);
    crate::aggregate::lemma_distinct(names);
    match card {
        Some(name) => {
            lemma_distinct_starts(names);
            assert(names[0] == name);
        },
        None => {},
    }
}

/// What passes a filter was in the list and passes the test.
pub proof fn lemma_filter_holds<T>(s: Seq<T>, pred: spec_fn(T) -> bool, x: T)
    requires
        s.filter(pred).contains(x),
    ensures
        s.contains(x),
        pred(x),
    decreases s.len(),
{
    reveal(Seq::filter);
    if s.len() > 0 {
        let front = s.drop_last();
        if pred(s.last()) && s.last() == x {
            assert(s[s.len() - 1] == x);
        } else {
            let f = front.filter(pred);
            let k = choose|k: int| 0 <= k < s.filter(pred).len() && s.filter(pred)[k] == x;
            if pred(s.last()) {
                assert(f.push(s.last())[k] == x);
                assert(k < f.len());
            }
            assert(f[k] == x);
            assert(f.contains(x));
            lemma_filter_holds(front, pred, x);
            let i = choose|i: int| 0 <= i < front.len() && front[i] == x;
            assert(s[i] == x);
        }
    }
}

/// A list without its repetitions starts as the list does.
pub proof fn lemma_distinct_starts<T>(s: Seq<T>)
    requires
        s.len() > 0,
    ensures
        distinct(s).len() > 0,
        distinct(s)[0] == s[0],
    decreases s.len(),
{
    if s.len() > 1 {
        lemma_distinct_starts(s.drop_last());
    } else {
        assert(distinct(s.drop_last()) =~= Seq::empty());
    }
}

} // verus!
