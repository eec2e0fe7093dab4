//! The search query: which URL asks the combo database for the combos of a
//! card, a set of colors and a format, and which URL holds a given page of
//! the answer.

use vstd::prelude::*;
use crate::color::Color;
use crate::color::Format;
use crate::text::chars_of;
use crate::text::decimal;
use crate::text::escape;
use crate::text::join;
use crate::text::push_chars;
use crate::text::push_decimal;
use crate::text::push_str;
use crate::text::text_of;
use crate::text::trim;
use crate::text::trim_and_escape;

verus! {

impl Format {
    /// The word that stands for this format in a search query.
    pub open spec fn keyword_spec(self) -> Seq<char> {
        match self {
            Format::Brawl => "brawl"@,
            Format::Commander => "commander"@,
        }
    }

    /// The word that stands for this format in a search query.
    pub fn keyword(self) -> (word: &'static str)
        ensures
            word@ == self.keyword_spec(),
    {
        match self {
            Format::Brawl => "brawl",
            Format::Commander => "commander",
        }
    }
}

/// The letters of `colors`, in the order given.
pub open spec fn color_letters(colors: Seq<Color>) -> Seq<char> {
    colors.map_values(|c: Color| c.letter_spec())
}

/// One search term: the parameter's name, an escaped colon, and the text,
/// between escaped double quotes where `use_quotes` is set.
pub open spec fn make_param(param: Seq<char>, text: Seq<char>, use_quotes: bool) -> Seq<char> {
    if use_quotes {
        param + "%3A%22"@ + text + "%22"@
    } else {
        param + "%3A"@ + text
    }
}

/// The search terms of a request, in the order card, colors, format. A term
/// is left out where the request does not constrain it: no card name, no
/// colors, no format.
pub open spec fn search_params(
    colors: Seq<Color>,
    card: Option<Seq<char>>,
    format: Option<Format>,
) -> Seq<Seq<char>> {
    let card_term = match card {
        Some(name) => seq![make_param("card"@, escape(trim(name)), true)],
        None => Seq::empty(),
    };
    let color_term = if colors.len() > 0 {
        seq![make_param("ci"@, color_letters(colors), true)]
    } else {
        Seq::empty()
    };
    let format_term = match format {
        Some(f) => seq![make_param("legal"@, f.keyword_spec(), false)],
        None => Seq::empty(),
    };
    card_term + color_term + format_term
}

/// The URL that searches for a request: the site's search address followed
/// by the request's terms, an escaped space between each two.
pub open spec fn search_url(
    colors: Seq<Color>,
    card: Option<Seq<char>>,
    format: Option<Format>,
) -> Seq<char> {
    "https://commanderspellbook.com/search/?q="@ + join(
        search_params(colors, card, format),
        "%20"@,
    )
}

/// The URL of page `page` of the results found at `base`.
pub open spec fn page_url_spec(base: Seq<char>, page: nat) -> Seq<char> {
    base + "&page="@ + decimal(page)
}

fn build_param(param: &str, text: &Vec<char>, use_quotes: bool) -> (term: Vec<char>)
    ensures
        term@ == make_param(param@, text@, use_quotes),
{
    let mut term: Vec<char> = Vec::new();
    push_str(&mut term, param);
    if use_quotes {
        push_str(&mut term, "%3A%22");
    } else {
        push_str(&mut term, "%3A");
    }
    let mut i: usize = 0;
    let ghost head = term@;
    while i < text.len()
        invariant
            i <= text.len(),
            term@ == head + text@.take(i as int),
        decreases text.len() - i,
    {
        term.push(text[i]);
        assert(text@.take(i + 1) =~= text@.take(i as int).push(text@[i as int]));
        i += 1;
    }
    assert(text@.take(text.len() as int) =~= text@);
    if use_quotes {
        push_str(&mut term, "%22");
    }
    assert(term@ =~= make_param(param@, text@, use_quotes));
    term
}

fn letters_of(colors: &Vec<Color>) -> (letters: Vec<char>)
    ensures
        letters@ == color_letters(colors@),
{
    let mut letters: Vec<char> = Vec::new();
    let mut i: usize = 0;
    while i < colors.len()
        invariant
            i <= colors.len(),
            letters@ == color_letters(colors@.take(i as int)),
        decreases colors.len() - i,
    {
        letters.push(colors[i].letter());
        assert(color_letters(colors@.take(i + 1)) =~= color_letters(colors@.take(i as int)).push(
            colors@[i as int].letter_spec(),
        ));
        i += 1;
    }
    assert(colors@.take(colors.len() as int) =~= colors@);
    letters
}

/// The URL that searches the combo database for the combos of `card`
/// within `colors` that are legal in `format`.
pub fn commander_spellbook_search(
    colors: &Vec<Color>,
    card: Option<String>,
    format: Option<Format>,
) -> (url: String)
    ensures
        url@ == search_url(colors@, card.deep_view(), format),
{
    let ghost terms = search_params(colors@, card.deep_view(), format);
    let ghost sep = "%20"@;
    let mut url: Vec<char> = Vec::new();
    push_str(&mut url, "https://commanderspellbook.com/search/?q=");
    let ghost head = url@;
    let mut count: usize = 0;
    let ghost mut sofar: Seq<Seq<char>> = Seq::empty();
    if let Some(name) = &card {
        let text = trim_and_escape(name.as_str());
        let term = build_param("card", &text, true);
        push_chars(&mut url, &term);
        proof {
            sofar = sofar.push(term@);
        }
        count = 1;
    }
    assert(url@ =~= head + join(sofar, sep));
    if colors.len() > 0 {
        let letters = letters_of(colors);
        let term = build_param("ci", &letters, true);
        if count > 0 {
            push_str(&mut url, "%20");
        }
        push_chars(&mut url, &term);
        proof {
            assert(sofar.push(term@).drop_last() =~= sofar);
            sofar = sofar.push(term@);
        }
        count = count + 1;
    }
    assert(url@ =~= head + join(sofar, sep));
    if let Some(f) = format {
        let word = chars_of(f.keyword());
        let term = build_param("legal", &word, false);
        if count > 0 {
            push_str(&mut url, "%20");
        }
        push_chars(&mut url, &term);
        proof {
            assert(sofar.push(term@).drop_last() =~= sofar);
            sofar = sofar.push(term@);
        }
    }
    assert(url@ =~= head + join(sofar, sep));
    assert(sofar =~= terms);
    text_of(&url)
}

/// The URL of page `page` of the results found at `base`.
pub fn page_url(base: &str, page: u32) -> (url: String)
    ensures
        url@ == page_url_spec(base@, page as nat),
{
    let mut url: Vec<char> = Vec::new();
    push_str(&mut url, base);
    push_str(&mut url, "&page=");
    push_decimal(&mut url, page as u64);
    assert(url@ =~= page_url_spec(base@, page as nat));
    text_of(&url)
}

/// Different pages of the same results have different URLs.
pub proof fn lemma_page_urls_differ(base: Seq<char>, p: nat, q: nat)
    requires
        p != q,
    ensures
        page_url_spec(base, p) != page_url_spec(base, q),
{
    let head = base + "&page="@;
    if page_url_spec(base, p) == page_url_spec(base, q) {
        assert((head + decimal(p)).skip(head.len() as int) =~= decimal(p));
        assert((head + decimal(q)).skip(head.len() as int) =~= decimal(q));
        crate::text::lemma_decimal_injective(p, q);
    }
}

} // verus!
