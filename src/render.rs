//! Rendering a word as its phonetic transcription and its romanized spelling.
use vstd::prelude::*;
use crate::phonology::Phonology;
use crate::syllable::{bracket, concat_strings, views, wrap_sound};
use crate::text::{chars_of, replace_all, replace_chars, string_of};
use crate::word::{WordChoices, choices_fit, word_syllables, word_tokens};

verus! {

/// Characters that only mark up a word: the stress marker, the boundary, and brackets.
pub open spec fn is_markup(c: char) -> bool {
    c == '\'' || c == ' ' || c == '[' || c == ']'
}

/// The test that a character is not markup.
pub open spec fn not_markup() -> spec_fn(char) -> bool {
    |c: char| !is_markup(c)
}

/// `s` without its markup characters.
pub open spec fn plain(s: Seq<char>) -> Seq<char> {
    s.filter(not_markup())
}

/// `s` with each bracketed key of `table`, in order, replaced by its grapheme.
pub open spec fn romanize(s: Seq<char>, table: Seq<(String, String)>) -> Seq<char>
    decreases table.len(),
{
    if table.len() == 0 {
        s
    } else {
        romanize(replace_all(s, bracket(table[0].0@), table[0].1@), table.drop_first())
    }
}

/// No markup character remains in plain text.
pub proof fn lemma_plain_has_no_markup(s: Seq<char>)
    ensures
        forall|i: int| 0 <= i < plain(s).len() ==> !is_markup(#[trigger] plain(s)[i]),
{
    broadcast use vstd::seq_lib::group_filter_ensures;

    assert forall|i: int| 0 <= i < plain(s).len() implies !is_markup(#[trigger] plain(s)[i]) by {
        assert(not_markup()(plain(s)[i]));
    }
}

/// `s` without its markup characters.
pub fn strip_markup(s: &Vec<char>) -> (r: Vec<char>)
    ensures
        r@ == plain(s@),
{
    let mut r: Vec<char> = Vec::new();
    let mut i: usize = 0;
    while i < s.len()
        invariant
            i <= s@.len(),
            r@ == plain(s@.subrange(0, i as int)),
        decreases s@.len() - i,
    {
        let ghost sub = s@.subrange(0, i + 1);
        assert(sub.drop_last() =~= s@.subrange(0, i as int));
        assert(sub.last() == s@[i as int]);
        proof {
            reveal(Seq::filter);
        }
        assert(plain(sub) == if not_markup()(sub.last()) {
            plain(sub.drop_last()).push(sub.last())
        } else {
            plain(sub.drop_last())
        });
        let c = s[i];
        if !(c == '\'' || c == ' ' || c == '[' || c == ']') {
            r.push(c);
        }
        i = i + 1;
    }
    assert(s@.subrange(0, s@.len() as int) =~= s@);
    r
}

/// Renders a word as `(phonetic, romanized)`. The phonetic text is the
/// word's tokens joined, without markup. The romanized text first replaces
/// each bracketed phoneme key of the romanization table by its grapheme, in
/// the table's order, then drops the markup; a phoneme with no entry is left
/// as its bare text.
pub fn create_final_str(word: Vec<String>, ph: &Phonology) -> (r: (String, String))
    ensures
        r.0@ == plain(views(word@).flatten()),
        r.1@ == plain(romanize(views(word@).flatten(), ph.romanization@)),
        forall|i: int| 0 <= i < r.1@.len() ==> r.1@[i] != '[' && r.1@[i] != ']',
{
    let joined = concat_strings(&word);
    let js = chars_of(joined.as_str());
    let ghost full = js@;
    let ghost table = ph.romanization@;
    let mut cur = js.clone();
    assert(cur@ == full);
    assert(table.subrange(0, table.len() as int) =~= table);
    let mut k: usize = 0;
    while k < ph.romanization.len()
        invariant
            table == ph.romanization@,
            k <= table.len(),
            romanize(full, table) == romanize(cur@, table.subrange(k as int, table.len() as int)),
        decreases table.len() - k,
    {
        let ghost rest = table.subrange(k as int, table.len() as int);
        assert(rest[0] == table[k as int]);
        assert(rest.drop_first() =~= table.subrange(k + 1, table.len() as int));
        let key = wrap_sound(ph.romanization[k].0.clone());
        let pat = chars_of(key.as_str());
        let rep = chars_of(ph.romanization[k].1.as_str());
        cur = replace_chars(&cur, &pat, &rep);
        k = k + 1;
    }
    assert(table.subrange(k as int, table.len() as int).len() == 0);
    let phonetic = string_of(&strip_markup(&js));
    let romanized = string_of(&strip_markup(&cur));
    proof {
        lemma_plain_has_no_markup(cur@);
    }
    (phonetic, romanized)
}

/// The `(phonetic, romanized)` rendering of the word that the draws `ch` give.
pub open spec fn rendered(ph: Phonology, affixes: Seq<String>, ch: WordChoices) -> (
    Seq<char>,
    Seq<char>,
) {
    let joined = word_tokens(ph, affixes, ch).flatten();
    (plain(joined), plain(romanize(joined, ph.romanization@)))
}

/// Whether two draw outcomes hold the same draws.
pub open spec fn same_draws(a: WordChoices, b: WordChoices) -> bool {
    &&& a.templates@ == b.templates@
    &&& a.picks@.len() == b.picks@.len()
    &&& forall|i: int| 0 <= i < a.picks@.len() ==> #[trigger] a.picks@[i]@ == b.picks@[i]@
    &&& a.prefix == b.prefix
    &&& a.suffix == b.suffix
}

/// Generation is deterministic: for a fixed phonology and affix list, the
/// same sequence of draws gives the same word and the same rendering.
pub proof fn lemma_generation_deterministic(
    ph: Phonology,
    affixes: Seq<String>,
    a: WordChoices,
    b: WordChoices,
)
    requires
        choices_fit(ph, affixes, a),
        same_draws(a, b),
    ensures
        word_tokens(ph, affixes, a) == word_tokens(ph, affixes, b),
        rendered(ph, affixes, a) == rendered(ph, affixes, b),
{
    assert forall|i: int| 0 <= i < a.templates@.len() implies word_syllables(ph, a)[i]
        == word_syllables(ph, b)[i] by {
        assert(a.picks@[i]@ == b.picks@[i]@);
    }
    assert(word_syllables(ph, a) =~= word_syllables(ph, b));
}

} // verus!
