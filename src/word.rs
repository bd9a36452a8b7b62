//! Assembling a word: syllable count, stress placement, syllable boundaries
//! and affixes, from a phonology and the outcome of the random draws.
use vstd::prelude::*;
use crate::affix::{
    affix_bucket, apply_affixes, boundary, boundary_token, has_tag, lemma_tagged_entries,
    affix_piece, parsed_affix, parsed_upto, tagged, with_affixes,
};
use crate::phonology::{
    Phonology, before_vowel, is_vowel_slot, slot_inventory, slots_filled, template_error,
};
use crate::random::draw_below;
use crate::syllable::{
    bracket, draw_picks, picks_fit, syllable_from_picks, syllable_text, syllable_tokens, tokens_upto,
    views,
};
use crate::text::push_char;

verus! {

/// The stress-marker token.
pub open spec fn stress_mark() -> Seq<char> {
    seq!['\'']
}

/// Whether syllable `i` of `n` carries the stress for stress index `stressed`:
/// the index counts from the front, or from the end when negative, and a
/// single syllable is always stressed.
pub open spec fn is_stressed(i: int, n: int, stressed: int) -> bool {
    i == stressed || i == n + stressed || n == 1
}

/// The tokens of a word after its first `i` syllables are placed: a stress
/// marker before each stressed syllable, a boundary after every syllable but
/// the last.
pub open spec fn assembled_upto(syllables: Seq<Seq<char>>, stressed: int, i: int) -> Seq<
    Seq<char>,
>
    decreases i,
{
    if i <= 0 {
        seq![]
    } else {
        let n = syllables.len() as int;
        let k = i - 1;
        let a = assembled_upto(syllables, stressed, k);
        let b = if is_stressed(k, n, stressed) {
            a.push(stress_mark())
        } else {
            a
        };
        let c = b.push(syllables[k]);
        if k != n - 1 {
            c.push(boundary())
        } else {
            c
        }
    }
}

/// The tokens of a word made of `syllables`, before any affix.
pub open spec fn assembled(syllables: Seq<Seq<char>>, stressed: int) -> Seq<Seq<char>> {
    assembled_upto(syllables, stressed, syllables.len() as int)
}

/// The number of stress markers among the tokens of a word.
pub open spec fn stress_count(w: Seq<Seq<char>>) -> nat
    decreases w.len(),
{
    if w.len() == 0 {
        0
    } else {
        stress_count(w.drop_last()) + if w.last() == stress_mark() {
            1nat
        } else {
            0nat
        }
    }
}

/// At most one syllable position carries the stress.
proof fn lemma_stress_position_unique(k1: int, k2: int, n: int, stressed: int)
    requires
        0 <= k1 < n,
        0 <= k2 < n,
        is_stressed(k1, n, stressed),
        is_stressed(k2, n, stressed),
    ensures
        k1 == k2,
{
}

/// The stress markers among the first `i` placed syllables: one if one of
/// them is stressed, else none.
proof fn lemma_stress_count_upto(syllables: Seq<Seq<char>>, stressed: int, i: int)
    requires
        0 <= i <= syllables.len(),
        forall|k: int| 0 <= k < syllables.len() ==> #[trigger] syllables[k] != stress_mark(),
    ensures
        stress_count(assembled_upto(syllables, stressed, i)) == if exists|k: int|
            0 <= k < i && #[trigger] is_stressed(k, syllables.len() as int, stressed) {
            1nat
        } else {
            0nat
        },
    decreases i,
{
    if i > 0 {
        let n = syllables.len() as int;
        let k = i - 1;
        lemma_stress_count_upto(syllables, stressed, k);
        let a = assembled_upto(syllables, stressed, k);
        let b = if is_stressed(k, n, stressed) {
            a.push(stress_mark())
        } else {
            a
        };
        let c = b.push(syllables[k]);
        assert(a.push(stress_mark()).drop_last() =~= a);
        assert(c.drop_last() =~= b);
        assert(c.push(boundary()).drop_last() =~= c);
        assert(boundary() != stress_mark()) by {
            assert(boundary()[0] != stress_mark()[0]);
        }
        assert(c.last() == syllables[k]);
        assert(stress_count(c) == stress_count(b));
        assert(stress_count(c.push(boundary())) == stress_count(c));
        assert(stress_count(a.push(stress_mark())) == stress_count(a) + 1);
        assert(stress_count(assembled_upto(syllables, stressed, i)) == stress_count(b));
        if is_stressed(k, n, stressed) {
            assert forall|j: int| 0 <= j < k implies !#[trigger] is_stressed(j, n, stressed) by {
                if is_stressed(j, n, stressed) {
                    lemma_stress_position_unique(j, k, n, stressed);
                }
            }
            assert(exists|j: int| 0 <= j < i && #[trigger] is_stressed(j, n, stressed));
        } else {
            if exists|j: int| 0 <= j < i && #[trigger] is_stressed(j, n, stressed) {
                let j = choose|j: int| 0 <= j < i && #[trigger] is_stressed(j, n, stressed);
                assert(0 <= j < k && is_stressed(j, n, stressed));
            }
        }
    }
}

/// A word of one or more syllables, none of which is itself a stress marker,
/// holds at most one stress marker once its syllables are placed; exactly
/// one when the stress index falls inside the word, counted from the front
/// or, when negative, from the end, and always when the word has a single
/// syllable.
pub proof fn lemma_single_stress(syllables: Seq<Seq<char>>, stressed: int)
    requires
        syllables.len() >= 1,
        forall|k: int| 0 <= k < syllables.len() ==> #[trigger] syllables[k] != stress_mark(),
    ensures
        stress_count(assembled(syllables, stressed)) <= 1,
        syllables.len() == 1 || -syllables.len() <= stressed < syllables.len() ==> stress_count(
            assembled(syllables, stressed),
        ) == 1,
{
    let n = syllables.len() as int;
    lemma_stress_count_upto(syllables, stressed, n);
    if n == 1 {
        assert(is_stressed(0, n, stressed));
    } else if 0 <= stressed < n {
        assert(is_stressed(stressed, n, stressed));
    } else if -n <= stressed < 0 {
        assert(is_stressed(n + stressed, n, stressed));
    }
}

/// Stress markers add up over concatenation.
proof fn lemma_stress_count_concat(a: Seq<Seq<char>>, b: Seq<Seq<char>>)
    ensures
        stress_count(a + b) == stress_count(a) + stress_count(b),
    decreases b.len(),
{
    if b.len() > 0 {
        lemma_stress_count_concat(a, b.drop_last());
        assert((a + b).drop_last() =~= a + b.drop_last());
        assert((a + b).last() == b.last());
    }
}

/// A parsed affix of a non-empty body is at least two characters long.
proof fn lemma_parsed_affix_len(s: Seq<char>)
    requires
        s.len() >= 1,
    ensures
        parsed_affix(s).len() >= 2,
{
    assert(parsed_affix(s) == parsed_upto(s, s.len() - 1) + affix_piece(s, s.len() - 1));
}

/// A syllable's text is empty or starts with a bracket.
proof fn lemma_syllable_text_start(
    t: Seq<char>,
    onsets: Seq<String>,
    codas: Seq<String>,
    vowels: Seq<String>,
    picks: Seq<usize>,
)
    ensures
        syllable_text(t, onsets, codas, vowels, picks).len() == 0 || syllable_text(
            t,
            onsets,
            codas,
            vowels,
            picks,
        )[0] == '[',
{
    lemma_tokens_bracketed(t, onsets, codas, vowels, picks, t.len() as int);
    let toks = syllable_tokens(t, onsets, codas, vowels, picks);
    if toks.len() > 0 {
        assert(toks.flatten() == toks[0] + toks.drop_first().flatten());
        assert(toks[0][0] == '[');
    }
}

/// Every token of a syllable is a bracketed phoneme.
proof fn lemma_tokens_bracketed(
    t: Seq<char>,
    onsets: Seq<String>,
    codas: Seq<String>,
    vowels: Seq<String>,
    picks: Seq<usize>,
    j: int,
)
    ensures
        forall|k: int|
            0 <= k < tokens_upto(t, onsets, codas, vowels, picks, j).len() ==> (#[trigger] tokens_upto(
                t,
                onsets,
                codas,
                vowels,
                picks,
                j,
            )[k]).len() >= 2 && tokens_upto(t, onsets, codas, vowels, picks, j)[k][0] == '[',
    decreases j,
{
    if j > 0 {
        lemma_tokens_bracketed(t, onsets, codas, vowels, picks, j - 1);
        let prev = tokens_upto(t, onsets, codas, vowels, picks, j - 1);
        let cur = tokens_upto(t, onsets, codas, vowels, picks, j);
        let k = j - 1;
        let tok = bracket(slot_inventory(t, k, onsets, codas, vowels)[picks[k] as int]@);
        assert(tok.len() >= 2 && tok[0] == '[');
        if !is_vowel_slot(t[k]) && before_vowel(t, k) {
            assert forall|m: int| 0 < m < cur.len() implies cur[m] == prev[m - 1] by {}
        }
    }
}

/// Every generated word, affixes included, holds at most one stress
/// marker; exactly one when its syllable count is one or the stress index
/// falls inside the word, from the front or, when negative, from the end.
pub proof fn lemma_word_single_stress(ph: Phonology, affixes: Seq<String>, ch: WordChoices)
    requires
        choices_fit(ph, affixes, ch),
    ensures
        stress_count(word_tokens(ph, affixes, ch)) <= 1,
        ({
            let n = ch.templates@.len() as int;
            n == 1 || -n <= ph.stressed < n
        }) ==> stress_count(word_tokens(ph, affixes, ch)) == 1,
{
    let syls = word_syllables(ph, ch);
    assert forall|k: int| 0 <= k < syls.len() implies #[trigger] syls[k] != stress_mark() by {
        lemma_syllable_text_start(
            ph.structures@[ch.templates@[k] as int]@,
            ph.onsets@,
            ph.codas@,
            ph.vowels@,
            ch.picks@[k]@,
        );
    }
    lemma_single_stress(syls, ph.stressed as int);
    let base = assembled(syls, ph.stressed as int);
    let pre = chosen_affix(affixes, '+', ch.prefix);
    let suf = chosen_affix(affixes, '-', ch.suffix);
    assert(boundary() != stress_mark()) by {
        assert(boundary()[0] != stress_mark()[0]);
    }
    let w = match pre {
        Some(p) => seq![parsed_affix(p.drop_first()), boundary()] + base,
        None => base,
    };
    if let Some(p) = pre {
        let x = parsed_affix(p.drop_first());
        if p.drop_first().len() >= 1 {
            lemma_parsed_affix_len(p.drop_first());
        }
        assert(x != stress_mark()) by {
            if x == stress_mark() {
                assert(x.len() == 1);
            }
        }
        lemma_stress_count_concat(seq![x, boundary()], base);
        assert(seq![x, boundary()].drop_last() =~= seq![x]);
        assert(seq![x].drop_last() =~= Seq::<Seq<char>>::empty());
        assert(seq![x].last() == x);
        assert(stress_count(Seq::<Seq<char>>::empty()) == 0);
        assert(stress_count(seq![x]) == 0);
        assert(seq![x, boundary()].last() == boundary());
        assert(stress_count(seq![x, boundary()]) == 0);
    }
    assert(stress_count(w) == stress_count(base));
    if let Some(q) = suf {
        let y = parsed_affix(q.drop_first());
        if q.drop_first().len() >= 1 {
            lemma_parsed_affix_len(q.drop_first());
        }
        assert(y != stress_mark()) by {
            if y == stress_mark() {
                assert(y.len() == 1);
            }
        }
        let w2 = if w.len() > 0 && w.last() == boundary() {
            w
        } else {
            w.push(boundary())
        };
        assert(w.push(boundary()).drop_last() =~= w);
        assert(stress_count(w2) == stress_count(w));
        assert(w2.push(y).drop_last() =~= w2);
    }
}

/// The outcome of the random draws for one word.
pub struct WordChoices {
    /// For each syllable, the index of its template among the phonology's structures.
    pub templates: Vec<usize>,
    /// For each syllable, the index drawn at each position of its template.
    pub picks: Vec<Vec<usize>>,
    /// The index of the prefix among the `+`-tagged affixes, if there are any.
    pub prefix: Option<usize>,
    /// The index of the suffix among the `-`-tagged affixes, if there are any.
    pub suffix: Option<usize>,
}

/// Whether an optional draw fits a bucket of `len` entries: a draw exactly
/// when the bucket is not empty, and inside it.
pub open spec fn option_fits(o: Option<usize>, len: nat) -> bool {
    match o {
        Some(k) => k < len,
        None => len == 0,
    }
}

/// Whether `ch` is a possible outcome of the draws for one word.
pub open spec fn choices_fit(ph: Phonology, affixes: Seq<String>, ch: WordChoices) -> bool {
    let n = ch.templates@.len();
    &&& 1 <= n <= ph.max_syllable_count
    &&& ch.picks@.len() == n
    &&& forall|i: int|
        0 <= i < n ==> #[trigger] ch.templates@[i] < ph.structures@.len() && picks_fit(
            ph.structures@[ch.templates@[i] as int]@,
            ph.onsets@,
            ph.codas@,
            ph.vowels@,
            ch.picks@[i]@,
        )
    &&& option_fits(ch.prefix, tagged(affixes, '+').len())
    &&& option_fits(ch.suffix, tagged(affixes, '-').len())
}

/// The syllables that the draws `ch` give.
pub open spec fn word_syllables(ph: Phonology, ch: WordChoices) -> Seq<Seq<char>> {
    Seq::new(
        ch.templates@.len(),
        |i: int|
            syllable_text(
                ph.structures@[ch.templates@[i] as int]@,
                ph.onsets@,
                ph.codas@,
                ph.vowels@,
                ch.picks@[i]@,
            ),
    )
}

/// The affix entry that an optional draw picks from the bucket of `tag`.
pub open spec fn chosen_affix(affixes: Seq<String>, tag: char, o: Option<usize>) -> Option<
    Seq<char>,
> {
    match o {
        Some(k) => Some(tagged(affixes, tag)[k as int]@),
        None => None,
    }
}

/// The tokens of the word that the draws `ch` give.
pub open spec fn word_tokens(ph: Phonology, affixes: Seq<String>, ch: WordChoices) -> Seq<
    Seq<char>,
> {
    with_affixes(
        assembled(word_syllables(ph, ch), ph.stressed as int),
        chosen_affix(affixes, '+', ch.prefix),
        chosen_affix(affixes, '-', ch.suffix),
    )
}

/// The stress-marker token.
pub fn stress_token() -> (r: String)
    ensures
        r@ == stress_mark(),
{
    let mut r = String::new();
    push_char(&mut r, '\'');
    assert(r@ =~= stress_mark());
    r
}

/// Places `syllables` in a word: a stress marker before each stressed
/// syllable and a boundary between syllables.
pub fn place_syllables(syllables: &Vec<String>, stressed: i32) -> (r: Vec<String>)
    ensures
        views(r@) == assembled(views(syllables@), stressed as int),
{
    let ghost syls = views(syllables@);
    let n = syllables.len();
    let mut word: Vec<String> = Vec::new();
    let mut i: usize = 0;
    while i < n
        invariant
            n == syllables@.len(),
            syls == views(syllables@),
            i <= n,
            views(word@) == assembled_upto(syls, stressed as int, i as int),
        decreases n - i,
    {
        let from_front = stressed >= 0 && i == stressed as usize;
        let from_back = stressed < 0 && n - i == (-(stressed as i64)) as usize;
        assert(is_stressed(i as int, n as int, stressed as int) == (from_front || from_back || n
            == 1));
        if from_front || from_back || n == 1 {
            word.push(stress_token());
        }
        word.push(syllables[i].clone());
        if i != n - 1 {
            word.push(boundary_token());
        }
        i = i + 1;
        assert(views(word@) =~= assembled_upto(syls, stressed as int, i as int));
    }
    word
}

/// The word that the draws `ch` give: its syllables placed with stress and
/// boundaries, then the chosen prefix and suffix attached.
pub fn word_from_choices(ph: &Phonology, affixes: &Vec<String>, ch: &WordChoices) -> (r: Vec<
    String,
>)
    requires
        choices_fit(*ph, affixes@, *ch),
    ensures
        views(r@) == word_tokens(*ph, affixes@, *ch),
{
    let ghost target = word_syllables(*ph, *ch);
    let n = ch.templates.len();
    let mut syllables: Vec<String> = Vec::new();
    let mut i: usize = 0;
    while i < n
        invariant
            n == ch.templates@.len(),
            choices_fit(*ph, affixes@, *ch),
            target == word_syllables(*ph, *ch),
            i <= n,
            views(syllables@) == target.subrange(0, i as int),
        decreases n - i,
    {
        assert(ch.templates@[i as int] < ph.structures@.len());
        let s = syllable_from_picks(&ph.structures[ch.templates[i]], ph, &ch.picks[i]);
        assert(s@ == target[i as int]);
        let ghost before = syllables@;
        syllables.push(s);
        assert(views(syllables@) =~= views(before).push(target[i as int]));
        assert(target.subrange(0, i + 1) =~= target.subrange(0, i as int).push(target[i as int]));
        i = i + 1;
    }
    assert(target.subrange(0, n as int) =~= target);
    let mut word = place_syllables(&syllables, ph.stressed);
    let prefixes = affix_bucket(affixes, '+');
    let suffixes = affix_bucket(affixes, '-');
    proof {
        lemma_tagged_entries(affixes@, '+');
        lemma_tagged_entries(affixes@, '-');
    }
    let prefix = match ch.prefix {
        Some(k) => Some(&prefixes[k]),
        None => None,
    };
    let suffix = match ch.suffix {
        Some(k) => Some(&suffixes[k]),
        None => None,
    };
    proof {
        if let Some(k) = ch.prefix {
            assert(has_tag(prefixes@[k as int]@, '+'));
        }
        if let Some(k) = ch.suffix {
            assert(has_tag(suffixes@[k as int]@, '-'));
        }
    }
    apply_affixes(&mut word, prefix, suffix);
    word
}

/// Draws the outcome of one word: the syllable count, then for each syllable
/// its template and the phoneme at each position, then the prefix and the
/// suffix, each uniformly among the entries that carry its tag.
pub fn draw_choices(ph: &Phonology, affixes: &Vec<String>, rng: &mut rand::rngs::StdRng) -> (r:
    WordChoices)
    requires
        ph.wf(),
    ensures
        choices_fit(*ph, affixes@, r),
{
    proof {
        assert forall|i: int| 0 <= i < ph.structures@.len() implies slots_filled(
            #[trigger] ph.structures@[i]@,
            ph.onsets@,
            ph.codas@,
            ph.vowels@,
        ) by {
            crate::phonology::lemma_templates_error_none(
                ph.structures@,
                ph.onsets@,
                ph.codas@,
                ph.vowels@,
            );
            assert(template_error(ph.structures@[i]@, ph.onsets@, ph.codas@, ph.vowels@) is None);
        }
    }
    let n = 1 + draw_below(rng, ph.max_syllable_count as usize);
    let mut templates: Vec<usize> = Vec::new();
    let mut picks: Vec<Vec<usize>> = Vec::new();
    let mut i: usize = 0;
    while i < n
        invariant
            ph.wf(),
            forall|i: int|
                0 <= i < ph.structures@.len() ==> slots_filled(
                    #[trigger] ph.structures@[i]@,
                    ph.onsets@,
                    ph.codas@,
                    ph.vowels@,
                ),
            i <= n,
            templates@.len() == i,
            picks@.len() == i,
            forall|k: int|
                0 <= k < i ==> #[trigger] templates@[k] < ph.structures@.len() && picks_fit(
                    ph.structures@[templates@[k] as int]@,
                    ph.onsets@,
                    ph.codas@,
                    ph.vowels@,
                    picks@[k]@,
                ),
        decreases n - i,
    {
        let t = draw_below(rng, ph.structures.len());
        let p = draw_picks(&ph.structures[t], ph, rng);
        templates.push(t);
        picks.push(p);
        i = i + 1;
    }
    let prefixes = affix_bucket(affixes, '+');
    let prefix = if prefixes.len() > 0 {
        Some(draw_below(rng, prefixes.len()))
    } else {
        None
    };
    let suffixes = affix_bucket(affixes, '-');
    let suffix = if suffixes.len() > 0 {
        Some(draw_below(rng, suffixes.len()))
    } else {
        None
    };
    WordChoices { templates, picks, prefix, suffix }
}

/// Generates one word: draws its outcome, then builds it.
pub fn create_word(ph: &Phonology, affixes: &Vec<String>, rng: &mut rand::rngs::StdRng) -> (r:
    Vec<String>)
    requires
        ph.wf(),
    ensures
        exists|ch: WordChoices|
            choices_fit(*ph, affixes@, ch) && views(r@) == #[trigger] word_tokens(
                *ph,
                affixes@,
                ch,
            ),
{
    let ch = draw_choices(ph, affixes, rng);
    let w = word_from_choices(ph, affixes, &ch);
    assert(views(w@) == word_tokens(*ph, affixes@, ch));
    w
}

} // verus!
