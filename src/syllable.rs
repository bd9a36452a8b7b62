//! Building one syllable from a structure template.
use vstd::prelude::*;
use crate::phonology::{
    Phonology, PhonologyError, before_vowel, check_template, is_vowel_slot, slot_inventory,
    slots_filled, template_error,
};
use crate::random::draw_below;
use crate::text::{chars_of, push_char};

verus! {

/// A phoneme in brackets: one token of a word.
pub open spec fn bracket(s: Seq<char>) -> Seq<char> {
    seq!['['] + s + seq![']']
}

/// The character sequences that a list of strings holds.
pub open spec fn views(v: Seq<String>) -> Seq<Seq<char>> {
    v.map_values(|s: String| s@)
}

/// Whether `picks` chooses, for each position of template `t`, an entry of
/// that position's inventory.
pub open spec fn picks_fit(
    t: Seq<char>,
    onsets: Seq<String>,
    codas: Seq<String>,
    vowels: Seq<String>,
    picks: Seq<usize>,
) -> bool {
    &&& picks.len() == t.len()
    &&& forall|j: int|
        0 <= j < t.len() ==> #[trigger] picks[j] < slot_inventory(t, j, onsets, codas, vowels).len()
}

/// The tokens of a syllable after its first `j` template positions are
/// filled: a vowel or a coda is appended, an onset goes to the front.
pub open spec fn tokens_upto(
    t: Seq<char>,
    onsets: Seq<String>,
    codas: Seq<String>,
    vowels: Seq<String>,
    picks: Seq<usize>,
    j: int,
) -> Seq<Seq<char>>
    decreases j,
{
    if j <= 0 {
        seq![]
    } else {
        let prev = tokens_upto(t, onsets, codas, vowels, picks, j - 1);
        let k = j - 1;
        let tok = bracket(slot_inventory(t, k, onsets, codas, vowels)[picks[k] as int]@);
        if !is_vowel_slot(t[k]) && before_vowel(t, k) {
            seq![tok] + prev
        } else {
            prev.push(tok)
        }
    }
}

/// The tokens of the syllable that template `t` gives with the draws `picks`.
pub open spec fn syllable_tokens(
    t: Seq<char>,
    onsets: Seq<String>,
    codas: Seq<String>,
    vowels: Seq<String>,
    picks: Seq<usize>,
) -> Seq<Seq<char>> {
    tokens_upto(t, onsets, codas, vowels, picks, t.len() as int)
}

/// The text of that syllable: its tokens, concatenated.
pub open spec fn syllable_text(
    t: Seq<char>,
    onsets: Seq<String>,
    codas: Seq<String>,
    vowels: Seq<String>,
    picks: Seq<usize>,
) -> Seq<char> {
    syllable_tokens(t, onsets, codas, vowels, picks).flatten()
}

/// Wraps a phoneme in brackets.
pub fn wrap_sound(sound: String) -> (r: String)
    ensures
        r@ == bracket(sound@),
{
    let mut r = String::new();
    push_char(&mut r, '[');
    r.append(sound.as_str());
    push_char(&mut r, ']');
    assert(r@ =~= bracket(sound@));
    r
}

/// The strings of `v`, concatenated.
pub fn concat_strings(v: &Vec<String>) -> (r: String)
    ensures
        r@ == views(v@).flatten(),
{
    let mut r = String::new();
    let mut i: usize = 0;
    while i < v.len()
        invariant
            i <= v@.len(),
            r@ == views(v@.subrange(0, i as int)).flatten(),
        decreases v@.len() - i,
    {
        proof {
            assert(views(v@.subrange(0, i + 1)) =~= views(v@.subrange(0, i as int)).push(v@[i as int]@));
            views(v@.subrange(0, i as int)).lemma_flatten_push(v@[i as int]@);
        }
        r.append(v[i].as_str());
        i = i + 1;
    }
    assert(v@.subrange(0, v@.len() as int) =~= v@);
    r
}

/// The syllable that template `template` gives when position `j` takes entry
/// `picks[j]` of its inventory.
pub fn syllable_from_picks(template: &String, ph: &Phonology, picks: &Vec<usize>) -> (r: String)
    requires
        picks_fit(template@, ph.onsets@, ph.codas@, ph.vowels@, picks@),
    ensures
        r@ == syllable_text(template@, ph.onsets@, ph.codas@, ph.vowels@, picks@),
{
    let ghost t = template@;
    let ghost ons = ph.onsets@;
    let ghost cods = ph.codas@;
    let ghost vows = ph.vowels@;
    let cs = chars_of(template.as_str());
    let mut tokens: Vec<String> = Vec::new();
    let mut seen_vowel = false;
    let mut j: usize = 0;
    while j < cs.len()
        invariant
            cs@ == t,
            t == template@,
            ons == ph.onsets@,
            cods == ph.codas@,
            vows == ph.vowels@,
            picks_fit(t, ons, cods, vows, picks@),
            j <= t.len(),
            seen_vowel == !before_vowel(t, j as int),
            views(tokens@) == tokens_upto(t, ons, cods, vows, picks@, j as int),
        decreases t.len() - j,
    {
        let c = cs[j];
        let p = picks[j];
        assert(p < slot_inventory(t, j as int, ons, cods, vows).len());
        if c == 'v' || c == 'V' {
            let tok = wrap_sound(ph.vowels[p].clone());
            tokens.push(tok);
            seen_vowel = true;
        } else if !seen_vowel {
            let tok = wrap_sound(ph.onsets[p].clone());
            tokens.insert(0, tok);
        } else {
            let tok = wrap_sound(ph.codas[p].clone());
            tokens.push(tok);
        }
        j = j + 1;
        assert(views(tokens@) =~= tokens_upto(t, ons, cods, vows, picks@, j as int));
    }
    concat_strings(&tokens)
}

/// Draws, for each position of a template, an entry of that position's inventory.
pub fn draw_picks(template: &String, ph: &Phonology, rng: &mut rand::rngs::StdRng) -> (r: Vec<
    usize,
>)
    requires
        slots_filled(template@, ph.onsets@, ph.codas@, ph.vowels@),
    ensures
        picks_fit(template@, ph.onsets@, ph.codas@, ph.vowels@, r@),
{
    let ghost t = template@;
    let cs = chars_of(template.as_str());
    let mut picks: Vec<usize> = Vec::new();
    let mut seen_vowel = false;
    let mut j: usize = 0;
    while j < cs.len()
        invariant
            cs@ == t,
            t == template@,
            slots_filled(t, ph.onsets@, ph.codas@, ph.vowels@),
            j <= t.len(),
            seen_vowel == !before_vowel(t, j as int),
            picks@.len() == j,
            forall|k: int|
                0 <= k < j ==> #[trigger] picks@[k] < slot_inventory(
                    t,
                    k,
                    ph.onsets@,
                    ph.codas@,
                    ph.vowels@,
                ).len(),
        decreases t.len() - j,
    {
        let c = cs[j];
        let n = if c == 'v' || c == 'V' {
            ph.vowels.len()
        } else if !seen_vowel {
            ph.onsets.len()
        } else {
            ph.codas.len()
        };
        assert(n == slot_inventory(t, j as int, ph.onsets@, ph.codas@, ph.vowels@).len());
        let p = draw_below(rng, n);
        picks.push(p);
        if c == 'v' || c == 'V' {
            seen_vowel = true;
        }
        j = j + 1;
    }
    picks
}

/// Builds one syllable from `template`, drawing each phoneme from the
/// inventory of its position. Fails when the template has no vowel slot, or
/// when a position's inventory is empty.
pub fn build_syllable(template: &String, ph: &Phonology, rng: &mut rand::rngs::StdRng) -> (r:
    Result<String, PhonologyError>)
    ensures
        match r {
            Ok(s) => template_error(template@, ph.onsets@, ph.codas@, ph.vowels@) is None
                && exists|picks: Seq<usize>|
                picks_fit(template@, ph.onsets@, ph.codas@, ph.vowels@, picks) && s@
                    == #[trigger] syllable_text(template@, ph.onsets@, ph.codas@, ph.vowels@, picks),
            Err(e) => template_error(template@, ph.onsets@, ph.codas@, ph.vowels@) == Some(e),
        },
{
    if let Some(e) = check_template(template, &ph.onsets, &ph.codas, &ph.vowels) {
        return Err(e);
    }
    let picks = draw_picks(template, ph, rng);
    let s = syllable_from_picks(template, ph, &picks);
    Ok(s)
}

/// The tokens after the first `j` positions of a template whose only vowel
/// slot is at `v`.
proof fn lemma_tokens_upto_shape(
    t: Seq<char>,
    onsets: Seq<String>,
    codas: Seq<String>,
    vowels: Seq<String>,
    picks: Seq<usize>,
    v: int,
    j: int,
)
    requires
        0 <= v < t.len(),
        is_vowel_slot(t[v]),
        forall|k: int| 0 <= k < t.len() && k != v ==> !is_vowel_slot(#[trigger] t[k]),
        0 <= j <= t.len(),
    ensures
        ({
            let toks = tokens_upto(t, onsets, codas, vowels, picks, j);
            let m = if j <= v {
                j
            } else {
                v
            };
            &&& toks.len() == j
            &&& forall|k: int|
                0 <= k < m ==> #[trigger] toks[k] == bracket(onsets[picks[m - 1 - k] as int]@)
            &&& j > v ==> toks[v] == bracket(vowels[picks[v] as int]@)
            &&& forall|k: int|
                v < k < j ==> #[trigger] toks[k] == bracket(codas[picks[k] as int]@)
        }),
    decreases j,
{
    if j > 0 {
        lemma_tokens_upto_shape(t, onsets, codas, vowels, picks, v, j - 1);
        let k = j - 1;
        if k < v {
            assert(before_vowel(t, k));
        } else if k > v {
            assert(!before_vowel(t, k)) by {
                assert(is_vowel_slot(t[v]));
            }
        }
    }
}

/// A syllable built from a template with exactly one vowel slot, at `v`, is
/// its onset draws in reverse order of drawing, then exactly one token drawn
/// from the vowels, then its coda draws in order. So the syllable has one
/// onset token for each position before the vowel slot, one coda token for
/// each position after it, and a single token of vowel origin.
pub proof fn lemma_syllable_shape(
    t: Seq<char>,
    onsets: Seq<String>,
    codas: Seq<String>,
    vowels: Seq<String>,
    picks: Seq<usize>,
    v: int,
)
    requires
        0 <= v < t.len(),
        is_vowel_slot(t[v]),
        forall|k: int| 0 <= k < t.len() && k != v ==> !is_vowel_slot(#[trigger] t[k]),
        picks_fit(t, onsets, codas, vowels, picks),
    ensures
        ({
            let toks = syllable_tokens(t, onsets, codas, vowels, picks);
            &&& toks.len() == t.len()
            &&& forall|k: int|
                0 <= k < v ==> #[trigger] toks[k] == bracket(onsets[picks[v - 1 - k] as int]@)
            &&& toks[v] == bracket(vowels[picks[v] as int]@)
            &&& picks[v] < vowels.len()
            &&& forall|k: int|
                v < k < t.len() ==> #[trigger] toks[k] == bracket(codas[picks[k] as int]@)
        }),
{
    lemma_tokens_upto_shape(t, onsets, codas, vowels, picks, v, t.len() as int);
    assert(picks[v] < slot_inventory(t, v, onsets, codas, vowels).len());
}

} // verus!
