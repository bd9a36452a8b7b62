//! The phonology descriptor: inventories, syllable templates, stress rule and
//! romanization table, with the conditions under which words can be drawn from it.
use vstd::prelude::*;
use crate::text::chars_of;

verus! {

/// Why a set of inventories, templates and settings cannot describe a phonology.
#[derive(Debug, Clone, Copy, PartialEq, Eq, Structural)]
pub enum PhonologyError {
    /// The maximum syllable count is below one.
    InvalidSyllableCount,
    /// An inventory that a draw would need is empty.
    EmptyInventory,
    /// A syllable template holds no vowel slot.
    MalformedTemplate,
    /// Two romanization entries share a phoneme key.
    DuplicateRomanizationKey,
}

/// A phonology from which words are generated.
///
/// `onsets` and `codas` are already resolved: the single-entry list `["@"]`
/// stands for the whole consonant inventory only before construction.
pub struct Phonology {
    pub consonants: Vec<String>,
    pub onsets: Vec<String>,
    pub codas: Vec<String>,
    pub vowels: Vec<String>,
    /// Index of the stressed syllable; a negative index counts from the end.
    pub stressed: i32,
    /// Phoneme key to grapheme, applied in this order; keys are unique.
    pub romanization: Vec<(String, String)>,
    /// Syllable templates over `c` and `v`, either case.
    pub structures: Vec<String>,
    /// Upper bound, inclusive, on the number of syllables in a word.
    pub max_syllable_count: i32,
}

/// Whether a template character marks the vowel slot.
pub open spec fn is_vowel_slot(c: char) -> bool {
    c == 'v' || c == 'V'
}

/// Whether position `j` of template `t` comes before every vowel slot.
pub open spec fn before_vowel(t: Seq<char>, j: int) -> bool {
    forall|k: int| 0 <= k < j ==> !is_vowel_slot(#[trigger] t[k])
}

/// Whether template `t` holds a vowel slot.
pub open spec fn has_vowel_slot(t: Seq<char>) -> bool {
    exists|k: int| 0 <= k < t.len() && is_vowel_slot(#[trigger] t[k])
}

/// The inventory that position `j` of template `t` draws from: vowels at a
/// vowel slot, onsets before the first vowel slot, codas after it.
pub open spec fn slot_inventory(
    t: Seq<char>,
    j: int,
    onsets: Seq<String>,
    codas: Seq<String>,
    vowels: Seq<String>,
) -> Seq<String> {
    if is_vowel_slot(t[j]) {
        vowels
    } else if before_vowel(t, j) {
        onsets
    } else {
        codas
    }
}

/// Whether every position of template `t` has a non-empty inventory to draw from.
pub open spec fn slots_filled(
    t: Seq<char>,
    onsets: Seq<String>,
    codas: Seq<String>,
    vowels: Seq<String>,
) -> bool {
    forall|j: int|
        0 <= j < t.len() ==> #[trigger] slot_inventory(t, j, onsets, codas, vowels).len() > 0
}

/// Whether no two entries of a romanization table share a key.
pub open spec fn keys_unique(table: Seq<(String, String)>) -> bool {
    forall|i: int, j: int|
        0 <= i < j < table.len() ==> (#[trigger] table[i]).0@ != (#[trigger] table[j]).0@
}

/// The error of a template, if any: no vowel slot, or a slot with nothing to draw.
pub open spec fn template_error(
    t: Seq<char>,
    onsets: Seq<String>,
    codas: Seq<String>,
    vowels: Seq<String>,
) -> Option<PhonologyError> {
    if !has_vowel_slot(t) {
        Some(PhonologyError::MalformedTemplate)
    } else if !slots_filled(t, onsets, codas, vowels) {
        Some(PhonologyError::EmptyInventory)
    } else {
        None
    }
}

/// The first error, in the order the checks are made, of a descriptor whose
/// onsets and codas are resolved.
pub open spec fn descriptor_error(
    consonants: Seq<String>,
    onsets: Seq<String>,
    codas: Seq<String>,
    vowels: Seq<String>,
    romanization: Seq<(String, String)>,
    structures: Seq<String>,
    max_syllable_count: int,
) -> Option<PhonologyError> {
    if max_syllable_count < 1 {
        Some(PhonologyError::InvalidSyllableCount)
    } else if consonants.len() == 0 || vowels.len() == 0 || structures.len() == 0 {
        Some(PhonologyError::EmptyInventory)
    } else if templates_error(structures, onsets, codas, vowels) is Some {
        templates_error(structures, onsets, codas, vowels)
    } else if !keys_unique(romanization) {
        Some(PhonologyError::DuplicateRomanizationKey)
    } else {
        None
    }
}

/// The error of the first template that has one, if any.
pub open spec fn templates_error(
    structures: Seq<String>,
    onsets: Seq<String>,
    codas: Seq<String>,
    vowels: Seq<String>,
) -> Option<PhonologyError>
    decreases structures.len(),
{
    if structures.len() == 0 {
        None
    } else if template_error(structures[0]@, onsets, codas, vowels) is Some {
        template_error(structures[0]@, onsets, codas, vowels)
    } else {
        templates_error(structures.drop_first(), onsets, codas, vowels)
    }
}

/// No template has an error exactly when no error is found among them.
pub proof fn lemma_templates_error_none(
    structures: Seq<String>,
    onsets: Seq<String>,
    codas: Seq<String>,
    vowels: Seq<String>,
)
    ensures
        templates_error(structures, onsets, codas, vowels) is None <==> forall|i: int|
            0 <= i < structures.len() ==> #[trigger] template_error(
                structures[i]@,
                onsets,
                codas,
                vowels,
            ) is None,
    decreases structures.len(),
{
    if structures.len() > 0 {
        let rest = structures.drop_first();
        lemma_templates_error_none(rest, onsets, codas, vowels);
        assert forall|i: int| 0 < i < structures.len() implies structures[i] == rest[i - 1] by {}
        if template_error(structures[0]@, onsets, codas, vowels) is None {
            assert((forall|i: int|
                0 <= i < rest.len() ==> #[trigger] template_error(rest[i]@, onsets, codas, vowels)
                    is None) ==> forall|i: int|
                0 <= i < structures.len() ==> #[trigger] template_error(
                    structures[i]@,
                    onsets,
                    codas,
                    vowels,
                ) is None) by {
                assert forall|i: int| 0 <= i < structures.len() && (forall|j: int|
                    0 <= j < rest.len() ==> #[trigger] template_error(rest[j]@, onsets, codas, vowels)
                        is None) implies #[trigger] template_error(
                    structures[i]@,
                    onsets,
                    codas,
                    vowels,
                ) is None by {
                    if i > 0 {
                        assert(template_error(rest[i - 1]@, onsets, codas, vowels) is None);
                    }
                }
            }
            assert((forall|i: int|
                0 <= i < structures.len() ==> #[trigger] template_error(
                    structures[i]@,
                    onsets,
                    codas,
                    vowels,
                ) is None) ==> forall|i: int|
                0 <= i < rest.len() ==> #[trigger] template_error(rest[i]@, onsets, codas, vowels)
                    is None) by {
                assert forall|i: int| 0 <= i < rest.len() && (forall|j: int|
                    0 <= j < structures.len() ==> #[trigger] template_error(
                        structures[j]@,
                        onsets,
                        codas,
                        vowels,
                    ) is None) implies #[trigger] template_error(rest[i]@, onsets, codas, vowels)
                    is None by {
                    assert(template_error(structures[i + 1]@, onsets, codas, vowels) is None);
                }
            }
        }
    }
}

/// The sentinel list `["@"]` resolved to the consonant inventory; any other list as it is.
pub open spec fn resolved(list: Seq<String>, consonants: Seq<String>) -> Seq<String> {
    if list.len() == 1 && list[0]@ == seq!['@'] {
        consonants
    } else {
        list
    }
}

impl Phonology {
    /// Whether words can be drawn: every draw that generation makes has a
    /// non-empty inventory, and the table's keys are unique.
    pub open spec fn wf(&self) -> bool {
        descriptor_error(
            self.consonants@,
            self.onsets@,
            self.codas@,
            self.vowels@,
            self.romanization@,
            self.structures@,
            self.max_syllable_count as int,
        ) is None
    }
}

/// A copy of a list of strings.
pub fn clone_strings(v: &Vec<String>) -> (r: Vec<String>)
    ensures
        r@ == v@,
{
    let mut r: Vec<String> = Vec::new();
    let mut i: usize = 0;
    while i < v.len()
        invariant
            i <= v@.len(),
            r@ == v@.subrange(0, i as int),
        decreases v@.len() - i,
    {
        r.push(v[i].clone());
        i = i + 1;
        assert(r@ =~= v@.subrange(0, i as int));
    }
    assert(r@ =~= v@);
    r
}

/// Resolves the `["@"]` sentinel of an onset or coda list to the consonant inventory.
pub fn resolve_slot(list: &Vec<String>, consonants: &Vec<String>) -> (r: Vec<String>)
    ensures
        r@ == resolved(list@, consonants@),
{
    if list.len() == 1 {
        let cs = chars_of(list[0].as_str());
        if cs.len() == 1 && cs[0] == '@' {
            assert(list@[0]@ =~= seq!['@']);
            return clone_strings(consonants);
        }
        assert(list@[0]@ != seq!['@']);
    }
    clone_strings(list)
}

/// Checks one template against the inventories, as `template_error` describes.
pub fn check_template(
    t: &String,
    onsets: &Vec<String>,
    codas: &Vec<String>,
    vowels: &Vec<String>,
) -> (r: Option<PhonologyError>)
    ensures
        r == template_error(t@, onsets@, codas@, vowels@),
{
    let cs = chars_of(t.as_str());
    let mut seen_vowel = false;
    let mut filled = true;
    let mut j: usize = 0;
    while j < cs.len()
        invariant
            cs@ == t@,
            j <= cs@.len(),
            seen_vowel == !before_vowel(t@, j as int),
            filled == (forall|k: int|
                0 <= k < j ==> #[trigger] slot_inventory(t@, k, onsets@, codas@, vowels@).len()
                    > 0),
            !seen_vowel ==> forall|k: int| 0 <= k < j ==> !is_vowel_slot(#[trigger] t@[k]),
            seen_vowel ==> exists|k: int| 0 <= k < j && is_vowel_slot(#[trigger] t@[k]),
        decreases cs@.len() - j,
    {
        let c = cs[j];
        let n = if c == 'v' || c == 'V' {
            vowels.len()
        } else if !seen_vowel {
            onsets.len()
        } else {
            codas.len()
        };
        assert(n == slot_inventory(t@, j as int, onsets@, codas@, vowels@).len());
        if n == 0 {
            filled = false;
        }
        if c == 'v' || c == 'V' {
            seen_vowel = true;
        }
        j = j + 1;
    }
    if !seen_vowel {
        Some(PhonologyError::MalformedTemplate)
    } else if !filled {
        Some(PhonologyError::EmptyInventory)
    } else {
        None
    }
}

/// Whether the keys of a romanization table are unique.
pub fn check_keys_unique(table: &Vec<(String, String)>) -> (r: bool)
    ensures
        r == keys_unique(table@),
{
    let mut i: usize = 0;
    while i < table.len()
        invariant
            i <= table@.len(),
            forall|a: int, b: int|
                0 <= a < b < table@.len() && a < i ==> (#[trigger] table@[a]).0@ != (
                #[trigger] table@[b]).0@,
        decreases table@.len() - i,
    {
        let mut j: usize = i + 1;
        while j < table.len()
            invariant
                i < table@.len(),
                i < j <= table@.len(),
                forall|a: int, b: int|
                    0 <= a < b < table@.len() && a < i ==> (#[trigger] table@[a]).0@ != (
                    #[trigger] table@[b]).0@,
                forall|b: int| i < b < j ==> table@[i as int].0@ != (#[trigger] table@[b]).0@,
            decreases table@.len() - j,
        {
            if table[i].0 == table[j].0 {
                assert(table@[i as int].0@ == table@[j as int].0@);
                return false;
            }
            j = j + 1;
        }
        i = i + 1;
    }
    true
}

/// The first template that fails its check, with its error.
pub fn check_templates(
    structures: &Vec<String>,
    onsets: &Vec<String>,
    codas: &Vec<String>,
    vowels: &Vec<String>,
) -> (r: Option<PhonologyError>)
    ensures
        r == templates_error(structures@, onsets@, codas@, vowels@),
{
    let ghost sts = structures@;
    let mut i: usize = 0;
    assert(sts.subrange(0, sts.len() as int) =~= sts);
    while i < structures.len()
        invariant
            sts == structures@,
            i <= sts.len(),
            templates_error(sts, onsets@, codas@, vowels@) == templates_error(
                sts.subrange(i as int, sts.len() as int),
                onsets@,
                codas@,
                vowels@,
            ),
        decreases sts.len() - i,
    {
        let ghost rest = sts.subrange(i as int, sts.len() as int);
        assert(rest[0] == sts[i as int]);
        assert(rest.drop_first() =~= sts.subrange(i + 1, sts.len() as int));
        let e = check_template(&structures[i], onsets, codas, vowels);
        if e.is_some() {
            return e;
        }
        i = i + 1;
    }
    None
}

impl Phonology {
    /// Builds a phonology, resolving the `["@"]` sentinel of `onsets` and
    /// `codas` to `consonants`; fails with the first error found.
    pub fn new(
        consonants: Vec<String>,
        onsets: Vec<String>,
        codas: Vec<String>,
        vowels: Vec<String>,
        stressed: i32,
        romanization: Vec<(String, String)>,
        structures: Vec<String>,
        max_syllable_count: i32,
    ) -> (r: Result<Phonology, PhonologyError>)
        ensures
            ({
                let err = descriptor_error(
                    consonants@,
                    resolved(onsets@, consonants@),
                    resolved(codas@, consonants@),
                    vowels@,
                    romanization@,
                    structures@,
                    max_syllable_count as int,
                );
                match r {
                    Ok(p) => {
                        &&& err is None
                        &&& p.wf()
                        &&& p.consonants@ == consonants@
                        &&& p.onsets@ == resolved(onsets@, consonants@)
                        &&& p.codas@ == resolved(codas@, consonants@)
                        &&& p.vowels@ == vowels@
                        &&& p.stressed == stressed
                        &&& p.romanization@ == romanization@
                        &&& p.structures@ == structures@
                        &&& p.max_syllable_count == max_syllable_count
                    },
                    Err(e) => err == Some(e),
                }
            }),
    {
        let onsets = resolve_slot(&onsets, &consonants);
        let codas = resolve_slot(&codas, &consonants);
        if max_syllable_count < 1 {
            return Err(PhonologyError::InvalidSyllableCount);
        }
        if consonants.len() == 0 || vowels.len() == 0 || structures.len() == 0 {
            return Err(PhonologyError::EmptyInventory);
        }
        let e = check_templates(&structures, &onsets, &codas, &vowels);
        if let Some(e) = e {
            return Err(e);
        }
        if !check_keys_unique(&romanization) {
            return Err(PhonologyError::DuplicateRomanizationKey);
        }
        Ok(
            Phonology {
                consonants,
                onsets,
                codas,
                vowels,
                stressed,
                romanization,
                structures,
                max_syllable_count,
            },
        )
    }
}

} // verus!
