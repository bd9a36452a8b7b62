use namesmith::affix::{affix_bucket, apply_affixes, parse_affix, parse_affix_list, strip_tag};
use namesmith::phonology::{Phonology, PhonologyError};
use namesmith::render::create_final_str;
use namesmith::syllable::{build_syllable, syllable_from_picks, wrap_sound};
use namesmith::word::{create_word, draw_choices, place_syllables, word_from_choices, WordChoices};
use rand::rngs::StdRng;
use rand::SeedableRng;

fn strs(v: &[&str]) -> Vec<String> {
    v.iter().map(|s| s.to_string()).collect()
}

fn table(v: &[(&str, &str)]) -> Vec<(String, String)> {
    v.iter().map(|(k, g)| (k.to_string(), g.to_string())).collect()
}

fn pa_phonology() -> Phonology {
    Phonology::new(
        strs(&["p"]),
        strs(&["p"]),
        strs(&[]),
        strs(&["a"]),
        0,
        table(&[("p", "p"), ("a", "a")]),
        strs(&["cv"]),
        1,
    )
    .unwrap()
}

fn rich_phonology(stressed: i32, max: i32) -> Phonology {
    Phonology::new(
        strs(&["p", "t", "k", "s", "n"]),
        strs(&["@"]),
        strs(&["n", "s"]),
        strs(&["a", "i", "u", "a\u{361}i"]),
        stressed,
        table(&[("p", "p"), ("t", "t"), ("k", "c"), ("a\u{361}i", "ai"), ("u", "oo")]),
        strs(&["cv", "CVC", "v", "ccvc"]),
        max,
    )
    .unwrap()
}

#[test]
fn wrap_sound_brackets_a_phoneme() {
    assert_eq!(wrap_sound("p".to_string()), "[p]");
    assert_eq!(wrap_sound("a\u{361}i".to_string()), "[a\u{361}i]");
    assert_eq!(wrap_sound(String::new()), "[]");
}

#[test]
fn single_syllable_scenario_renders_pa() {
    let ph = pa_phonology();
    let mut rng = StdRng::seed_from_u64(7);
    for _ in 0..20 {
        let word = create_word(&ph, &vec![], &mut rng);
        assert_eq!(word, strs(&["'", "[p][a]"]));
        let (phonetic, romanized) = create_final_str(word, &ph);
        assert_eq!(phonetic, "pa");
        assert_eq!(romanized, "pa");
    }
}

#[test]
fn prefix_scenario_puts_token_and_boundary_first() {
    let ph = pa_phonology();
    let affixes = strs(&["+t"]);
    let mut rng = StdRng::seed_from_u64(11);
    let word = create_word(&ph, &affixes, &mut rng);
    assert_eq!(word, strs(&["[t]", " ", "'", "[p][a]"]));
    assert_eq!(word.concat(), "[t] '[p][a]");
    let (phonetic, romanized) = create_final_str(word, &ph);
    assert_eq!(phonetic, "tpa");
    assert_eq!(romanized, "tpa");
}

#[test]
fn diphthong_suffix_parses_to_one_token() {
    assert_eq!(parse_affix("a\u{361}i"), "[a\u{361}i]");
    let entry = "-a\u{361}i".to_string();
    assert_eq!(strip_tag(&entry), "a\u{361}i");
    let mut word = strs(&["'", "[p][a]"]);
    apply_affixes(&mut word, None, Some(&entry));
    assert_eq!(word, strs(&["'", "[p][a]", " ", "[a\u{361}i]"]));
}

#[test]
fn affix_parsing_edge_cases() {
    assert_eq!(parse_affix(""), "");
    assert_eq!(parse_affix("pri"), "[p][r][i]");
    assert_eq!(parse_affix("\u{361}"), "[\u{361}]");
    assert_eq!(parse_affix("a\u{361}"), "[a[\u{361}]");
    assert_eq!(parse_affix("t\u{361}sa"), "[t\u{361}[s][a]");
}

#[test]
fn suffix_keeps_an_existing_boundary() {
    let mut word = strs(&["[p]", " "]);
    let entry = "-n".to_string();
    apply_affixes(&mut word, None, Some(&entry));
    assert_eq!(word, strs(&["[p]", " ", "[n]"]));
    let mut empty: Vec<String> = vec![];
    apply_affixes(&mut empty, None, Some(&entry));
    assert_eq!(empty, strs(&[" ", "[n]"]));
}

#[test]
fn prefix_and_suffix_together() {
    let mut word = strs(&["'", "[p][a]"]);
    let pre = "+ex".to_string();
    let suf = "-n".to_string();
    apply_affixes(&mut word, Some(&pre), Some(&suf));
    assert_eq!(word, strs(&["[e][x]", " ", "'", "[p][a]", " ", "[n]"]));
}

#[test]
fn affix_buckets_keep_order_and_tag() {
    let affixes = strs(&["+a", "-b", "c", "+d", "", "-e"]);
    assert_eq!(affix_bucket(&affixes, '+'), strs(&["+a", "+d"]));
    assert_eq!(affix_bucket(&affixes, '-'), strs(&["-b", "-e"]));
}

#[test]
fn onsets_are_inserted_at_the_front() {
    let ph = Phonology::new(
        strs(&["p", "t", "k"]),
        strs(&["p", "t", "k"]),
        strs(&["n", "s"]),
        strs(&["a", "i"]),
        0,
        vec![],
        strs(&["ccvcc"]),
        1,
    )
    .unwrap();
    let t = "ccvcc".to_string();
    let s = syllable_from_picks(&t, &ph, &vec![0, 1, 1, 1, 0]);
    assert_eq!(s, "[t][p][i][s][n]");
    let s = syllable_from_picks(&"CCV".to_string(), &ph, &vec![2, 0, 0]);
    assert_eq!(s, "[p][k][a]");
}

#[test]
fn built_syllable_follows_its_template() {
    let ph = rich_phonology(0, 3);
    let mut rng = StdRng::seed_from_u64(3);
    for _ in 0..50 {
        let s = build_syllable(&"ccvc".to_string(), &ph, &mut rng).unwrap();
        let tokens: Vec<&str> = s.trim_start_matches('[').trim_end_matches(']').split("][").collect();
        assert_eq!(tokens.len(), 4);
        assert!(ph.onsets.contains(&tokens[0].to_string()));
        assert!(ph.onsets.contains(&tokens[1].to_string()));
        assert!(ph.vowels.contains(&tokens[2].to_string()));
        assert!(ph.codas.contains(&tokens[3].to_string()));
    }
}

#[test]
fn build_syllable_errors() {
    let ph = pa_phonology();
    let mut rng = StdRng::seed_from_u64(1);
    assert_eq!(build_syllable(&"cc".to_string(), &ph, &mut rng), Err(PhonologyError::MalformedTemplate));
    assert_eq!(build_syllable(&"cvc".to_string(), &ph, &mut rng), Err(PhonologyError::EmptyInventory));
    assert_eq!(build_syllable(&"V".to_string(), &ph, &mut rng), Ok("[a]".to_string()));
}

#[test]
fn stress_from_the_end() {
    let syllables = strs(&["[p][a]", "[t][i]", "[k][u]"]);
    assert_eq!(
        place_syllables(&syllables, -1),
        strs(&["[p][a]", " ", "[t][i]", " ", "'", "[k][u]"])
    );
    assert_eq!(
        place_syllables(&syllables, 1),
        strs(&["[p][a]", " ", "'", "[t][i]", " ", "[k][u]"])
    );
    assert_eq!(
        place_syllables(&syllables, -3),
        strs(&["'", "[p][a]", " ", "[t][i]", " ", "[k][u]"])
    );
}

#[test]
fn stress_index_outside_the_word_marks_nothing() {
    let syllables = strs(&["[p][a]", "[t][i]"]);
    assert_eq!(place_syllables(&syllables, 5), strs(&["[p][a]", " ", "[t][i]"]));
    let one = strs(&["[p][a]"]);
    assert_eq!(place_syllables(&one, 5), strs(&["'", "[p][a]"]));
    assert_eq!(place_syllables(&vec![], 0), Vec::<String>::new());
}

#[test]
fn syllable_count_stays_in_range_with_one_stress() {
    let ph = rich_phonology(-1, 4);
    let mut rng = StdRng::seed_from_u64(99);
    for _ in 0..200 {
        let ch = draw_choices(&ph, &vec![], &mut rng);
        assert!(ch.templates.len() >= 1 && ch.templates.len() <= 4);
        let word = word_from_choices(&ph, &vec![], &ch);
        assert_eq!(word.iter().filter(|t| t.as_str() == "'").count(), 1);
        let boundaries = word.iter().filter(|t| t.as_str() == " ").count();
        assert_eq!(boundaries, ch.templates.len() - 1);
    }
}

#[test]
fn romanized_output_has_no_brackets() {
    let ph = rich_phonology(0, 3);
    let mut rng = StdRng::seed_from_u64(5);
    for _ in 0..100 {
        let word = create_word(&ph, &strs(&["+sa", "-a\u{361}i"]), &mut rng);
        let (phonetic, romanized) = create_final_str(word, &ph);
        assert!(!romanized.contains('[') && !romanized.contains(']'));
        assert!(!phonetic.contains('[') && !phonetic.contains(' ') && !phonetic.contains('\''));
    }
}

#[test]
fn romanization_replaces_whole_tokens() {
    let ph = rich_phonology(0, 3);
    let word = strs(&["'", "[k][a\u{361}i]", " ", "[s][u][n]"]);
    let (phonetic, romanized) = create_final_str(word, &ph);
    assert_eq!(phonetic, "ka\u{361}isun");
    assert_eq!(romanized, "caisoon");
}

#[test]
fn same_draws_give_same_output() {
    let ph = rich_phonology(1, 4);
    let affixes = strs(&["+sa", "x", "-n", "-a\u{361}i"]);
    let mut r1 = StdRng::seed_from_u64(2024);
    let mut r2 = StdRng::seed_from_u64(2024);
    for _ in 0..30 {
        let w1 = create_word(&ph, &affixes, &mut r1);
        let w2 = create_word(&ph, &affixes, &mut r2);
        assert_eq!(w1, w2);
        assert_eq!(create_final_str(w1, &ph), create_final_str(w2, &ph));
    }
}

#[test]
fn scripted_draws_give_exact_word() {
    let ph = rich_phonology(-1, 4);
    let affixes = strs(&["+sa", "-n", "-a\u{361}i"]);
    let ch = WordChoices {
        templates: vec![0, 1],
        picks: vec![vec![1, 0], vec![2, 3, 1]],
        prefix: Some(0),
        suffix: Some(1),
    };
    let w = word_from_choices(&ph, &affixes, &ch);
    assert_eq!(w, strs(&["[s][a]", " ", "[t][a]", " ", "'", "[k][a\u{361}i][s]", " ", "[a\u{361}i]"]));
    let again = word_from_choices(&ph, &affixes, &ch);
    assert_eq!(w, again);
    assert_eq!(create_final_str(w, &ph), ("sataka\u{361}isa\u{361}i".to_string(), "satacaisai".to_string()));
}

#[test]
fn sentinel_resolves_to_consonants() {
    let ph = rich_phonology(0, 2);
    assert_eq!(ph.onsets, strs(&["p", "t", "k", "s", "n"]));
    assert_eq!(ph.codas, strs(&["n", "s"]));
}

#[test]
fn phonology_errors() {
    let make = |cons: &[&str], ons: &[&str], codas: &[&str], vowels: &[&str], rom: &[(&str, &str)], sts: &[&str], max: i32| {
        Phonology::new(strs(cons), strs(ons), strs(codas), strs(vowels), 0, table(rom), strs(sts), max)
    };
    assert_eq!(make(&["p"], &["p"], &[], &["a"], &[], &["cv"], 0).err(), Some(PhonologyError::InvalidSyllableCount));
    assert_eq!(make(&[], &["p"], &[], &["a"], &[], &["cv"], 1).err(), Some(PhonologyError::EmptyInventory));
    assert_eq!(make(&["p"], &["p"], &[], &[], &[], &["cv"], 1).err(), Some(PhonologyError::EmptyInventory));
    assert_eq!(make(&["p"], &["p"], &[], &["a"], &[], &[], 1).err(), Some(PhonologyError::EmptyInventory));
    assert_eq!(make(&["p"], &["p"], &[], &["a"], &[], &["cv", "cc"], 1).err(), Some(PhonologyError::MalformedTemplate));
    assert_eq!(make(&["p"], &["p"], &[], &["a"], &[], &["cvc", "cc"], 1).err(), Some(PhonologyError::EmptyInventory));
    assert_eq!(make(&["p"], &[], &[], &["a"], &[], &["v", "cv"], 1).err(), Some(PhonologyError::EmptyInventory));
    assert_eq!(
        make(&["p"], &["p"], &[], &["a"], &[("p", "b"), ("a", "e"), ("p", "f")], &["cv"], 1).err(),
        Some(PhonologyError::DuplicateRomanizationKey)
    );
    assert!(make(&["p"], &[], &[], &["a"], &[("p", "b")], &["v"], 1).is_ok());
}

#[test]
fn affix_list_splits_on_commas_and_drops_quotes() {
    assert_eq!(parse_affix_list("\"-\u{259}n,+pri\""), strs(&["-\u{259}n", "+pri"]));
    assert_eq!(parse_affix_list("'+a',"), strs(&["+a", ""]));
    assert_eq!(parse_affix_list(""), strs(&[""]));
}

#[test]
fn plain_key_does_not_match_inside_a_diphthong() {
    let ph = Phonology::new(
        strs(&["p"]),
        strs(&["p"]),
        strs(&[]),
        strs(&["a", "a\u{361}i"]),
        0,
        table(&[("a", "e"), ("a\u{361}i", "y")]),
        strs(&["cv"]),
        2,
    )
    .unwrap();
    let word = strs(&["'", "[p][a]", " ", "[p][a\u{361}i]", " ", "[a][x]"]);
    let (phonetic, romanized) = create_final_str(word, &ph);
    assert_eq!(phonetic, "papa\u{361}iax");
    assert_eq!(romanized, "pepyex");
}

#[test]
fn second_vowel_slot_draws_a_vowel_after_the_codas_start() {
    let ph = rich_phonology(0, 2);
    let s = syllable_from_picks(&"vcv".to_string(), &ph, &vec![0, 0, 1]);
    assert_eq!(s, "[a][n][i]");
}
