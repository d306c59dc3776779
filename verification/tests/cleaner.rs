use call_recorder::anna::needs_screenshot;
use call_recorder::transcription::cleaner::{
    apply_self_corrections, assemble, clean, correction_step, finalize, is_filler_sound,
    normalize_screen_phrase, punctuate, remove_fillers, split_wake_word,
};

#[test]
fn test_spec_example() {
    let input = "hej anne øhh kig lige på skærmen hov nej jeg mener brug skærmen og udfyld øh feltet med kundenavn Petersen";
    assert_eq!(
        clean(input),
        "Hey Anna, brug skærmen og udfyld feltet med kundenavn Petersen."
    );
}

#[test]
fn test_filler_removal() {
    assert_eq!(clean("øh hej"), "Hej.");
    assert_eq!(clean("skriv øhm noget"), "Skriv noget.");
    assert_eq!(clean("hmm lad mig tænke"), "Lad mig tænke.");
    assert_eq!(clean("øhhh hvad skal jeg gøre"), "Hvad skal jeg gøre.");
}

#[test]
fn test_wake_word_normalization() {
    assert_eq!(clean("hej anna hvad er klokken"), "Hey Anna, hvad er klokken.");
    assert_eq!(clean("hey anne brug skærmen"), "Hey Anna, brug skærmen.");
    assert_eq!(clean("hej, anna hvad sker der"), "Hey Anna, hvad sker der.");
    assert_eq!(clean("hey, anna"), "Hey Anna.");
}

#[test]
fn test_self_correction_single() {
    assert_eq!(clean("skriv rapport hov nej skriv mail"), "Skriv mail.");
    assert_eq!(clean("åbn filen nej vent luk vinduet"), "Luk vinduet.");
}

#[test]
fn test_self_correction_cascading() {
    // Multiple corrections: only the last segment survives
    assert_eq!(
        clean("skriv rapport hov nej skriv mail jeg mener send besked"),
        "Send besked."
    );
}

#[test]
fn test_screen_phrase_normalization() {
    assert_eq!(clean("kig på skærmen og beskriv"), "Se på skærmen og beskriv.");
    assert_eq!(clean("vis skærmen"), "Se på skærmen.");
    assert_eq!(clean("kig på min skærm og forklar"), "Se på skærmen og forklar.");
}

#[test]
fn test_capitalization_and_punctuation() {
    assert_eq!(clean("skriv rapport"), "Skriv rapport.");
    assert_eq!(clean("hvad er klokken?"), "Hvad er klokken?");
    assert_eq!(clean("yes!"), "Yes!");
}

#[test]
fn test_empty_input() {
    assert_eq!(clean(""), "");
    assert_eq!(clean("   "), "");
}

#[test]
fn test_filler_only_input() {
    // After removing all fillers nothing remains — return empty string
    assert_eq!(clean("øh øhm hmm"), "");
}

#[test]
fn wake_word_is_cut_off_whatever_its_case() {
    assert_eq!(split_wake_word("HEJ ANNE, skriv"), (Some("Hey Anna"), "skriv".to_string()));
    assert_eq!(split_wake_word("Hey, Anna: skriv"), (Some("Hey Anna"), ": skriv".to_string()));
    assert_eq!(split_wake_word("skriv"), (None, "skriv".to_string()));
}

#[test]
fn every_form_of_the_wake_word_gives_the_same_sentence() {
    for wake in ["hey anna", "HEJ ANNA", "Hey, Anna", "hej, anne", "Hey Anne", "hEj aNNe"] {
        assert_eq!(clean(&format!("{}, skriv hov nej vis SKÆRMEN", wake)), "Hey Anna, se på skærmen.");
        assert_eq!(clean(&format!("{} øh", wake)), "Hey Anna.");
    }
}

#[test]
fn corrections_restart_at_the_earliest_trigger() {
    assert_eq!(apply_self_corrections("a Hov Nej b NEJ VENT, c"), "c");
    assert_eq!(apply_self_corrections("intet at rette"), "intet at rette");
    assert_eq!(correction_step("a hov nej b jeg mener c").as_deref(), Some("b jeg mener c"));
    assert_eq!(correction_step("a"), None);
}

#[test]
fn corrections_cut_where_the_lowercase_is_longer() {
    assert_eq!(apply_self_corrections("\u{23a} hov nej"), "");
    assert_eq!(apply_self_corrections("İİ hov nej ab"), "ab");
    assert_eq!(clean("İİİİ hov nej ab"), "Ab.");
    assert_eq!(normalize_screen_phrase("İ vis skærmen İ"), "İ se på skærmen İ");
}

#[test]
fn fillers_go_whatever_their_case_and_punctuation() {
    assert_eq!(remove_fillers("Øh, skriv  HMM. det"), "skriv det");
    assert!(is_filler_sound("øhm"));
    assert!(!is_filler_sound("øl"));
}

#[test]
fn screen_phrase_becomes_the_canonical_one() {
    assert_eq!(normalize_screen_phrase("Kig På Skærmen nu"), "se på skærmen nu");
    assert_eq!(normalize_screen_phrase("skriv en mail"), "skriv en mail");
    assert_eq!(normalize_screen_phrase("se på skærmen og beskriv"), "se på skærmen og beskriv");
    assert_eq!(normalize_screen_phrase("nu se på skærmen og beskriv"), "nu se på skærmen og beskriv");
    assert_eq!(
        normalize_screen_phrase("se på skærm og se på skærmen"),
        "se på skærmen og se på skærmen"
    );
    assert_eq!(
        normalize_screen_phrase("se på skærmen og se på skærm"),
        "se på skærmen og se på skærm"
    );
    assert_eq!(normalize_screen_phrase("se på skærm og beskriv"), "se på skærmen og beskriv");
    assert_eq!(normalize_screen_phrase("Vær sød: SE PÅ SKÆRMEN, tak"), "Vær sød: se på skærmen tak");
    for phrase in [
        "kig på min skærm",
        "SE på min skærm",
        "VIS min skærm",
        "kig på skærmen",
        "kig på SKÆRM",
        "vis skærmen",
        "se på skærmen",
        "se på skærm",
    ] {
        assert!(needs_screenshot(&normalize_screen_phrase(phrase)));
    }
}

#[test]
fn sentence_is_finished() {
    assert_eq!(finalize("  øl og vand "), "Øl og vand.");
    assert_eq!(finalize("straße"), "Straße.");
    assert_eq!(finalize("ßen"), "SSen.");
    for s in ["øl og vand", "ßen", "yes!", "ǆ", "…"] {
        let finished = finalize(s);
        assert_eq!(finalize(&finished), finished);
    }
    assert_eq!(finalize(""), "");
    assert_eq!(punctuate(&['H'], &['a', '!']), "Ha!");
    assert_eq!(punctuate(&['H'], &['a']), "Ha.");
    assert_eq!(assemble(true, ""), "Hey Anna");
    assert_eq!(assemble(true, " skriv "), "Hey Anna, skriv");
    assert_eq!(assemble(false, ""), "");
}
