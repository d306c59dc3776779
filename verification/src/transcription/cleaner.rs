//! Turns the raw transcript of a dictation into a clean sentence.

use vstd::prelude::*;
use vstd::slice::*;
use vstd::string::*;

use crate::anna;
use crate::text;
use crate::text::{
    chars_of, find_leading_phrase, find_occurring_phrase, find_text, index_after_lower,
    index_before_lower, is_one_of, join_texts, lower, split_words, stands_at, strip, text_of, trim,
    trim_end, trim_start, uppercase_chars, CharClass,
};

verus! {

// ── Wake word ──────────────────────────────────────────────────────────

/// The spoken forms of the wake word, in the order in which they are tried.
pub open spec fn wake_variants() -> Seq<Seq<char>> {
    seq![
        "hey, anna"@,
        "hej, anna"@,
        "hey anna"@,
        "hej anna"@,
        "hey, anne"@,
        "hej, anne"@,
        "hey anne"@,
        "hej anne"@,
    ]
}

/// How a transcript splits at the wake word: whether it starts with one, whatever its case, and the
/// text after it.
pub open spec fn wake_split(s: Seq<char>) -> (bool, Seq<char>) {
    match text::leading_phrase(text::lowercase(s), wake_variants(), 0) {
        Some(j) => (
            true,
            text::trimmed_start(
                text::after_lower(s, wake_variants()[j].len() as int),
                CharClass::Separator,
            ),
        ),
        None => (false, s),
    }
}

/// Splits the wake word off a transcript: its normal form, and the text after it.
pub fn split_wake_word(s: &str) -> (res: (Option<&'static str>, String))
    ensures
        (res.0 is Some, res.1@) == wake_split(s@),
        res.0 matches Some(wake) ==> wake@ == "Hey Anna"@,
{
    let variants: [&str; 8] = [
        "hey, anna",
        "hej, anna",
        "hey anna",
        "hej anna",
        "hey, anne",
        "hej, anne",
        "hey anne",
        "hej anne",
    ];
    assert(text::views(variants@) =~= wake_variants());
    let lowered = lower(s);
    match find_leading_phrase(lowered.as_str(), variants.as_slice()) {
        Some(j) => {
            let variant = chars_of(variants[j]);
            assert(text::views(variants@)[j as int] == variant@);
            let chars = chars_of(s);
            let k = index_after_lower(chars.as_slice(), variant.len());
            let rest = slice_subrange(chars.as_slice(), k, chars.len());
            assert(rest@ =~= s@.skip(k as int));
            (Some("Hey Anna"), text_of(trim_start(rest, CharClass::Separator)))
        },
        None => (None, s.to_owned()),
    }
}

// ── Self-corrections ───────────────────────────────────────────────────
//
// When the speaker catches a mistake they say a trigger phrase like "hov nej"
// and then restart. Everything up to and including the trigger is discarded,
// and this repeats until no more triggers remain.

/// The phrases with which a speaker takes back what was said before.
pub open spec fn triggers() -> Seq<Seq<char>> {
    seq!["hov nej"@, "nej vent"@, "jeg mener"@, "nej faktisk"@, "bare glem det"@]
}

/// Where the earliest of `phrases` stands in `s`, and which of them it is. Of two phrases at one
/// place the first counts.
pub open spec fn earliest(s: Seq<char>, phrases: Seq<Seq<char>>) -> Option<(int, int)>
    decreases phrases.len(),
{
    if phrases.len() == 0 {
        None
    } else {
        let before = earliest(s, phrases.drop_last());
        match (before, text::find(s, phrases.last())) {
            (None, Some(k)) => Some((k, phrases.len() - 1)),
            (Some(p), Some(k)) => if k < p.0 {
                Some((k, phrases.len() - 1))
            } else {
                before
            },
            (_, None) => before,
        }
    }
}

/// Where the earliest trigger ends.
pub open spec fn trigger_end(lower: Seq<char>) -> Option<int> {
    match earliest(lower, triggers()) {
        Some(p) => Some(p.0 + triggers()[p.1].len()),
        None => None,
    }
}

/// What is left of a text when everything up to and including its earliest trigger, whatever the
/// trigger's case, is dropped.
pub open spec fn restarted(s: Seq<char>) -> Option<Seq<char>> {
    match trigger_end(text::lowercase(s)) {
        Some(end) => Some(text::trimmed_start(text::after_lower(s, end), CharClass::Separator)),
        None => None,
    }
}

/// The text that is left when all self-corrections are applied.
pub open spec fn corrected(s: Seq<char>) -> Seq<char>
    decreases s.len(),
    via corrected_decreases
{
    match restarted(s) {
        None => s,
        Some(rest) => corrected(rest),
    }
}

#[via_fn]
proof fn corrected_decreases(s: Seq<char>) {
    lemma_restart_is_shorter(s);
}

/// What is left after a trigger is the end of the text, and shorter.
proof fn lemma_restart_is_shorter(s: Seq<char>)
    ensures
        restarted(s) matches Some(rest) ==> rest.len() < s.len() && rest == s.skip(
            s.len() - rest.len(),
        ),
{
    let lowered = text::lowercase(s);
    lemma_trigger_end(lowered);
    if let Some(end) = trigger_end(lowered) {
        let after = text::after_lower(s, end);
        text::lemma_after_lower(s, end);
        text::lemma_trimmed_start(after, CharClass::Separator);
        let rest = restarted(s)->0;
        assert(rest =~= s.skip(s.len() - rest.len()));
    }
}

/// The earliest of some phrases is one of them, at its first place, and none stands before it.
proof fn lemma_earliest(s: Seq<char>, phrases: Seq<Seq<char>>)
    ensures
        earliest(s, phrases) matches Some(p) ==> 0 <= p.1 < phrases.len() && text::find(
            s,
            phrases[p.1],
        ) == Some(p.0) && text::occurs_at(s, phrases[p.1], p.0),
        earliest(s, phrases) is Some <==> text::occurs_any(s, phrases),
        earliest(s, phrases) matches Some(p) ==> forall|i: int, k: int|
            0 <= i < phrases.len() && #[trigger] text::occurs_at(s, phrases[i], k) ==> p.0 <= k,
    decreases phrases.len(),
{
    if phrases.len() > 0 {
        let init = phrases.drop_last();
        lemma_earliest(s, init);
        if let Some(p) = earliest(s, phrases) {
            assert forall|i: int, k: int|
                0 <= i < phrases.len() && #[trigger] text::occurs_at(
                    s,
                    phrases[i],
                    k,
                ) implies p.0 <= k by {
                text::lemma_find(s, phrases[i]);
                if i < init.len() {
                    assert(init[i] == phrases[i]);
                    assert(text::occurs(s, init[i]));
                }
            }
        }
        text::lemma_find(s, phrases.last());
        if text::occurs_any(s, init) {
            let i = choose|i: int| 0 <= i < init.len() && text::occurs(s, #[trigger] init[i]);
            assert(init[i] == phrases[i]);
        }
        if text::occurs_any(s, phrases) {
            let i = choose|i: int| 0 <= i < phrases.len() && text::occurs(s, #[trigger] phrases[i]);
            if i < init.len() {
                assert(init[i] == phrases[i]);
            }
        }
        if let Some(p) = earliest(s, phrases) {
            text::lemma_find(s, phrases[p.1]);
            if p.1 < init.len() {
                assert(init[p.1] == phrases[p.1]);
            }
        }
    }
}

proof fn lemma_triggers_nonempty()
    ensures
        forall|i: int| 0 <= i < triggers().len() ==> (#[trigger] triggers()[i]).len() > 0,
{
    reveal_strlit("hov nej");
    reveal_strlit("nej vent");
    reveal_strlit("jeg mener");
    reveal_strlit("nej faktisk");
    reveal_strlit("bare glem det");
}

proof fn lemma_trigger_end(lower: Seq<char>)
    ensures
        trigger_end(lower) matches Some(end) ==> 0 < end <= lower.len(),
{
    lemma_earliest(lower, triggers());
    lemma_triggers_nonempty();
}

/// Drops everything up to and including the earliest trigger, where there is one.
pub fn correction_step(s: &str) -> (res: Option<String>)
    ensures
        text::opt(res) == restarted(s@),
{
    let phrases: [&str; 5] = ["hov nej", "nej vent", "jeg mener", "nej faktisk", "bare glem det"];
    let ghost all = text::views(phrases@);
    assert(all =~= triggers());
    let lowered = lower(s);
    let chars = chars_of(lowered.as_str());
    let mut best: Option<(usize, usize)> = None;
    let mut i: usize = 0;
    while i < 5
        invariant
            i <= 5,
            phrases@.len() == 5,
            all == text::views(phrases@),
            chars@ == lowered@,
            best is Some ==> chars@.len() <= usize::MAX,
            earliest(lowered@, all.take(i as int)) == (match best {
                Some(p) => Some((p.0 as int, p.1 as int)),
                None => None,
            }),
        decreases 5 - i,
    {
        let phrase = chars_of(phrases[i]);
        let found = find_text(chars.as_slice(), phrase.as_slice());
        proof {
            assert(all.take(i as int + 1).drop_last() =~= all.take(i as int));
            assert(all.take(i as int + 1).last() == phrase@);
        }
        if let Some(k) = found {
            match best {
                Some(p) => {
                    if k < p.0 {
                        best = Some((k, i));
                    }
                },
                None => {
                    best = Some((k, i));
                },
            }
        }
        i += 1;
    }
    proof {
        assert(all.take(5) =~= all);
        lemma_earliest(lowered@, triggers());
    }
    match best {
        None => None,
        Some(p) => {
            let phrase = chars_of(phrases[p.1]);
            assert(all[p.1 as int] == phrase@);
            let end: usize = p.0 + phrase.len();
            let whole = chars_of(s);
            let k = index_after_lower(whole.as_slice(), end);
            let rest = slice_subrange(whole.as_slice(), k, whole.len());
            assert(rest@ =~= s@.skip(k as int));
            Some(text_of(trim_start(rest, CharClass::Separator)))
        },
    }
}

/// Applies the self-corrections in a transcript.
pub fn apply_self_corrections(s: &str) -> (res: String)
    ensures
        res@ == corrected(s@),
{
    let mut result = s.to_owned();
    loop
        invariant
            corrected(result@) == corrected(s@),
        decreases result@.len(),
    {
        proof {
            lemma_restart_is_shorter(result@);
        }
        match correction_step(result.as_str()) {
            None => {
                return result;
            },
            Some(rest) => {
                result = rest;
            },
        }
    }
}

// ── Filler words ───────────────────────────────────────────────────────

/// The sounds that carry no meaning.
pub open spec fn fillers() -> Seq<Seq<char>> {
    seq!["øh"@, "øhh"@, "øhhh"@, "øhm"@, "øhmm"@, "hmm"@, "hm"@, "mmh"@]
}

/// Whether a word is a filler, whatever its case and the punctuation around it.
pub open spec fn is_filler(w: Seq<char>) -> bool {
    fillers().contains(text::lowercase(text::trimmed(w, CharClass::NonAlphabetic)))
}

/// The words of `s` that are not fillers.
pub open spec fn kept_words(s: Seq<char>) -> Seq<Seq<char>> {
    text::words(s).filter(|w: Seq<char>| !is_filler(w))
}

/// The words of `s` that are not fillers, with one blank between each two.
pub open spec fn without_fillers(s: Seq<char>) -> Seq<char> {
    text::join(kept_words(s), seq![' '])
}

/// Whether a word in lowercase, without punctuation, is one of the fillers.
pub fn is_filler_sound(lower: &str) -> (res: bool)
    ensures
        res == fillers().contains(lower@),
{
    let sounds: [&str; 8] = ["øh", "øhh", "øhhh", "øhm", "øhmm", "hmm", "hm", "mmh"];
    assert(text::views(sounds@) =~= fillers());
    is_one_of(lower, sounds.as_slice())
}

/// Removes the filler words from a text.
pub fn remove_fillers(s: &str) -> (res: String)
    ensures
        res@ == without_fillers(s@),
{
    let chars = chars_of(s);
    let all = split_words(chars.as_slice());
    let mut kept: Vec<String> = Vec::new();
    let ghost keep = |w: Seq<char>| !is_filler(w);
    let ghost ws = text::words(s@);
    let mut i: usize = 0;
    proof {
        reveal(Seq::filter);
        assert(ws.take(0).filter(keep) =~= Seq::empty());
    }
    while i < all.len()
        invariant
            i <= all@.len(),
            ws == text::texts(all@),
            keep == (|w: Seq<char>| !is_filler(w)),
            text::texts(kept@) == ws.take(i as int).filter(keep),
        decreases all@.len() - i,
    {
        let word = chars_of(all[i].as_str());
        let core = text_of(trim(word.as_slice(), CharClass::NonAlphabetic));
        let lowered = lower(core.as_str());
        proof {
            reveal(Seq::filter);
            assert(ws[i as int] == all@[i as int]@);
            assert(ws.take(i as int + 1).drop_last() =~= ws.take(i as int));
        }
        if !is_filler_sound(lowered.as_str()) {
            let ghost held = kept@;
            kept.push(all[i].clone());
            assert(text::texts(kept@) =~= text::texts(held).push(all@[i as int]@));
        }
        i += 1;
    }
    proof {
        assert(ws.take(i as int) =~= ws);
        reveal_strlit(" ");
        assert(" "@ =~= seq![' ']);
    }
    join_texts(&kept, " ")
}

// ── Screen-look phrase normalization ───────────────────────────────────
//
// Phrases meaning "look at the screen" are normalized to "se på skærmen", so that
// what looks for a screen request downstream finds it whichever phrase was spoken.

/// The phrases that mean "look at the screen", in the order in which they are tried.
pub open spec fn screen_variants() -> Seq<Seq<char>> {
    seq![
        "kig på min skærm"@,
        "se på min skærm"@,
        "vis min skærm"@,
        "kig på skærmen"@,
        "kig på skærm"@,
        "vis skærmen"@,
        "se på skærm"@,
    ]
}

/// What comes before the normal phrase: a text and a blank, or nothing.
pub open spec fn with_blank_after(before: Seq<char>) -> Seq<char> {
    if before.len() == 0 {
        Seq::empty()
    } else {
        before + " "@
    }
}

/// What comes after the normal phrase: a blank and a text, or nothing.
pub open spec fn with_blank_before(after: Seq<char>) -> Seq<char> {
    if after.len() == 0 {
        Seq::empty()
    } else {
        " "@ + after
    }
}

/// The screen phrase between two texts, with a blank to either side that is not empty.
pub open spec fn screen_phrase_between(before: Seq<char>, after: Seq<char>) -> Seq<char> {
    with_blank_after(before) + "se på skærmen"@ + with_blank_before(after)
}

/// How far the variant that stands at `start` reaches: where the normal phrase stands there, of which
/// the variant may be the beginning, to the end of that.
pub open spec fn screen_phrase_end(lowered: Seq<char>, variant: Seq<char>, start: int) -> int {
    if text::occurs_at(lowered, "se på skærmen"@, start) {
        start + "se på skærmen"@.len()
    } else {
        start + variant.len()
    }
}

/// `s` with the first screen variant that stands in it, whatever its case, replaced at its first place
/// by the normal phrase.
pub open spec fn screen_normalized(s: Seq<char>) -> Seq<char> {
    let lowered = text::lowercase(s);
    match text::occurring_phrase(lowered, screen_variants(), 0) {
        None => s,
        Some(j) => {
            let variant = screen_variants()[j];
            let start = text::find(lowered, variant)->0;
            screen_phrase_between(
                text::trimmed_end(text::before_lower(s, start), CharClass::WhiteSpace),
                text::trimmed_start(
                    text::after_lower(s, screen_phrase_end(lowered, variant, start)),
                    CharClass::Separator,
                ),
            )
        },
    }
}

/// Replaces a phrase that means "look at the screen" by its normal form.
pub fn normalize_screen_phrase(s: &str) -> (res: String)
    ensures
        res@ == screen_normalized(s@),
{
    let variants: [&str; 7] = [
        "kig på min skærm",
        "se på min skærm",
        "vis min skærm",
        "kig på skærmen",
        "kig på skærm",
        "vis skærmen",
        "se på skærm",
    ];
    assert(text::views(variants@) =~= screen_variants());
    let lowered = lower(s);
    match find_occurring_phrase(lowered.as_str(), variants.as_slice()) {
        None => s.to_owned(),
        Some(j) => {
            let hay = chars_of(lowered.as_str());
            let needle = chars_of(variants[j]);
            assert(text::views(variants@)[j as int] == needle@);
            proof {
                text::lemma_find(lowered@, needle@);
            }
            match find_text(hay.as_slice(), needle.as_slice()) {
                None => s.to_owned(),
                Some(k) => {
                    let whole = chars_of(s);
                    let a = index_before_lower(whole.as_slice(), k);
                    let normal = chars_of("se på skærmen");
                    let end: usize = if stands_at(hay.as_slice(), normal.as_slice(), k) {
                        k + normal.len()
                    } else {
                        k + needle.len()
                    };
                    let b = index_after_lower(whole.as_slice(), end);
                    let before = slice_subrange(whole.as_slice(), 0, a);
                    let after = slice_subrange(whole.as_slice(), b, whole.len());
                    assert(before@ =~= s@.take(a as int));
                    assert(after@ =~= s@.skip(b as int));
                    let before = text_of(trim_end(before, CharClass::WhiteSpace));
                    let after = text_of(trim_start(after, CharClass::Separator));
                    let mut out = String::new();
                    if !before.as_str().is_empty() {
                        out.append(before.as_str());
                        out.append(" ");
                    }
                    out.append("se på skærmen");
                    if !after.as_str().is_empty() {
                        out.append(" ");
                        out.append(after.as_str());
                    }
                    assert(out@ =~= screen_phrase_between(before@, after@));
                    out
                },
            }
        },
    }
}

// ── Capitalization + terminal punctuation ──────────────────────────────

/// Whether a text ends a sentence.
pub open spec fn ends_sentence(s: Seq<char>) -> bool {
    s.len() > 0 && (s.last() == '.' || s.last() == '!' || s.last() == '?' || s.last() == '…')
}

/// `s` with a full stop, unless it ends a sentence already.
pub open spec fn punctuated(s: Seq<char>) -> Seq<char> {
    if ends_sentence(s) {
        s
    } else {
        s.push('.')
    }
}

/// `s` as a sentence: without white space around it, the first character in uppercase, and a full
/// stop where no other mark ends it. Of white space nothing is left.
pub open spec fn finalized(s: Seq<char>) -> Seq<char> {
    let t = text::stripped(s);
    if t.len() == 0 {
        Seq::empty()
    } else {
        punctuated(text::uppercase(t[0]) + t.drop_first())
    }
}

/// Ends a sentence that starts with `head` and goes on with `tail`.
pub fn punctuate(head: &[char], tail: &[char]) -> (res: String)
    ensures
        res@ == punctuated(head@ + tail@),
{
    let mut out = text_of(head);
    let more = text_of(tail);
    out.append(more.as_str());
    let n: usize = head.len();
    let m: usize = tail.len();
    let ends = if m > 0 {
        let last = tail[m - 1];
        last == '.' || last == '!' || last == '?' || last == '…'
    } else if n > 0 {
        let last = head[n - 1];
        last == '.' || last == '!' || last == '?' || last == '…'
    } else {
        false
    };
    if !ends {
        out.push('.');
    }
    out
}

/// Makes a sentence of a text.
pub fn finalize(s: &str) -> (res: String)
    ensures
        res@ == finalized(s@),
{
    let chars = chars_of(s);
    let t = trim(chars.as_slice(), CharClass::WhiteSpace);
    if t.len() == 0 {
        return String::new();
    }
    let head = uppercase_chars(t[0]);
    let tail = slice_subrange(t, 1, t.len());
    assert(tail@ =~= t@.drop_first());
    punctuate(head.as_slice(), tail)
}

// ── All steps ──────────────────────────────────────────────────────────

/// The wake word, where there was one, and the cleaned text after it.
pub open spec fn assembled(wake: bool, cleaned: Seq<char>) -> Seq<char> {
    let rest = text::stripped(cleaned);
    if !wake {
        cleaned
    } else if rest.len() == 0 {
        "Hey Anna"@
    } else {
        "Hey Anna"@ + ", "@ + rest
    }
}

/// The clean sentence of a raw transcript.
pub open spec fn cleaned(raw: Seq<char>) -> Seq<char> {
    let t = text::stripped(raw);
    if t.len() == 0 {
        Seq::empty()
    } else {
        let (wake, rest) = wake_split(t);
        finalized(assembled(wake, screen_normalized(without_fillers(corrected(rest)))))
    }
}

/// Puts the wake word, where there was one, in front of a cleaned text.
pub fn assemble(wake: bool, cleaned: &str) -> (res: String)
    ensures
        res@ == assembled(wake, cleaned@),
{
    if !wake {
        return cleaned.to_owned();
    }
    let rest = strip(cleaned);
    let mut out = "Hey Anna".to_owned();
    if !rest.as_str().is_empty() {
        out.append(", ");
        out.append(rest.as_str());
    }
    out
}

/// Cleans a raw transcript.
pub fn clean(raw: &str) -> (res: String)
    ensures
        res@ == cleaned(raw@),
{
    let t = strip(raw);
    if t.as_str().is_empty() {
        return String::new();
    }
    let (wake, rest) = split_wake_word(t.as_str());
    let c = apply_self_corrections(rest.as_str());
    let f = remove_fillers(c.as_str());
    let n = normalize_screen_phrase(f.as_str());
    let whole = assemble(wake.is_some(), n.as_str());
    finalize(whole.as_str())
}

// ── Laws ───────────────────────────────────────────────────────────────

/// A cleaned transcript is empty or ends a sentence.
pub proof fn law_cleaned_ends_sentence(raw: Seq<char>)
    ensures
        cleaned(raw).len() == 0 || ends_sentence(cleaned(raw)),
{
}

/// Whether a text is a wake word, in any of its spoken forms and in whatever case.
pub open spec fn is_wake_word(v: Seq<char>) -> bool {
    &&& forall|i: int| 0 <= i < v.len() ==> text::is_common(#[trigger] v[i])
    &&& wake_variants().contains(text::lowercase(v))
}

proof fn lemma_wake_variants()
    ensures
        text::prefix_free(wake_variants()),
        forall|i: int|
            0 <= i < wake_variants().len() ==> (#[trigger] wake_variants()[i]).len() > 0
                && wake_variants()[i][0] == 'h' && (wake_variants()[i].last() == 'a'
                || wake_variants()[i].last() == 'e'),
{
    reveal_strlit("hey, anna");
    reveal_strlit("hej, anna");
    reveal_strlit("hey anna");
    reveal_strlit("hej anna");
    reveal_strlit("hey, anne");
    reveal_strlit("hej, anne");
    reveal_strlit("hey anne");
    reveal_strlit("hej anne");
    let vs = wake_variants();
    assert forall|i: int, j: int|
        #![trigger vs[i], vs[j]]
        0 <= i < vs.len() && 0 <= j < vs.len() && i != j implies !text::occurs_at(
        vs[i],
        vs[j],
        0,
    ) by {
        if text::occurs_at(vs[i], vs[j], 0) {
            let head = vs[i].subrange(0, vs[j].len() as int);
            assert(head[2] == vs[j][2]);
            assert(head[3] == vs[j][3]);
            assert(head[vs[j].len() - 1] == vs[j][vs[j].len() - 1]);
        }
    }
}

proof fn lemma_common_lowercase(v: Seq<char>)
    requires
        forall|i: int| 0 <= i < v.len() ==> text::is_common(#[trigger] v[i]),
    ensures
        text::lowercase(v).len() == v.len(),
        forall|i: int|
            0 <= i < v.len() ==> #[trigger] text::lowercase(v)[i] == text::common_lower(v[i]),
    decreases v.len(),
{
    if v.len() > 0 {
        let t = v.drop_first();
        assert forall|i: int| 0 <= i < t.len() implies text::is_common(#[trigger] t[i]) by {
            assert(t[i] == v[i + 1]);
        }
        lemma_common_lowercase(t);
        assert(text::is_common(v[0]));
        assert forall|i: int| 0 <= i < v.len() implies #[trigger] text::lowercase(v)[i]
            == text::common_lower(v[i]) by {
            if i > 0 {
                assert(text::lowercase(v)[i] == text::lowercase(t)[i - 1]);
            }
        }
    }
}

/// A wake word is cut off, in whatever form and case it was spoken.
proof fn lemma_wake_split(v: Seq<char>, rest: Seq<char>)
    requires
        is_wake_word(v),
    ensures
        v.len() > 0,
        !text::is_white_space(v[0]),
        !text::is_white_space(v.last()),
        wake_split(v + rest) == (true, text::trimmed_start(rest, CharClass::Separator)),
{
    let vs = wake_variants();
    let lowered = text::lowercase(v);
    let j = choose|j: int| 0 <= j < vs.len() && vs[j] == lowered;
    lemma_wake_variants();
    lemma_common_lowercase(v);
    assert(vs[j].len() > 0);
    assert(text::is_common(v[0]) && text::common_lower(v[0]) == 'h');
    assert(text::is_common(v.last()) && text::common_lower(v.last()) == lowered.last());
    text::lemma_lowercase_concat(v, rest);
    let whole = text::lowercase(v + rest);
    assert(whole.subrange(0, vs[j].len() as int) =~= vs[j]);
    text::lemma_only_leading_phrase(whole, vs, j);
    text::lemma_after_lower_concat(v, rest);
}

proof fn lemma_stripped_is_itself(s: Seq<char>)
    requires
        s.len() > 0,
        !text::is_white_space(s[0]),
        !text::is_white_space(s.last()),
    ensures
        text::stripped(s) == s,
{
}

/// Whichever form of the wake word was spoken, and in whatever case, the same sentence comes of what
/// follows it: the wake word alone, or the wake word and the cleaned rest.
pub proof fn law_wake_word_forms(v: Seq<char>, w: Seq<char>, rest: Seq<char>)
    requires
        is_wake_word(v),
        is_wake_word(w),
    ensures
        cleaned(v + rest) == cleaned(w + rest),
        cleaned(v + rest) == "Hey Anna."@ || text::occurs_at(cleaned(v + rest), "Hey Anna, "@, 0),
{
    let kept = text::trimmed_end(rest, CharClass::WhiteSpace);
    lemma_wake_split(v, kept);
    lemma_wake_split(w, kept);
    text::lemma_trimmed_end_concat(v, rest, CharClass::WhiteSpace);
    text::lemma_trimmed_end_concat(w, rest, CharClass::WhiteSpace);
    assert((v + rest)[0] == v[0]);
    assert((w + rest)[0] == w[0]);
    assert(text::stripped(v + rest) == v + kept);
    assert(text::stripped(w + rest) == w + kept);
    let body = screen_normalized(
        without_fillers(corrected(text::trimmed_start(kept, CharClass::Separator))),
    );
    assert(cleaned(v + rest) == finalized(assembled(true, body)));
    reveal_strlit("Hey Anna");
    reveal_strlit(", ");
    reveal_strlit("Hey Anna, ");
    reveal_strlit("Hey Anna.");
    let said = text::stripped(body);
    let t = assembled(true, body);
    if said.len() == 0 {
        lemma_stripped_is_itself(t);
        assert(cleaned(v + rest) =~= "Hey Anna."@);
    } else {
        text::lemma_trimmed_end(
            text::trimmed_start(body, CharClass::WhiteSpace),
            CharClass::WhiteSpace,
        );
        assert(t.last() == said.last());
        lemma_stripped_is_itself(t);
        assert(text::uppercase(t[0]) + t.drop_first() =~= t);
        assert(cleaned(v + rest).subrange(0, "Hey Anna, "@.len() as int) =~= "Hey Anna, "@);
    }
}

/// Whether the capital of a character is a single way to start a sentence: the uppercase of its first
/// character is that character, and it is no white space.
pub open spec fn has_settled_capital(c: char) -> bool {
    let u = text::uppercase(c);
    u.len() > 0 && text::uppercase(u[0]) == seq![u[0]] && !text::is_white_space(u[0])
}

/// A sentence that is finished stays as it is, where it starts with an ASCII character, a Danish
/// letter, or another character whose capital is its own capital.
pub proof fn law_finalized_stays(s: Seq<char>)
    requires
        text::stripped(s).len() > 0 ==> text::is_common(text::stripped(s)[0])
            || has_settled_capital(text::stripped(s)[0]),
    ensures
        finalized(finalized(s)) == finalized(s),
{
    let t = text::stripped(s);
    let f = finalized(s);
    if t.len() > 0 {
        let c = t[0];
        text::lemma_trimmed_start(s, CharClass::WhiteSpace);
        text::lemma_trimmed_end(
            text::trimmed_start(s, CharClass::WhiteSpace),
            CharClass::WhiteSpace,
        );
        assert(!text::is_white_space(c));
        let u = text::uppercase(c);
        assert(text::uppercase(u[0]) =~= seq![u[0]] && !text::is_white_space(u[0]));
        assert(f[0] == u[0]);
        assert(ends_sentence(f));
        lemma_stripped_is_itself(f);
        assert(text::uppercase(f[0]) + f.drop_first() =~= f);
    } else {
        assert(text::stripped(f).len() == 0);
    }
}

/// After self-correction no trigger is left, only the end of what was said remains, and correcting
/// once more changes nothing.
pub proof fn law_corrected(s: Seq<char>)
    ensures
        !text::occurs_any(text::lowercase(corrected(s)), triggers()),
        corrected(s).len() <= s.len(),
        corrected(s) == s.skip(s.len() - corrected(s).len()),
        corrected(corrected(s)) == corrected(s),
    decreases s.len(),
{
    lemma_earliest(text::lowercase(s), triggers());
    lemma_restart_is_shorter(s);
    match restarted(s) {
        None => {
            assert(s.skip(0) =~= s);
        },
        Some(rest) => {
            law_corrected(rest);
            let last = corrected(s);
            assert(last =~= s.skip(s.len() - last.len()));
        },
    }
}

/// Removing fillers keeps exactly the other words, in their order; none of the words left is a
/// filler, and removing fillers once more changes nothing.
pub proof fn law_without_fillers(s: Seq<char>)
    ensures
        text::words(without_fillers(s)) == kept_words(s),
        forall|i: int|
            0 <= i < text::words(without_fillers(s)).len() ==> !is_filler(
                #[trigger] text::words(without_fillers(s))[i],
            ),
        without_fillers(without_fillers(s)) == without_fillers(s),
{
    let keep = |w: Seq<char>| !is_filler(w);
    let ws = text::words(s);
    let kept = kept_words(s);
    broadcast use vstd::seq_lib::group_filter_ensures;

    text::lemma_words(s);
    assert forall|i: int| 0 <= i < kept.len() implies text::is_word(#[trigger] kept[i]) by {
        ws.lemma_filter_contains_rev(keep, kept[i]);
    }
    text::lemma_words_of_join(kept);
    assert forall|i: int| 0 <= i < kept.len() implies !is_filler(#[trigger] kept[i]) by {
        assert(keep(kept[i]));
    }
    lemma_filter_all(kept, keep);
}

proof fn lemma_filter_all(ws: Seq<Seq<char>>, keep: spec_fn(Seq<char>) -> bool)
    requires
        forall|i: int| 0 <= i < ws.len() ==> keep(#[trigger] ws[i]),
    ensures
        ws.filter(keep) == ws,
    decreases ws.len(),
{
    reveal(Seq::filter);
    if ws.len() > 0 {
        lemma_filter_all(ws.drop_last(), keep);
        assert(ws.drop_last().push(ws.last()) =~= ws);
    }
}

proof fn lemma_occurring_phrase(s: Seq<char>, phrases: Seq<Seq<char>>, i: int)
    requires
        0 <= i,
    ensures
        text::occurring_phrase(s, phrases, i) matches Some(j) ==> i <= j < phrases.len()
            && text::occurs(s, phrases[j]),
        text::occurring_phrase(s, phrases, i) is None ==> forall|j: int|
            i <= j < phrases.len() ==> !text::occurs(s, #[trigger] phrases[j]),
    decreases phrases.len() - i,
{
    if i < phrases.len() && !text::occurs(s, phrases[i]) {
        lemma_occurring_phrase(s, phrases, i + 1);
    }
}

proof fn lemma_normal_phrase()
    ensures
        text::is_lower_text("se på skærmen"@),
        "se på skærmen"@.len() == 13,
        anna::screen_phrases()[4].len() == 5,
        "se på skærmen"@.take(5) == anna::screen_phrases()[4],
        text::is_lower_text("se på skærm"@),
        "se på skærm"@.len() == 11,
        "se på skærmen"@ == "se på skærm"@ + "en"@,
{
    reveal_strlit("se på skærmen");
    reveal_strlit("se på skærm");
    reveal_strlit("en");
    reveal_strlit("se på");
    assert("se på skærmen"@ =~= "se på skærm"@ + "en"@);
    assert("se på skærmen"@.take(5) =~= "se på"@);
}

/// Where a screen variant was spoken, whichever it was and in whatever case, the normalized text holds
/// the normal phrase, and the assistant takes it as a request to look at the screen.
pub proof fn law_screen_phrase(s: Seq<char>)
    requires
        text::occurs_any(text::lowercase(s), screen_variants()),
    ensures
        text::occurs(screen_normalized(s), "se på skærmen"@),
        text::occurs_any(text::lowercase(screen_normalized(s)), anna::screen_phrases()),
{
    let lowered = text::lowercase(s);
    lemma_occurring_phrase(lowered, screen_variants(), 0);
    let j = text::occurring_phrase(lowered, screen_variants(), 0)->0;
    let v = screen_variants()[j];
    let start = text::find(lowered, v)->0;
    let before = text::trimmed_end(text::before_lower(s, start), CharClass::WhiteSpace);
    let after = text::trimmed_start(
        text::after_lower(s, screen_phrase_end(lowered, v, start)),
        CharClass::Separator,
    );
    let res = screen_phrase_between(before, after);
    let phrase = "se på skærmen"@;
    let head = with_blank_after(before);
    let tail = with_blank_before(after);
    let h = head.len() as int;
    assert(res.subrange(h, h + phrase.len()) =~= phrase);
    assert(text::occurs_at(res, phrase, h));
    lemma_normal_phrase();
    text::lemma_lower_text(phrase);
    text::lemma_lowercase_concat(head + phrase, tail);
    text::lemma_lowercase_concat(head, phrase);
    let lower_res = text::lowercase(res);
    let k = text::lowercase(head).len() as int;
    let asked = anna::screen_phrases()[4];
    assert(lower_res.subrange(k, k + asked.len()) =~= phrase.take(5));
    assert(text::occurs_at(lower_res, asked, k));
}

/// Where a phrase in lowercase letters stands after `head`, and its lowercase not before that, it is
/// found there.
proof fn lemma_found_after(head: Seq<char>, phrase: Seq<char>, tail: Seq<char>)
    requires
        text::is_lower_text(phrase),
        phrase.len() > 0,
        !text::occurs(text::lowercase(head + phrase.drop_last()), phrase),
    ensures
        text::find(text::lowercase(head + phrase + tail), phrase) == Some(
            text::lowercase(head).len() as int,
        ),
{
    let init = phrase.drop_last();
    assert(text::is_lower_text(init)) by {
        assert forall|i: int| 0 <= i < init.len() implies text::is_common(#[trigger] init[i])
            && text::common_lower(init[i]) == init[i] by {
            assert(init[i] == phrase[i]);
        }
    }
    text::lemma_lower_text(phrase);
    text::lemma_lower_text(init);
    text::lemma_lowercase_concat(head + phrase, tail);
    text::lemma_lowercase_concat(head, phrase);
    text::lemma_lowercase_concat(head, init);
    text::lemma_find_after(text::lowercase(head), phrase, text::lowercase(tail));
}

/// What is cut off around a phrase in lowercase letters is what stands around it.
proof fn lemma_cut_around(head: Seq<char>, phrase: Seq<char>, tail: Seq<char>)
    requires
        text::is_lower_text(phrase),
        phrase.len() > 0,
    ensures
        ({
            let s = head + phrase + tail;
            let k = text::lowercase(head).len() as int;
            &&& text::occurs_at(text::lowercase(s), phrase, k)
            &&& text::before_lower(s, k) == head
            &&& text::after_lower(s, k + phrase.len()) == tail
        }),
{
    let s = head + phrase + tail;
    let k = text::lowercase(head).len() as int;
    assert(text::is_common(phrase[0]) && text::is_common(phrase.last()));
    text::lemma_lower_text(phrase);
    text::lemma_lowercase_concat(head + phrase, tail);
    text::lemma_lowercase_concat(head, phrase);
    assert(text::lowercase(s).subrange(k, k + phrase.len()) =~= phrase);
    assert(s =~= head + (phrase + tail));
    assert((phrase + tail)[0] == phrase[0]);
    text::lemma_before_lower_concat(head, phrase + tail);
    assert((head + phrase).last() == phrase.last());
    text::lemma_after_lower_concat(head + phrase, tail);
}

proof fn lemma_blanks_go(before: Seq<char>, after: Seq<char>)
    requires
        text::trimmed_end(before, CharClass::WhiteSpace) == before,
        text::trimmed_start(after, CharClass::Separator) == after,
    ensures
        text::trimmed_end(with_blank_after(before), CharClass::WhiteSpace) == before,
        text::trimmed_start(with_blank_before(after), CharClass::Separator) == after,
{
    reveal_strlit(" ");
    if before.len() > 0 {
        assert(with_blank_after(before).drop_last() =~= before);
    } else {
        assert(with_blank_after(before) =~= before);
    }
    if after.len() > 0 {
        assert(with_blank_before(after).drop_first() =~= after);
    } else {
        assert(with_blank_before(after) =~= after);
    }
}

/// A text in which the normal phrase already stands, with single blanks around it, is unchanged: where
/// the last of the variants, with which the normal phrase begins, is the first that stands in it, and
/// stands nowhere before.
pub proof fn law_normal_screen_phrase_stays(before: Seq<char>, after: Seq<char>)
    requires
        text::trimmed_end(before, CharClass::WhiteSpace) == before,
        text::trimmed_start(after, CharClass::Separator) == after,
        text::occurring_phrase(
            text::lowercase(screen_phrase_between(before, after)),
            screen_variants(),
            0,
        ) == Some(screen_variants().len() - 1),
        !text::occurs(
            text::lowercase(with_blank_after(before) + "se på skærm"@.drop_last()),
            "se på skærm"@,
        ),
    ensures
        screen_normalized(screen_phrase_between(before, after)) == screen_phrase_between(
            before,
            after,
        ),
{
    let variant = "se på skærm"@;
    let phrase = "se på skærmen"@;
    let head = with_blank_after(before);
    let tail = with_blank_before(after);
    let s = screen_phrase_between(before, after);
    assert(screen_variants()[screen_variants().len() - 1] == variant);
    lemma_normal_phrase();
    assert(s =~= head + variant + ("en"@ + tail));
    lemma_found_after(head, variant, "en"@ + tail);
    lemma_cut_around(head, phrase, tail);
    lemma_blanks_go(before, after);
}

/// Whether a text is one of the sounds that carry no meaning.
pub open spec fn is_sound(s: Seq<char>) -> bool {
    ||| s == "øh"@
    ||| s == "øhh"@
    ||| s == "øhhh"@
    ||| s == "øhm"@
    ||| s == "øhmm"@
    ||| s == "hmm"@
    ||| s == "hm"@
    ||| s == "mmh"@
}

proof fn lemma_sounds(s: Seq<char>)
    ensures
        fillers().contains(s) <==> is_sound(s),
        is_sound(s) ==> s.len() > 0,
{
    reveal_strlit("øh");
    reveal_strlit("øhh");
    reveal_strlit("øhhh");
    reveal_strlit("øhm");
    reveal_strlit("øhmm");
    reveal_strlit("hmm");
    reveal_strlit("hm");
    reveal_strlit("mmh");
    let f = fillers();
    assert(f[0] == "øh"@ && f[1] == "øhh"@ && f[2] == "øhhh"@ && f[3] == "øhm"@);
    assert(f[4] == "øhmm"@ && f[5] == "hmm"@ && f[6] == "hm"@ && f[7] == "mmh"@);
}

/// A word is a filler exactly where what is left of it, without the characters around it that are no
/// letters and in lowercase, is one of the sounds. So a word without a letter is none.
pub proof fn law_filler(before: Seq<char>, core: Seq<char>, after: Seq<char>)
    requires
        forall|i: int| 0 <= i < before.len() ==> !text::alphabetic(#[trigger] before[i]),
        forall|i: int| 0 <= i < after.len() ==> !text::alphabetic(#[trigger] after[i]),
        core.len() > 0 ==> text::alphabetic(core[0]) && text::alphabetic(core.last()),
    ensures
        is_filler(before + core + after) <==> is_sound(text::lowercase(core)),
        is_filler(before + core + after) ==> core.len() > 0,
{
    text::law_trimmed(before, core, after, CharClass::NonAlphabetic);
    lemma_sounds(text::lowercase(core));
}

/// A filler has a letter: a number, or whatever else has none, is never taken for one.
pub proof fn law_filler_has_a_letter(w: Seq<char>)
    requires
        is_filler(w),
    ensures
        exists|i: int| 0 <= i < w.len() && text::alphabetic(#[trigger] w[i]),
{
    let class = CharClass::NonAlphabetic;
    let t = text::trimmed_start(w, class);
    let core = text::trimmed(w, class);
    text::lemma_trimmed_start(w, class);
    text::lemma_trimmed_end(t, class);
    lemma_sounds(text::lowercase(core));
    assert(core.len() > 0);
    assert(t[0] == w[w.len() - t.len()]);
}

/// Fillers are removed word by word: what a word does to the result does not depend on the words around
/// it. A word that is a filler leaves nothing, another one itself.
pub proof fn law_fillers_word_by_word(a: Seq<char>, c: char, b: Seq<char>)
    requires
        text::is_white_space(c),
    ensures
        kept_words(a + seq![c] + b) == kept_words(a) + kept_words(b),
        text::is_word(a) && is_filler(a) ==> without_fillers(a) == Seq::<char>::empty(),
        text::is_word(a) && !is_filler(a) ==> without_fillers(a) == a,
        without_fillers(a).len() > 0 && without_fillers(b).len() > 0 ==> without_fillers(
            a + seq![c] + b,
        ) == without_fillers(a) + " "@ + without_fillers(b),
        without_fillers(a).len() == 0 ==> without_fillers(a + seq![c] + b) == without_fillers(b),
        without_fillers(b).len() == 0 ==> without_fillers(a + seq![c] + b) == without_fillers(a),
{
    let keep = |w: Seq<char>| !is_filler(w);
    let x = kept_words(a);
    let y = kept_words(b);
    reveal_strlit(" ");
    assert(" "@ =~= seq![' ']);
    text::law_words(a, c, b);
    Seq::filter_distributes_over_add(text::words(a), text::words(b), keep);
    text::law_join(x, y, seq![' ']);
    text::law_join(y, x, seq![' ']);
    law_without_fillers(a);
    law_without_fillers(b);
    if without_fillers(a).len() == 0 {
        assert(without_fillers(a) =~= Seq::empty());
        text::law_words(without_fillers(a), ' ', b);
        assert(x + y =~= y);
    }
    if without_fillers(b).len() == 0 {
        assert(without_fillers(b) =~= Seq::empty());
        text::law_words(without_fillers(b), ' ', a);
        assert(x + y =~= x);
    }
    if text::is_word(a) {
        reveal(Seq::filter);
        let one = seq![a];
        assert(one.drop_last() =~= Seq::empty());
        assert(one.drop_last().filter(keep) =~= Seq::empty());
        if is_filler(a) {
            assert(x =~= Seq::empty());
        } else {
            assert(x =~= one);
        }
    }
}

/// A text none of whose words is a filler keeps all its words.
pub proof fn law_other_words_are_kept(s: Seq<char>)
    requires
        forall|i: int|
            0 <= i < text::words(s).len() ==> !is_filler(#[trigger] text::words(s)[i]),
    ensures
        kept_words(s) == text::words(s),
        without_fillers(s) == text::join(text::words(s), " "@),
        text::words(without_fillers(s)) == text::words(s),
{
    reveal_strlit(" ");
    assert(" "@ =~= seq![' ']);
    lemma_filter_all(text::words(s), |w: Seq<char>| !is_filler(w));
    law_without_fillers(s);
}

/// Whether a phrase with which a speaker takes back what was said stands in a text at an index.
pub open spec fn takes_back_at(lower: Seq<char>, k: int) -> bool {
    ||| text::occurs_at(lower, "hov nej"@, k)
    ||| text::occurs_at(lower, "nej vent"@, k)
    ||| text::occurs_at(lower, "jeg mener"@, k)
    ||| text::occurs_at(lower, "nej faktisk"@, k)
    ||| text::occurs_at(lower, "bare glem det"@, k)
}

/// Whether a text is, in whatever case, a phrase with which a speaker takes back what was said.
pub open spec fn takes_back(phrase: Seq<char>) -> bool {
    let lower = text::lowercase(phrase);
    &&& lower == "hov nej"@ || lower == "nej vent"@ || lower == "jeg mener"@ || lower
        == "nej faktisk"@ || lower == "bare glem det"@
    &&& text::is_common(phrase.last())
}

proof fn lemma_triggers()
    ensures
        triggers().len() == 5,
        triggers()[0] == "hov nej"@,
        triggers()[1] == "nej vent"@,
        triggers()[2] == "jeg mener"@,
        triggers()[3] == "nej faktisk"@,
        triggers()[4] == "bare glem det"@,
        text::prefix_free(triggers()),
{
    reveal_strlit("hov nej");
    reveal_strlit("nej vent");
    reveal_strlit("jeg mener");
    reveal_strlit("nej faktisk");
    reveal_strlit("bare glem det");
    let ts = triggers();
    assert forall|i: int, j: int|
        #![trigger ts[i], ts[j]]
        0 <= i < ts.len() && 0 <= j < ts.len() && i != j implies !text::occurs_at(
        ts[i],
        ts[j],
        0,
    ) by {
        if text::occurs_at(ts[i], ts[j], 0) {
            let head = ts[i].subrange(0, ts[j].len() as int);
            assert(head[0] == ts[j][0]);
            assert(head[4] == ts[j][4]);
        }
    }
}

/// What a speaker said before the first phrase that takes it back is dropped, together with the phrase,
/// and the rest is corrected in its turn. A text without such a phrase stays as it is.
pub proof fn law_taken_back(before: Seq<char>, phrase: Seq<char>, after: Seq<char>)
    ensures
        ({
            let s = before + phrase + after;
            let lower = text::lowercase(s);
            &&& takes_back(phrase) && (forall|k: int|
                0 <= k < text::lowercase(before).len() ==> !#[trigger] takes_back_at(lower, k))
                ==> corrected(s) == corrected(text::trimmed_start(after, CharClass::Separator))
            &&& (forall|k: int| !#[trigger] takes_back_at(lower, k)) ==> corrected(s) == s
        }),
{
    let s = before + phrase + after;
    let lower = text::lowercase(s);
    let p = text::lowercase(before).len() as int;
    let ts = triggers();
    lemma_triggers();
    lemma_earliest(lower, ts);
    if forall|k: int| !#[trigger] takes_back_at(lower, k) {
        if text::occurs_any(lower, ts) {
            let i = choose|i: int| 0 <= i < ts.len() && text::occurs(lower, #[trigger] ts[i]);
            let k = choose|k: int| text::occurs_at(lower, ts[i], k);
            assert(takes_back_at(lower, k));
        }
    }
    if takes_back(phrase) && (forall|k: int| 0 <= k < p ==> !#[trigger] takes_back_at(lower, k)) {
        let word = text::lowercase(phrase);
        text::lemma_lowercase_concat(before + phrase, after);
        text::lemma_lowercase_concat(before, phrase);
        assert(lower.subrange(p, p + word.len()) =~= word);
        assert(text::occurs_at(lower, word, p));
        let j = if word == ts[0] {
            0int
        } else if word == ts[1] {
            1
        } else if word == ts[2] {
            2
        } else if word == ts[3] {
            3
        } else {
            4
        };
        assert(word == ts[j]);
        assert(text::occurs(lower, ts[j]));
        let found = earliest(lower, ts)->0;
        assert(found.0 <= p);
        assert(takes_back_at(lower, found.0));
        assert(found.0 == p);
        let tail = lower.skip(p);
        let other = ts[found.1];
        assert(tail.subrange(0, word.len() as int) =~= lower.subrange(p, p + word.len()));
        assert(tail.subrange(0, other.len() as int) =~= lower.subrange(p, p + other.len()));
        text::lemma_only_leading_phrase(tail, ts, j);
        text::lemma_only_leading_phrase(tail, ts, found.1);
        assert((before + phrase).last() == phrase.last()) by {
            lemma_triggers_nonempty();
            if phrase.len() == 0 {
                assert(word =~= Seq::empty());
            }
        }
        text::lemma_after_lower_concat(before + phrase, after);
    }
}

/// Whether a text starts with a wake word, in any of its forms and in whatever case.
pub open spec fn starts_with_wake_word(s: Seq<char>) -> bool {
    let lower = text::lowercase(s);
    ||| text::occurs_at(lower, "hey, anna"@, 0)
    ||| text::occurs_at(lower, "hej, anna"@, 0)
    ||| text::occurs_at(lower, "hey anna"@, 0)
    ||| text::occurs_at(lower, "hej anna"@, 0)
    ||| text::occurs_at(lower, "hey, anne"@, 0)
    ||| text::occurs_at(lower, "hej, anne"@, 0)
    ||| text::occurs_at(lower, "hey anne"@, 0)
    ||| text::occurs_at(lower, "hej anne"@, 0)
}

/// The wake word is split off exactly where the text starts with one; else the text is left as it is.
pub proof fn law_wake_word_is_split_off(s: Seq<char>)
    ensures
        wake_split(s).0 <==> starts_with_wake_word(s),
        !starts_with_wake_word(s) ==> wake_split(s).1 == s,
        starts_with_wake_word(s) ==> wake_split(s).1.len() < s.len() && wake_split(s).1 == s.skip(
            s.len() - wake_split(s).1.len(),
        ),
{
    let lower = text::lowercase(s);
    let vs = wake_variants();
    text::lemma_leading_phrase(lower, vs, 0);
    assert(vs[0] == "hey, anna"@ && vs[1] == "hej, anna"@ && vs[2] == "hey anna"@ && vs[3]
        == "hej anna"@);
    assert(vs[4] == "hey, anne"@ && vs[5] == "hej, anne"@ && vs[6] == "hey anne"@ && vs[7]
        == "hej anne"@);
    if let Some(j) = text::leading_phrase(lower, vs, 0) {
        lemma_wake_variants();
        assert(vs[j].len() > 0);
        let after = text::after_lower(s, vs[j].len() as int);
        text::lemma_after_lower(s, vs[j].len() as int);
        text::lemma_trimmed_start(after, CharClass::Separator);
        assert(wake_split(s).1 =~= s.skip(s.len() - wake_split(s).1.len()));
    }
}

/// What follows a wake word, in whatever form and case it was spoken, is what is split off, without the
/// separators between.
pub proof fn law_text_after_wake_word(v: Seq<char>, separators: Seq<char>, rest: Seq<char>)
    requires
        is_wake_word(v),
        forall|i: int|
            0 <= i < separators.len() ==> #[trigger] separators[i] == ',' || separators[i] == '.'
                || separators[i] == ' ',
        rest.len() > 0 ==> rest[0] != ',' && rest[0] != '.' && rest[0] != ' ',
    ensures
        wake_split(v + separators + rest) == (true, rest),
{
    let class = CharClass::Separator;
    assert(v + separators + rest =~= v + (separators + rest));
    lemma_wake_split(v, separators + rest);
    lemma_separators_go(separators, rest);
}

proof fn lemma_separators_go(separators: Seq<char>, rest: Seq<char>)
    requires
        forall|i: int|
            0 <= i < separators.len() ==> #[trigger] separators[i] == ',' || separators[i] == '.'
                || separators[i] == ' ',
        rest.len() > 0 ==> rest[0] != ',' && rest[0] != '.' && rest[0] != ' ',
    ensures
        text::trimmed_start(separators + rest, CharClass::Separator) == rest,
    decreases separators.len(),
{
    if separators.len() == 0 {
        assert(separators + rest =~= rest);
    } else {
        let t = separators.drop_first();
        assert forall|i: int| 0 <= i < t.len() implies #[trigger] t[i] == ',' || t[i] == '.' || t[i]
            == ' ' by {
            assert(t[i] == separators[i + 1]);
        }
        lemma_separators_go(t, rest);
        assert((separators + rest).drop_first() =~= t + rest);
        assert((separators + rest)[0] == separators[0]);
    }
}

/// A sentence is made of what stands between the white space at the ends: its first letter becomes a
/// capital, the rest stays, and a full stop is added exactly where no mark ends it.
pub proof fn law_sentence(before: Seq<char>, s: Seq<char>, after: Seq<char>)
    requires
        forall|i: int| 0 <= i < before.len() ==> text::is_white_space(#[trigger] before[i]),
        forall|i: int| 0 <= i < after.len() ==> text::is_white_space(#[trigger] after[i]),
        s.len() > 0 ==> !text::is_white_space(s[0]) && !text::is_white_space(s.last()),
    ensures
        ({
            let f = finalized(before + s + after);
            let ended = s.len() > 0 && (s.last() == '.' || s.last() == '!' || s.last() == '?'
                || s.last() == '…');
            &&& s.len() == 0 ==> f.len() == 0
            &&& s.len() > 0 && text::is_common(s[0]) ==> {
                &&& f.len() == (if ended {
                    s.len()
                } else {
                    s.len() + 1
                })
                &&& f[0] == text::common_upper(s[0])
                &&& forall|i: int| 1 <= i < s.len() ==> #[trigger] f[i] == s[i]
                &&& !ended ==> f.last() == '.'
            }
            &&& s.len() > 1 ==> text::occurs(f, s.drop_first()) && text::occurs_at(
                f,
                text::uppercase(s[0]) + s.drop_first(),
                0,
            )
        }),
{
    text::law_trimmed(before, s, after, CharClass::WhiteSpace);
    let f = finalized(before + s + after);
    if s.len() > 0 {
        let up = text::uppercase(s[0]);
        let whole = up + s.drop_first();
        if text::is_common(s[0]) {
            assert(whole.last() == if s.len() > 1 {
                s.last()
            } else {
                text::common_upper(s[0])
            });
        }
        if s.len() > 1 {
            assert(f.subrange(0, whole.len() as int) =~= whole);
            let k = up.len() as int;
            assert(f.subrange(k, k + s.drop_first().len()) =~= s.drop_first());
            assert(text::occurs_at(f, s.drop_first(), k));
        }
    }
}

/// Whether a phrase that means "look at the screen" stands in a text.
pub open spec fn asks_for_screen(lower: Seq<char>) -> bool {
    ||| text::occurs(lower, "kig på min skærm"@)
    ||| text::occurs(lower, "se på min skærm"@)
    ||| text::occurs(lower, "vis min skærm"@)
    ||| text::occurs(lower, "kig på skærm"@)
    ||| text::occurs(lower, "vis skærmen"@)
    ||| text::occurs(lower, "se på skærm"@)
}

/// A text is changed only where it asks to look at the screen.
pub proof fn law_screen_request(s: Seq<char>)
    ensures
        text::occurs_any(text::lowercase(s), screen_variants()) <==> asks_for_screen(
            text::lowercase(s),
        ),
        !asks_for_screen(text::lowercase(s)) ==> screen_normalized(s) == s,
{
    let lower = text::lowercase(s);
    let vs = screen_variants();
    assert(vs[0] == "kig på min skærm"@ && vs[1] == "se på min skærm"@ && vs[2]
        == "vis min skærm"@);
    assert(vs[3] == "kig på skærmen"@ && vs[4] == "kig på skærm"@ && vs[5] == "vis skærmen"@
        && vs[6] == "se på skærm"@);
    if text::occurs(lower, vs[3]) {
        reveal_strlit("kig på skærmen");
        reveal_strlit("kig på skærm");
        let e = Seq::<char>::empty();
        let en = seq!['e', 'n'];
        assert(vs[3] =~= e + vs[4] + en);
        text::law_occurs_between(e, vs[4], en);
        text::law_occurs_within(lower, vs[3], vs[4]);
    }
    text::law_occurring_phrase(lower, vs);
    if asks_for_screen(lower) {
        assert(text::occurs(lower, vs[0]) || text::occurs(lower, vs[1]) || text::occurs(
            lower,
            vs[2],
        ) || text::occurs(lower, vs[4]) || text::occurs(lower, vs[5]) || text::occurs(
            lower,
            vs[6],
        ));
    }
}

/// Where a screen variant was spoken, the normal phrase stands in its place, and the rest of the text
/// stays, without the blanks before it and the separators after it but with a blank to either side that
/// is not empty. The variant that counts is the first in their order, at its first place; "se på
/// skærmen" is itself replaced as a whole.
pub proof fn law_screen_variant_is_replaced(
    before: Seq<char>,
    v: Seq<char>,
    after: Seq<char>,
    j: int,
)
    requires
        0 <= j < screen_variants().len(),
        forall|i: int| 0 <= i < v.len() ==> text::is_common(#[trigger] v[i]),
        if text::occurs_at(text::lowercase(v + after), "se på skærmen"@, 0) {
            j == screen_variants().len() - 1 && text::lowercase(v) == "se på skærmen"@
        } else {
            text::lowercase(v) == screen_variants()[j]
        },
        forall|i: int|
            0 <= i < j ==> !text::occurs(
                text::lowercase(before + v + after),
                #[trigger] screen_variants()[i],
            ),
        forall|k: int|
            0 <= k < text::lowercase(before).len() ==> !#[trigger] text::occurs_at(
                text::lowercase(before + v + after),
                screen_variants()[j],
                k,
            ),
    ensures
        ({
            let b = text::trimmed_end(before, CharClass::WhiteSpace);
            let a = text::trimmed_start(after, CharClass::Separator);
            screen_normalized(before + v + after) == (if b.len() > 0 {
                b + " "@
            } else {
                b
            }) + "se på skærmen"@ + (if a.len() > 0 {
                " "@ + a
            } else {
                a
            })
        }),
{
    let s = before + v + after;
    let lower = text::lowercase(s);
    let normal = "se på skærmen"@;
    let vs = screen_variants();
    let variant = vs[j];
    let p = text::lowercase(before).len() as int;
    let word = text::lowercase(v);
    lemma_normal_phrase();
    assert(vs[6] == "se på skærm"@);
    text::lemma_lowercase_concat(before + v, after);
    text::lemma_lowercase_concat(before, v);
    text::lemma_lowercase_concat(v, after);
    assert(lower =~= text::lowercase(before) + text::lowercase(v + after));
    assert(v.len() > 0 && variant.len() > 0) by {
        lemma_screen_variants_nonempty();
        if v.len() == 0 {
            assert(word =~= Seq::empty());
        }
    }
    assert(lower.subrange(p, p + word.len()) =~= word);
    assert(lower.subrange(p, p + variant.len()) =~= word.take(variant.len() as int));
    assert(word.take(variant.len() as int) =~= variant);
    assert(text::occurs_at(lower, variant, p));
    text::law_occurring_phrase(lower, vs);
    assert(text::occurs(lower, vs[j]));
    assert(text::occurring_phrase(lower, vs, 0) == Some(j));
    text::lemma_find(lower, variant);
    assert(text::find(lower, variant) == Some(p));
    if p + normal.len() <= lower.len() {
        assert(lower.subrange(p, p + normal.len()) =~= text::lowercase(v + after).subrange(
            0,
            normal.len() as int,
        ));
    }
    assert(screen_phrase_end(lower, variant, p) == p + word.len());
    assert(s =~= before + (v + after));
    assert((v + after)[0] == v[0]);
    text::lemma_before_lower_concat(before, v + after);
    assert((before + v).last() == v.last());
    text::lemma_after_lower_concat(before + v, after);
}

proof fn lemma_screen_variants_nonempty()
    ensures
        forall|i: int| 0 <= i < screen_variants().len() ==> (#[trigger] screen_variants()[i]).len() > 0,
{
    reveal_strlit("kig på min skærm");
    reveal_strlit("se på min skærm");
    reveal_strlit("vis min skærm");
    reveal_strlit("kig på skærmen");
    reveal_strlit("kig på skærm");
    reveal_strlit("vis skærmen");
    reveal_strlit("se på skærm");
}

// ── Laws of all steps together ─────────────────────────────────────────

/// Whether a text needs no correction.
pub open spec fn takes_nothing_back(s: Seq<char>) -> bool {
    forall|k: int| !#[trigger] takes_back_at(text::lowercase(s), k)
}

proof fn lemma_nothing_taken_back(s: Seq<char>)
    requires
        takes_nothing_back(s),
    ensures
        corrected(s) == s,
{
    let e = Seq::<char>::empty();
    assert(e + e + s =~= s);
    law_taken_back(e, e, s);
}

/// The sentence of a transcript without a wake word.
proof fn lemma_cleaned_without_wake_word(raw: Seq<char>)
    requires
        !starts_with_wake_word(text::stripped(raw)),
    ensures
        cleaned(raw) == finalized(screen_normalized(without_fillers(corrected(text::stripped(raw))))),
{
    let t = text::stripped(raw);
    law_wake_word_is_split_off(t);
    if t.len() == 0 {
        assert(t =~= Seq::empty());
        assert(text::lowercase(t) =~= Seq::empty());
        assert(takes_nothing_back(t)) by {
            lemma_triggers();
            lemma_triggers_nonempty();
            assert forall|k: int| !#[trigger] takes_back_at(text::lowercase(t), k) by {
                assert(triggers()[0].len() > 0 && triggers()[1].len() > 0 && triggers()[2].len() > 0
                    && triggers()[3].len() > 0 && triggers()[4].len() > 0);
            }
        }
        lemma_nothing_taken_back(t);
        text::law_words(t, ' ', t);
        law_other_words_are_kept(t);
        text::law_join(text::words(t), text::words(t), " "@);
        assert(without_fillers(t) =~= t);
        lemma_screen_variants_nonempty();
        text::law_occurring_phrase(t, screen_variants());
        assert(screen_normalized(t) == t);
    }
}

/// A transcript in which nothing is to be cleaned keeps all its words, in their order: it becomes a
/// sentence, and no more.
pub proof fn law_plain_text_keeps_its_words(raw: Seq<char>)
    requires
        !starts_with_wake_word(text::stripped(raw)),
        takes_nothing_back(text::stripped(raw)),
        forall|i: int|
            0 <= i < text::words(raw).len() ==> !is_filler(#[trigger] text::words(raw)[i]),
        !asks_for_screen(text::lowercase(text::join(text::words(raw), " "@))),
    ensures
        cleaned(raw) == finalized(text::join(text::words(raw), " "@)),
{
    let t = text::stripped(raw);
    lemma_cleaned_without_wake_word(raw);
    lemma_nothing_taken_back(t);
    text::law_words_of_stripped(raw);
    law_other_words_are_kept(t);
    law_screen_request(without_fillers(t));
}

/// A transcript in which the speaker takes back what was said is cleaned as if only what was said after
/// that had been said.
pub proof fn law_cleaned_of_taken_back(before: Seq<char>, phrase: Seq<char>, after: Seq<char>)
    requires
        takes_back(phrase),
        forall|k: int|
            0 <= k < text::lowercase(before).len() ==> !#[trigger] takes_back_at(
                text::lowercase(before + phrase + after),
                k,
            ),
        text::stripped(before + phrase + after) == before + phrase + after,
        !starts_with_wake_word(before + phrase + after),
        ({
            let rest = text::trimmed_start(after, CharClass::Separator);
            text::stripped(rest) == rest && !starts_with_wake_word(rest)
        }),
    ensures
        cleaned(before + phrase + after) == cleaned(
            text::trimmed_start(after, CharClass::Separator),
        ),
{
    let rest = text::trimmed_start(after, CharClass::Separator);
    lemma_cleaned_without_wake_word(before + phrase + after);
    lemma_cleaned_without_wake_word(rest);
    law_taken_back(before, phrase, after);
}

/// A filler makes no difference to the sentence that comes of a transcript.
pub proof fn law_cleaned_without_filler(a: Seq<char>, filler: Seq<char>, b: Seq<char>)
    requires
        text::is_word(filler),
        is_filler(filler),
        text::stripped(a + " "@ + filler + " "@ + b) == a + " "@ + filler + " "@ + b,
        text::stripped(a + " "@ + b) == a + " "@ + b,
        !starts_with_wake_word(a + " "@ + filler + " "@ + b),
        !starts_with_wake_word(a + " "@ + b),
        takes_nothing_back(a + " "@ + filler + " "@ + b),
        takes_nothing_back(a + " "@ + b),
    ensures
        cleaned(a + " "@ + filler + " "@ + b) == cleaned(a + " "@ + b),
{
    reveal_strlit(" ");
    assert(" "@ =~= seq![' ']);
    let s = a + " "@ + filler + " "@ + b;
    let t = a + " "@ + b;
    lemma_cleaned_without_wake_word(s);
    lemma_cleaned_without_wake_word(t);
    lemma_nothing_taken_back(s);
    lemma_nothing_taken_back(t);
    assert(s =~= a + seq![' '] + (filler + seq![' '] + b));
    law_fillers_word_by_word(a, ' ', filler + seq![' '] + b);
    law_fillers_word_by_word(filler, ' ', b);
    law_fillers_word_by_word(a, ' ', b);
}

/// A request to look at the screen is still there in the sentence that comes of a transcript, whichever
/// of the phrases was spoken, and the assistant takes it as such.
pub proof fn law_cleaned_keeps_screen_request(raw: Seq<char>)
    requires
        !starts_with_wake_word(text::stripped(raw)),
        takes_nothing_back(text::stripped(raw)),
        asks_for_screen(text::lowercase(without_fillers(text::stripped(raw)))),
    ensures
        text::occurs(text::lowercase(cleaned(raw)), "se på skærmen"@),
        text::occurs_any(text::lowercase(cleaned(raw)), anna::screen_phrases()),
{
    let t = text::stripped(raw);
    let phrase = "se på skærmen"@;
    lemma_cleaned_without_wake_word(raw);
    lemma_nothing_taken_back(t);
    let w = without_fillers(t);
    law_screen_request(w);
    law_screen_phrase(w);
    let n = screen_normalized(w);
    lemma_normal_phrase();
    reveal_strlit("se på skærmen");
    text::law_stripping_keeps(n, phrase);
    let u = text::stripped(n);
    let k = choose|k: int| text::occurs_at(u, phrase, k);
    let f = finalized(n);
    assert(u.len() > 0);
    let up = text::uppercase(u[0]);
    let end = f.skip((up + u.drop_first()).len() as int);
    assert(f =~= up + u.drop_first() + end);
    text::lemma_lower_text(phrase);
    let lower = text::lowercase(f);
    if k == 0 {
        let rest = u.skip(phrase.len() as int);
        assert(u =~= phrase + rest) by {
            assert(u.subrange(0, phrase.len() as int) =~= u.take(phrase.len() as int));
        }
        assert(u[0] == phrase[0]);
        assert(up =~= seq!['S']);
        let tail = phrase.drop_first();
        assert(f =~= up + (tail + (rest + end)));
        text::lemma_lowercase_concat(up, tail + (rest + end));
        text::lemma_lowercase_concat(tail, rest + end);
        text::law_lowercase_of_char('S');
        text::law_lowercase_of_char('s');
        text::lemma_lowercase_concat(seq!['s'], tail);
        assert(phrase =~= seq!['s'] + tail);
        let e = Seq::<char>::empty();
        assert(lower =~= e + phrase + text::lowercase(rest + end));
        text::law_occurs_between(e, phrase, text::lowercase(rest + end));
    } else {
        let head = up + u.subrange(1, k);
        let rest = u.skip(k + phrase.len()) + end;
        assert(u.drop_first() =~= u.subrange(1, k) + phrase + u.skip(k + phrase.len())) by {
            assert(u.subrange(k, k + phrase.len()) == phrase);
        }
        assert(f =~= head + phrase + rest);
        text::lemma_lowercase_concat(head + phrase, rest);
        text::lemma_lowercase_concat(head, phrase);
        text::law_occurs_between(text::lowercase(head), phrase, text::lowercase(rest));
    }
    let asked = anna::screen_phrases()[4];
    let e = Seq::<char>::empty();
    assert(phrase =~= e + asked + phrase.skip(5));
    text::law_occurs_between(e, asked, phrase.skip(5));
    text::law_occurs_within(lower, phrase, asked);
}

/// A wake word is put before the sentence that would come of the rest alone, and changes nothing of it
/// but its capital.
pub proof fn law_cleaned_after_wake_word(v: Seq<char>, separators: Seq<char>, rest: Seq<char>)
    requires
        is_wake_word(v),
        forall|i: int|
            0 <= i < separators.len() ==> #[trigger] separators[i] == ',' || separators[i] == '.'
                || separators[i] == ' ',
        rest.len() > 0,
        text::stripped(rest) == rest,
        rest[0] != ',' && rest[0] != '.',
        !starts_with_wake_word(rest),
    ensures
        cleaned(rest).len() == 0 ==> cleaned(v + separators + rest) == "Hey Anna."@,
        cleaned(rest).len() > 0 ==> exists|c: char, t: Seq<char>|
            #![trigger text::uppercase(c), seq![c] + t]
            cleaned(rest) == punctuated(text::uppercase(c) + t) && cleaned(v + separators + rest)
                == "Hey Anna, "@ + punctuated(seq![c] + t),
{
    text::law_substance(rest);
    lemma_cleaned_rest(v, separators, rest);
    lemma_cleaned_without_wake_word(rest);
    let n = screen_normalized(without_fillers(corrected(rest)));
    lemma_sentence_after_wake_word(n);
}

/// What comes of a transcript that starts with a wake word.
proof fn lemma_cleaned_rest(v: Seq<char>, separators: Seq<char>, rest: Seq<char>)
    requires
        is_wake_word(v),
        forall|i: int|
            0 <= i < separators.len() ==> #[trigger] separators[i] == ',' || separators[i] == '.'
                || separators[i] == ' ',
        rest.len() > 0,
        rest[0] != ',' && rest[0] != '.' && !text::is_white_space(rest[0]),
        !text::is_white_space(rest.last()),
    ensures
        cleaned(v + separators + rest) == finalized(
            assembled(true, screen_normalized(without_fillers(corrected(rest)))),
        ),
{
    let s = v + separators + rest;
    law_text_after_wake_word(v, separators, rest);
    lemma_wake_split(v, separators + rest);
    assert(s[0] == v[0] && s.last() == rest.last());
    lemma_stripped_is_itself(s);
}

/// The sentence of a wake word and a text, beside that of the text alone.
proof fn lemma_sentence_after_wake_word(n: Seq<char>)
    ensures
        finalized(n).len() == 0 ==> finalized(assembled(true, n)) == "Hey Anna."@,
        finalized(n).len() > 0 ==> exists|c: char, t: Seq<char>|
            #![trigger text::uppercase(c), seq![c] + t]
            finalized(n) == punctuated(text::uppercase(c) + t) && finalized(assembled(true, n))
                == "Hey Anna, "@ + punctuated(seq![c] + t),
{
    let said = text::stripped(n);
    let whole = assembled(true, n);
    reveal_strlit("Hey Anna");
    reveal_strlit(", ");
    reveal_strlit("Hey Anna, ");
    reveal_strlit("Hey Anna.");
    if said.len() == 0 {
        lemma_stripped_is_itself(whole);
        assert(finalized(whole) =~= "Hey Anna."@);
    } else {
        text::law_substance(n);
        assert(whole.last() == said.last());
        lemma_stripped_is_itself(whole);
        assert(text::uppercase(whole[0]) + whole.drop_first() =~= whole);
        let c = said[0];
        let t = said.drop_first();
        assert(said =~= seq![c] + t);
        assert(whole =~= "Hey Anna, "@ + (seq![c] + t));
        assert(finalized(whole) =~= "Hey Anna, "@ + punctuated(seq![c] + t));
        assert(finalized(n) == punctuated(text::uppercase(c) + t));
    }
}

} // verus!
