//! Noise filtering and batch compression: removes boilerplate, pleasantries
//! and bare acknowledgements from messages before they are stored.

use vstd::prelude::*;

use crate::loop_detection::message_views;
use crate::pattern::{compile_all, regex_erased, regex_finds, Pattern};
use crate::text::{lemma_trim_idempotent, option_view, trim_str, trim_ws};

verus! {

/// Simple standalone pleasantries.
pub const PLEASANTRY: &'static str = r"(?i)^(please|thank you|thanks|sure|ok|okay|got it|understood|great|awesome|perfect|excellent|nice|good)\s*[.!]?\s*$";

/// Enthusiasm that adds no information.
pub const ENTHUSIASM: &'static str = r"(?i)^(this is (all )?(very )?(great|amazing|exciting|wonderful|fantastic|perfect|excellent)|how (cool|neat|nice|great)|very (cool|nice|exciting|interesting))[.!]*\s*$";

/// Polite openers that add no value.
pub const POLITE_OPENER: &'static str = r"(?i)^(if you (don't mind|could|would like)|would you like me to|let me|i'll|i will|i can)";

/// Polite closers, up to the end of the text.
pub const POLITE_CLOSER: &'static str = r"(?i)(let me know if you (need|want|would like)|is there anything else|anything else i can help).*$";

/// Environment context blocks.
pub const ENVIRONMENT_BLOCK: &'static str = r"<environment_context>[\s\S]*?</environment_context>";

/// System reminder blocks.
pub const SYSTEM_REMINDER_BLOCK: &'static str = r"<system-reminder>[\s\S]*?</system-reminder>";

/// The wrapper of a tool result that had no output.
pub const EMPTY_TOOL_RESULT: &'static str = r"<system>Tool ran without output or errors</system>";

/// Bare acknowledgements that only confirm.
pub const ACKNOWLEDGMENT: &'static str = r"(?i)^(i understand|i see|i got it|understood|noted|will do|on it|done)\s*[.!]?\s*$";

/// Fewest characters that a kept message holds.
pub const MIN_CONTENT_CHARS: usize = 3;

/// The pleasantry patterns, in the order they are tried.
pub open spec fn pleasantry_table() -> Seq<Seq<char>> {
    seq![PLEASANTRY@, ENTHUSIASM@, POLITE_OPENER@, POLITE_CLOSER@]
}

/// The boilerplate patterns, in the order they are removed.
pub open spec fn boilerplate_table() -> Seq<Seq<char>> {
    seq![ENVIRONMENT_BLOCK@, SYSTEM_REMINDER_BLOCK@, EMPTY_TOOL_RESULT@]
}

/// The acknowledgement patterns.
pub open spec fn acknowledgment_table() -> Seq<Seq<char>> {
    seq![ACKNOWLEDGMENT@]
}

/// Every fixed pattern: pleasantries, boilerplate, acknowledgements.
pub open spec fn all_tables() -> Seq<Seq<char>> {
    pleasantry_table() + boilerplate_table() + acknowledgment_table()
}

/// `text` after removing the matches of each of `patterns`, one pattern after the other.
pub open spec fn erase_each(patterns: Seq<Seq<char>>, text: Seq<char>) -> Seq<char>
    decreases patterns.len(),
{
    if patterns.len() == 0 {
        text
    } else {
        regex_erased(patterns.last(), erase_each(patterns.drop_last(), text))
    }
}

/// Whether one of `patterns` matches somewhere in `text`.
pub open spec fn any_finds(patterns: Seq<Seq<char>>, text: Seq<char>) -> bool {
    exists|i: int| 0 <= i < patterns.len() && regex_finds(#[trigger] patterns[i], text)
}

/// The classification of `content`: boilerplate removed, then white space trimmed;
/// none when a noise pattern matches what is left or fewer than three characters remain.
pub open spec fn classify(
    boilerplate: Seq<Seq<char>>,
    noise: Seq<Seq<char>>,
    content: Seq<char>,
) -> Option<Seq<char>> {
    let cleaned = trim_ws(erase_each(boilerplate, content));
    kept(cleaned, any_finds(noise, cleaned))
}

/// What becomes of a message whose cleaned text is `cleaned`: dropped when a noise
/// pattern matched it or it has fewer than three characters, else kept as it is.
pub open spec fn kept(cleaned: Seq<char>, noise_matched: bool) -> Option<Seq<char>> {
    if noise_matched || cleaned.len() < MIN_CONTENT_CHARS {
        None
    } else {
        Some(cleaned)
    }
}

/// Keeps `cleaned` unless a noise pattern matched it (`noise_matched`) or it has
/// fewer than three characters.
pub fn keep_informative(cleaned: String, noise_matched: bool) -> (r: Option<String>)
    ensures
        option_view(r) == kept(cleaned@, noise_matched),
{
    if noise_matched || cleaned.as_str().unicode_len() < MIN_CONTENT_CHARS {
        None
    } else {
        Some(cleaned)
    }
}

/// The messages that classification keeps, in order, each with its role and cleaned content.
pub open spec fn compressed(
    boilerplate: Seq<Seq<char>>,
    noise: Seq<Seq<char>>,
    msgs: Seq<(Seq<char>, Seq<char>)>,
) -> Seq<(Seq<char>, Seq<char>)>
    decreases msgs.len(),
{
    if msgs.len() == 0 {
        Seq::empty()
    } else {
        let rest = compressed(boilerplate, noise, msgs.drop_last());
        match classify(boilerplate, noise, msgs.last().1) {
            Some(t) => rest.push((msgs.last().0, t)),
            None => rest,
        }
    }
}

/// Approximate tokens in `n` characters: one per four characters, rounded up.
pub open spec fn tokens_for(n: nat) -> nat {
    (n + 3) / 4
}

/// Tokens estimated for a batch: five per message for its role and framing, plus its content.
pub open spec fn batch_tokens(msgs: Seq<(Seq<char>, Seq<char>)>) -> nat
    decreases msgs.len(),
{
    if msgs.len() == 0 {
        0
    } else {
        batch_tokens(msgs.drop_last()) + 5 + tokens_for(msgs.last().1.len())
    }
}

/// Noise filter for cleaning messages before storage or context emission.
pub struct NoiseFilter {
    pleasantries: Vec<Pattern>,
    boilerplate: Vec<Pattern>,
    acknowledgments: Vec<Pattern>,
}

/// The texts of `ps`.
pub open spec fn sources(ps: Seq<Pattern>) -> Seq<Seq<char>> {
    Seq::new(ps.len(), |i: int| ps[i]@)
}

/// `ceil(n / 4)` without overflow.
fn token_count(n: usize) -> (r: usize)
    ensures
        r == tokens_for(n as nat),
{
    n / 4 + if n % 4 == 0 {
        0
    } else {
        1
    }
}

impl NoiseFilter {
    /// The boilerplate patterns, in the order they are removed.
    pub closed spec fn boilerplate_patterns(&self) -> Seq<Seq<char>> {
        sources(self.boilerplate@)
    }

    /// The patterns that mark a whole message as noise: pleasantries, then acknowledgements.
    pub closed spec fn noise_patterns(&self) -> Seq<Seq<char>> {
        sources(self.pleasantries@) + sources(self.acknowledgments@)
    }

    /// The filter holds the fixed pattern tables.
    pub open spec fn wf(&self) -> bool {
        &&& self.boilerplate_patterns() == boilerplate_table()
        &&& self.noise_patterns() == pleasantry_table() + acknowledgment_table()
    }

    /// What this filter makes of `content`.
    pub open spec fn classify(&self, content: Seq<char>) -> Option<Seq<char>> {
        classify(self.boilerplate_patterns(), self.noise_patterns(), content)
    }

    /// Builds the filter from the fixed pattern tables.
    pub fn new() -> (f: Self)
        ensures
            f.wf(),
    {
        let pleasantry_sources = vec![PLEASANTRY, ENTHUSIASM, POLITE_OPENER, POLITE_CLOSER];
        let boilerplate_sources = vec![ENVIRONMENT_BLOCK, SYSTEM_REMINDER_BLOCK, EMPTY_TOOL_RESULT];
        let acknowledgment_sources = vec![ACKNOWLEDGMENT];
        proof {
            let t = all_tables();
            assert(t[0] == PLEASANTRY@ && t[1] == ENTHUSIASM@ && t[2] == POLITE_OPENER@ && t[3]
                == POLITE_CLOSER@);
            assert(t[4] == ENVIRONMENT_BLOCK@ && t[5] == SYSTEM_REMINDER_BLOCK@ && t[6]
                == EMPTY_TOOL_RESULT@ && t[7] == ACKNOWLEDGMENT@);
            assert(forall|i: int|
                0 <= i < pleasantry_sources@.len() ==> t.contains(
                    #[trigger] pleasantry_sources@[i]@,
                ));
            assert(forall|i: int|
                0 <= i < boilerplate_sources@.len() ==> t.contains(
                    #[trigger] boilerplate_sources@[i]@,
                ));
            assert(forall|i: int|
                0 <= i < acknowledgment_sources@.len() ==> t.contains(
                    #[trigger] acknowledgment_sources@[i]@,
                ));
        }
        let pleasantries = match compile_all(&pleasantry_sources) {
            Ok(ps) => ps,
            Err(_) => Vec::new(),
        };
        let boilerplate = match compile_all(&boilerplate_sources) {
            Ok(ps) => ps,
            Err(_) => Vec::new(),
        };
        let acknowledgments = match compile_all(&acknowledgment_sources) {
            Ok(ps) => ps,
            Err(_) => Vec::new(),
        };
        let f = NoiseFilter { pleasantries, boilerplate, acknowledgments };
        proof {
            assert(f.boilerplate_patterns() =~= boilerplate_table());
            assert(f.noise_patterns() =~= pleasantry_table() + acknowledgment_table());
        }
        f
    }

    /// Filters noise out of `content`: the cleaned content, or none when the
    /// message is entirely noise.
    pub fn filter(&self, content: &str) -> (r: Option<String>)
        ensures
            option_view(r) == self.classify(content@),
    {
        let ghost boiler = self.boilerplate_patterns();
        let mut stripped = content.to_owned();
        for i in 0..self.boilerplate.len()
            invariant
                boiler == sources(self.boilerplate@),
                stripped@ == erase_each(boiler.take(i as int), content@),
        {
            proof {
                assert(boiler.take(i + 1).drop_last() == boiler.take(i as int));
            }
            stripped = self.boilerplate[i].remove_all(stripped.as_str());
        }
        proof {
            assert(boiler.take(boiler.len() as int) == boiler);
        }
        let cleaned = trim_str(stripped.as_str()).to_owned();
        assert(cleaned@ == trim_ws(erase_each(self.boilerplate_patterns(), content@)));
        let matched = self.noise_matches(cleaned.as_str());
        keep_informative(cleaned, matched)
    }

    /// Whether one of the noise patterns matches somewhere in `text`.
    fn noise_matches(&self, text: &str) -> (r: bool)
        ensures
            r == any_finds(self.noise_patterns(), text@),
    {
        let ghost noise = self.noise_patterns();
        let ghost np = self.pleasantries@.len();
        for i in 0..self.pleasantries.len()
            invariant
                noise == sources(self.pleasantries@) + sources(self.acknowledgments@),
                np == self.pleasantries@.len(),
                forall|j: int| 0 <= j < i ==> !regex_finds(#[trigger] noise[j], text@),
        {
            if self.pleasantries[i].is_match(text) {
                assert(regex_finds(noise[i as int], text@));
                return true;
            }
        }
        for i in 0..self.acknowledgments.len()
            invariant
                noise == sources(self.pleasantries@) + sources(self.acknowledgments@),
                np == self.pleasantries@.len(),
                forall|j: int| 0 <= j < np + i ==> !regex_finds(#[trigger] noise[j], text@),
        {
            if self.acknowledgments[i].is_match(text) {
                assert(regex_finds(noise[np + i], text@));
                return true;
            }
        }
        false
    }

    /// Whether `content` is entirely noise.
    pub fn is_noise(&self, content: &str) -> (r: bool)
        ensures
            r == self.classify(content@) is None,
    {
        self.filter(content).is_none()
    }

    /// Approximate tokens saved by filtering `original` down to `filtered`
    /// (nothing left when `filtered` is none), at four characters per token, never below zero.
    pub fn token_savings(&self, original: &str, filtered: Option<&str>) -> (r: usize)
        ensures
            ({
                let before = tokens_for(original@.len());
                let after = match filtered {
                    Some(f) => tokens_for(f@.len()),
                    None => 0,
                };
                r == if before >= after {
                    before - after
                } else {
                    0
                }
            }),
    {
        let original_tokens = token_count(original.unicode_len());
        let filtered_tokens = match filtered {
            Some(f) => token_count(f.unicode_len()),
            None => 0,
        };
        if original_tokens >= filtered_tokens {
            original_tokens - filtered_tokens
        } else {
            0
        }
    }
}

impl Default for NoiseFilter {
    fn default() -> (f: Self)
        ensures
            f.wf(),
    {
        NoiseFilter::new()
    }
}

/// Message compressor that combines filtering and batching.
pub struct MessageCompressor {
    filter: NoiseFilter,
}

impl MessageCompressor {
    /// The filter applied to each message.
    pub closed spec fn noise_filter(&self) -> NoiseFilter {
        self.filter
    }

    /// The compressor applies the fixed pattern tables.
    pub open spec fn wf(&self) -> bool {
        self.noise_filter().wf()
    }

    /// What this compressor makes of a batch.
    pub open spec fn compress(&self, msgs: Seq<(Seq<char>, Seq<char>)>) -> Seq<
        (Seq<char>, Seq<char>),
    > {
        compressed(
            self.noise_filter().boilerplate_patterns(),
            self.noise_filter().noise_patterns(),
            msgs,
        )
    }

    /// Builds a compressor around a filter with the fixed pattern tables.
    pub fn new() -> (c: Self)
        ensures
            c.wf(),
    {
        MessageCompressor { filter: NoiseFilter::new() }
    }

    /// Compresses a batch by filtering noise: the (role, cleaned content) of each
    /// message the filter keeps, in the order of the batch.
    pub fn compress_batch(&self, messages: &[(String, String)]) -> (r: Vec<(String, String)>)
        ensures
            message_views(r@) == self.compress(message_views(messages@)),
    {
        let ghost msgs = message_views(messages@);
        let ghost boiler = self.noise_filter().boilerplate_patterns();
        let ghost noise = self.noise_filter().noise_patterns();
        let mut out: Vec<(String, String)> = Vec::new();
        for i in 0..messages.len()
            invariant
                msgs == message_views(messages@),
                boiler == self.noise_filter().boilerplate_patterns(),
                noise == self.noise_filter().noise_patterns(),
                message_views(out@) == compressed(boiler, noise, msgs.take(i as int)),
        {
            proof {
                assert(msgs.take(i + 1).drop_last() == msgs.take(i as int));
                assert(msgs.take(i + 1).last() == msgs[i as int]);
            }
            let (role, content) = &messages[i];
            let kept = self.filter.filter(content.as_str());
            if let Some(cleaned) = kept {
                out.push((role.clone(), cleaned));
                proof {
                    assert(message_views(out@) =~= compressed(boiler, noise, msgs.take(i + 1)));
                }
            }
        }
        proof {
            assert(msgs.take(msgs.len() as int) == msgs);
        }
        out
    }

    /// Estimated tokens of a batch: five per message plus one per four characters of
    /// content, rounded up; `usize::MAX` when the estimate does not fit.
    pub fn estimate_tokens(&self, messages: &[(String, String)]) -> (r: usize)
        ensures
            r == if batch_tokens(message_views(messages@)) <= usize::MAX {
                batch_tokens(message_views(messages@))
            } else {
                usize::MAX as nat
            },
    {
        let ghost msgs = message_views(messages@);
        let mut total: usize = 0;
        for i in 0..messages.len()
            invariant
                msgs == message_views(messages@),
                total == if batch_tokens(msgs.take(i as int)) <= usize::MAX {
                    batch_tokens(msgs.take(i as int))
                } else {
                    usize::MAX as nat
                },
        {
            proof {
                assert(msgs.take(i + 1).drop_last() == msgs.take(i as int));
            }
            let add = 5 + token_count(messages[i].1.as_str().unicode_len());
            total = total.saturating_add(add);
        }
        proof {
            assert(msgs.take(msgs.len() as int) == msgs);
        }
        total
    }
}

impl Default for MessageCompressor {
    fn default() -> (c: Self)
        ensures
            c.wf(),
    {
        MessageCompressor::new()
    }
}

/// Erasing patterns that each leave `text` as it is leaves `text` as it is.
proof fn lemma_erase_each_unchanged(patterns: Seq<Seq<char>>, text: Seq<char>)
    requires
        forall|i: int|
            0 <= i < patterns.len() ==> regex_erased(#[trigger] patterns[i], text) == text,
    ensures
        erase_each(patterns, text) == text,
    decreases patterns.len(),
{
    if patterns.len() > 0 {
        let p = patterns.drop_last();
        assert forall|i: int| 0 <= i < p.len() implies regex_erased(#[trigger] p[i], text)
            == text by {
            assert(p[i] == patterns[i]);
        }
        lemma_erase_each_unchanged(p, text);
        assert(regex_erased(patterns[patterns.len() - 1], text) == text);
    }
}

/// Cleaning is idempotent: a message that survives filtering, when its cleaned text
/// is classified again, comes back as that same text, provided no boilerplate pattern
/// finds anything more to remove in it.
pub proof fn lemma_classify_idempotent(f: NoiseFilter, x: Seq<char>)
    requires
        f.classify(x) is Some,
        forall|i: int|
            0 <= i < f.boilerplate_patterns().len() ==> regex_erased(
                #[trigger] f.boilerplate_patterns()[i],
                f.classify(x)->0,
            ) == f.classify(x)->0,
    ensures
        f.classify(f.classify(x)->0) == f.classify(x),
{
    let t = f.classify(x)->0;
    lemma_erase_each_unchanged(f.boilerplate_patterns(), t);
    lemma_trim_idempotent(erase_each(f.boilerplate_patterns(), x));
}

/// Compression keeps a subsequence of the batch, in its order: the kept messages
/// come from strictly increasing positions `idx`, each with the role it had and the
/// cleaned content that classification gives for it.
pub proof fn lemma_compress_keeps_order(
    c: MessageCompressor,
    msgs: Seq<(Seq<char>, Seq<char>)>,
) -> (idx: Seq<int>)
    ensures
        idx.len() == c.compress(msgs).len(),
        forall|j: int| 0 <= j < idx.len() ==> 0 <= #[trigger] idx[j] < msgs.len(),
        forall|j: int, k: int| 0 <= j < k < idx.len() ==> idx[j] < idx[k],
        forall|j: int|
            0 <= j < idx.len() ==> c.compress(msgs)[j].0 == msgs[#[trigger] idx[j]].0
                && c.noise_filter().classify(msgs[idx[j]].1) == Some(c.compress(msgs)[j].1),
    decreases msgs.len(),
{
    if msgs.len() == 0 {
        Seq::empty()
    } else {
        let p = msgs.drop_last();
        let rest = lemma_compress_keeps_order(c, p);
        assert forall|j: int| 0 <= j < rest.len() implies msgs[#[trigger] rest[j]]
            == p[rest[j]] by {}
        match c.noise_filter().classify(msgs.last().1) {
            Some(t) => {
                let idx = rest.push(msgs.len() - 1);
                assert(idx[idx.len() - 1] == msgs.len() - 1);
                assert forall|j: int| 0 <= j < rest.len() implies idx[j] == rest[j] by {}
                idx
            },
            None => rest,
        }
    }
}

} // verus!
