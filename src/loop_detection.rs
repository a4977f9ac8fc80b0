//! Loop detection: graded findings for message batches that look like a
//! runaway automation loop (sheer volume, one content repeated, or a short
//! sequence of messages repeated).

use vstd::prelude::*;
use vstd::slice::{slice_subrange, slice_to_vec};

use crate::repetition::{
    label_pairs, label_texts, labels, labels_bounded, lemma_labels_max_repetition,
    lemma_max_repetition_at_most_len, lemma_max_repetition_constant, lemma_max_repetition_distinct,
    max_label_count, max_repetition, text_views, zip_pairs,
};
use crate::text::{collapse_whitespace, collapse_ws, decimal, push_decimal};

verus! {

/// Warning levels for detected loops.
#[derive(Debug, Clone, Copy, PartialEq, Eq, Structural)]
pub enum LoopSeverity {
    /// Suspicious pattern detected but not conclusive.
    Warning,
    /// Clear loop pattern detected.
    Critical,
}

/// Information about a detected loop.
#[derive(Debug, Clone)]
pub struct LoopDetection {
    pub severity: LoopSeverity,
    pub message: String,
    pub repetition_count: usize,
    pub pattern_size: usize,
}

/// A finding as a value: severity, explanation, repetition count, pattern size.
pub type FindingView = (LoopSeverity, Seq<char>, nat, nat);

impl View for LoopDetection {
    type V = FindingView;

    open spec fn view(&self) -> FindingView {
        (self.severity, self.message@, self.repetition_count as nat, self.pattern_size as nat)
    }
}

/// Message count at which a batch draws a warning.
pub const WARNING_MESSAGE_COUNT: usize = 100;

/// Message count at which a batch is critical.
pub const CRITICAL_MESSAGE_COUNT: usize = 200;

/// Fewest repetitions that count as a loop.
pub const MIN_REPETITIONS: usize = 10;

/// Longest message sequence tested for repetition.
pub const MAX_PATTERN_SIZE: usize = 10;

/// Detector for conversation loops and automation failures.
pub struct LoopDetector {
    max_messages_warning: usize,
    max_messages_critical: usize,
    min_repetitions: usize,
    max_pattern_size: usize,
}

/// A batch as values: each message's role and content.
pub open spec fn message_views(m: Seq<(String, String)>) -> Seq<(Seq<char>, Seq<char>)> {
    Seq::new(m.len(), |i: int| (m[i].0@, m[i].1@))
}

/// The findings as values.
pub open spec fn finding_views(f: Seq<LoopDetection>) -> Seq<FindingView> {
    Seq::new(f.len(), |i: int| f[i]@)
}

/// Each message's content with its white space collapsed.
pub open spec fn collapsed_contents(msgs: Seq<(Seq<char>, Seq<char>)>) -> Seq<Seq<char>> {
    Seq::new(msgs.len(), |i: int| collapse_ws(msgs[i].1))
}

/// The windows of `k` consecutive elements of `s`, in order of their start.
pub open spec fn windows<T>(s: Seq<T>, k: nat) -> Seq<Seq<T>> {
    if s.len() < k {
        Seq::empty()
    } else {
        Seq::new((s.len() - k + 1) as nat, |i: int| s.subrange(i, i + k))
    }
}

/// The severity that `count` repetitions earn against the threshold `min`.
pub open spec fn grade(count: nat, min: nat) -> Option<LoopSeverity> {
    if count >= 2 * min {
        Some(LoopSeverity::Critical)
    } else if count >= min {
        Some(LoopSeverity::Warning)
    } else {
        None
    }
}

/// `head`, the number `a`, `middle`, the number `b`, then a closing parenthesis.
pub open spec fn two_numbers_text(head: Seq<char>, a: nat, middle: Seq<char>, b: nat) -> Seq<char> {
    head + decimal(a) + middle + decimal(b) + ")"@
}

/// The explanation of a repeated message sequence.
pub open spec fn pattern_text(size: nat, count: nat, threshold: nat) -> Seq<char> {
    "Message pattern of "@ + decimal(size) + two_numbers_text(
        " messages repeated "@,
        count,
        " times (threshold: "@,
        threshold,
    )
}

/// An optional value as a sequence of zero or one element.
pub open spec fn opt_seq<T>(o: Option<T>) -> Seq<T> {
    match o {
        Some(x) => seq![x],
        None => Seq::empty(),
    }
}

impl LoopDetector {
    /// Message count at which a warning is raised.
    pub closed spec fn warning_count(&self) -> nat {
        self.max_messages_warning as nat
    }

    /// Message count at which the batch is critical.
    pub closed spec fn critical_count(&self) -> nat {
        self.max_messages_critical as nat
    }

    /// Fewest repetitions that count as a loop.
    pub closed spec fn min_repetitions(&self) -> nat {
        self.min_repetitions as nat
    }

    /// Longest message sequence tested for repetition.
    pub closed spec fn max_pattern_size(&self) -> nat {
        self.max_pattern_size as nat
    }

    /// The detector holds the fixed thresholds.
    pub open spec fn wf(&self) -> bool {
        &&& self.warning_count() == WARNING_MESSAGE_COUNT
        &&& self.critical_count() == CRITICAL_MESSAGE_COUNT
        &&& self.min_repetitions() == MIN_REPETITIONS
        &&& self.max_pattern_size() == MAX_PATTERN_SIZE
    }

    /// The finding on the size of a batch of `n` messages.
    pub open spec fn volume_finding(&self, n: nat) -> Option<FindingView> {
        if n >= self.critical_count() {
            Some(
                (
                    LoopSeverity::Critical,
                    two_numbers_text(
                        "Extremely high message count: "@,
                        n,
                        " messages (threshold: "@,
                        self.critical_count(),
                    ),
                    0,
                    0,
                ),
            )
        } else if n >= self.warning_count() {
            Some(
                (
                    LoopSeverity::Warning,
                    two_numbers_text(
                        "High message count: "@,
                        n,
                        " messages (threshold: "@,
                        self.warning_count(),
                    ),
                    0,
                    0,
                ),
            )
        } else {
            None
        }
    }

    /// The finding on one content, white space collapsed and role ignored, recurring.
    pub open spec fn content_finding(&self, msgs: Seq<(Seq<char>, Seq<char>)>) -> Option<
        FindingView,
    > {
        let m = max_repetition(collapsed_contents(msgs));
        let min = self.min_repetitions();
        match grade(m, min) {
            Some(LoopSeverity::Critical) => Some(
                (
                    LoopSeverity::Critical,
                    two_numbers_text(
                        "Identical content repeated "@,
                        m,
                        " times (threshold: "@,
                        2 * min,
                    ),
                    m,
                    1,
                ),
            ),
            Some(LoopSeverity::Warning) => Some(
                (
                    LoopSeverity::Warning,
                    two_numbers_text("Content repeated "@, m, " times (threshold: "@, min),
                    m,
                    1,
                ),
            ),
            None => None,
        }
    }

    /// The finding on windows of `k` messages (role and content) recurring; none when
    /// the batch is too short to hold `k` messages repeated the minimum number of times.
    pub open spec fn window_finding(&self, msgs: Seq<(Seq<char>, Seq<char>)>, k: nat) -> Option<
        FindingView,
    > {
        let min = self.min_repetitions();
        if msgs.len() < k * min {
            None
        } else {
            let m = max_repetition(windows(msgs, k));
            match grade(m, min) {
                Some(LoopSeverity::Critical) => Some(
                    (LoopSeverity::Critical, pattern_text(k, m, 2 * min), m, k),
                ),
                Some(LoopSeverity::Warning) => Some(
                    (LoopSeverity::Warning, pattern_text(k, m, min), m, k),
                ),
                None => None,
            }
        }
    }

    /// Largest window size tried on a batch of `n` messages.
    pub open spec fn pattern_bound(&self, n: nat) -> nat {
        let quarter = n / 4;
        if self.max_pattern_size() < quarter {
            self.max_pattern_size()
        } else {
            quarter
        }
    }

    /// The finding of the smallest window size from `k` up to the bound that has one.
    pub open spec fn pattern_search(&self, msgs: Seq<(Seq<char>, Seq<char>)>, k: nat) -> Option<
        FindingView,
    >
        decreases self.pattern_bound(msgs.len()) + 1 - k,
    {
        if k > self.pattern_bound(msgs.len()) {
            None
        } else {
            match self.window_finding(msgs, k) {
                Some(f) => Some(f),
                None => self.pattern_search(msgs, k + 1),
            }
        }
    }

    /// The finding on a repeated sequence of two or more messages.
    pub open spec fn pattern_finding(&self, msgs: Seq<(Seq<char>, Seq<char>)>) -> Option<
        FindingView,
    > {
        self.pattern_search(msgs, 2)
    }

    /// All findings on a batch: volume, then content, then pattern.
    pub open spec fn findings(&self, msgs: Seq<(Seq<char>, Seq<char>)>) -> Seq<FindingView> {
        opt_seq(self.volume_finding(msgs.len())) + opt_seq(self.content_finding(msgs)) + opt_seq(
            self.pattern_finding(msgs),
        )
    }

    /// A detector with the fixed thresholds.
    pub fn new() -> (d: Self)
        ensures
            d.wf(),
    {
        LoopDetector {
            max_messages_warning: WARNING_MESSAGE_COUNT,
            max_messages_critical: CRITICAL_MESSAGE_COUNT,
            min_repetitions: MIN_REPETITIONS,
            max_pattern_size: MAX_PATTERN_SIZE,
        }
    }

    /// Analyzes a message batch for loop patterns: all three passes run and
    /// their findings come back in order.
    pub fn analyze(&self, messages: &[(String, String)]) -> (r: Vec<LoopDetection>)
        requires
            self.wf(),
        ensures
            finding_views(r@) == self.findings(message_views(messages@)),
    {
        let ghost msgs = message_views(messages@);
        let mut detections: Vec<LoopDetection> = Vec::new();
        if let Some(d) = self.detect_volume(messages.len()) {
            detections.push(d);
        }
        let ghost first = opt_seq(self.volume_finding(msgs.len()));
        assert(finding_views(detections@) =~= first);
        if let Some(d) = self.detect_content_repetition(messages) {
            detections.push(d);
        }
        let ghost second = first + opt_seq(self.content_finding(msgs));
        assert(finding_views(detections@) =~= second);
        if let Some(d) = self.detect_message_pattern_loops(messages) {
            detections.push(d);
        }
        assert(finding_views(detections@) =~= second + opt_seq(self.pattern_finding(msgs)));
        detections
    }

    /// The finding on the size of the batch.
    fn detect_volume(&self, n: usize) -> (r: Option<LoopDetection>)
        requires
            self.wf(),
        ensures
            opt_view(r) == self.volume_finding(n as nat),
    {
        if n >= self.max_messages_critical {
            Some(
                LoopDetection {
                    severity: LoopSeverity::Critical,
                    message: two_numbers(
                        "Extremely high message count: ",
                        n,
                        " messages (threshold: ",
                        self.max_messages_critical,
                    ),
                    repetition_count: 0,
                    pattern_size: 0,
                },
            )
        } else if n >= self.max_messages_warning {
            Some(
                LoopDetection {
                    severity: LoopSeverity::Warning,
                    message: two_numbers(
                        "High message count: ",
                        n,
                        " messages (threshold: ",
                        self.max_messages_warning,
                    ),
                    repetition_count: 0,
                    pattern_size: 0,
                },
            )
        } else {
            None
        }
    }

    /// Detects the same content, white space collapsed, appearing repeatedly.
    pub fn detect_content_repetition(&self, messages: &[(String, String)]) -> (r: Option<
        LoopDetection,
    >)
        requires
            self.wf(),
        ensures
            opt_view(r) == self.content_finding(message_views(messages@)),
    {
        let ghost msgs = message_views(messages@);
        let n = messages.len();
        let mut collapsed: Vec<String> = Vec::new();
        for i in 0..n
            invariant
                n == messages.len(),
                collapsed.len() == i,
                forall|j: int|
                    0 <= j < i ==> #[trigger] collapsed[j]@ == collapse_ws(messages[j].1@),
        {
            collapsed.push(collapse_whitespace(messages[i].1.as_str()));
        }
        let ids = label_texts(&collapsed);
        proof {
            assert(text_views(collapsed@) =~= collapsed_contents(msgs));
            lemma_labels_max_repetition(ids@, collapsed_contents(msgs));
        }
        let max_count = max_label_count(ids.as_slice());
        let min = self.min_repetitions;
        if max_count >= min * 2 {
            Some(
                LoopDetection {
                    severity: LoopSeverity::Critical,
                    message: two_numbers(
                        "Identical content repeated ",
                        max_count,
                        " times (threshold: ",
                        min * 2,
                    ),
                    repetition_count: max_count,
                    pattern_size: 1,
                },
            )
        } else if max_count >= min {
            Some(
                LoopDetection {
                    severity: LoopSeverity::Warning,
                    message: two_numbers(
                        "Content repeated ",
                        max_count,
                        " times (threshold: ",
                        min,
                    ),
                    repetition_count: max_count,
                    pattern_size: 1,
                },
            )
        } else {
            None
        }
    }

    /// Detects repeating sequences of messages, trying the smallest size first.
    pub fn detect_message_pattern_loops(&self, messages: &[(String, String)]) -> (r: Option<
        LoopDetection,
    >)
        requires
            self.wf(),
        ensures
            opt_view(r) == self.pattern_finding(message_views(messages@)),
    {
        let ghost msgs = message_views(messages@);
        let n = messages.len();
        let quarter = n / 4;
        let bound = if self.max_pattern_size < quarter {
            self.max_pattern_size
        } else {
            quarter
        };
        if bound < 2 {
            return None;
        }
        let ids = message_labels(messages);
        proof {
            lemma_windows_of_one(ids@, msgs);
        }
        let mut level = slice_to_vec(ids.as_slice());
        let mut k: usize = 2;
        while k <= bound
            invariant
                2 <= k <= bound + 1,
                bound == self.pattern_bound(n as nat),
                bound <= MAX_PATTERN_SIZE,
                4 * bound <= n,
                n == msgs.len(),
                msgs == message_views(messages@),
                self.wf(),
                ids.len() == n,
                labels(ids@, msgs),
                level.len() == n - k + 2,
                labels(level@, windows(msgs, (k - 1) as nat)),
                self.pattern_search(msgs, 2) == self.pattern_search(msgs, k as nat),
            decreases bound + 1 - k,
        {
            let m = n - k + 1;
            let next = label_pairs(
                slice_subrange(level.as_slice(), 0, m),
                slice_subrange(ids.as_slice(), k - 1, n),
            );
            proof {
                lemma_windows_extend(level@, ids@, msgs, k as nat);
                lemma_labels_transfer(
                    next@,
                    zip_pairs(level@.subrange(0, m as int), ids@.subrange(k - 1, n as int)),
                    windows(msgs, k as nat),
                );
            }
            let found = self.find_repeating_pattern(n, next.as_slice(), k, Ghost(msgs));
            if found.is_some() {
                return found;
            }
            level = next;
            k = k + 1;
        }
        None
    }

    /// The finding on windows of `k` messages, given labels of those windows.
    fn find_repeating_pattern(
        &self,
        n: usize,
        window_ids: &[usize],
        k: usize,
        msgs: Ghost<Seq<(Seq<char>, Seq<char>)>>,
    ) -> (r: Option<LoopDetection>)
        requires
            self.wf(),
            2 <= k <= MAX_PATTERN_SIZE,
            k <= n == msgs@.len(),
            labels(window_ids@, windows(msgs@, k as nat)),
            labels_bounded(window_ids@),
        ensures
            opt_view(r) == self.window_finding(msgs@, k as nat),
    {
        let min = self.min_repetitions;
        if n < k * min {
            return None;
        }
        proof {
            lemma_labels_max_repetition(window_ids@, windows(msgs@, k as nat));
        }
        let max_count = max_label_count(window_ids);
        if max_count >= min * 2 {
            Some(
                LoopDetection {
                    severity: LoopSeverity::Critical,
                    message: pattern_message(k, max_count, min * 2),
                    repetition_count: max_count,
                    pattern_size: k,
                },
            )
        } else if max_count >= min {
            Some(
                LoopDetection {
                    severity: LoopSeverity::Warning,
                    message: pattern_message(k, max_count, min),
                    repetition_count: max_count,
                    pattern_size: k,
                },
            )
        } else {
            None
        }
    }
}

/// An optional finding as a value.
pub open spec fn opt_view(o: Option<LoopDetection>) -> Option<FindingView> {
    match o {
        Some(d) => Some(d@),
        None => None,
    }
}

/// `head`, `a`, `middle`, `b` and a closing parenthesis, as text.
fn two_numbers(head: &str, a: usize, middle: &str, b: usize) -> (r: String)
    ensures
        r@ == two_numbers_text(head@, a as nat, middle@, b as nat),
{
    let mut out = String::new();
    out.append(head);
    push_decimal(&mut out, a);
    out.append(middle);
    push_decimal(&mut out, b);
    out.append(")");
    proof {
        assert(out@ =~= two_numbers_text(head@, a as nat, middle@, b as nat));
    }
    out
}

/// The explanation of a repeated message sequence.
fn pattern_message(size: usize, count: usize, threshold: usize) -> (r: String)
    ensures
        r@ == pattern_text(size as nat, count as nat, threshold as nat),
{
    let mut out = String::new();
    out.append("Message pattern of ");
    push_decimal(&mut out, size);
    let tail = two_numbers(" messages repeated ", count, " times (threshold: ", threshold);
    out.append(tail.as_str());
    proof {
        assert(out@ =~= pattern_text(size as nat, count as nat, threshold as nat));
    }
    out
}

/// Labels the messages of a batch by role and content together.
fn message_labels(messages: &[(String, String)]) -> (ids: Vec<usize>)
    ensures
        labels(ids@, message_views(messages@)),
        labels_bounded(ids@),
{
    let n = messages.len();
    let mut roles: Vec<String> = Vec::new();
    let mut contents: Vec<String> = Vec::new();
    for i in 0..n
        invariant
            n == messages.len(),
            roles.len() == i,
            contents.len() == i,
            forall|j: int| 0 <= j < i ==> #[trigger] roles[j]@ == messages[j].0@,
            forall|j: int| 0 <= j < i ==> #[trigger] contents[j]@ == messages[j].1@,
    {
        roles.push(messages[i].0.clone());
        contents.push(messages[i].1.clone());
    }
    let role_ids = label_texts(&roles);
    let content_ids = label_texts(&contents);
    let ids = label_pairs(role_ids.as_slice(), content_ids.as_slice());
    proof {
        let mv = message_views(messages@);
        let rv = text_views(roles@);
        let cv = text_views(contents@);
        let zp = zip_pairs(role_ids@, content_ids@);
        assert forall|i: int, j: int| 0 <= i < n && 0 <= j < n implies (zp[i] == zp[j] <==> mv[i]
            == mv[j]) by {
            assert(role_ids[i] == role_ids[j] <==> rv[i] == rv[j]);
            assert(content_ids[i] == content_ids[j] <==> cv[i] == cv[j]);
        }
        lemma_labels_transfer(ids@, zp, mv);
    }
    ids
}

/// Labels that tell keys apart tell apart any keys that are equal exactly where those are.
proof fn lemma_labels_transfer<A, B>(ids: Seq<usize>, a: Seq<A>, b: Seq<B>)
    requires
        labels(ids, a),
        a.len() == b.len(),
        forall|i: int, j: int|
            0 <= i < a.len() && 0 <= j < a.len() ==> (a[i] == a[j] <==> b[i] == b[j]),
    ensures
        labels(ids, b),
{
    assert forall|i: int, j: int| 0 <= i < b.len() && 0 <= j < b.len() implies (ids[i] == ids[j]
        <==> b[i] == b[j]) by {
        assert(a[i] == a[j] <==> b[i] == b[j]);
    }
}

/// Labels of the elements are labels of the windows of one element.
proof fn lemma_windows_of_one<T>(ids: Seq<usize>, s: Seq<T>)
    requires
        labels(ids, s),
    ensures
        labels(ids, windows(s, 1)),
{
    let w = windows(s, 1);
    assert forall|i: int, j: int| 0 <= i < s.len() && 0 <= j < s.len() implies (s[i] == s[j]
        <==> w[i] == w[j]) by {
        if w[i] == w[j] {
            assert(w[i][0] == s[i]);
            assert(w[j][0] == s[j]);
        }
        if s[i] == s[j] {
            assert(w[i] =~= w[j]);
        }
    }
    lemma_labels_transfer(ids, s, w);
}

/// Two windows of `k` elements are equal exactly when their first `k - 1` elements
/// and their last elements are.
proof fn lemma_windows_extend<T>(prev: Seq<usize>, ids: Seq<usize>, s: Seq<T>, k: nat)
    requires
        2 <= k <= s.len(),
        labels(prev, windows(s, (k - 1) as nat)),
        labels(ids, s),
    ensures
        ({
            let m = s.len() - k + 1;
            let zp = zip_pairs(prev.subrange(0, m), ids.subrange(k - 1, s.len() as int));
            let w = windows(s, k);
            &&& zp.len() == w.len()
            &&& forall|i: int, j: int|
                0 <= i < w.len() && 0 <= j < w.len() ==> (zp[i] == zp[j] <==> w[i] == w[j])
        }),
{
    let m = s.len() - k + 1;
    let zp = zip_pairs(prev.subrange(0, m), ids.subrange(k - 1, s.len() as int));
    let w = windows(s, k);
    let v = windows(s, (k - 1) as nat);
    assert forall|i: int, j: int| 0 <= i < w.len() && 0 <= j < w.len() implies (zp[i] == zp[j]
        <==> w[i] == w[j]) by {
        assert(w[i] =~= v[i].push(s[i + k - 1]));
        assert(w[j] =~= v[j].push(s[j + k - 1]));
        assert(prev[i] == prev[j] <==> v[i] == v[j]);
        assert(ids[i + k - 1] == ids[j + k - 1] <==> s[i + k - 1] == s[j + k - 1]);
        if w[i] == w[j] {
            assert(v[i] =~= w[i].drop_last());
            assert(v[j] =~= w[j].drop_last());
            assert(s[i + k - 1] == w[i].last());
        }
    }
}

proof fn lemma_pattern_search_smallest(
    d: LoopDetector,
    msgs: Seq<(Seq<char>, Seq<char>)>,
    k: nat,
)
    ensures
        match d.pattern_search(msgs, k) {
            Some(f) => k <= f.3 <= d.pattern_bound(msgs.len()) && d.window_finding(msgs, f.3)
                == Some(f) && forall|j: nat| k <= j < f.3 ==> d.window_finding(msgs, j) is None,
            None => forall|j: nat|
                k <= j <= d.pattern_bound(msgs.len()) ==> d.window_finding(msgs, j) is None,
        },
    decreases d.pattern_bound(msgs.len()) + 1 - k,
{
    if k <= d.pattern_bound(msgs.len()) {
        lemma_pattern_search_smallest(d, msgs, k + 1);
        match d.window_finding(msgs, k) {
            Some(f) => {
                assert(f.3 == k);
            },
            None => {
                match d.pattern_search(msgs, k + 1) {
                    Some(f) => {
                        assert forall|j: nat| k <= j < f.3 implies d.window_finding(
                            msgs,
                            j,
                        ) is None by {
                            if j > k {
                                assert(k + 1 <= j);
                            }
                        }
                    },
                    None => {
                        assert forall|j: nat|
                            k <= j <= d.pattern_bound(msgs.len()) implies d.window_finding(
                            msgs,
                            j,
                        ) is None by {
                            if j > k {
                                assert(k + 1 <= j);
                            }
                        }
                    },
                }
            },
        }
    }
}

/// The smallest repeating unit is reported: the pattern finding is that of the
/// smallest window size, from two up, that has a finding, and there is none only
/// when no size up to the bound has one.
pub proof fn lemma_pattern_finding_smallest(d: LoopDetector, msgs: Seq<(Seq<char>, Seq<char>)>)
    ensures
        match d.pattern_finding(msgs) {
            Some(f) => 2 <= f.3 <= d.pattern_bound(msgs.len()) && d.window_finding(msgs, f.3)
                == Some(f) && forall|k: nat| 2 <= k < f.3 ==> d.window_finding(msgs, k) is None,
            None => forall|k: nat|
                2 <= k <= d.pattern_bound(msgs.len()) ==> d.window_finding(msgs, k) is None,
        },
{
    lemma_pattern_search_smallest(d, msgs, 2);
}

proof fn lemma_pattern_search_none(d: LoopDetector, msgs: Seq<(Seq<char>, Seq<char>)>, k: nat)
    requires
        forall|j: nat| k <= j <= d.pattern_bound(msgs.len()) ==> d.window_finding(msgs, j) is None,
    ensures
        d.pattern_search(msgs, k) is None,
    decreases d.pattern_bound(msgs.len()) + 1 - k,
{
    if k <= d.pattern_bound(msgs.len()) {
        assert(d.window_finding(msgs, k) is None);
        lemma_pattern_search_none(d, msgs, k + 1);
    }
}

/// A batch shorter than the repetition threshold draws no finding at all.
pub proof fn lemma_short_batch_no_findings(d: LoopDetector, msgs: Seq<(Seq<char>, Seq<char>)>)
    requires
        d.wf(),
        msgs.len() < MIN_REPETITIONS,
    ensures
        d.findings(msgs) == Seq::<FindingView>::empty(),
{
    lemma_max_repetition_at_most_len(collapsed_contents(msgs));
    assert forall|j: nat| 2 <= j <= d.pattern_bound(msgs.len()) implies d.window_finding(
        msgs,
        j,
    ) is None by {
        assert(msgs.len() < j * MIN_REPETITIONS) by (nonlinear_arith)
            requires
                2 <= j,
                msgs.len() < MIN_REPETITIONS,
        ;
    }
    lemma_pattern_search_none(d, msgs, 2);
    assert(d.findings(msgs) =~= Seq::<FindingView>::empty());
}

/// A batch whose contents, white space collapsed, are pairwise distinct draws
/// only the finding on its size.
pub proof fn lemma_distinct_batch_volume_only(d: LoopDetector, msgs: Seq<(Seq<char>, Seq<char>)>)
    requires
        d.wf(),
        forall|i: int, j: int|
            0 <= i < j < msgs.len() ==> collapse_ws(msgs[i].1) != collapse_ws(msgs[j].1),
    ensures
        d.findings(msgs) == opt_seq(d.volume_finding(msgs.len())),
{
    let c = collapsed_contents(msgs);
    assert forall|i: int, j: int| 0 <= i < j < c.len() implies c[i] != c[j] by {}
    lemma_max_repetition_distinct(c);
    assert forall|k: nat| 2 <= k <= d.pattern_bound(msgs.len()) implies d.window_finding(
        msgs,
        k,
    ) is None by {
        let w = windows(msgs, k);
        assert forall|i: int, j: int| 0 <= i < j < w.len() implies w[i] != w[j] by {
            assert(w[i][0] == msgs[i]);
            assert(w[j][0] == msgs[j]);
        }
        lemma_max_repetition_distinct(w);
    }
    lemma_pattern_search_none(d, msgs, 2);
    assert(d.findings(msgs) =~= opt_seq(d.volume_finding(msgs.len())));
}

/// When every message holds the same content (white space collapsed), the content
/// finding counts every message and is graded by the size of the batch.
pub proof fn lemma_identical_contents_counted(
    d: LoopDetector,
    msgs: Seq<(Seq<char>, Seq<char>)>,
)
    requires
        d.wf(),
        msgs.len() > 0,
        forall|i: int|
            0 <= i < msgs.len() ==> collapse_ws(#[trigger] msgs[i].1) == collapse_ws(msgs[0].1),
    ensures
        max_repetition(collapsed_contents(msgs)) == msgs.len(),
        msgs.len() >= 2 * MIN_REPETITIONS ==> (d.content_finding(msgs) matches Some(f) && f.0
            == LoopSeverity::Critical && f.2 == msgs.len() && f.3 == 1),
        MIN_REPETITIONS <= msgs.len() < 2 * MIN_REPETITIONS ==> (d.content_finding(
            msgs,
        ) matches Some(f) && f.0 == LoopSeverity::Warning && f.2 == msgs.len() && f.3 == 1),
        msgs.len() < MIN_REPETITIONS ==> d.content_finding(msgs) is None,
{
    lemma_max_repetition_constant(collapsed_contents(msgs));
}

impl Default for LoopDetector {
    fn default() -> (d: Self)
        ensures
            d.wf(),
    {
        LoopDetector::new()
    }
}

} // verus!
