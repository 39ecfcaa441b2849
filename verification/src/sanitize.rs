//! Redaction of secrets: a fixed, ordered list of patterns, each applied to
//! the whole text in turn, every match replaced by one marker.
//!
//! The patterns are regular expressions and the `regex` crate finds their
//! matches. Which spans of a text a pattern matches is left to that crate
//! and only named here; what is done with the spans is stated in full.

use regex::Regex;
use vstd::prelude::*;

verus! {

#[verifier::external_type_specification]
#[verifier::external_body]
pub struct ExRegex(regex::Regex);

#[verifier::external_type_specification]
#[verifier::external_body]
pub struct ExRegexError(regex::Error);

/// Whether `Regex::new` accepts a pattern.
pub uninterp spec fn pattern_compiles(pattern: Seq<char>) -> bool;

/// The successive non-overlapping matches that a matcher compiled by
/// `Regex::new` from `pattern` finds in `haystack`, leftmost first: each a
/// pair of the position of its first character and the position behind its
/// last, counted in characters.
pub uninterp spec fn matches_of(pattern: Seq<char>, haystack: Seq<char>) -> Seq<(int, int)>;

/// Spans of a text of `len` characters that lie within it, one behind the
/// other.
pub open spec fn spans_in_order(spans: Seq<(int, int)>, len: int) -> bool {
    &&& forall|i: int|
        0 <= i < spans.len() ==> 0 <= (#[trigger] spans[i]).0 <= spans[i].1 <= len
    &&& forall|i: int, j: int|
        0 <= i < j < spans.len() ==> (#[trigger] spans[i]).1 <= (#[trigger] spans[j]).0
}

/// The text with each of the spans replaced by `with`, and everything
/// between them kept.
pub open spec fn replace_spans(text: Seq<char>, spans: Seq<(int, int)>, with: Seq<char>) -> Seq<
    char,
>
    decreases spans.len(),
{
    if spans.len() == 0 {
        text
    } else {
        replace_spans(text.take(spans.last().0), spans.drop_last(), with) + with + text.skip(
            spans.last().1,
        )
    }
}

/// `out` is `text` with the spans, which are in order, replaced by `with`.
pub open spec fn replaces_spans(
    out: Seq<char>,
    text: Seq<char>,
    spans: Seq<(int, int)>,
    with: Seq<char>,
) -> bool {
    &&& spans_in_order(spans, text.len() as int)
    &&& out == replace_spans(text, spans, with)
}

/// The marker that stands in place of a redacted secret.
pub open spec fn redaction_marker() -> Seq<char> {
    "[REDACTED SECRET]"@
}

/// The patterns of secrets, in the order in which they are applied: the
/// header of a private key, a cloud access key identifier, two forms of API
/// token, and a long value assigned to a key, secret, token or password.
pub open spec fn secret_patterns() -> Seq<Seq<char>> {
    seq![
        r"-----BEGIN [A-Z ]+ PRIVATE KEY-----"@,
        r"AKIA[0-9A-Z]{16}"@,
        r"(?i)sk-[a-zA-Z0-9]{20,}"@,
        r"gh[pousr]-[a-zA-Z0-9]{36}"@,
        r#"(?i)(api_key|secret|token|password)\s*[:=]\s*["'][a-zA-Z0-9]{32,}["']"#@,
    ]
}

/// The text after one pattern was applied.
pub open spec fn redacted(text: Seq<char>, pattern: Seq<char>) -> Seq<char> {
    replace_spans(text, matches_of(pattern, text), redaction_marker())
}

/// The text after the patterns were applied one after the other, each to
/// what the one before it left.
pub open spec fn apply_patterns(text: Seq<char>, patterns: Seq<Seq<char>>) -> Seq<char>
    decreases patterns.len(),
{
    if patterns.len() == 0 {
        text
    } else {
        redacted(apply_patterns(text, patterns.drop_last()), patterns.last())
    }
}

/// Whether the matches of each pattern, in the text that the patterns before
/// it left, lie within that text, one behind the other.
pub open spec fn matches_in_order(text: Seq<char>, patterns: Seq<Seq<char>>) -> bool
    decreases patterns.len(),
{
    patterns.len() == 0 || {
        let before = apply_patterns(text, patterns.drop_last());
        &&& matches_in_order(text, patterns.drop_last())
        &&& spans_in_order(matches_of(patterns.last(), before), before.len() as int)
    }
}

/// The sanitized form of a text.
pub open spec fn sanitized(text: Seq<char>) -> Seq<char> {
    apply_patterns(text, secret_patterns())
}

/// A compiled pattern, together with the text it was compiled from. Only
/// `compile` makes one, so the matcher is always that of the text.
struct SecretPattern {
    source: String,
    matcher: Regex,
}

impl View for SecretPattern {
    type V = Seq<char>;

    closed spec fn view(&self) -> Seq<char> {
        self.source@
    }
}

/// `Regex::new`. It succeeds on the patterns that the crate accepts, and
/// the value that comes back stands for the pattern it was given.
#[verifier::external_body]
fn compile(pattern: &str) -> (r: Result<SecretPattern, regex::Error>)
    ensures
        r is Ok <==> pattern_compiles(pattern@),
        r matches Ok(p) ==> p@ == pattern@,
{
    match Regex::new(pattern) {
        Ok(matcher) => Ok(SecretPattern { source: pattern.to_owned(), matcher }),
        Err(e) => Err(e),
    }
}

/// `Regex::replace_all` with a replacement that holds no `$`, so that it is
/// taken as it stands: the matches of the pattern are found from left to
/// right, none overlapping another, and the result is the haystack with
/// each match replaced and the text between the matches copied.
#[verifier::external_body]
fn replace_all(pattern: &SecretPattern, haystack: &str, replacement: &str) -> (out: String)
    requires
        !replacement@.contains('$'),
    ensures
        replaces_spans(out@, haystack@, matches_of(pattern@, haystack@), replacement@),
{
    pattern.matcher.replace_all(haystack, replacement).into_owned()
}

/// A pattern of the rule set could not be compiled.
#[derive(Debug)]
pub struct InvalidRule {
    /// Position of the pattern in the list of patterns.
    pub index: usize,
}

/// The compiled patterns of secrets. It is built once and only read after
/// that, so one value can serve any number of readers.
pub struct SanitizationRuleSet {
    rules: Vec<SecretPattern>,
}

/// The `k`-th of the patterns.
fn pattern_text(k: usize) -> (pattern: &'static str)
    requires
        k < 5,
    ensures
        pattern@ == secret_patterns()[k as int],
{
    if k == 0 {
        r"-----BEGIN [A-Z ]+ PRIVATE KEY-----"
    } else if k == 1 {
        r"AKIA[0-9A-Z]{16}"
    } else if k == 2 {
        r"(?i)sk-[a-zA-Z0-9]{20,}"
    } else if k == 3 {
        r"gh[pousr]-[a-zA-Z0-9]{36}"
    } else {
        r#"(?i)(api_key|secret|token|password)\s*[:=]\s*["'][a-zA-Z0-9]{32,}["']"#
    }
}

impl SanitizationRuleSet {
    #[verifier::type_invariant]
    spec fn holds_the_patterns(self) -> bool {
        &&& self.rules@.len() == secret_patterns().len()
        &&& forall|k: int| 0 <= k < self.rules@.len() ==> (#[trigger] self.rules@[k])@
            == secret_patterns()[k]
    }

    /// Compiles the patterns. The error names the first pattern that did
    /// not compile.
    pub fn new() -> (r: Result<SanitizationRuleSet, InvalidRule>)
        ensures
            r is Ok <==> forall|k: int|
                0 <= k < secret_patterns().len() ==> pattern_compiles(
                    #[trigger] secret_patterns()[k],
                ),
            r matches Err(e) ==> {
                &&& e.index < secret_patterns().len()
                &&& !pattern_compiles(secret_patterns()[e.index as int])
                &&& forall|k: int|
                    0 <= k < e.index ==> pattern_compiles(#[trigger] secret_patterns()[k])
            },
    {
        let mut rules: Vec<SecretPattern> = Vec::new();
        let mut k: usize = 0;
        while k < 5
            invariant
                k <= 5,
                rules@.len() == k,
                forall|j: int| 0 <= j < k ==> (#[trigger] rules@[j])@ == secret_patterns()[j],
                forall|j: int| 0 <= j < k ==> pattern_compiles(#[trigger] secret_patterns()[j]),
            decreases 5 - k,
        {
            match compile(pattern_text(k)) {
                Ok(rule) => {
                    rules.push(rule);
                },
                Err(_) => {
                    return Err(InvalidRule { index: k });
                },
            }
            k += 1;
        }
        Ok(SanitizationRuleSet { rules })
    }
}

/// Replaces every secret in `content` by the marker: the patterns are
/// applied in their order, each to the whole of what the one before it left.
/// What a pattern replaces are spans of the text before it, in order and
/// apart; all that stands between them is kept.
pub fn sanitize_content(rules: &SanitizationRuleSet, content: &str) -> (out: String)
    ensures
        out@ == sanitized(content@),
        matches_in_order(content@, secret_patterns()),
{
    proof {
        use_type_invariant(rules);
        reveal_strlit("[REDACTED SECRET]");
    }
    let mut text = content.to_owned();
    let mut k: usize = 0;
    while k < rules.rules.len()
        invariant
            k <= rules.rules@.len() == secret_patterns().len(),
            forall|j: int|
                0 <= j < rules.rules@.len() ==> (#[trigger] rules.rules@[j])@
                    == secret_patterns()[j],
            !"[REDACTED SECRET]"@.contains('$'),
            text@ == apply_patterns(content@, secret_patterns().take(k as int)),
            matches_in_order(content@, secret_patterns().take(k as int)),
        decreases rules.rules@.len() - k,
    {
        text = replace_all(&rules.rules[k], text.as_str(), "[REDACTED SECRET]");
        assert(secret_patterns().take(k + 1).drop_last() =~= secret_patterns().take(k as int));
        k += 1;
    }
    assert(secret_patterns().take(secret_patterns().len() as int) =~= secret_patterns());
    text
}

/// A text in which no pattern finds a match is left as it is.
pub proof fn law_clean_text_is_kept(text: Seq<char>)
    requires
        forall|k: int|
            0 <= k < secret_patterns().len() ==> matches_of(
                #[trigger] secret_patterns()[k],
                text,
            ).len() == 0,
    ensures
        sanitized(text) == text,
{
    lemma_clean_prefix(text, secret_patterns().len() as int);
    assert(secret_patterns().take(secret_patterns().len() as int) =~= secret_patterns());
}

/// The first `n` patterns leave a text as it is, if none of them finds a
/// match in it.
proof fn lemma_clean_prefix(text: Seq<char>, n: int)
    requires
        0 <= n <= secret_patterns().len(),
        forall|k: int|
            0 <= k < secret_patterns().len() ==> matches_of(
                #[trigger] secret_patterns()[k],
                text,
            ).len() == 0,
    ensures
        apply_patterns(text, secret_patterns().take(n)) == text,
    decreases n,
{
    if n > 0 {
        lemma_clean_prefix(text, n - 1);
        assert(secret_patterns().take(n).drop_last() =~= secret_patterns().take(n - 1));
    }
}

/// Where a pattern matches once, what it leaves is the text before the
/// match, the marker, and the text behind the match.
pub proof fn law_one_match_is_replaced(text: Seq<char>, pattern: Seq<char>)
    requires
        matches_of(pattern, text).len() == 1,
    ensures
        redacted(text, pattern) == text.take(matches_of(pattern, text)[0].0) + redaction_marker()
            + text.skip(matches_of(pattern, text)[0].1),
{
    reveal_with_fuel(replace_spans, 2);
}

/// Where the matches of all patterns are in order, those of the `k`-th
/// pattern are: they lie within the text that the patterns before it left,
/// one behind the other.
pub proof fn law_matches_of_a_stage_are_in_order(
    text: Seq<char>,
    patterns: Seq<Seq<char>>,
    k: int,
)
    requires
        matches_in_order(text, patterns),
        0 <= k < patterns.len(),
    ensures
        spans_in_order(
            matches_of(patterns[k], apply_patterns(text, patterns.take(k))),
            apply_patterns(text, patterns.take(k)).len() as int,
        ),
    decreases patterns.len(),
{
    if k == patterns.len() - 1 {
        assert(patterns.take(k) =~= patterns.drop_last());
    } else {
        law_matches_of_a_stage_are_in_order(text, patterns.drop_last(), k);
        assert(patterns.drop_last().take(k) =~= patterns.take(k));
    }
}

/// The spans before the last of spans in order are in order too, and lie
/// before the last.
proof fn lemma_earlier_spans(spans: Seq<(int, int)>, len: int)
    requires
        spans.len() > 0,
        spans_in_order(spans, len),
    ensures
        spans_in_order(spans.drop_last(), spans.last().0),
{
    let rest = spans.drop_last();
    assert forall|i: int| 0 <= i < rest.len() implies 0 <= (#[trigger] rest[i]).0 <= rest[i].1
        <= spans.last().0 by {
        assert(rest[i] == spans[i]);
        assert(spans[i].1 <= spans[spans.len() - 1].0);
    }
    assert forall|i: int, j: int| 0 <= i < j < rest.len() implies (#[trigger] rest[i]).1 <= (
    #[trigger] rest[j]).0 by {
        assert(rest[i] == spans[i]);
        assert(rest[j] == spans[j]);
    }
}

/// Replacing spans that are in order alters nothing before the first span
/// and nothing behind the last.
pub proof fn law_text_around_spans_is_kept(text: Seq<char>, spans: Seq<(int, int)>, with: Seq<char>)
    requires
        spans.len() > 0,
        spans_in_order(spans, text.len() as int),
    ensures
        replace_spans(text, spans, with).len() >= spans[0].0 + (text.len() - spans.last().1),
        replace_spans(text, spans, with).take(spans[0].0) == text.take(spans[0].0),
        replace_spans(text, spans, with).skip(
            replace_spans(text, spans, with).len() - (text.len() - spans.last().1),
        ) == text.skip(spans.last().1),
    decreases spans.len(),
{
    let last = spans.last();
    let head = text.take(last.0);
    let rest = spans.drop_last();
    let front = replace_spans(head, rest, with);
    let out = replace_spans(text, spans, with);
    assert(out == front + with + text.skip(last.1));
    assert(out.skip(out.len() - (text.len() - last.1)) =~= text.skip(last.1));
    if spans.len() == 1 {
        assert(front == head);
        assert(out.take(spans[0].0) =~= text.take(spans[0].0));
    } else {
        lemma_earlier_spans(spans, text.len() as int);
        law_text_around_spans_is_kept(head, rest, with);
        assert(rest[0] == spans[0]);
        assert(spans[0].1 <= spans[spans.len() - 1].0);
        assert(head.take(spans[0].0) =~= text.take(spans[0].0));
        assert(out.take(spans[0].0) =~= front.take(spans[0].0));
    }
}

/// The number of characters that the spans cover.
pub open spec fn spans_length(spans: Seq<(int, int)>) -> int
    decreases spans.len(),
{
    if spans.len() == 0 {
        0
    } else {
        spans_length(spans.drop_last()) + (spans.last().1 - spans.last().0)
    }
}

/// Replacing spans that are in order takes away what the spans cover and
/// puts the replacement in once for each span: the length of the result is
/// that of the text, less what was covered, plus the replacements.
pub proof fn law_replaced_length(text: Seq<char>, spans: Seq<(int, int)>, with: Seq<char>)
    requires
        spans_in_order(spans, text.len() as int),
    ensures
        replace_spans(text, spans, with).len() == text.len() - spans_length(spans) + spans.len()
            * with.len(),
    decreases spans.len(),
{
    if spans.len() > 0 {
        let last = spans.last();
        let head = text.take(last.0);
        let rest = spans.drop_last();
        lemma_earlier_spans(spans, text.len() as int);
        law_replaced_length(head, rest, with);
        assert(replace_spans(text, spans, with) == replace_spans(head, rest, with) + with
            + text.skip(last.1));
        assert(spans.len() * with.len() == rest.len() * with.len() + with.len())
            by (nonlinear_arith)
            requires
                spans.len() == rest.len() + 1,
        ;
    }
}

/// What one pattern leaves of a text has the length of the text, less what
/// its matches cover, plus one marker for each match; the text before the
/// first match and behind the last is kept.
pub proof fn law_redaction_keeps_the_rest(text: Seq<char>, pattern: Seq<char>)
    requires
        spans_in_order(matches_of(pattern, text), text.len() as int),
    ensures
        redacted(text, pattern).len() == text.len() - spans_length(matches_of(pattern, text))
            + matches_of(pattern, text).len() * redaction_marker().len(),
        matches_of(pattern, text).len() > 0 ==> {
            &&& redacted(text, pattern).take(matches_of(pattern, text)[0].0) == text.take(
                matches_of(pattern, text)[0].0,
            )
            &&& redacted(text, pattern).skip(
                redacted(text, pattern).len() - (text.len() - matches_of(pattern, text).last().1),
            ) == text.skip(matches_of(pattern, text).last().1)
        },
{
    let spans = matches_of(pattern, text);
    law_replaced_length(text, spans, redaction_marker());
    if spans.len() > 0 {
        law_text_around_spans_is_kept(text, spans, redaction_marker());
    }
}

} // verus!
