//! What holds of extraction.

use crate::error::{self, Error};
use crate::llm_cli::{self, Extractable, Failure, LlmExtractor, Progress, RunOutcome, SharedLlm};
use crate::text;
use crate::text::laws as text_laws;
use vstd::prelude::*;

verus! {

broadcast use vstd::seq::group_seq_axioms;

/// There is exactly one repair: a first failure leads to another attempt, whose failure ends the
/// extraction whatever it is.
pub proof fn there_is_one_repair(prompt: Seq<char>, max: int, first: Failure, second: Failure)
    ensures
        ({
            let start = Progress { prompt, max_text_len: max, first: None };
            let once = start.after(first);
            &&& start.first is None
            &&& start.next_prompt() == prompt
            &&& once.first == Some(first)
            &&& once.next_prompt() == llm_cli::repair(prompt, first.output, first.detail, max)
            &&& once.after(second) == once
        }),
{
}

/// A truncated text is a prefix that fits, and no longer prefix does.
pub proof fn truncation_is_maximal(s: Seq<char>, max: int)
    requires
        max >= 0,
    ensures
        llm_cli::shortened(s, max).is_prefix_of(s),
        text::byte_len(llm_cli::shortened(s, max)) <= max,
        forall|k: int|
            llm_cli::shortened(s, max).len() < k <= s.len() ==> text::byte_len(
                #[trigger] s.take(k),
            ) > max,
        text::byte_len(s) <= max ==> llm_cli::shortened(s, max) == s,
{
    lemma_fitting(s, max, s.len() as int);
    let n = llm_cli::fitting(s, max, s.len() as int);
    assert(s.take(n).len() == n);
    assert forall|k: int| n < k <= s.len() implies text::byte_len(#[trigger] s.take(k)) > max by {
        assert(text::offset(s, k) > max);
    }
    text::lemma_offset_ends(s);
    if text::byte_len(s) <= max {
        assert(s.take(s.len() as int) =~= s);
    }
}

proof fn lemma_fitting(s: Seq<char>, max: int, k: int)
    requires
        0 <= k <= s.len(),
        max >= 0,
    ensures
        0 <= llm_cli::fitting(s, max, k) <= k,
        text::offset(s, llm_cli::fitting(s, max, k)) <= max,
        forall|i: int|
            llm_cli::fitting(s, max, k) < i <= k ==> #[trigger] text::offset(s, i) > max,
    decreases k,
{
    text::lemma_offset_ends(s);
    if k > 0 && text::offset(s, k) > max {
        lemma_fitting(s, max, k - 1);
    }
}

/// Text that is not fenced only loses its outer white space, and stripping it again changes
/// nothing.
pub proof fn plain_json_is_left_alone(s: Seq<char>)
    requires
        llm_cli::fenced(text::trim(s)) is None,
    ensures
        llm_cli::unfenced(s) == text::trim(s),
        llm_cli::unfenced(text::trim(s)) == text::trim(s),
{
    text::lemma_trim_twice(s);
}

/// Fences are stripped, whatever stands between them: a fenced JSON block comes to its trimmed
/// body.
pub proof fn fences_are_stripped(body: Seq<char>)
    ensures
        llm_cli::unfenced("```json"@ + body + "```"@) == text::trim(body),
{
    reveal_strlit("```json");
    reveal_strlit("```");
    let s = "```json"@ + body + "```"@;
    assert(s[0] == '`');
    assert(s.last() == '`');
    text::lemma_leading_unique(s, 0);
    assert(text::trim_start(s) =~= s);
    text::lemma_trailing_unique(s, 0);
    assert(text::trim(s) =~= s);
    assert(s.subrange(0, 7) =~= "```json"@);
    let rest = s.skip(7);
    assert(rest =~= body + "```"@);
    assert(rest.last() == '`');
    text::lemma_trailing_unique(rest, 0);
    assert(text::trim_end(rest) =~= rest);
    assert(rest.subrange(rest.len() - 3, rest.len() as int) =~= "```"@);
    assert(rest.take(rest.len() - 3) =~= body);
}

// ---- the repair prompt ---------------------------------------------------------------------

/// Whether the first `n` characters of `s` from position `from` on are not `c`.
spec fn clear(s: Seq<char>, c: char, from: int, n: nat) -> bool
    decreases n,
{
    n == 0 || (s[from + n - 1] != c && clear(s, c, from, (n - 1) as nat))
}

proof fn lemma_clear(s: Seq<char>, c: char, from: int, n: nat, k: int)
    requires
        clear(s, c, from, n),
        from <= k < from + n,
    ensures
        s[k] != c,
    decreases n,
{
    if k < from + n - 1 {
        lemma_clear(s, c, from, (n - 1) as nat, k);
    }
}

/// Whether the first `n` characters of `a` from position `from` on are the first of `b`.
spec fn alike(a: Seq<char>, from: int, b: Seq<char>, n: nat) -> bool
    decreases n,
{
    n == 0 || (a[from + n - 1] == b[n - 1] && alike(a, from, b, (n - 1) as nat))
}

proof fn lemma_alike(a: Seq<char>, from: int, b: Seq<char>, n: nat, k: int)
    requires
        alike(a, from, b, n),
        0 <= k < n,
    ensures
        a[from + k] == b[k],
    decreases n,
{
    if k < n - 1 {
        lemma_alike(a, from, b, (n - 1) as nat, k);
    }
}

/// A pattern is not found in a part that does not hold its first character.
proof fn lemma_clean_part(a: Seq<char>, b: Seq<char>, pattern: Seq<char>, by: Seq<char>)
    requires
        pattern.len() > 0,
        forall|k: int| 0 <= k < a.len() ==> #[trigger] a[k] != pattern[0],
    ensures
        text::replaced(a + b, pattern, by) == a + text::replaced(b, pattern, by),
{
    assert forall|at: int| 0 <= at < a.len() implies !#[trigger] text::occurs(a + b, pattern, at) by {
        if text::occurs(a + b, pattern, at) {
            assert((a + b).subrange(at, at + pattern.len())[0] == a[at]);
        }
    }
    text_laws::lemma_replaced_behind(a, b, pattern, by);
}

/// A pattern is not found in another placeholder.
proof fn lemma_other_placeholder(x: Seq<char>, b: Seq<char>, pattern: Seq<char>, by: Seq<char>)
    requires
        pattern.len() > 1,
        x.len() > 1,
        x[1] != pattern[1],
        forall|k: int| 1 <= k < x.len() ==> #[trigger] x[k] != pattern[0],
    ensures
        text::replaced(x + b, pattern, by) == x + text::replaced(b, pattern, by),
{
    assert forall|at: int| 0 <= at < x.len() implies !#[trigger] text::occurs(x + b, pattern, at) by {
        if text::occurs(x + b, pattern, at) {
            assert((x + b).subrange(at, at + pattern.len())[0] == x[at]);
            if at == 0 {
                assert((x + b).subrange(at, at + pattern.len())[1] == x[1]);
            }
        }
    }
    text_laws::lemma_replaced_behind(x, b, pattern, by);
}

/// A pattern is not found in a text that does not hold it, with a line feed behind it.
proof fn lemma_given_part(a: Seq<char>, b: Seq<char>, pattern: Seq<char>, by: Seq<char>)
    requires
        pattern.len() > 0,
        forall|k: int| 0 <= k < pattern.len() ==> #[trigger] pattern[k] != '\n',
        text_laws::absent(a, pattern),
        b.len() > 0,
        b[0] == '\n',
    ensures
        text::replaced(a + b, pattern, by) == a + text::replaced(b, pattern, by),
{
    let rest = b.drop_first();
    assert(a + b =~= a + seq!['\n'] + rest);
    assert forall|at: int| 0 <= at < a.len() implies !#[trigger] text::occurs(a + b, pattern, at) by {
        text_laws::lemma_no_pattern_across(a, '\n', rest, pattern, at);
    }
    text_laws::lemma_replaced_behind(a, b, pattern, by);
}

/// The parts of the repair prompt, between and around its placeholders.
proof fn lemma_repair_parts() -> (r: (Seq<char>, Seq<char>, Seq<char>, Seq<char>))
    ensures
        ({
            let (a, b, c, d) = r;
            let p = llm_cli::REPAIR_PROMPT@;
            &&& p == a + (llm_cli::PLACEHOLDER_ORIGINAL@ + (b + (llm_cli::PLACEHOLDER_PREVIOUS@ + (c
                + (llm_cli::PLACEHOLDER_ERROR@ + d)))))
            &&& forall|k: int| 0 <= k < a.len() ==> #[trigger] a[k] != '{'
            &&& forall|k: int| 0 <= k < b.len() ==> #[trigger] b[k] != '{'
            &&& forall|k: int| 0 <= k < c.len() ==> #[trigger] c[k] != '{'
            &&& forall|k: int| 0 <= k < d.len() ==> #[trigger] d[k] != '{'
            &&& b.len() > 0 && b[0] == '\n'
            &&& c.len() > 0 && c[0] == '\n'
            &&& d.len() > 0 && d[0] == '\n'
        }),
{
    reveal_strlit(
        "Your previous answer was not the JSON that was asked for.\n\nOriginal request:\n{original_prompt}\n\nYour previous answer:\n{previous_output}\n\nWhat is wrong with it:\n{error}\n\nReturn only the corrected JSON, without markdown and without any other words.\n",
    );
    reveal_strlit("{original_prompt}");
    reveal_strlit("{previous_output}");
    reveal_strlit("{error}");
    reveal_with_fuel(clear, 90);
    reveal_with_fuel(alike, 20);
    let p = llm_cli::REPAIR_PROMPT@;
    let x = llm_cli::PLACEHOLDER_ORIGINAL@;
    let y = llm_cli::PLACEHOLDER_PREVIOUS@;
    let z = llm_cli::PLACEHOLDER_ERROR@;
    let a = p.subrange(0, 77);
    let b = p.subrange(94, 118);
    let c = p.subrange(135, 160);
    let d = p.subrange(167, 247);
    assert(clear(p, '{', 0, 77));
    assert(clear(p, '{', 94, 24));
    assert(clear(p, '{', 135, 10));
    assert(clear(p, '{', 135, 25));
    assert(clear(p, '{', 167, 20));
    assert(clear(p, '{', 167, 40));
    assert(clear(p, '{', 167, 60));
    assert(clear(p, '{', 167, 80));
    assert(alike(p, 77, x, 17));
    assert(alike(p, 118, y, 17));
    assert(alike(p, 160, z, 7));
    assert forall|k: int| 0 <= k < a.len() implies #[trigger] a[k] != '{' by {
        lemma_clear(p, '{', 0, 77, k);
    }
    assert forall|k: int| 0 <= k < b.len() implies #[trigger] b[k] != '{' by {
        lemma_clear(p, '{', 94, 24, k + 94);
    }
    assert forall|k: int| 0 <= k < c.len() implies #[trigger] c[k] != '{' by {
        lemma_clear(p, '{', 135, 25, k + 135);
    }
    assert forall|k: int| 0 <= k < d.len() implies #[trigger] d[k] != '{' by {
        lemma_clear(p, '{', 167, 80, k + 167);
    }
    assert(x =~= p.subrange(77, 94)) by {
        assert forall|k: int| 0 <= k < 17 implies #[trigger] x[k] == p[k + 77] by {
            lemma_alike(p, 77, x, 17, k);
        }
    }
    assert(y =~= p.subrange(118, 135)) by {
        assert forall|k: int| 0 <= k < 17 implies #[trigger] y[k] == p[k + 118] by {
            lemma_alike(p, 118, y, 17, k);
        }
    }
    assert(z =~= p.subrange(160, 167)) by {
        assert forall|k: int| 0 <= k < 7 implies #[trigger] z[k] == p[k + 160] by {
            lemma_alike(p, 160, z, 7, k);
        }
    }
    assert(p =~= a + (x + (b + (y + (c + (z + d))))));
    (a, b, c, d)
}

/// The request for a repair shows the whole first request, the first answer as far as it fits, and the
/// error: it is the repair prompt with each of them in the place of its placeholder, and all else as
/// it is. What it shows does not hold placeholders itself.
pub proof fn repairs_show_the_whole_request(
    original: Seq<char>,
    previous: Seq<char>,
    error: Seq<char>,
    max: int,
) -> (r: (Seq<char>, Seq<char>, Seq<char>, Seq<char>, Seq<char>))
    requires
        max >= 0,
        text_laws::absent(original, "{previous_output}"@),
        text_laws::absent(original, "{error}"@),
        text_laws::absent(previous, "{error}"@),
    ensures
        ({
            let (a, b, c, d, kept) = r;
            &&& llm_cli::REPAIR_PROMPT@ == a + "{original_prompt}"@ + b + "{previous_output}"@ + c
                + "{error}"@ + d
            &&& llm_cli::repair(original, previous, error, max) == a + original + b + kept + c
                + error + d
            &&& kept.is_prefix_of(previous)
            &&& text::byte_len(kept) <= max
            &&& forall|k: int|
                kept.len() < k <= previous.len() ==> text::byte_len(#[trigger] previous.take(k)) > max
        }),
{
    let (a, b, c, d) = lemma_repair_parts();
    let x = llm_cli::PLACEHOLDER_ORIGINAL@;
    let y = llm_cli::PLACEHOLDER_PREVIOUS@;
    let z = llm_cli::PLACEHOLDER_ERROR@;
    let kept = llm_cli::shortened(previous, max);
    truncation_is_maximal(previous, max);
    lemma_placeholders();
    assert(text_laws::absent(kept, z)) by {
        assert forall|at: int| !#[trigger] text::occurs(kept, z, at) by {
            if text::occurs(kept, z, at) {
                assert(previous.subrange(at, at + z.len()) =~= kept.subrange(at, at + z.len()));
                assert(text::occurs(previous, z, at));
            }
        }
    }
    let none = Seq::<char>::empty();
    assert(d + none =~= d);
    // the first placeholder
    let end = z + d;
    let from_c = c + end;
    let from_y = y + from_c;
    let from_b = b + from_y;
    assert(text::replaced(llm_cli::REPAIR_PROMPT@, x, original) == a + (original + from_b)) by {
        lemma_clean_part(a, x + from_b, x, original);
        text_laws::lemma_replaced_here(from_b, x, original);
        lemma_clean_part(b, from_y, x, original);
        lemma_other_placeholder(y, from_c, x, original);
        lemma_clean_part(c, end, x, original);
        lemma_other_placeholder(z, d, x, original);
        lemma_clean_part(d, none, x, original);
        assert(text::replaced(none, x, original) =~= none);
    }
    // the second
    assert(text::replaced(a + (original + from_b), y, kept) == a + (original + (b + (kept + from_c))))
        by {
        lemma_clean_part(a, original + from_b, y, kept);
        assert(from_b[0] == b[0]);
        lemma_given_part(original, from_b, y, kept);
        lemma_clean_part(b, from_y, y, kept);
        text_laws::lemma_replaced_here(from_c, y, kept);
        lemma_clean_part(c, end, y, kept);
        lemma_other_placeholder(z, d, y, kept);
        lemma_clean_part(d, none, y, kept);
        assert(text::replaced(none, y, kept) =~= none);
    }
    // the third
    let shown = kept + from_c;
    assert(text::replaced(a + (original + (b + shown)), z, error) == a + (original + (b + (kept + (c
        + (error + d)))))) by {
        lemma_clean_part(a, original + (b + shown), z, error);
        assert((b + shown)[0] == b[0]);
        lemma_given_part(original, b + shown, z, error);
        lemma_clean_part(b, shown, z, error);
        assert(from_c[0] == c[0]);
        lemma_given_part(kept, from_c, z, error);
        lemma_clean_part(c, end, z, error);
        text_laws::lemma_replaced_here(d, z, error);
        lemma_clean_part(d, none, z, error);
        assert(text::replaced(none, z, error) =~= none);
    }
    assert(a + original + b + kept + c + error + d =~= a + (original + (b + (kept + (c + (error
        + d))))));
    assert(a + x + b + y + c + z + d =~= a + (x + (b + (y + (c + (z + d))))));
    (a, b, c, d, kept)
}

/// How the placeholders are told apart.
proof fn lemma_placeholders()
    ensures
        ({
            let x = llm_cli::PLACEHOLDER_ORIGINAL@;
            let y = llm_cli::PLACEHOLDER_PREVIOUS@;
            let z = llm_cli::PLACEHOLDER_ERROR@;
            &&& x.len() == 17 && y.len() == 17 && z.len() == 7
            &&& x[0] == '{' && y[0] == '{' && z[0] == '{'
            &&& x[1] == 'o' && y[1] == 'p' && z[1] == 'e'
            &&& forall|k: int| 1 <= k < 17 ==> #[trigger] x[k] != '{'
            &&& forall|k: int| 1 <= k < 17 ==> #[trigger] y[k] != '{'
            &&& forall|k: int| 1 <= k < 7 ==> #[trigger] z[k] != '{'
            &&& forall|k: int| 0 <= k < 17 ==> #[trigger] x[k] != '\n'
            &&& forall|k: int| 0 <= k < 17 ==> #[trigger] y[k] != '\n'
            &&& forall|k: int| 0 <= k < 7 ==> #[trigger] z[k] != '\n'
        }),
{
    reveal_strlit("{original_prompt}");
    reveal_strlit("{previous_output}");
    reveal_strlit("{error}");
    reveal_with_fuel(clear, 20);
    let x = llm_cli::PLACEHOLDER_ORIGINAL@;
    let y = llm_cli::PLACEHOLDER_PREVIOUS@;
    let z = llm_cli::PLACEHOLDER_ERROR@;
    assert(clear(x, '{', 1, 16) && clear(y, '{', 1, 16) && clear(z, '{', 1, 6));
    assert(clear(x, '\n', 0, 17) && clear(y, '\n', 0, 17) && clear(z, '\n', 0, 7));
    assert forall|k: int| 1 <= k < 17 implies #[trigger] x[k] != '{' by {
        lemma_clear(x, '{', 1, 16, k);
    }
    assert forall|k: int| 1 <= k < 17 implies #[trigger] y[k] != '{' by {
        lemma_clear(y, '{', 1, 16, k);
    }
    assert forall|k: int| 1 <= k < 7 implies #[trigger] z[k] != '{' by {
        lemma_clear(z, '{', 1, 6, k);
    }
    assert forall|k: int| 0 <= k < 17 implies #[trigger] x[k] != '\n' by {
        lemma_clear(x, '\n', 0, 17, k);
    }
    assert forall|k: int| 0 <= k < 17 implies #[trigger] y[k] != '\n' by {
        lemma_clear(y, '\n', 0, 17, k);
    }
    assert forall|k: int| 0 <= k < 7 implies #[trigger] z[k] != '\n' by {
        lemma_clear(z, '\n', 0, 7, k);
    }
}

// ---- fences --------------------------------------------------------------------------------

/// Text that does not start with an opening fence, or does not end with a closing one, only loses its
/// outer white space.
pub proof fn other_text_is_only_trimmed(s: Seq<char>)
    requires
        ({
            let t = text::trim(s);
            ||| !"```json"@.is_prefix_of(t)
            ||| t.len() < 10
            ||| t.subrange(t.len() - 3, t.len() as int) != "```"@
        }),
    ensures
        llm_cli::unfenced(s) == text::trim(s),
{
    reveal_strlit("```json");
    reveal_strlit("```");
    let t = text::trim(s);
    if text::occurs(t, "```json"@, 0) {
        assert(t.subrange(0, 7) =~= "```json"@);
        let rest = t.skip(7);
        text::lemma_trim(s);
        assert("```json"@.is_prefix_of(t));
        if rest.len() > 0 {
            assert(rest.last() == t.last());
            text::lemma_trailing_unique(rest, 0);
        } else {
            text::lemma_trailing_unique(rest, 0);
        }
        assert(text::trim_end(rest) =~= rest);
        if text::occurs(rest, "```"@, rest.len() - 3) {
            assert(rest.subrange(rest.len() - 3, rest.len() as int) =~= t.subrange(
                t.len() - 3,
                t.len() as int,
            ));
        }
    }
}

// ---- answers -------------------------------------------------------------------------------

/// Whether a text spells "none", each letter in either case: capital letters stand 32 below the
/// small ones.
pub open spec fn spells_none(s: Seq<char>) -> bool {
    &&& s.len() == 4
    &&& s[0] == 'n' || s[0] as u32 == 'n' as u32 - 32
    &&& s[1] == 'o' || s[1] as u32 == 'o' as u32 - 32
    &&& s[2] == 'n' || s[2] as u32 == 'n' as u32 - 32
    &&& s[3] == 'e' || s[3] as u32 == 'e' as u32 - 32
}

/// A call that did not succeed is a failure that tells all of what it printed as errors. One that
/// did gives its trimmed output, unless that is empty or spells "none".
pub proof fn replies_are_told_apart(success: bool, stdout: Seq<char>, stderr: Seq<char>)
    ensures
        !success ==> llm_cli::reply(success, stdout, stderr) == Err::<
            Option<Seq<char>>,
            Seq<char>,
        >("llm extractor failed: "@ + stderr),
        success && (text::trim(stdout).len() == 0 || spells_none(text::trim(stdout)))
            ==> llm_cli::reply(success, stdout, stderr) == Ok::<Option<Seq<char>>, Seq<char>>(None),
        success && text::trim(stdout).len() > 0 && !spells_none(text::trim(stdout))
            ==> llm_cli::reply(success, stdout, stderr) == Ok::<Option<Seq<char>>, Seq<char>>(
            Some(text::trim(stdout)),
        ),
{
    let t = text::trim(stdout);
    reveal_strlit("none");
    let word = "none"@;
    text_laws::words_go_by_letters(t, word);
    if spells_none(t) {
        assert forall|k: int| 0 <= k < t.len() implies (#[trigger] t[k]) == word[k] || t[k] as u32
            + 32 == word[k] as u32 by {
            if k == 0 {
            } else if k == 1 {
            } else if k == 2 {
            }
        }
    }
    if text::same_word(t, word) {
        assert(t.len() == word.len());
        assert(word.len() == 4);
        assert(word[0] == 'n' && word[1] == 'o' && word[2] == 'n' && word[3] == 'e');
        assert(t[0] == word[0] || t[0] as u32 + 32 == word[0] as u32);
        assert(t[1] == word[1] || t[1] as u32 + 32 == word[1] as u32);
        assert(t[2] == word[2] || t[2] as u32 + 32 == word[2] as u32);
        assert(t[3] == word[3] || t[3] as u32 + 32 == word[3] as u32);
        assert(spells_none(t));
    }
}

/// There is an answer exactly where the CLI ended, succeeded, and printed more than white space and
/// "none": its trimmed output, and that without fences. Nothing of an attempt without an answer is
/// kept as output, and its detail tells the whole cause.
pub proof fn answers_are_judged_by_what_happened(
    outcome: RunOutcome,
    stdout: Seq<char>,
    stderr: Seq<char>,
)
    ensures
        ({
            let t = text::trim(stdout);
            let judged = llm_cli::judged(outcome, stdout, stderr);
            &&& judged is Ok <==> (outcome matches RunOutcome::Finished { success, .. } && success)
                && t.len() > 0 && !spells_none(t)
            &&& judged is Ok ==> judged->Ok_0 == (t, llm_cli::unfenced(t))
            &&& judged is Err ==> judged->Err_0.output == Seq::<char>::empty()
            &&& match outcome {
                RunOutcome::TimedOut(cause) => judged->Err_0.summary == "llm extractor timed out"@
                    && judged->Err_0.detail == "llm extractor timed out: "@ + cause@,
                RunOutcome::NotRun(cause) => judged->Err_0.summary
                    == "failed to run llm extractor"@ && judged->Err_0.detail
                    == "failed to run llm extractor: "@ + cause@,
                RunOutcome::Finished { success: false, .. } => judged->Err_0.summary
                    == "llm extractor failed: "@ + stderr && judged->Err_0.detail
                    == "llm extractor failed: "@ + stderr,
                RunOutcome::Finished { .. } => judged is Err ==> judged->Err_0.summary
                    == "llm returned empty or NONE response"@ && judged->Err_0.detail
                    == "llm returned empty or NONE response"@,
            }
        }),
{
    replies_are_told_apart(true, stdout, stderr);
    replies_are_told_apart(false, stdout, stderr);
}

/// An answer that is no JSON of the target is kept as it was printed, and what is wrong with it tells
/// the JSON and the whole cause.
pub proof fn unparseable_answers_are_shown(output: Seq<char>, json: Seq<char>, cause: Seq<char>)
    ensures
        llm_cli::unparseable(output, json, cause).output == output,
        llm_cli::unparseable(output, json, cause).summary == "failed to parse LLM JSON: "@ + json,
        llm_cli::unparseable(output, json, cause).detail == "failed to parse LLM JSON: "@ + json
            + ": "@ + cause,
{
}

/// The error of an extraction tells the first failure and what was printed then, and how the repair
/// failed, all in full.
pub proof fn verdicts_tell_both_failures(
    prompt: Seq<char>,
    max: int,
    first: Failure,
    second: Failure,
)
    ensures
        (Progress { prompt, max_text_len: max, first: None }).after(first).verdict(second)
            == "llm parse failed after one retry; first error: "@ + first.summary
            + "; first output: "@ + first.output + ": "@ + second.detail,
{
}

// ---- the command line ----------------------------------------------------------------------

/// The words of a command line are the command and its arguments; no words are no command and no
/// arguments.
pub proof fn command_lines_are_run_whole(words: Seq<Seq<char>>)
    ensures
        words.len() > 0 ==> seq![llm_cli::command(words)] + llm_cli::arguments(words) == words,
        words.len() == 0 ==> llm_cli::command(words) == Seq::<char>::empty() && llm_cli::arguments(
            words,
        ) == Seq::<Seq<char>>::empty(),
{
    if words.len() > 0 {
        assert(seq![words[0]] + words.drop_first() =~= words);
    }
}

// ---- what is called ------------------------------------------------------------------------

/// Whatever the first request and the first answer hold, the first request is shown whole before the
/// others are put in: the answer, as far as it fits, in the place of its placeholder, and then the
/// error.
pub proof fn repairs_are_put_together_in_turn(
    original: Seq<char>,
    previous: Seq<char>,
    error: Seq<char>,
    max: int,
) -> (r: (Seq<char>, Seq<char>, Seq<char>, Seq<char>))
    requires
        max >= 0,
    ensures
        ({
            let (a, b, c, d) = r;
            let shown = a + original + b + "{previous_output}"@ + c + "{error}"@ + d;
            &&& llm_cli::REPAIR_PROMPT@ == a + "{original_prompt}"@ + b + "{previous_output}"@ + c
                + "{error}"@ + d
            &&& llm_cli::repair(original, previous, error, max) == text::replaced(
                text::replaced(shown, "{previous_output}"@, llm_cli::shortened(previous, max)),
                "{error}"@,
                error,
            )
        }),
{
    let (a, b, c, d) = lemma_repair_parts();
    let x = llm_cli::PLACEHOLDER_ORIGINAL@;
    let y = llm_cli::PLACEHOLDER_PREVIOUS@;
    let z = llm_cli::PLACEHOLDER_ERROR@;
    lemma_placeholders();
    let none = Seq::<char>::empty();
    assert(d + none =~= d);
    let end = z + d;
    let from_c = c + end;
    let from_y = y + from_c;
    let from_b = b + from_y;
    assert(text::replaced(llm_cli::REPAIR_PROMPT@, x, original) == a + (original + from_b)) by {
        lemma_clean_part(a, x + from_b, x, original);
        text_laws::lemma_replaced_here(from_b, x, original);
        lemma_clean_part(b, from_y, x, original);
        lemma_other_placeholder(y, from_c, x, original);
        lemma_clean_part(c, end, x, original);
        lemma_other_placeholder(z, d, x, original);
        lemma_clean_part(d, none, x, original);
        assert(text::replaced(none, x, original) =~= none);
    }
    assert(a + original + b + y + c + z + d =~= a + (original + from_b));
    assert(a + x + b + y + c + z + d =~= a + (x + (b + (y + (c + (z + d))))));
    (a, b, c, d)
}

/// A repair prompt that is built shows the whole first request, the longest part of the first answer
/// that fits, and the whole error.
pub proof fn built_repairs_show_the_whole_request(
    original: &str,
    previous: &str,
    error: &str,
    max: usize,
    built: String,
) -> (r: (Seq<char>, Seq<char>, Seq<char>, Seq<char>, Seq<char>))
    requires
        call_ensures(llm_cli::build_repair_prompt, (original, previous, error, max), built),
        text_laws::absent(original@, "{previous_output}"@),
        text_laws::absent(original@, "{error}"@),
        text_laws::absent(previous@, "{error}"@),
    ensures
        ({
            let (a, b, c, d, kept) = r;
            &&& built@ == a + original@ + b + kept + c + error@ + d
            &&& kept.is_prefix_of(previous@)
            &&& text::byte_len(kept) <= max
            &&& forall|k: int|
                kept.len() < k <= previous@.len() ==> text::byte_len(#[trigger] previous@.take(k))
                    > max
        }),
{
    repairs_show_the_whole_request(original@, previous@, error@, max as int)
}

/// A truncated text is the longest prefix that fits.
pub proof fn truncated_texts_fit(given: &str, max: usize, kept: &str)
    requires
        call_ensures(llm_cli::truncate, (given, max), kept),
    ensures
        kept@.is_prefix_of(given@),
        text::byte_len(kept@) <= max,
        forall|k: int|
            kept@.len() < k <= given@.len() ==> text::byte_len(#[trigger] given@.take(k)) > max,
{
    truncation_is_maximal(given@, max as int);
}

/// An extractor runs the words of the command string and, behind them, the configured arguments, each
/// as it is; with the given context, and the shared limits.
pub proof fn extractors_run_the_whole_command<T: Extractable>(
    shared: &SharedLlm,
    context: String,
    words: Seq<Seq<char>>,
    r: LlmExtractor<T>,
)
    requires
        call_ensures(SharedLlm::extractor::<T>, (shared, context), r),
        llm_cli::shell_split(shared.bin@) == Some(words),
        words.len() > 0,
    ensures
        seq![r.bin@] + text::texts(r.args@) == words + text::texts(shared.args@),
        r.prompt_context@ == context@,
        r.max_text_len == shared.limits.max_text_len,
        r.timeout == shared.limits.call_timeout,
{
    command_lines_are_run_whole(words);
    let head = seq![llm_cli::command(words)];
    assert(head + (llm_cli::arguments(words) + text::texts(shared.args@)) =~= (head
        + llm_cli::arguments(words)) + text::texts(shared.args@));
}

/// A prompt is rendered from the schema, the longest part of the text that fits, and the context.
pub proof fn prompts_are_rendered_from_what_fits<T: Extractable>(
    extractor: LlmExtractor<T>,
    schema: Seq<char>,
    given: Seq<char>,
    r: Result<Seq<char>, Seq<char>>,
) -> (found: (&'static str, &'static str, &'static str, Result<String, Error>))
    requires
        extractor.renders(schema, given, r),
    ensures
        call_ensures(T::render_prompt, (found.0, found.1, found.2), found.3),
        r == error::outcome(found.3),
        found.0@ == schema,
        found.1@.is_prefix_of(given),
        text::byte_len(found.1@) <= extractor.max_text_len,
        forall|k: int|
            found.1@.len() < k <= given.len() ==> text::byte_len(#[trigger] given.take(k))
                > extractor.max_text_len,
        found.2@ == extractor.prompt_context@,
{
    let (a, b, c, x) = choose|a: &str, b: &str, c: &str, x: Result<String, Error>|
        a@ == schema && b@ == llm_cli::shortened(given, extractor.max_text_len as int) && c@
            == extractor.prompt_context@ && r == error::outcome(x) && #[trigger] call_ensures(
            T::render_prompt,
            (a, b, c),
            x,
        );
    truncation_is_maximal(given, extractor.max_text_len as int);
    (a, b, c, x)
}

} // verus!
