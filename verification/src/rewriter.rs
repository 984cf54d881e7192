//! The HTML rewriter: injects a style block hiding the selectors of a
//! cosmetic answer, and the answer's scriptlet, into a page.
//!
//! The injected style element carries a marker attribute; a page that
//! already carries the marker is left untouched, so rewriting is
//! idempotent and a page never collects a second style block.

use vstd::prelude::*;
use crate::blocker::CosmeticBlockerResult;
use crate::text::contains_chars;
use crate::text::contains_str;
use crate::text::find_str;
use crate::text::first_match_index;
use crate::text::is_match_at;
use crate::text::lemma_match_in_concat;

verus! {

/// The CSS rule hiding one selector.
pub open spec fn hide_rule(sel: Seq<char>) -> Seq<char> {
    sel + " { display: none !important }\n"@
}

/// The hiding rules for a list of selectors, in order.
pub open spec fn hide_rules(sels: Seq<String>) -> Seq<char>
    decreases sels.len(),
{
    if sels.len() == 0 {
        Seq::empty()
    } else {
        hide_rules(sels.drop_last()) + hide_rule(sels.last()@)
    }
}

/// The hiding rules for the keys of the style-selector pairs, in
/// order; the value lists are reserved and take no part.
pub open spec fn key_rules(pairs: Seq<(String, Vec<String>)>) -> Seq<char>
    decreases pairs.len(),
{
    if pairs.len() == 0 {
        Seq::empty()
    } else {
        key_rules(pairs.drop_last()) + hide_rule(pairs.last().0@)
    }
}

/// Everything the rewriter inserts: one marked style block hiding the
/// answer's selectors and the keys of its style selectors, then the
/// scriptlet when the answer carries one.
pub open spec fn injection_payload(c: CosmeticBlockerResult) -> Seq<char> {
    "<style data-privaxy-injected>"@ + hide_rules(c.hidden_selectors@) + key_rules(
        c.style_selectors@,
    ) + "</style>"@ + (match c.injected_script {
        Some(s) => "<script>"@ + s@ + "</script>"@,
        None => Seq::empty(),
    })
}

/// Where the payload goes: right after the first `<head>` tag, or at
/// the very start of a page without one.
pub open spec fn insertion_point(body: Seq<char>) -> int {
    if contains_chars(body, "<head>"@) {
        first_match_index(body, "<head>"@) + "<head>"@.len()
    } else {
        0
    }
}

/// The rewriter's output: the page unchanged when it already carries
/// the marker, else the page with the payload inserted.
pub open spec fn rewritten(body: Seq<char>, c: CosmeticBlockerResult) -> Seq<char> {
    if contains_chars(body, "data-privaxy-injected"@) {
        body
    } else {
        let p = insertion_point(body);
        body.subrange(0, p) + injection_payload(c) + body.subrange(p, body.len() as int)
    }
}

/// Builds the payload text of one cosmetic answer.
pub fn build_payload(cosmetic: &CosmeticBlockerResult) -> (r: String)
    ensures
        r@ == injection_payload(*cosmetic),
{
    let mut out: String = String::from_str("<style data-privaxy-injected>");
    let n: usize = cosmetic.hidden_selectors.len();
    let mut i: usize = 0;
    while i < n
        invariant
            n == cosmetic.hidden_selectors@.len(),
            0 <= i <= n,
            out@ == "<style data-privaxy-injected>"@ + hide_rules(
                cosmetic.hidden_selectors@.subrange(0, i as int),
            ),
        decreases n - i,
    {
        out.append(cosmetic.hidden_selectors[i].as_str());
        out.append(" { display: none !important }\n");
        proof {
            let pref = cosmetic.hidden_selectors@.subrange(0, i + 1);
            assert(pref.drop_last() =~= cosmetic.hidden_selectors@.subrange(0, i as int));
            assert(pref.last() == cosmetic.hidden_selectors@[i as int]);
        }
        i = i + 1;
    }
    proof {
        assert(cosmetic.hidden_selectors@.subrange(0, n as int) =~= cosmetic.hidden_selectors@);
    }
    let m: usize = cosmetic.style_selectors.len();
    let mut j: usize = 0;
    while j < m
        invariant
            m == cosmetic.style_selectors@.len(),
            0 <= j <= m,
            out@ == "<style data-privaxy-injected>"@ + hide_rules(cosmetic.hidden_selectors@)
                + key_rules(cosmetic.style_selectors@.subrange(0, j as int)),
        decreases m - j,
    {
        out.append(cosmetic.style_selectors[j].0.as_str());
        out.append(" { display: none !important }\n");
        proof {
            let pref = cosmetic.style_selectors@.subrange(0, j + 1);
            assert(pref.drop_last() =~= cosmetic.style_selectors@.subrange(0, j as int));
            assert(pref.last() == cosmetic.style_selectors@[j as int]);
        }
        j = j + 1;
    }
    proof {
        assert(cosmetic.style_selectors@.subrange(0, m as int) =~= cosmetic.style_selectors@);
    }
    out.append("</style>");
    match &cosmetic.injected_script {
        Some(script) => {
            out.append("<script>");
            out.append(script.as_str());
            out.append("</script>");
        },
        None => {},
    }
    out
}

/// Rewrites one page: inserts the marked style block (and scriptlet)
/// after `<head>`, or at the start of a page without one; a page that
/// already carries the marker comes back unchanged.
pub fn rewrite_html(body: &str, cosmetic: &CosmeticBlockerResult) -> (r: String)
    ensures
        r@ == rewritten(body@, *cosmetic),
{
    if contains_str(body, "data-privaxy-injected") {
        return body.to_owned();
    }
    let payload = build_payload(cosmetic);
    let n: usize = body.unicode_len();
    let pos: usize = match find_str(body, "<head>") {
        Some(i) => {
            proof {
                reveal_strlit("<head>");
            }
            i + 6
        },
        None => 0,
    };
    let pre = body.substring_char(0, pos);
    let post = body.substring_char(pos, n);
    let mut out: String = pre.to_owned();
    out.append(payload.as_str());
    out.append(post);
    out
}

/// The payload always carries the marker, seven characters in.
proof fn lemma_payload_marked(c: CosmeticBlockerResult)
    ensures
        is_match_at(injection_payload(c), "data-privaxy-injected"@, 7),
{
    reveal_strlit("<style data-privaxy-injected>");
    reveal_strlit("data-privaxy-injected");
    let open = "<style data-privaxy-injected>"@;
    let marker = "data-privaxy-injected"@;
    let pay = injection_payload(c);
    assert(open.subrange(7, 28) =~= marker);
    assert(pay.subrange(7, 28) =~= open.subrange(7, 28));
}

/// Rewriting is idempotent: running the rewriter on a page it already
/// rewrote changes nothing, so the page keeps one marked style block
/// and at most one injected script, however often it passes through.
pub proof fn lemma_rewrite_idempotent(body: Seq<char>, c: CosmeticBlockerResult)
    ensures
        rewritten(rewritten(body, c), c) == rewritten(body, c),
{
    let marker = "data-privaxy-injected"@;
    if !contains_chars(body, marker) {
        let p = insertion_point(body);
        let pre = body.subrange(0, p);
        let pay = injection_payload(c);
        let post = body.subrange(p, body.len() as int);
        let out = rewritten(body, c);
        assert(out == pre + pay + post);
        lemma_payload_marked(c);
        lemma_match_in_concat(pre, pay, post, marker, 7);
        assert(contains_chars(out, marker));
    }
}

} // verus!
