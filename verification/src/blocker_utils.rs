//! Resource descriptors assembled from the bundled uBlock assets.
//!
//! The readers that fill these types from the scriptlet and
//! redirect-resource manifests live here as well; they parse plain text
//! and never call out of the crate, except to name the base64 form of a
//! script body.

use vstd::prelude::*;
use vstd::utf8::encode_utf8;
use crate::text::find_str;
use crate::text::is_match_at;

verus! {

/// The whitespace characters the readers recognise: the ASCII set.
pub open spec fn is_space(c: char) -> bool {
    c == ' ' || c == '\t' || c == '\r' || c == '\n' || c == '\u{b}' || c == '\u{c}'
}

/// True when `s` begins with `p`.
pub open spec fn starts_with(s: Seq<char>, p: Seq<char>) -> bool {
    is_match_at(s, p, 0)
}

/// `l` without one trailing carriage return.
pub open spec fn strip_cr(l: Seq<char>) -> Seq<char> {
    if l.len() > 0 && l.last() == '\r' {
        l.drop_last()
    } else {
        l
    }
}

/// The lines finished and the line in progress after reading `i`
/// characters of `s`, splitting at newlines and stripping one carriage
/// return before each.
pub open spec fn lines_state(s: Seq<char>, i: int) -> (Seq<Seq<char>>, Seq<char>)
    decreases i,
{
    if i <= 0 {
        (Seq::empty(), Seq::empty())
    } else {
        let prev = lines_state(s, i - 1);
        if s[i - 1] == '\n' {
            (prev.0.push(strip_cr(prev.1)), Seq::empty())
        } else {
            (prev.0, prev.1.push(s[i - 1]))
        }
    }
}

/// The lines of `s`, as `str::lines` splits them: separated by
/// newlines, one carriage return stripped before each newline, and no
/// empty line after a trailing newline.
pub open spec fn lines_of(s: Seq<char>) -> Seq<Seq<char>> {
    let full = lines_state(s, s.len() as int);
    if full.1.len() > 0 {
        full.0.push(full.1)
    } else {
        full.0
    }
}

/// Relies on std's `String::push`: appends one character.
#[verifier::external_body]
fn push_char(s: &mut String, c: char)
    ensures
        final(s)@ == old(s)@.push(c),
{
    s.push(c);
}

/// Splits a text into its lines.
pub fn split_lines(s: &str) -> (r: Vec<String>)
    ensures
        r@.map_values(|l: String| l@) == lines_of(s@),
{
    let n: usize = s.unicode_len();
    let mut done: Vec<String> = Vec::new();
    let mut current: String = String::new();
    let mut i: usize = 0;
    while i < n
        invariant
            n == s@.len(),
            0 <= i <= n,
            done@.map_values(|l: String| l@) == lines_state(s@, i as int).0,
            current@ == lines_state(s@, i as int).1,
        decreases n - i,
    {
        let c = s.get_char(i);
        if c == '\n' {
            let mut finished: String = String::new();
            core::mem::swap(&mut finished, &mut current);
            let line: String = if finished.as_str().unicode_len() > 0 {
                let m: usize = finished.as_str().unicode_len();
                if finished.as_str().get_char(m - 1) == '\r' {
                    finished.as_str().substring_char(0, m - 1).to_owned()
                } else {
                    finished
                }
            } else {
                finished
            };
            proof {
                assert(line@ == strip_cr(lines_state(s@, i as int).1));
            }
            done.push(line);
            proof {
                assert(done@.map_values(|l: String| l@) =~= lines_state(s@, i + 1).0);
            }
        } else {
            push_char(&mut current, c);
        }
        i = i + 1;
    }
    if current.as_str().unicode_len() > 0 {
        done.push(current);
        proof {
            assert(done@.map_values(|l: String| l@) =~= lines_of(s@));
        }
    } else {
        proof {
            assert(done@.map_values(|l: String| l@) =~= lines_of(s@));
        }
    }
    done
}

/// `s` without its leading whitespace.
pub open spec fn trim_front(s: Seq<char>) -> Seq<char>
    decreases s.len(),
{
    if s.len() > 0 && is_space(s[0]) {
        trim_front(s.subrange(1, s.len() as int))
    } else {
        s
    }
}

/// `s` without its trailing whitespace.
pub open spec fn trim_back(s: Seq<char>) -> Seq<char>
    decreases s.len(),
{
    if s.len() > 0 && is_space(s.last()) {
        trim_back(s.drop_last())
    } else {
        s
    }
}

/// `s` without leading and trailing whitespace.
pub open spec fn trimmed(s: Seq<char>) -> Seq<char> {
    trim_back(trim_front(s))
}

/// Dropping leading spaces one at a time reaches `trim_front`.
proof fn lemma_trim_front_step(s: Seq<char>, i: int)
    requires
        0 <= i <= s.len(),
        forall|j: int| 0 <= j < i ==> is_space(#[trigger] s[j]),
    ensures
        trim_front(s) == trim_front(s.subrange(i, s.len() as int)),
    decreases i,
{
    if i > 0 {
        assert(is_space(s[0]));
        let tail = s.subrange(1, s.len() as int);
        assert(forall|j: int| 0 <= j < i - 1 ==> #[trigger] tail[j] == s[j + 1]);
        assert(forall|j: int| 0 <= j < i - 1 ==> is_space(#[trigger] tail[j]));
        assert(tail.subrange(i - 1, s.len() - 1) =~= s.subrange(i, s.len() as int));
        lemma_trim_front_step(tail, i - 1);
    } else {
        assert(s.subrange(0, s.len() as int) =~= s);
    }
}

/// Dropping trailing spaces one at a time reaches `trim_back`.
proof fn lemma_trim_back_step(s: Seq<char>, e: int)
    requires
        0 <= e <= s.len(),
        forall|j: int| e <= j < s.len() ==> is_space(#[trigger] s[j]),
    ensures
        trim_back(s) == trim_back(s.subrange(0, e)),
    decreases s.len() - e,
{
    if e < s.len() {
        assert(is_space(s[s.len() - 1]));
        assert(is_space(s.last()));
        let front = s.subrange(0, s.len() - 1);
        assert(s.drop_last() =~= front);
        assert(forall|j: int| e <= j < front.len() ==> #[trigger] front[j] == s[j]);
        assert(forall|j: int| e <= j < front.len() ==> is_space(#[trigger] front[j]));
        lemma_trim_back_step(front, e);
        assert(front.subrange(0, e) =~= s.subrange(0, e));
    } else {
        assert(s.subrange(0, e) =~= s);
    }
}

/// Whether this character is recognised whitespace.
fn is_space_char(c: char) -> (r: bool)
    ensures
        r == is_space(c),
{
    c == ' ' || c == '\t' || c == '\r' || c == '\n' || c == '\u{b}' || c == '\u{c}'
}

/// Strips leading and trailing whitespace.
pub fn trim_str(s: &str) -> (r: String)
    ensures
        r@ == trimmed(s@),
{
    let n: usize = s.unicode_len();
    let mut start: usize = 0;
    while start < n && is_space_char(s.get_char(start))
        invariant
            n == s@.len(),
            0 <= start <= n,
            forall|j: int| 0 <= j < start ==> is_space(#[trigger] s@[j]),
        decreases n - start,
    {
        start = start + 1;
    }
    proof {
        lemma_trim_front_step(s@, start as int);
        if start < n {
            assert(s@.subrange(start as int, n as int)[0] == s@[start as int]);
        }
        assert(trim_front(s@) == s@.subrange(start as int, n as int));
    }
    let mut end: usize = n;
    while end > start && is_space_char(s.get_char(end - 1))
        invariant
            n == s@.len(),
            0 <= start <= end <= n,
            forall|j: int| end <= j < n ==> is_space(#[trigger] s@[j]),
        decreases end,
    {
        end = end - 1;
    }
    proof {
        let front = s@.subrange(start as int, n as int);
        assert(forall|j: int|
            end - start <= j < front.len() ==> is_space(#[trigger] front[j]));
        lemma_trim_back_step(front, end - start);
        if end > start {
            assert(front.subrange(0, end - start).last() == s@[end - 1]);
        }
        assert(trim_back(front.subrange(0, end - start)) == front.subrange(0, end - start));
        assert(front.subrange(0, end - start) =~= s@.subrange(start as int, end as int));
    }
    s.substring_char(start, end).to_owned()
}

/// The first whitespace-separated token of `s` and what follows it:
/// the token runs from the first non-space to the next space.
pub open spec fn first_token(s: Seq<char>) -> Option<(Seq<char>, Seq<char>)> {
    if trim_front(s).len() == 0 {
        None
    } else {
        let rest = trim_front(s);
        if exists|j: int| 0 <= j < rest.len() && is_space(#[trigger] rest[j]) {
            let j = choose|j: int|
                0 <= j < rest.len() && is_space(#[trigger] rest[j]) && forall|t: int|
                    0 <= t < j ==> !is_space(#[trigger] rest[t]);
            Some((rest.subrange(0, j), rest.subrange(j, rest.len() as int)))
        } else {
            Some((rest, Seq::empty()))
        }
    }
}

/// Reads the first whitespace-separated token and returns it with the
/// remainder of the text.
pub fn take_token(s: &str) -> (r: Option<(String, String)>)
    ensures
        match r {
            Some((tok, rest)) => first_token(s@) == Some((tok@, rest@)),
            None => first_token(s@) is None,
        },
{
    let n: usize = s.unicode_len();
    let mut start: usize = 0;
    while start < n && is_space_char(s.get_char(start))
        invariant
            n == s@.len(),
            0 <= start <= n,
            forall|j: int| 0 <= j < start ==> is_space(#[trigger] s@[j]),
        decreases n - start,
    {
        start = start + 1;
    }
    proof {
        lemma_trim_front_step(s@, start as int);
        if start < n {
            assert(s@.subrange(start as int, n as int)[0] == s@[start as int]);
        }
        assert(trim_front(s@) == s@.subrange(start as int, n as int));
    }
    if start == n {
        return None;
    }
    let mut end: usize = start;
    while end < n && !is_space_char(s.get_char(end))
        invariant
            n == s@.len(),
            0 <= start <= end <= n,
            forall|j: int| start <= j < end ==> !is_space(#[trigger] s@[j]),
        decreases n - end,
    {
        end = end + 1;
    }
    let tok = s.substring_char(start, end).to_owned();
    let rest = s.substring_char(end, n).to_owned();
    proof {
        let restseq = s@.subrange(start as int, n as int);
        if end < n {
            assert(restseq[end - start] == s@[end as int]);
            assert(is_space(restseq[end - start]));
            assert(forall|t: int|
                0 <= t < end - start ==> !is_space(#[trigger] restseq[t]));
            let j = choose|j: int|
                0 <= j < restseq.len() && is_space(#[trigger] restseq[j]) && forall|t: int|
                    0 <= t < j ==> !is_space(#[trigger] restseq[t]);
            assert(j == end - start);
            assert(tok@ =~= restseq.subrange(0, j));
            assert(rest@ =~= restseq.subrange(j, restseq.len() as int));
        } else {
            assert(forall|j: int|
                0 <= j < restseq.len() ==> !is_space(#[trigger] restseq[j]));
            assert(tok@ =~= restseq);
            assert(rest@ =~= Seq::<char>::empty());
        }
    }
    Some((tok, rest))
}

/// Strips leading whitespace.
pub fn trim_start_str(s: &str) -> (r: String)
    ensures
        r@ == trim_front(s@),
{
    let n: usize = s.unicode_len();
    let mut start: usize = 0;
    while start < n && is_space_char(s.get_char(start))
        invariant
            n == s@.len(),
            0 <= start <= n,
            forall|j: int| 0 <= j < start ==> is_space(#[trigger] s@[j]),
        decreases n - start,
    {
        start = start + 1;
    }
    proof {
        lemma_trim_front_step(s@, start as int);
        if start < n {
            assert(s@.subrange(start as int, n as int)[0] == s@[start as int]);
        }
        assert(trim_front(s@) == s@.subrange(start as int, n as int));
    }
    s.substring_char(start, n).to_owned()
}

/// Where the leading block comment's closing `*/` begins (the position
/// of the newline before it); meaningful when one exists at position
/// three or later.
pub open spec fn comment_end(s: Seq<char>) -> int {
    choose|i: int|
        i >= 3 && is_match_at(s, "\n*/"@, i) && (forall|j: int|
            3 <= j < i ==> !is_match_at(s, "\n*/"@, j))
}

/// The manifest without its leading block comment: a text opening with
/// `/*` loses everything through the first `*/` that ends a line begun
/// at least one character into the comment, and the whitespace after
/// it.
pub open spec fn strip_top_comment(s: Seq<char>) -> Seq<char> {
    if starts_with(s, "/*"@) && (exists|i: int| i >= 3 && is_match_at(s, "\n*/"@, i)) {
        trim_front(s.subrange(comment_end(s) + 3, s.len() as int))
    } else {
        s
    }
}

/// Strips the leading block comment, if any.
pub fn strip_top_comment_str(s: &str) -> (r: String)
    ensures
        r@ == strip_top_comment(s@),
{
    if !crate::text::starts_with_str(s, "/*") {
        return s.to_owned();
    }
    let n: usize = s.unicode_len();
    if n < 3 {
        proof {
            assert forall|i: int| !(i >= 3 && is_match_at(s@, "\n*/"@, i)) by {
                reveal_strlit("\n*/");
            }
        }
        return s.to_owned();
    }
    let tail_text = s.substring_char(3, n);
    proof {
        reveal_strlit("\n*/");
    }
    match find_str(tail_text, "\n*/") {
        Some(i0) => {
            let i: usize = i0 + 3;
            proof {
                let pat = "\n*/"@;
                let tail = s@.subrange(3, n as int);
                assert(s@.subrange(i as int, i + pat.len()) =~= tail.subrange(
                    i0 as int,
                    i0 + pat.len(),
                ));
                assert(is_match_at(s@, pat, i as int));
                assert forall|j: int| 3 <= j < i implies !is_match_at(s@, pat, j) by {
                    if is_match_at(s@, pat, j) {
                        assert(tail.subrange(j - 3, j - 3 + pat.len()) =~= s@.subrange(
                            j,
                            j + pat.len(),
                        ));
                        assert(is_match_at(tail, pat, j - 3));
                    }
                }
                assert(comment_end(s@) == i as int);
            }
            let rest = s.substring_char(i + 3, n);
            let r = trim_start_str(rest);
            r
        },
        None => {
            proof {
                let pat = "\n*/"@;
                let tail = s@.subrange(3, n as int);
                assert forall|i: int| !(i >= 3 && is_match_at(s@, pat, i)) by {
                    if i >= 3 && is_match_at(s@, pat, i) {
                        assert(tail.subrange(i - 3, i - 3 + pat.len()) =~= s@.subrange(
                            i,
                            i + pat.len(),
                        ));
                        assert(is_match_at(tail, pat, i - 3));
                    }
                }
            }
            s.to_owned()
        },
    }
}

/// One parsed scriptlet, as the reader's contracts see it.
pub ghost struct ScriptletRes {
    pub name: Seq<char>,
    pub aliases: Seq<Seq<char>>,
    pub template: bool,
    pub content: Seq<char>,
}

/// The reader's state after some lines: the scriptlet being gathered
/// and the scriptlets finished.
pub ghost struct ScriptletAcc {
    pub name: Option<Seq<char>>,
    pub aliases: Seq<Seq<char>>,
    pub script: Seq<char>,
    pub out: Seq<ScriptletRes>,
    pub failed: bool,
}

/// The reader's starting state.
pub open spec fn scriptlet_init() -> ScriptletAcc {
    ScriptletAcc {
        name: None,
        aliases: Seq::empty(),
        script: Seq::empty(),
        out: Seq::empty(),
        failed: false,
    }
}

/// True of a line the reader skips outright.
pub open spec fn line_is_comment(l: Seq<char>) -> bool {
    starts_with(l, "#"@) || starts_with(l, "// "@) || l == "//"@
}

/// True of a line with any non-whitespace character.
pub open spec fn line_nonempty(l: Seq<char>) -> bool {
    exists|j: int| 0 <= j < l.len() && !is_space(#[trigger] l[j])
}

/// Finishes the scriptlet being gathered: it is a template when its
/// body mentions `{{1}}`, its content is the base64 form of the body.
pub open spec fn scriptlet_flush(acc: ScriptletAcc) -> ScriptletAcc {
    ScriptletAcc {
        name: None,
        aliases: Seq::empty(),
        script: Seq::empty(),
        out: acc.out.push(
            ScriptletRes {
                name: acc.name.unwrap(),
                aliases: acc.aliases,
                template: crate::text::contains_chars(acc.script, "{{1}}"@),
                content: base64_of(encode_utf8(acc.script)),
            },
        ),
        failed: false,
    }
}

/// One line of the scriptlets manifest: comments are skipped; `/// `
/// opens a scriptlet with its name, then carries `key value` details
/// (of which `alias` values are kept, and a detail without two tokens
/// is a parse error); other non-blank lines extend the body; a blank
/// line finishes the scriptlet.
pub open spec fn scriptlet_step(acc: ScriptletAcc, l: Seq<char>) -> ScriptletAcc {
    if acc.failed {
        acc
    } else if line_is_comment(l) {
        acc
    } else if acc.name is None {
        if starts_with(l, "/// "@) {
            ScriptletAcc { name: Some(trimmed(l.subrange(4, l.len() as int))), ..acc }
        } else {
            acc
        }
    } else if starts_with(l, "/// "@) {
        let detail = l.subrange(4, l.len() as int);
        match first_token(detail) {
            None => ScriptletAcc { failed: true, ..acc },
            Some((prop, rest1)) => match first_token(rest1) {
                None => ScriptletAcc { failed: true, ..acc },
                Some((value, _)) => if prop == "alias"@ {
                    ScriptletAcc { aliases: acc.aliases.push(value), ..acc }
                } else {
                    acc
                },
            },
        }
    } else if line_nonempty(l) {
        ScriptletAcc { script: acc.script + trimmed(l) + "\n"@, ..acc }
    } else {
        scriptlet_flush(acc)
    }
}

/// The reader's state after all the given lines.
pub open spec fn scriptlet_fold(lines: Seq<Seq<char>>) -> ScriptletAcc
    decreases lines.len(),
{
    if lines.len() == 0 {
        scriptlet_init()
    } else {
        scriptlet_step(scriptlet_fold(lines.drop_last()), lines.last())
    }
}

/// What the scriptlets manifest holds: the scriptlets finished by the
/// reader's state machine, or nothing on a malformed detail line.
pub open spec fn scriptlet_resources(input: Seq<char>) -> Option<Seq<ScriptletRes>> {
    let acc = scriptlet_fold(lines_of(strip_top_comment(input)));
    if acc.failed {
        None
    } else {
        Some(acc.out)
    }
}

/// True when one built resource carries what one parsed scriptlet
/// holds.
pub open spec fn resource_matches(r: Resource, m: ScriptletRes) -> bool {
    &&& r.name@ == m.name
    &&& r.aliases@.map_values(|a: String| a@) == m.aliases
    &&& (match r.kind {
        ResourceKind::Template => m.template,
        ResourceKind::Mime(mime) => !m.template && mime@ == "application/javascript"@,
    })
    &&& r.content@ == m.content
    &&& r.dependencies@.len() == 0
    &&& r.permission == 0
}

/// True when the built resources carry exactly the parsed scriptlets.
pub open spec fn resources_match(v: Seq<Resource>, out: Seq<ScriptletRes>) -> bool {
    v.len() == out.len() && forall|i: int|
        0 <= i < v.len() ==> resource_matches(#[trigger] v[i], out[i])
}

/// A parse failure never heals: once the reader's state is failed, it
/// stays failed through every further line.
proof fn lemma_scriptlet_failed_sticks(lines: Seq<Seq<char>>, i: int)
    requires
        0 <= i <= lines.len(),
        scriptlet_fold(lines.take(i)).failed,
    ensures
        scriptlet_fold(lines).failed,
    decreases lines.len() - i,
{
    if i < lines.len() {
        assert(lines.take(i + 1).drop_last() =~= lines.take(i));
        assert(lines.take(i + 1).last() == lines[i]);
        lemma_scriptlet_failed_sticks(lines, i + 1);
    } else {
        assert(lines.take(i) =~= lines);
    }
}

/// Whether the reader skips this line outright.
fn line_is_comment_str(l: &str) -> (r: bool)
    ensures
        r == line_is_comment(l@),
{
    if crate::text::starts_with_str(l, "#") {
        return true;
    }
    if crate::text::starts_with_str(l, "// ") {
        return true;
    }
    let is_bare = crate::text::starts_with_str(l, "//") && l.unicode_len() == 2;
    proof {
        reveal_strlit("//");
        if is_bare {
            assert(l@.subrange(0, 2) =~= l@);
        }
        if l@ == "//"@ {
            assert(l@.subrange(0, 2) =~= "//"@);
        }
    }
    is_bare
}

/// Whether this line has any non-whitespace character.
fn line_has_content(l: &str) -> (r: bool)
    ensures
        r == line_nonempty(l@),
{
    let n: usize = l.unicode_len();
    let mut i: usize = 0;
    while i < n
        invariant
            n == l@.len(),
            0 <= i <= n,
            forall|j: int| 0 <= j < i ==> is_space(#[trigger] l@[j]),
        decreases n - i,
    {
        if !is_space_char(l.get_char(i)) {
            return true;
        }
        i = i + 1;
    }
    false
}

/// Reads the scriptlets manifest: after the top comment, each
/// scriptlet is introduced by `/// name`, detail lines add aliases,
/// body lines accumulate the script, and a blank line finishes it.
/// Returns nothing when a detail line lacks its two tokens.
pub fn read_template_resources(scriptlets_data: &str) -> (r: Option<Vec<Resource>>)
    ensures
        match scriptlet_resources(scriptlets_data@) {
            Some(out) => r is Some && resources_match(r.unwrap()@, out),
            None => r is None,
        },
{
    let stripped = strip_top_comment_str(scriptlets_data);
    let lines = split_lines(stripped.as_str());
    let ghost lv = lines@.map_values(|l: String| l@);
    proof {
        assert(lv == lines_of(strip_top_comment(scriptlets_data@)));
    }
    let mut name: Option<String> = None;
    let mut aliases: Vec<String> = Vec::new();
    let mut script: String = String::new();
    let mut out: Vec<Resource> = Vec::new();
    let n: usize = lines.len();
    let mut i: usize = 0;
    while i < n
        invariant
            n == lines@.len(),
            lv == lines@.map_values(|l: String| l@),
            lv == lines_of(strip_top_comment(scriptlets_data@)),
            0 <= i <= n,
            !scriptlet_fold(lv.take(i as int)).failed,
            (match name {
                Some(s) => scriptlet_fold(lv.take(i as int)).name == Some(s@),
                None => scriptlet_fold(lv.take(i as int)).name is None,
            }),
            aliases@.map_values(|a: String| a@) == scriptlet_fold(lv.take(i as int)).aliases,
            script@ == scriptlet_fold(lv.take(i as int)).script,
            resources_match(out@, scriptlet_fold(lv.take(i as int)).out),
        decreases n - i,
    {
        let ghost acc = scriptlet_fold(lv.take(i as int));
        proof {
            assert(lv.take(i + 1).drop_last() =~= lv.take(i as int));
            assert(lv.take(i + 1).last() == lv[i as int]);
            assert(scriptlet_fold(lv.take(i + 1)) == scriptlet_step(acc, lv[i as int]));
        }
        let l = lines[i].as_str();
        proof {
            assert(l@ == lv[i as int]);
        }
        if line_is_comment_str(l) {
        } else if name.is_none() {
            if crate::text::starts_with_str(l, "/// ") {
                proof {
                    reveal_strlit("/// ");
                }
                let m: usize = l.unicode_len();
                let tail_part = l.substring_char(4, m);
                name = Some(trim_str(tail_part));
            }
        } else if crate::text::starts_with_str(l, "/// ") {
            proof {
                reveal_strlit("/// ");
            }
            let m: usize = l.unicode_len();
            let detail = l.substring_char(4, m);
            match take_token(detail) {
                None => {
                    proof {
                        assert(scriptlet_fold(lv.take(i + 1)).failed);
                        lemma_scriptlet_failed_sticks(lv, i + 1);
                    }
                    return None;
                },
                Some((prop, rest1)) => {
                    match take_token(rest1.as_str()) {
                        None => {
                            proof {
                                assert(scriptlet_fold(lv.take(i + 1)).failed);
                                lemma_scriptlet_failed_sticks(lv, i + 1);
                            }
                            return None;
                        },
                        Some((value, _rest2)) => {
                            let alias_word: String = String::from_str("alias");
                            if prop == alias_word {
                                aliases.push(value);
                                proof {
                                    assert(aliases@.map_values(|a: String| a@) =~= acc.aliases.push(
                                        value@,
                                    ));
                                }
                            }
                        },
                    }
                },
            }
        } else if line_has_content(l) {
            let body_line = trim_str(l);
            script.append(body_line.as_str());
            script.append("\n");
        } else {
            let mut taken: Option<String> = None;
            core::mem::swap(&mut taken, &mut name);
            let resource_name: String = match taken {
                Some(s) => s,
                None => {
                    proof {
                        assert(false);
                    }
                    String::new()
                },
            };
            let mut taken_aliases: Vec<String> = Vec::new();
            core::mem::swap(&mut taken_aliases, &mut aliases);
            let mut taken_script: String = String::new();
            core::mem::swap(&mut taken_script, &mut script);
            let content_bytes = taken_script.as_str().as_bytes_vec();
            let content = base64_encode(&content_bytes);
            let template = crate::text::contains_str(taken_script.as_str(), "{{1}}");
            let kind: ResourceKind = if template {
                ResourceKind::Template
            } else {
                ResourceKind::Mime(String::from_str("application/javascript"))
            };
            let res = Resource {
                name: resource_name,
                aliases: taken_aliases,
                kind,
                content,
                dependencies: Vec::new(),
                permission: 0,
            };
            out.push(res);
            proof {
                assert(resources_match(out@, scriptlet_flush(acc).out));
            }
        }
        i = i + 1;
    }
    proof {
        assert(lv.take(n as int) =~= lv);
    }
    Some(out)
}

/// A name for what the base64 crate's standard-alphabet encoder
/// returns for a byte sequence.
pub uninterp spec fn base64_of(bytes: Seq<u8>) -> Seq<char>;

/// Relies on the base64 crate's `STANDARD.encode`: the standard
/// alphabet with padding, four output characters for every three input
/// bytes; empty input encodes to empty output.
#[verifier::external_body]
pub fn base64_encode(bytes: &Vec<u8>) -> (r: String)
    ensures
        r@ == base64_of(bytes@),
        bytes@.len() == 0 ==> r@.len() == 0,
        r@.len() == 4 * ((bytes@.len() + 2) / 3),
{
    base64::Engine::encode(&base64::engine::general_purpose::STANDARD, bytes)
}

/// How a resource's content is to be interpreted.
pub enum ResourceKind {
    /// A templatable scriptlet (its body contains `{{1}}`).
    Template,
    /// A plain resource with the given MIME type.
    Mime(String),
}

/// One scriptlet or redirect resource, with its content base64-encoded.
pub struct Resource {
    pub name: String,
    pub aliases: Vec<String>,
    pub kind: ResourceKind,
    pub content: String,
    pub dependencies: Vec<String>,
    pub permission: u8,
}

/// One entry of the redirect-resource map: the resource's file name,
/// its aliases, and the optional `data` marker.
pub struct ResourceProperties {
    pub name: String,
    pub alias: Vec<String>,
    pub data: Option<String>,
}

/// The `alias` field of a resource's properties: a single name or a
/// list of names.
pub enum ResourceAliasField {
    SingleString(String),
    ListOfStrings(Vec<String>),
}

impl ResourceAliasField {
    /// The aliases as a list; a single name becomes a one-element list.
    pub fn into_vec(self) -> (r: Vec<String>)
        ensures
            r@ == (match self {
                ResourceAliasField::SingleString(s) => seq![s],
                ResourceAliasField::ListOfStrings(l) => l@,
            }),
    {
        match self {
            ResourceAliasField::SingleString(s) => {
                let mut v: Vec<String> = Vec::new();
                v.push(s);
                v
            },
            ResourceAliasField::ListOfStrings(l) => l,
        }
    }
}

/// True when the path has an extension separator.
pub open spec fn has_dot(p: Seq<char>) -> bool {
    exists|i: int| 0 <= i < p.len() && p[i] == '.'
}

/// The position of the last dot of the path; meaningful when
/// `has_dot(p)` holds.
pub open spec fn last_dot(p: Seq<char>) -> int {
    choose|i: int|
        0 <= i < p.len() && p[i] == '.' && (forall|j: int| i < j < p.len() ==> p[j] != '.')
}

/// The MIME type a resource path's extension names, defaulting to the
/// opaque byte stream.
pub open spec fn mime_of_path(p: Seq<char>) -> Seq<char> {
    if !has_dot(p) {
        "application/octet-stream"@
    } else {
        let e = p.subrange(last_dot(p) + 1, p.len() as int);
        if e == "css"@ {
            "text/css"@
        } else if e == "gif"@ {
            "image/gif"@
        } else if e == "html"@ {
            "text/html"@
        } else if e == "js"@ {
            "application/javascript"@
        } else if e == "json"@ {
            "application/json"@
        } else if e == "mp3"@ {
            "audio/mp3"@
        } else if e == "mp4"@ {
            "video/mp4"@
        } else if e == "png"@ {
            "image/png"@
        } else if e == "txt"@ {
            "text/plain"@
        } else if e == "xml"@ {
            "text/xml"@
        } else {
            "application/octet-stream"@
        }
    }
}

/// Infers a resource's MIME type from the extension of its path, as
/// the adblock crate's own table does.
pub fn mime_from_path_extension(path: &str) -> (r: String)
    ensures
        r@ == mime_of_path(path@),
{
    let n: usize = path.unicode_len();
    let mut i: usize = n;
    while i > 0
        invariant
            n == path@.len(),
            0 <= i <= n,
            forall|j: int| i <= j < n ==> path@[j] != '.',
        decreases i,
    {
        if path.get_char(i - 1) == '.' {
            proof {
                assert(path@[i - 1] == '.');
                assert(last_dot(path@) == i - 1);
            }
            let ext = path.substring_char(i, n);
            let e: String = ext.to_owned();
            let r: String = if e == String::from_str("css") {
                String::from_str("text/css")
            } else if e == String::from_str("gif") {
                String::from_str("image/gif")
            } else if e == String::from_str("html") {
                String::from_str("text/html")
            } else if e == String::from_str("js") {
                String::from_str("application/javascript")
            } else if e == String::from_str("json") {
                String::from_str("application/json")
            } else if e == String::from_str("mp3") {
                String::from_str("audio/mp3")
            } else if e == String::from_str("mp4") {
                String::from_str("video/mp4")
            } else if e == String::from_str("png") {
                String::from_str("image/png")
            } else if e == String::from_str("txt") {
                String::from_str("text/plain")
            } else if e == String::from_str("xml") {
                String::from_str("text/xml")
            } else {
                String::from_str("application/octet-stream")
            };
            return r;
        }
        i = i - 1;
    }
    String::from_str("application/octet-stream")
}

/// Relies on std's `str::from_utf8`: it accepts exactly the valid
/// UTF-8 byte sequences.
#[verifier::external_body]
pub fn utf8_ok(v: &Vec<u8>) -> (r: bool)
    ensures
        r == vstd::utf8::valid_utf8(v@),
{
    std::str::from_utf8(v.as_slice()).is_ok()
}

/// `s` without its carriage-return bytes.
pub open spec fn strip_cr_bytes(s: Seq<u8>) -> Seq<u8>
    decreases s.len(),
{
    if s.len() == 0 {
        Seq::empty()
    } else if s.last() == 13 {
        strip_cr_bytes(s.drop_last())
    } else {
        strip_cr_bytes(s.drop_last()).push(s.last())
    }
}

/// True when this MIME type's content is treated as text: carriage
/// returns are stripped before encoding.
pub open spec fn mime_is_textual(m: Seq<char>) -> bool {
    m == "application/javascript"@ || m == "text/html"@ || m == "text/plain"@
}

/// Builds one redirect resource from a file's bytes and its mapping
/// entry. A text resource (by its extension's MIME type) must be valid
/// UTF-8 and loses its carriage returns before base64 encoding; any
/// other resource is encoded as-is.
pub fn build_resource_from_file_contents(
    resource_contents: &Vec<u8>,
    resource_info: &ResourceProperties,
) -> (r: Option<Resource>)
    ensures
        ({
            let mime = mime_of_path(resource_info.name@);
            if mime_is_textual(mime) && !vstd::utf8::valid_utf8(resource_contents@) {
                r is None
            } else {
                &&& r is Some
                &&& r.unwrap().name@ == resource_info.name@
                &&& r.unwrap().aliases@.map_values(|a: String| a@)
                    == resource_info.alias@.map_values(|a: String| a@)
                &&& (r.unwrap().kind matches ResourceKind::Mime(m) && m@ == mime)
                &&& r.unwrap().content@ == (if mime_is_textual(mime) {
                    base64_of(strip_cr_bytes(resource_contents@))
                } else {
                    base64_of(resource_contents@)
                })
                &&& r.unwrap().dependencies@.len() == 0
                &&& r.unwrap().permission == 0
            }
        }),
{
    let name: String = resource_info.name.clone();
    let mut aliases: Vec<String> = Vec::new();
    let an: usize = resource_info.alias.len();
    let mut ai: usize = 0;
    while ai < an
        invariant
            an == resource_info.alias@.len(),
            0 <= ai <= an,
            aliases@.len() == ai,
            forall|j: int| 0 <= j < ai ==> #[trigger] aliases@[j]@ == resource_info.alias@[j]@,
        decreases an - ai,
    {
        aliases.push(resource_info.alias[ai].clone());
        ai = ai + 1;
    }
    proof {
        let lhs = aliases@.map_values(|a: String| a@);
        let rhs = resource_info.alias@.map_values(|a: String| a@);
        assert(forall|j: int| 0 <= j < an ==> #[trigger] lhs[j] == rhs[j]);
        assert(lhs =~= rhs);
    }
    let mimetype = mime_from_path_extension(resource_info.name.as_str());
    let textual = mimetype == String::from_str("application/javascript") || mimetype
        == String::from_str("text/html") || mimetype == String::from_str("text/plain");
    let content: String = if textual {
        if !utf8_ok(resource_contents) {
            return None;
        }
        let m: usize = resource_contents.len();
        let mut stripped: Vec<u8> = Vec::new();
        let mut bi: usize = 0;
        while bi < m
            invariant
                m == resource_contents@.len(),
                0 <= bi <= m,
                stripped@ == strip_cr_bytes(resource_contents@.subrange(0, bi as int)),
            decreases m - bi,
        {
            let b: u8 = resource_contents[bi];
            proof {
                let pref = resource_contents@.subrange(0, bi + 1);
                assert(pref.drop_last() =~= resource_contents@.subrange(0, bi as int));
                assert(pref.last() == resource_contents@[bi as int]);
            }
            if b != 13 {
                stripped.push(b);
            }
            bi = bi + 1;
        }
        proof {
            assert(resource_contents@.subrange(0, m as int) =~= resource_contents@);
        }
        base64_encode(&stripped)
    } else {
        base64_encode(resource_contents)
    };
    Some(
        Resource {
            name,
            aliases,
            kind: ResourceKind::Mime(mimetype),
            content,
            dependencies: Vec::new(),
            permission: 0,
        },
    )
}

/// The line that opens the redirect-resource map.
pub open spec fn map_decl() -> Seq<char> {
    "export default new Map(["@
}

/// A line's text before its first `//` comment.
pub open spec fn strip_line_comment(l: Seq<char>) -> Seq<char> {
    if crate::text::contains_chars(l, "//"@) {
        l.subrange(0, crate::text::first_match_index(l, "//"@))
    } else {
        l
    }
}

/// True of the line that closes the map: optional whitespace, `]`,
/// optional whitespace, `)`.
pub open spec fn map_end_line(l: Seq<char>) -> bool {
    {
        let t = trim_front(l);
        &&& t.len() > 0
        &&& t[0] == ']'
        &&& {
            let u = trim_front(t.subrange(1, t.len() as int));
            u.len() > 0 && u[0] == ')'
        }
    }
}

/// The gatherer's state: whether the opening line was seen, whether
/// the closing line stopped it, and the text collected so far.
pub ghost struct GatherAcc {
    pub seen: bool,
    pub stopped: bool,
    pub text: Seq<char>,
}

/// One line of the map gatherer: lines before the opening line are
/// skipped; from it on, each line loses its comment and its outer
/// whitespace and joins the text, until the closing line.
pub open spec fn gather_step(acc: GatherAcc, l: Seq<char>) -> GatherAcc {
    if acc.stopped {
        acc
    } else if !acc.seen {
        if l == map_decl() {
            GatherAcc { seen: true, stopped: false, text: trimmed(strip_line_comment(l)) }
        } else {
            acc
        }
    } else if map_end_line(l) {
        GatherAcc { stopped: true, ..acc }
    } else {
        GatherAcc { text: acc.text + trimmed(strip_line_comment(l)), ..acc }
    }
}

/// The gatherer's state after all the given lines.
pub open spec fn gather_fold(lines: Seq<Seq<char>>) -> GatherAcc
    decreases lines.len(),
{
    if lines.len() == 0 {
        GatherAcc { seen: false, stopped: false, text: Seq::empty() }
    } else {
        gather_step(gather_fold(lines.drop_last()), lines.last())
    }
}

/// `s` with every single quote replaced by a double quote.
pub open spec fn requote(s: Seq<char>) -> Seq<char> {
    s.map_values(
        |c: char|
            if c == '\'' {
                '"'
            } else {
                c
            },
    )
}

/// `s` without its whitespace characters.
pub open spec fn remove_ws(s: Seq<char>) -> Seq<char>
    decreases s.len(),
{
    if s.len() == 0 {
        Seq::empty()
    } else if is_space(s.last()) {
        remove_ws(s.drop_last())
    } else {
        remove_ws(s.drop_last()).push(s.last())
    }
}

/// The comma fixer's state after `i` characters: whether a comma is
/// held back, and the output so far. A held comma is dropped before a
/// closing bracket or brace and written out otherwise.
pub open spec fn fix_commas_state(s: Seq<char>, i: int) -> (bool, Seq<char>)
    decreases i,
{
    if i <= 0 {
        (false, Seq::empty())
    } else {
        let prev = fix_commas_state(s, i - 1);
        let c = s[i - 1];
        if prev.0 {
            if c == ']' || c == '}' {
                (false, prev.1.push(c))
            } else if c == ',' {
                (true, prev.1.push(','))
            } else {
                (false, prev.1.push(',').push(c))
            }
        } else {
            if c == ',' {
                (true, prev.1)
            } else {
                (false, prev.1.push(c))
            }
        }
    }
}

/// `s` with every comma before a closing bracket or brace removed.
pub open spec fn fix_commas(s: Seq<char>) -> Seq<char> {
    let full = fix_commas_state(s, s.len() as int);
    if full.0 {
        full.1.push(',')
    } else {
        full.1
    }
}

/// True of a character that may open a bare identifier key.
pub open spec fn is_ident_start(c: char) -> bool {
    ('a' <= c && c <= 'z') || ('A' <= c && c <= 'Z')
}

/// True of a character that may continue a bare identifier key.
pub open spec fn is_ident_char(c: char) -> bool {
    is_ident_start(c) || ('0' <= c && c <= '9') || c == '_'
}

/// The key quoter's progress: between tokens, right after a brace or
/// comma, or inside a bare identifier that followed one.
pub ghost enum QuoteState {
    Norm,
    Bracket(char),
    Ident(char, Seq<char>),
}

/// The key quoter's state after `i` characters. A bare identifier
/// between a brace or comma and a colon gains double quotes; anything
/// else is written out unchanged.
pub open spec fn quote_keys_state(s: Seq<char>, i: int) -> (QuoteState, Seq<char>)
    decreases i,
{
    if i <= 0 {
        (QuoteState::Norm, Seq::empty())
    } else {
        let prev = quote_keys_state(s, i - 1);
        let c = s[i - 1];
        match prev.0 {
            QuoteState::Norm => {
                if c == '{' || c == ',' {
                    (QuoteState::Bracket(c), prev.1)
                } else {
                    (QuoteState::Norm, prev.1.push(c))
                }
            },
            QuoteState::Bracket(b) => {
                if is_ident_start(c) {
                    (QuoteState::Ident(b, seq![c]), prev.1)
                } else if c == '{' || c == ',' {
                    (QuoteState::Bracket(c), prev.1.push(b))
                } else {
                    (QuoteState::Norm, prev.1.push(b).push(c))
                }
            },
            QuoteState::Ident(b, id) => {
                if is_ident_char(c) {
                    (QuoteState::Ident(b, id.push(c)), prev.1)
                } else if c == ':' {
                    (QuoteState::Norm, prev.1.push(b).push('"') + id + seq!['"', ':'])
                } else if c == '{' || c == ',' {
                    (QuoteState::Bracket(c), prev.1.push(b) + id)
                } else {
                    (QuoteState::Norm, prev.1.push(b) + id + seq![c])
                }
            },
        }
    }
}

/// `s` with every bare identifier key double-quoted.
pub open spec fn quote_keys(s: Seq<char>) -> Seq<char> {
    let full = quote_keys_state(s, s.len() as int);
    match full.0 {
        QuoteState::Norm => full.1,
        QuoteState::Bracket(b) => full.1.push(b),
        QuoteState::Ident(b, id) => full.1.push(b) + id,
    }
}

/// One entry of the parsed map.
pub ghost struct PropsModel {
    pub name: Seq<char>,
    pub aliases: Seq<Seq<char>>,
    pub data: Option<Seq<char>>,
    pub params: bool,
}

/// Where the map parser stands between characters.
pub ghost enum PState {
    TopOpen,
    EntryOrEnd,
    EntryOpen,
    NameQuote,
    Name,
    AfterName,
    ObjOpen,
    KeyOrClose,
    KeyQuote,
    Key,
    Colon,
    Value,
    ValString,
    ArrItemOrEnd,
    ArrQuote,
    ArrItem,
    ArrCommaOrEnd,
    PairSepOrClose,
    EntryClose,
    EntrySepOrEnd,
    Accepted,
}

/// The map parser's whole state.
pub ghost struct PAcc {
    pub st: PState,
    pub entries: Seq<PropsModel>,
    pub cur_name: Seq<char>,
    pub cur_aliases: Seq<Seq<char>>,
    pub cur_has_alias: bool,
    pub cur_data: Option<Seq<char>>,
    pub cur_has_data: bool,
    pub cur_params: bool,
    pub cur_key: Seq<char>,
    pub cur_list: Seq<Seq<char>>,
    pub buf: Seq<char>,
    pub failed: bool,
}

/// Commits one `key: value` pair of an entry's property object. The
/// value is a string or, when `list` is given, a list of strings. The
/// `alias` key takes either, `data` takes a string, `params` takes a
/// list; a repeated known key or a wrongly typed value is an error;
/// unknown keys are ignored.
pub open spec fn commit_pair(acc: PAcc, list: Option<Seq<Seq<char>>>) -> PAcc {
    let cleared = PAcc { buf: Seq::empty(), cur_list: Seq::empty(), ..acc };
    if acc.cur_key == "alias"@ {
        if acc.cur_has_alias {
            PAcc { failed: true, ..cleared }
        } else {
            match list {
                Some(l) => PAcc { cur_aliases: l, cur_has_alias: true, ..cleared },
                None => PAcc { cur_aliases: seq![acc.buf], cur_has_alias: true, ..cleared },
            }
        }
    } else if acc.cur_key == "data"@ {
        if acc.cur_has_data {
            PAcc { failed: true, ..cleared }
        } else {
            match list {
                Some(_) => PAcc { failed: true, ..cleared },
                None => PAcc { cur_data: Some(acc.buf), cur_has_data: true, ..cleared },
            }
        }
    } else if acc.cur_key == "params"@ {
        if acc.cur_params {
            PAcc { failed: true, ..cleared }
        } else {
            match list {
                Some(_) => PAcc { cur_params: true, ..cleared },
                None => PAcc { failed: true, ..cleared },
            }
        }
    } else {
        cleared
    }
}

/// One character of the map parser. The accepted texts are exactly:
/// `[` entries `]` where each entry is `["name",{pairs}]`, each pair
/// is a double-quoted key, a colon, and a double-quoted string or an
/// array of double-quoted strings; no whitespace, no escapes, and
/// nothing after the closing bracket.
pub open spec fn pm_step(acc: PAcc, c: char) -> PAcc {
    if acc.failed {
        acc
    } else {
        match acc.st {
            PState::TopOpen => {
                if c == '[' {
                    PAcc { st: PState::EntryOrEnd, ..acc }
                } else {
                    PAcc { failed: true, ..acc }
                }
            },
            PState::EntryOrEnd => {
                if c == '[' {
                    PAcc {
                        st: PState::NameQuote,
                        cur_name: Seq::empty(),
                        cur_aliases: Seq::empty(),
                        cur_has_alias: false,
                        cur_data: None,
                        cur_has_data: false,
                        cur_params: false,
                        ..acc
                    }
                } else if c == ']' {
                    PAcc { st: PState::Accepted, ..acc }
                } else {
                    PAcc { failed: true, ..acc }
                }
            },
            PState::EntryOpen => {
                if c == '[' {
                    PAcc {
                        st: PState::NameQuote,
                        cur_name: Seq::empty(),
                        cur_aliases: Seq::empty(),
                        cur_has_alias: false,
                        cur_data: None,
                        cur_has_data: false,
                        cur_params: false,
                        ..acc
                    }
                } else {
                    PAcc { failed: true, ..acc }
                }
            },
            PState::NameQuote => {
                if c == '"' {
                    PAcc { st: PState::Name, buf: Seq::empty(), ..acc }
                } else {
                    PAcc { failed: true, ..acc }
                }
            },
            PState::Name => {
                if c == '"' {
                    PAcc { st: PState::AfterName, cur_name: acc.buf, buf: Seq::empty(), ..acc }
                } else {
                    PAcc { buf: acc.buf.push(c), ..acc }
                }
            },
            PState::AfterName => {
                if c == ',' {
                    PAcc { st: PState::ObjOpen, ..acc }
                } else {
                    PAcc { failed: true, ..acc }
                }
            },
            PState::ObjOpen => {
                if c == '{' {
                    PAcc { st: PState::KeyOrClose, ..acc }
                } else {
                    PAcc { failed: true, ..acc }
                }
            },
            PState::KeyOrClose => {
                if c == '"' {
                    PAcc { st: PState::Key, buf: Seq::empty(), ..acc }
                } else if c == '}' {
                    PAcc { st: PState::EntryClose, ..acc }
                } else {
                    PAcc { failed: true, ..acc }
                }
            },
            PState::KeyQuote => {
                if c == '"' {
                    PAcc { st: PState::Key, buf: Seq::empty(), ..acc }
                } else {
                    PAcc { failed: true, ..acc }
                }
            },
            PState::Key => {
                if c == '"' {
                    PAcc { st: PState::Colon, cur_key: acc.buf, buf: Seq::empty(), ..acc }
                } else {
                    PAcc { buf: acc.buf.push(c), ..acc }
                }
            },
            PState::Colon => {
                if c == ':' {
                    PAcc { st: PState::Value, ..acc }
                } else {
                    PAcc { failed: true, ..acc }
                }
            },
            PState::Value => {
                if c == '"' {
                    PAcc { st: PState::ValString, buf: Seq::empty(), ..acc }
                } else if c == '[' {
                    PAcc { st: PState::ArrItemOrEnd, cur_list: Seq::empty(), ..acc }
                } else {
                    PAcc { failed: true, ..acc }
                }
            },
            PState::ValString => {
                if c == '"' {
                    let committed = commit_pair(acc, None);
                    PAcc { st: PState::PairSepOrClose, ..committed }
                } else {
                    PAcc { buf: acc.buf.push(c), ..acc }
                }
            },
            PState::ArrItemOrEnd => {
                if c == '"' {
                    PAcc { st: PState::ArrItem, buf: Seq::empty(), ..acc }
                } else if c == ']' {
                    let committed = commit_pair(acc, Some(acc.cur_list));
                    PAcc { st: PState::PairSepOrClose, ..committed }
                } else {
                    PAcc { failed: true, ..acc }
                }
            },
            PState::ArrQuote => {
                if c == '"' {
                    PAcc { st: PState::ArrItem, buf: Seq::empty(), ..acc }
                } else {
                    PAcc { failed: true, ..acc }
                }
            },
            PState::ArrItem => {
                if c == '"' {
                    PAcc {
                        st: PState::ArrCommaOrEnd,
                        cur_list: acc.cur_list.push(acc.buf),
                        buf: Seq::empty(),
                        ..acc
                    }
                } else {
                    PAcc { buf: acc.buf.push(c), ..acc }
                }
            },
            PState::ArrCommaOrEnd => {
                if c == ',' {
                    PAcc { st: PState::ArrQuote, ..acc }
                } else if c == ']' {
                    let committed = commit_pair(acc, Some(acc.cur_list));
                    PAcc { st: PState::PairSepOrClose, ..committed }
                } else {
                    PAcc { failed: true, ..acc }
                }
            },
            PState::PairSepOrClose => {
                if c == ',' {
                    PAcc { st: PState::KeyQuote, ..acc }
                } else if c == '}' {
                    PAcc { st: PState::EntryClose, ..acc }
                } else {
                    PAcc { failed: true, ..acc }
                }
            },
            PState::EntryClose => {
                if c == ']' {
                    PAcc {
                        st: PState::EntrySepOrEnd,
                        entries: acc.entries.push(
                            PropsModel {
                                name: acc.cur_name,
                                aliases: acc.cur_aliases,
                                data: acc.cur_data,
                                params: acc.cur_params,
                            },
                        ),
                        cur_name: Seq::empty(),
                        cur_aliases: Seq::empty(),
                        cur_data: None,
                        ..acc
                    }
                } else {
                    PAcc { failed: true, ..acc }
                }
            },
            PState::EntrySepOrEnd => {
                if c == ',' {
                    PAcc { st: PState::EntryOpen, ..acc }
                } else if c == ']' {
                    PAcc { st: PState::Accepted, ..acc }
                } else {
                    PAcc { failed: true, ..acc }
                }
            },
            PState::Accepted => PAcc { failed: true, ..acc },
        }
    }
}

/// The map parser's starting state.
pub open spec fn pm_init() -> PAcc {
    PAcc {
        st: PState::TopOpen,
        entries: Seq::empty(),
        cur_name: Seq::empty(),
        cur_aliases: Seq::empty(),
        cur_has_alias: false,
        cur_data: None,
        cur_has_data: false,
        cur_params: false,
        cur_key: Seq::empty(),
        cur_list: Seq::empty(),
        buf: Seq::empty(),
        failed: false,
    }
}

/// The map parser's state after `i` characters.
pub open spec fn pm_state(s: Seq<char>, i: int) -> PAcc
    decreases i,
{
    if i <= 0 {
        pm_init()
    } else {
        pm_step(pm_state(s, i - 1), s[i - 1])
    }
}

/// The entries of a normalized map text, when the whole text parses.
pub open spec fn pm_entries(s: Seq<char>) -> Option<Seq<PropsModel>> {
    let acc = pm_state(s, s.len() as int);
    if !acc.failed && acc.st == PState::Accepted {
        Some(acc.entries)
    } else {
        None
    }
}

/// The entries of the redirect-resource map: the map text gathered
/// between its opening and closing lines, quotes normalized,
/// whitespace removed, trailing commas dropped, bare keys quoted, and
/// the result parsed. Nothing comes back when the opening line is
/// missing or the map text does not parse.
pub open spec fn mapping_models(input: Seq<char>) -> Option<Seq<PropsModel>> {
    let gathered = gather_fold(lines_of(input)).text + "]"@;
    if !starts_with(gathered, map_decl()) {
        None
    } else {
        let base = gathered.subrange(map_decl().len() - 1, gathered.len() as int);
        pm_entries(quote_keys(fix_commas(remove_ws(requote(base)))))
    }
}

/// The entries kept for resource building: those without `params`.
pub open spec fn kept_props(entries: Seq<PropsModel>) -> Seq<PropsModel>
    decreases entries.len(),
{
    if entries.len() == 0 {
        Seq::empty()
    } else if entries.last().params {
        kept_props(entries.drop_last())
    } else {
        kept_props(entries.drop_last()).push(entries.last())
    }
}

/// A line's text before its first `//` comment.
fn strip_line_comment_str(l: &str) -> (r: String)
    ensures
        r@ == strip_line_comment(l@),
{
    match find_str(l, "//") {
        Some(i) => l.substring_char(0, i).to_owned(),
        None => l.to_owned(),
    }
}

/// Whether this line closes the map.
fn map_end_line_str(l: &str) -> (r: bool)
    ensures
        r == map_end_line(l@),
{
    let t = trim_start_str(l);
    let tn: usize = t.as_str().unicode_len();
    if tn == 0 {
        return false;
    }
    if t.as_str().get_char(0) != ']' {
        return false;
    }
    let u = trim_start_str(t.as_str().substring_char(1, tn));
    let un: usize = u.as_str().unicode_len();
    if un == 0 {
        return false;
    }
    u.as_str().get_char(0) == ')'
}

/// Once the closing line stops the gatherer, its text never changes.
proof fn lemma_gather_stopped_sticks(lines: Seq<Seq<char>>, i: int)
    requires
        0 <= i <= lines.len(),
        gather_fold(lines.take(i)).stopped,
    ensures
        gather_fold(lines) == gather_fold(lines.take(i)),
    decreases lines.len() - i,
{
    if i < lines.len() {
        assert(lines.take(i + 1).drop_last() =~= lines.take(i));
        assert(lines.take(i + 1).last() == lines[i]);
        lemma_gather_stopped_sticks(lines, i + 1);
    } else {
        assert(lines.take(i) =~= lines);
    }
}

/// A parse failure never heals in the map parser either.
proof fn lemma_pm_failed_sticks(s: Seq<char>, i: int)
    requires
        0 <= i <= s.len(),
        pm_state(s, i).failed,
    ensures
        pm_state(s, s.len() as int).failed,
    decreases s.len() - i,
{
    if i < s.len() {
        lemma_pm_failed_sticks(s, i + 1);
    }
}

/// Gathers the map's text: everything from its opening line through
/// the line before its closing line, comments and outer whitespace
/// dropped, joined into one string.
fn gather_map_text(lines: &Vec<String>) -> (r: String)
    ensures
        r@ == gather_fold(lines@.map_values(|l: String| l@)).text,
{
    let ghost lv = lines@.map_values(|l: String| l@);
    let decl: String = String::from_str("export default new Map([");
    proof {
        assert(decl@ == map_decl());
    }
    let mut seen: bool = false;
    let mut text: String = String::new();
    let n: usize = lines.len();
    let mut i: usize = 0;
    while i < n
        invariant
            n == lines@.len(),
            lv == lines@.map_values(|l: String| l@),
            decl@ == map_decl(),
            0 <= i <= n,
            !gather_fold(lv.take(i as int)).stopped,
            seen == gather_fold(lv.take(i as int)).seen,
            text@ == gather_fold(lv.take(i as int)).text,
        decreases n - i,
    {
        let ghost acc = gather_fold(lv.take(i as int));
        proof {
            assert(lv.take(i + 1).drop_last() =~= lv.take(i as int));
            assert(lv.take(i + 1).last() == lv[i as int]);
            assert(gather_fold(lv.take(i + 1)) == gather_step(acc, lv[i as int]));
        }
        let l = lines[i].as_str();
        proof {
            assert(l@ == lv[i as int]);
        }
        if !seen {
            if lines[i] == decl {
                seen = true;
                let un_commented = strip_line_comment_str(l);
                text = trim_str(un_commented.as_str());
            }
        } else if map_end_line_str(l) {
            proof {
                assert(gather_fold(lv.take(i + 1)).stopped);
                lemma_gather_stopped_sticks(lv, i + 1);
            }
            return text;
        } else {
            let un_commented = strip_line_comment_str(l);
            let piece = trim_str(un_commented.as_str());
            text.append(piece.as_str());
        }
        i = i + 1;
    }
    proof {
        assert(lv.take(n as int) =~= lv);
    }
    text
}

/// Replaces single quotes with double quotes.
fn requote_str(s: &str) -> (r: String)
    ensures
        r@ == requote(s@),
{
    let n: usize = s.unicode_len();
    let mut out: String = String::new();
    let mut i: usize = 0;
    while i < n
        invariant
            n == s@.len(),
            0 <= i <= n,
            out@ == requote(s@.subrange(0, i as int)),
        decreases n - i,
    {
        let c = s.get_char(i);
        if c == '\'' {
            push_char(&mut out, '"');
        } else {
            push_char(&mut out, c);
        }
        proof {
            let pref = s@.subrange(0, i + 1);
            assert(out@ =~= requote(pref));
        }
        i = i + 1;
    }
    proof {
        assert(s@.subrange(0, n as int) =~= s@);
    }
    out
}

/// Removes all whitespace.
fn remove_ws_str(s: &str) -> (r: String)
    ensures
        r@ == remove_ws(s@),
{
    let n: usize = s.unicode_len();
    let mut out: String = String::new();
    let mut i: usize = 0;
    while i < n
        invariant
            n == s@.len(),
            0 <= i <= n,
            out@ == remove_ws(s@.subrange(0, i as int)),
        decreases n - i,
    {
        let c = s.get_char(i);
        proof {
            let pref = s@.subrange(0, i + 1);
            assert(pref.drop_last() =~= s@.subrange(0, i as int));
            assert(pref.last() == s@[i as int]);
        }
        if !is_space_char(c) {
            push_char(&mut out, c);
        }
        i = i + 1;
    }
    proof {
        assert(s@.subrange(0, n as int) =~= s@);
    }
    out
}

/// Drops commas that stand before a closing bracket or brace.
fn fix_commas_str(s: &str) -> (r: String)
    ensures
        r@ == fix_commas(s@),
{
    let n: usize = s.unicode_len();
    let mut out: String = String::new();
    let mut pending: bool = false;
    let mut i: usize = 0;
    while i < n
        invariant
            n == s@.len(),
            0 <= i <= n,
            pending == fix_commas_state(s@, i as int).0,
            out@ == fix_commas_state(s@, i as int).1,
        decreases n - i,
    {
        let c = s.get_char(i);
        if pending {
            if c == ']' || c == '}' {
                push_char(&mut out, c);
                pending = false;
            } else if c == ',' {
                push_char(&mut out, ',');
            } else {
                push_char(&mut out, ',');
                push_char(&mut out, c);
                pending = false;
            }
        } else {
            if c == ',' {
                pending = true;
            } else {
                push_char(&mut out, c);
            }
        }
        i = i + 1;
    }
    if pending {
        push_char(&mut out, ',');
    }
    out
}

/// The key quoter's working state.
enum QuoteMode {
    Norm,
    Bracket(char),
    Ident(char, String),
}

/// Double-quotes bare identifier keys.
fn quote_keys_str(s: &str) -> (r: String)
    ensures
        r@ == quote_keys(s@),
{
    let n: usize = s.unicode_len();
    let mut out: String = String::new();
    let mut mode: QuoteMode = QuoteMode::Norm;
    let mut i: usize = 0;
    while i < n
        invariant
            n == s@.len(),
            0 <= i <= n,
            (match mode {
                QuoteMode::Norm => quote_keys_state(s@, i as int).0 == QuoteState::Norm,
                QuoteMode::Bracket(b) => quote_keys_state(s@, i as int).0 == QuoteState::Bracket(b),
                QuoteMode::Ident(b, id) => quote_keys_state(s@, i as int).0 == QuoteState::Ident(
                    b,
                    id@,
                ),
            }),
            out@ == quote_keys_state(s@, i as int).1,
        decreases n - i,
    {
        let c = s.get_char(i);
        let is_start = ('a' <= c && c <= 'z') || ('A' <= c && c <= 'Z');
        let is_cont = is_start || ('0' <= c && c <= '9') || c == '_';
        let mut next_mode: QuoteMode = QuoteMode::Norm;
        match mode {
            QuoteMode::Norm => {
                if c == '{' || c == ',' {
                    next_mode = QuoteMode::Bracket(c);
                } else {
                    push_char(&mut out, c);
                }
            },
            QuoteMode::Bracket(b) => {
                if is_start {
                    let mut id: String = String::new();
                    push_char(&mut id, c);
                    proof {
                        assert(id@ =~= seq![c]);
                    }
                    next_mode = QuoteMode::Ident(b, id);
                } else if c == '{' || c == ',' {
                    push_char(&mut out, b);
                    next_mode = QuoteMode::Bracket(c);
                } else {
                    push_char(&mut out, b);
                    push_char(&mut out, c);
                }
            },
            QuoteMode::Ident(b, id) => {
                if is_cont {
                    let mut id2 = id;
                    push_char(&mut id2, c);
                    next_mode = QuoteMode::Ident(b, id2);
                } else if c == ':' {
                    push_char(&mut out, b);
                    push_char(&mut out, '"');
                    out.append(id.as_str());
                    push_char(&mut out, '"');
                    push_char(&mut out, ':');
                    proof {
                        let st = quote_keys_state(s@, i as int);
                        assert(out@ =~= st.1.push(b).push('"') + (match st.0 {
                            QuoteState::Ident(_, idv) => idv,
                            _ => Seq::<char>::empty(),
                        }) + seq!['"', ':']);
                    }
                } else if c == '{' || c == ',' {
                    push_char(&mut out, b);
                    out.append(id.as_str());
                    next_mode = QuoteMode::Bracket(c);
                } else {
                    push_char(&mut out, b);
                    out.append(id.as_str());
                    push_char(&mut out, c);
                    proof {
                        let st = quote_keys_state(s@, i as int);
                        assert(out@ =~= st.1.push(b) + (match st.0 {
                            QuoteState::Ident(_, idv) => idv,
                            _ => Seq::<char>::empty(),
                        }) + seq![c]);
                    }
                }
            },
        }
        mode = next_mode;
        i = i + 1;
    }
    match mode {
        QuoteMode::Norm => {},
        QuoteMode::Bracket(b) => {
            push_char(&mut out, b);
        },
        QuoteMode::Ident(b, id) => {
            push_char(&mut out, b);
            out.append(id.as_str());
        },
    }
    out
}

/// True when the built properties carry exactly the parsed entries.
pub open spec fn props_match(v: Seq<ResourceProperties>, models: Seq<PropsModel>) -> bool {
    v.len() == models.len() && forall|i: int|
        0 <= i < v.len() ==> {
            &&& (#[trigger] v[i]).name@ == models[i].name
            &&& v[i].alias@.map_values(|a: String| a@) == models[i].aliases
            &&& (match v[i].data {
                Some(d) => models[i].data == Some(d@),
                None => models[i].data is None,
            })
        }
}

/// The map parser's working position, one variant per spec state.
enum ParsePos {
    TopOpen,
    EntryOrEnd,
    EntryOpen,
    NameQuote,
    Name,
    AfterName,
    ObjOpen,
    KeyOrClose,
    KeyQuote,
    Key,
    Colon,
    Value,
    ValString,
    ArrItemOrEnd,
    ArrQuote,
    ArrItem,
    ArrCommaOrEnd,
    PairSepOrClose,
    EntryClose,
    EntrySepOrEnd,
    Accepted,
}

impl ParsePos {
    /// The spec state this position stands for.
    spec fn view_state(&self) -> PState {
        match self {
            ParsePos::TopOpen => PState::TopOpen,
            ParsePos::EntryOrEnd => PState::EntryOrEnd,
            ParsePos::EntryOpen => PState::EntryOpen,
            ParsePos::NameQuote => PState::NameQuote,
            ParsePos::Name => PState::Name,
            ParsePos::AfterName => PState::AfterName,
            ParsePos::ObjOpen => PState::ObjOpen,
            ParsePos::KeyOrClose => PState::KeyOrClose,
            ParsePos::KeyQuote => PState::KeyQuote,
            ParsePos::Key => PState::Key,
            ParsePos::Colon => PState::Colon,
            ParsePos::Value => PState::Value,
            ParsePos::ValString => PState::ValString,
            ParsePos::ArrItemOrEnd => PState::ArrItemOrEnd,
            ParsePos::ArrQuote => PState::ArrQuote,
            ParsePos::ArrItem => PState::ArrItem,
            ParsePos::ArrCommaOrEnd => PState::ArrCommaOrEnd,
            ParsePos::PairSepOrClose => PState::PairSepOrClose,
            ParsePos::EntryClose => PState::EntryClose,
            ParsePos::EntrySepOrEnd => PState::EntrySepOrEnd,
            ParsePos::Accepted => PState::Accepted,
        }
    }
}

/// One parsed entry of the map, before filtering.
struct MapEntry {
    name: String,
    aliases: Vec<String>,
    data: Option<String>,
    params: bool,
}

/// True when the parsed entries carry what the spec state holds.
spec fn entries_correspond(v: Seq<MapEntry>, models: Seq<PropsModel>) -> bool {
    v.len() == models.len() && forall|i: int|
        0 <= i < v.len() ==> {
            &&& (#[trigger] v[i]).name@ == models[i].name
            &&& v[i].aliases@.map_values(|a: String| a@) == models[i].aliases
            &&& (match v[i].data {
                Some(d) => models[i].data == Some(d@),
                None => models[i].data is None,
            })
            &&& v[i].params == models[i].params
        }
}

/// Parses a normalized map text into its entries.
#[verifier::rlimit(100)]
fn parse_map_entries(s: &str) -> (r: Option<Vec<MapEntry>>)
    ensures
        match pm_entries(s@) {
            Some(models) => r is Some && entries_correspond(r.unwrap()@, models),
            None => r is None,
        },
{
    let alias_key: String = String::from_str("alias");
    let data_key: String = String::from_str("data");
    let params_key: String = String::from_str("params");
    proof {
        assert(alias_key@ == "alias"@);
        assert(data_key@ == "data"@);
        assert(params_key@ == "params"@);
    }
    let n: usize = s.unicode_len();
    let mut pos: ParsePos = ParsePos::TopOpen;
    let mut entries: Vec<MapEntry> = Vec::new();
    let mut cur_name: String = String::new();
    let mut cur_aliases: Vec<String> = Vec::new();
    let mut cur_has_alias: bool = false;
    let mut cur_data: Option<String> = None;
    let mut cur_has_data: bool = false;
    let mut cur_params: bool = false;
    let mut cur_key: String = String::new();
    let mut cur_list: Vec<String> = Vec::new();
    let mut buf: String = String::new();
    let mut i: usize = 0;
    while i < n
        invariant
            n == s@.len(),
            alias_key@ == "alias"@,
            data_key@ == "data"@,
            params_key@ == "params"@,
            0 <= i <= n,
            !pm_state(s@, i as int).failed,
            pos.view_state() == pm_state(s@, i as int).st,
            entries_correspond(entries@, pm_state(s@, i as int).entries),
            cur_name@ == pm_state(s@, i as int).cur_name,
            cur_aliases@.map_values(|a: String| a@) == pm_state(s@, i as int).cur_aliases,
            cur_has_alias == pm_state(s@, i as int).cur_has_alias,
            (match cur_data {
                Some(d) => pm_state(s@, i as int).cur_data == Some(d@),
                None => pm_state(s@, i as int).cur_data is None,
            }),
            cur_has_data == pm_state(s@, i as int).cur_has_data,
            cur_params == pm_state(s@, i as int).cur_params,
            cur_key@ == pm_state(s@, i as int).cur_key,
            cur_list@.map_values(|a: String| a@) == pm_state(s@, i as int).cur_list,
            buf@ == pm_state(s@, i as int).buf,
        decreases n - i,
    {
        let ghost acc = pm_state(s@, i as int);
        proof {
            assert(pm_state(s@, i + 1) == pm_step(acc, s@[i as int]));
        }
        let c = s.get_char(i);
        match pos {
            ParsePos::TopOpen => {
                if c == '[' {
                    pos = ParsePos::EntryOrEnd;
                } else {
                    proof {
                        lemma_pm_failed_sticks(s@, i + 1);
                    }
                    return None;
                }
            },
            ParsePos::EntryOrEnd => {
                if c == '[' {
                    pos = ParsePos::NameQuote;
                    cur_name = String::new();
                    cur_aliases = Vec::new();
                    cur_has_alias = false;
                    cur_data = None;
                    cur_has_data = false;
                    cur_params = false;
                    proof {
                        assert(cur_aliases@.map_values(|a: String| a@) =~= Seq::<Seq<char>>::empty());
                    }
                } else if c == ']' {
                    pos = ParsePos::Accepted;
                } else {
                    proof {
                        lemma_pm_failed_sticks(s@, i + 1);
                    }
                    return None;
                }
            },
            ParsePos::EntryOpen => {
                if c == '[' {
                    pos = ParsePos::NameQuote;
                    cur_name = String::new();
                    cur_aliases = Vec::new();
                    cur_has_alias = false;
                    cur_data = None;
                    cur_has_data = false;
                    cur_params = false;
                    proof {
                        assert(cur_aliases@.map_values(|a: String| a@) =~= Seq::<Seq<char>>::empty());
                    }
                } else {
                    proof {
                        lemma_pm_failed_sticks(s@, i + 1);
                    }
                    return None;
                }
            },
            ParsePos::NameQuote => {
                if c == '"' {
                    pos = ParsePos::Name;
                    buf = String::new();
                } else {
                    proof {
                        lemma_pm_failed_sticks(s@, i + 1);
                    }
                    return None;
                }
            },
            ParsePos::Name => {
                if c == '"' {
                    pos = ParsePos::AfterName;
                    let mut taken: String = String::new();
                    core::mem::swap(&mut taken, &mut buf);
                    cur_name = taken;
                } else {
                    push_char(&mut buf, c);
                }
            },
            ParsePos::AfterName => {
                if c == ',' {
                    pos = ParsePos::ObjOpen;
                } else {
                    proof {
                        lemma_pm_failed_sticks(s@, i + 1);
                    }
                    return None;
                }
            },
            ParsePos::ObjOpen => {
                if c == '{' {
                    pos = ParsePos::KeyOrClose;
                } else {
                    proof {
                        lemma_pm_failed_sticks(s@, i + 1);
                    }
                    return None;
                }
            },
            ParsePos::KeyOrClose => {
                if c == '"' {
                    pos = ParsePos::Key;
                    buf = String::new();
                } else if c == '}' {
                    pos = ParsePos::EntryClose;
                } else {
                    proof {
                        lemma_pm_failed_sticks(s@, i + 1);
                    }
                    return None;
                }
            },
            ParsePos::KeyQuote => {
                if c == '"' {
                    pos = ParsePos::Key;
                    buf = String::new();
                } else {
                    proof {
                        lemma_pm_failed_sticks(s@, i + 1);
                    }
                    return None;
                }
            },
            ParsePos::Key => {
                if c == '"' {
                    pos = ParsePos::Colon;
                    let mut taken: String = String::new();
                    core::mem::swap(&mut taken, &mut buf);
                    cur_key = taken;
                } else {
                    push_char(&mut buf, c);
                }
            },
            ParsePos::Colon => {
                if c == ':' {
                    pos = ParsePos::Value;
                } else {
                    proof {
                        lemma_pm_failed_sticks(s@, i + 1);
                    }
                    return None;
                }
            },
            ParsePos::Value => {
                if c == '"' {
                    pos = ParsePos::ValString;
                    buf = String::new();
                } else if c == '[' {
                    pos = ParsePos::ArrItemOrEnd;
                    cur_list = Vec::new();
                    proof {
                        assert(cur_list@.map_values(|a: String| a@) =~= Seq::<Seq<char>>::empty());
                    }
                } else {
                    proof {
                        lemma_pm_failed_sticks(s@, i + 1);
                    }
                    return None;
                }
            },
            ParsePos::ValString => {
                if c == '"' {
                    // commit a string-valued pair
                    if cur_key == alias_key {
                        if cur_has_alias {
                            proof {
                                lemma_pm_failed_sticks(s@, i + 1);
                            }
                            return None;
                        }
                        let mut taken: String = String::new();
                        core::mem::swap(&mut taken, &mut buf);
                        let mut single: Vec<String> = Vec::new();
                        single.push(taken);
                        cur_aliases = single;
                        cur_has_alias = true;
                        proof {
                            assert(cur_aliases@.map_values(|a: String| a@) =~= seq![acc.buf]);
                        }
                    } else if cur_key == data_key {
                        if cur_has_data {
                            proof {
                                lemma_pm_failed_sticks(s@, i + 1);
                            }
                            return None;
                        }
                        let mut taken: String = String::new();
                        core::mem::swap(&mut taken, &mut buf);
                        cur_data = Some(taken);
                        cur_has_data = true;
                    } else if cur_key == params_key {
                        proof {
                            lemma_pm_failed_sticks(s@, i + 1);
                        }
                        return None;
                    }
                    buf = String::new();
                    cur_list = Vec::new();
                    pos = ParsePos::PairSepOrClose;
                    proof {
                        assert(cur_list@.map_values(|a: String| a@) =~= Seq::<Seq<char>>::empty());
                    }
                } else {
                    push_char(&mut buf, c);
                }
            },
            ParsePos::ArrItemOrEnd => {
                if c == '"' {
                    pos = ParsePos::ArrItem;
                    buf = String::new();
                } else if c == ']' {
                    // commit a list-valued pair
                    if cur_key == alias_key {
                        if cur_has_alias {
                            proof {
                                lemma_pm_failed_sticks(s@, i + 1);
                            }
                            return None;
                        }
                        let mut taken: Vec<String> = Vec::new();
                        core::mem::swap(&mut taken, &mut cur_list);
                        cur_aliases = taken;
                        cur_has_alias = true;
                    } else if cur_key == data_key {
                        proof {
                            lemma_pm_failed_sticks(s@, i + 1);
                        }
                        return None;
                    } else if cur_key == params_key {
                        if cur_params {
                            proof {
                                lemma_pm_failed_sticks(s@, i + 1);
                            }
                            return None;
                        }
                        cur_params = true;
                    }
                    buf = String::new();
                    cur_list = Vec::new();
                    pos = ParsePos::PairSepOrClose;
                    proof {
                        assert(cur_list@.map_values(|a: String| a@) =~= Seq::<Seq<char>>::empty());
                    }
                } else {
                    proof {
                        lemma_pm_failed_sticks(s@, i + 1);
                    }
                    return None;
                }
            },
            ParsePos::ArrQuote => {
                if c == '"' {
                    pos = ParsePos::ArrItem;
                    buf = String::new();
                } else {
                    proof {
                        lemma_pm_failed_sticks(s@, i + 1);
                    }
                    return None;
                }
            },
            ParsePos::ArrItem => {
                if c == '"' {
                    pos = ParsePos::ArrCommaOrEnd;
                    let mut taken: String = String::new();
                    core::mem::swap(&mut taken, &mut buf);
                    cur_list.push(taken);
                    proof {
                        assert(cur_list@.map_values(|a: String| a@) =~= acc.cur_list.push(acc.buf));
                    }
                } else {
                    push_char(&mut buf, c);
                }
            },
            ParsePos::ArrCommaOrEnd => {
                if c == ',' {
                    pos = ParsePos::ArrQuote;
                } else if c == ']' {
                    if cur_key == alias_key {
                        if cur_has_alias {
                            proof {
                                lemma_pm_failed_sticks(s@, i + 1);
                            }
                            return None;
                        }
                        let mut taken: Vec<String> = Vec::new();
                        core::mem::swap(&mut taken, &mut cur_list);
                        cur_aliases = taken;
                        cur_has_alias = true;
                        proof {
                            assert(cur_list@.map_values(|a: String| a@) =~= Seq::<Seq<char>>::empty());
                        }
                    } else if cur_key == data_key {
                        proof {
                            lemma_pm_failed_sticks(s@, i + 1);
                        }
                        return None;
                    } else if cur_key == params_key {
                        if cur_params {
                            proof {
                                lemma_pm_failed_sticks(s@, i + 1);
                            }
                            return None;
                        }
                        cur_params = true;
                    }
                    buf = String::new();
                    cur_list = Vec::new();
                    pos = ParsePos::PairSepOrClose;
                    proof {
                        assert(cur_list@.map_values(|a: String| a@) =~= Seq::<Seq<char>>::empty());
                    }
                } else {
                    proof {
                        lemma_pm_failed_sticks(s@, i + 1);
                    }
                    return None;
                }
            },
            ParsePos::PairSepOrClose => {
                if c == ',' {
                    pos = ParsePos::KeyQuote;
                } else if c == '}' {
                    pos = ParsePos::EntryClose;
                } else {
                    proof {
                        lemma_pm_failed_sticks(s@, i + 1);
                    }
                    return None;
                }
            },
            ParsePos::EntryClose => {
                if c == ']' {
                    pos = ParsePos::EntrySepOrEnd;
                    let mut taken_name: String = String::new();
                    core::mem::swap(&mut taken_name, &mut cur_name);
                    let mut taken_aliases: Vec<String> = Vec::new();
                    core::mem::swap(&mut taken_aliases, &mut cur_aliases);
                    let mut taken_data: Option<String> = None;
                    core::mem::swap(&mut taken_data, &mut cur_data);
                    entries.push(
                        MapEntry {
                            name: taken_name,
                            aliases: taken_aliases,
                            data: taken_data,
                            params: cur_params,
                        },
                    );
                    proof {
                        assert(entries_correspond(entries@, pm_state(s@, i + 1).entries));
                        assert(cur_aliases@.map_values(|a: String| a@) =~= Seq::<Seq<char>>::empty());
                    }
                } else {
                    proof {
                        lemma_pm_failed_sticks(s@, i + 1);
                    }
                    return None;
                }
            },
            ParsePos::EntrySepOrEnd => {
                if c == ',' {
                    pos = ParsePos::EntryOpen;
                } else if c == ']' {
                    pos = ParsePos::Accepted;
                } else {
                    proof {
                        lemma_pm_failed_sticks(s@, i + 1);
                    }
                    return None;
                }
            },
            ParsePos::Accepted => {
                proof {
                    lemma_pm_failed_sticks(s@, i + 1);
                }
                return None;
            },
        }
        i = i + 1;
    }
    match pos {
        ParsePos::Accepted => Some(entries),
        _ => None,
    }
}

/// Reads the redirect-resource map: the `Map` between its opening and
/// closing lines is normalized (comments and whitespace dropped,
/// quotes doubled, trailing commas removed, bare keys quoted) and
/// parsed; entries carrying `params` are dropped. Nothing comes back
/// when the opening line is missing or the map text does not parse.
pub fn read_redirectable_resource_mapping(mapfile_data: &str) -> (r: Option<
    Vec<ResourceProperties>,
>)
    ensures
        match mapping_models(mapfile_data@) {
            Some(models) => r is Some && props_match(r.unwrap()@, kept_props(models)),
            None => r is None,
        },
{
    let lines = split_lines(mapfile_data);
    let mut gathered = gather_map_text(&lines);
    push_char(&mut gathered, ']');
    proof {
        reveal_strlit("]");
        reveal_strlit("export default new Map([");
        assert(gathered@ =~= gather_fold(lines_of(mapfile_data@)).text + "]"@);
        assert(map_decl().len() == 24);
    }
    if !crate::text::starts_with_str(gathered.as_str(), "export default new Map([") {
        return None;
    }
    let gn: usize = gathered.as_str().unicode_len();
    let base = gathered.as_str().substring_char(23, gn);
    let step1 = requote_str(base);
    let step2 = remove_ws_str(step1.as_str());
    let step3 = fix_commas_str(step2.as_str());
    let step4 = quote_keys_str(step3.as_str());
    let parsed = match parse_map_entries(step4.as_str()) {
        Some(entries) => entries,
        None => {
            return None;
        },
    };
    let ghost models = pm_entries(step4@).unwrap();
    let mut out: Vec<ResourceProperties> = Vec::new();
    let pn: usize = parsed.len();
    let mut pi: usize = 0;
    while pi < pn
        invariant
            pn == parsed@.len(),
            entries_correspond(parsed@, models),
            0 <= pi <= pn,
            props_match(out@, kept_props(models.take(pi as int))),
        decreases pn - pi,
    {
        proof {
            assert(models.take(pi + 1).drop_last() =~= models.take(pi as int));
            assert(models.take(pi + 1).last() == models[pi as int]);
        }
        if !parsed[pi].params {
            let entry = &parsed[pi];
            let mut alias_copy: Vec<String> = Vec::new();
            let an: usize = entry.aliases.len();
            let mut ai: usize = 0;
            while ai < an
                invariant
                    an == entry.aliases@.len(),
                    0 <= ai <= an,
                    alias_copy@.len() == ai,
                    forall|j: int|
                        0 <= j < ai ==> #[trigger] alias_copy@[j]@ == entry.aliases@[j]@,
                decreases an - ai,
            {
                alias_copy.push(entry.aliases[ai].clone());
                ai = ai + 1;
            }
            let data_copy: Option<String> = match &entry.data {
                Some(d) => Some(d.clone()),
                None => None,
            };
            out.push(
                ResourceProperties { name: entry.name.clone(), alias: alias_copy, data: data_copy },
            );
            proof {
                let lhs = alias_copy@.map_values(|a: String| a@);
                let rhs = entry.aliases@.map_values(|a: String| a@);
                assert(forall|j: int| 0 <= j < an ==> #[trigger] lhs[j] == rhs[j]);
                assert(lhs =~= rhs);
                assert(props_match(out@, kept_props(models.take(pi + 1))));
            }
        }
        pi = pi + 1;
    }
    proof {
        assert(models.take(pn as int) =~= models);
    }
    Some(out)
}

} // verus!
