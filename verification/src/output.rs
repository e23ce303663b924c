//! The output-side formatters.  Each family turns one translator response
//! into per-line strings (`extract_lines`) and renders one translated line
//! back into output text (`format_line`):
//!
//! * `TextOutput` — apply the replace regex to the whole response, then take
//!   capture group 1 of each match of the capture regex; a line is written
//!   as the translated text plus a newline.
//! * `MToolOutput` — same extraction; a line is written as a JSON
//!   `"key": "value",` pair with the translation escaped and soft-wrapped.
//! * `ReplaceOutput` — same extraction; a line is written by substituting
//!   `$trans` in a user template and replacing the first match of a user
//!   capture regex in the raw line with the filled template.

use vstd::prelude::*;
use vstd::string::*;

use crate::re::CompiledRegex;
use crate::re::regex_captures_group1;
use crate::re::regex_replace_all;
use crate::re::regex_replace_first;
use crate::re::regex_valid;
use crate::strutil::spec_dec;

verus! {

/// One output regex with its usage, as the output stage consumes it.
#[derive(Debug)]
pub struct OutputRegex {
    pub usage: crate::RegexUsage,
    pub regex: String,
}

/// The escape sequence the JSON escaper writes for one character.
pub open spec fn spec_escape_char(c: char) -> Seq<char> {
    if c == '"' {
        seq!['\\', '"']
    } else if c == '\\' {
        seq!['\\', '\\']
    } else if c == '\x08' {
        seq!['\\', 'b']
    } else if c == '\x0c' {
        seq!['\\', 'f']
    } else if c == '\n' {
        seq!['\\', 'n']
    } else if c == '\r' {
        seq!['\\', 'r']
    } else if c == '\t' {
        seq!['\\', 't']
    } else {
        seq![c]
    }
}

/// The escaped tail of `s` from position `i` on, with `line_len` characters
/// already on the current output line: each character contributes its
/// escape sequence, and a soft `\n` break is inserted whenever the count
/// since the last (hard or soft) break reaches `width`.
pub open spec fn spec_escape_from(s: Seq<char>, width: int, i: int, line_len: int) -> Seq<char>
    decreases s.len() - i,
{
    if i < 0 || i >= s.len() {
        Seq::empty()
    } else {
        let c = s[i];
        let ll = if c == '\n' || c == '\r' {
            0
        } else {
            line_len + 1
        };
        let piece = spec_escape_char(c);
        if ll >= width {
            piece + seq!['\\', 'n'] + spec_escape_from(s, width, i + 1, 0)
        } else {
            piece + spec_escape_from(s, width, i + 1, ll)
        }
    }
}

/// JSON-style escaping with a soft-wrap column.
pub open spec fn spec_escape(s: Seq<char>, width: int) -> Seq<char> {
    spec_escape_from(s, width, 0, 0)
}

/// The wrap column used when none is configured.
pub open spec fn spec_escape_width(line_width: Option<usize>) -> int {
    match line_width {
        Some(w) => w as int,
        None => 3000,
    }
}

/// Escape `" \ backspace formfeed newline return tab` as their JSON
/// two-character sequences and insert a literal `\n` every `line_width`
/// characters (3000 when unset), counting from the last line break.
#[verifier::rlimit(50)]
pub fn escape_json_string(s: &str, line_width: Option<usize>) -> (r: String)
    ensures
        r@ == spec_escape(s@, spec_escape_width(line_width)),
{
    let width: usize = match line_width {
        Some(w) => w,
        None => 3000,
    };
    let n = s.unicode_len();
    let mut out = String::new();
    let mut line_len: usize = 0;
    let mut i: usize = 0;
    while i < n
        invariant
            n == s@.len(),
            0 <= i <= n,
            width == spec_escape_width(line_width),
            line_len < width || (line_len == 0 && width == 0),
            spec_escape(s@, width as int) =~= out@ + spec_escape_from(
                s@,
                width as int,
                i as int,
                line_len as int,
            ),
        decreases n - i,
    {
        let ghost out0 = out@;
        let ghost ll0 = line_len as int;
        let c = s.get_char(i);
        if c == '"' {
            out.push('\\');
            out.push('"');
        } else if c == '\\' {
            out.push('\\');
            out.push('\\');
        } else if c == '\x08' {
            out.push('\\');
            out.push('b');
        } else if c == '\x0c' {
            out.push('\\');
            out.push('f');
        } else if c == '\n' {
            out.push('\\');
            out.push('n');
        } else if c == '\r' {
            out.push('\\');
            out.push('r');
        } else if c == '\t' {
            out.push('\\');
            out.push('t');
        } else {
            out.push(c);
        }
        if c == '\n' || c == '\r' {
            line_len = 0;
        } else {
            line_len = line_len + 1;
        }
        proof {
            assert(out@ =~= out0 + spec_escape_char(c));
        }
        if line_len >= width {
            out.push('\\');
            out.push('n');
            line_len = 0;
            proof {
                assert(out@ =~= out0 + spec_escape_char(c) + seq!['\\', 'n']);
                assert(spec_escape_from(s@, width as int, i as int, ll0) =~= spec_escape_char(c)
                    + seq!['\\', 'n'] + spec_escape_from(s@, width as int, i + 1, 0));
            }
        } else {
            proof {
                assert(spec_escape_from(s@, width as int, i as int, ll0) =~= spec_escape_char(c)
                    + spec_escape_from(s@, width as int, i + 1, line_len as int));
            }
        }
        i += 1;
    }
    out
}

/// `s` with every leading and trailing newline character removed.
pub open spec fn spec_trim_nl_end(s: Seq<char>) -> Seq<char>
    decreases s.len(),
{
    if s.len() > 0 && s[s.len() - 1] == '\n' {
        spec_trim_nl_end(s.take(s.len() - 1))
    } else {
        s
    }
}

pub open spec fn spec_trim_nl(s: Seq<char>) -> Seq<char>
    decreases s.len(),
{
    if s.len() > 0 && s[0] == '\n' {
        spec_trim_nl(s.drop_first())
    } else {
        spec_trim_nl_end(s)
    }
}

proof fn lemma_trim_start(s: Seq<char>, a: int)
    requires
        0 <= a <= s.len(),
        forall|k: int| 0 <= k < a ==> s[k] == '\n',
        a < s.len() ==> s[a] != '\n',
    ensures
        spec_trim_nl(s) == spec_trim_nl_end(s.subrange(a, s.len() as int)),
    decreases a,
{
    if a == 0 {
        assert(s.subrange(0, s.len() as int) =~= s);
    } else {
        assert(s[0] == '\n');
        lemma_trim_start(s.drop_first(), a - 1);
        assert(s.drop_first().subrange(a - 1, s.len() - 1) =~= s.subrange(a, s.len() as int));
    }
}

proof fn lemma_trim_end(s: Seq<char>, b: int)
    requires
        0 <= b <= s.len(),
        forall|k: int| b <= k < s.len() ==> s[k] == '\n',
        b > 0 ==> s[b - 1] != '\n',
    ensures
        spec_trim_nl_end(s) == s.subrange(0, b),
    decreases s.len(),
{
    if b == s.len() {
        if s.len() > 0 {
            assert(s[s.len() - 1] != '\n');
        }
        assert(s.subrange(0, b) =~= s);
    } else {
        assert(s[s.len() - 1] == '\n');
        lemma_trim_end(s.take(s.len() - 1), b);
        assert(s.take(s.len() - 1).subrange(0, b) =~= s.subrange(0, b));
    }
}

/// `str::trim_matches('\n')`: the string without its leading and trailing
/// newline characters.
pub fn trim_newlines(s: &str) -> (r: String)
    ensures
        r@ == spec_trim_nl(s@),
{
    let n = s.unicode_len();
    let mut a: usize = 0;
    while a < n && s.get_char(a) == '\n'
        invariant
            n == s@.len(),
            0 <= a <= n,
            forall|k: int| 0 <= k < a ==> s@[k] == '\n',
        decreases n - a,
    {
        a += 1;
    }
    let mut b: usize = n;
    while b > a && s.get_char(b - 1) == '\n'
        invariant
            n == s@.len(),
            a <= b <= n,
            forall|k: int| b <= k < n ==> s@[k] == '\n',
        decreases b,
    {
        b -= 1;
    }
    let sub = s.substring_char(a, b);
    proof {
        lemma_trim_start(s@, a as int);
        let tail = s@.subrange(a as int, n as int);
        lemma_trim_end(tail, b - a);
        assert(tail.subrange(0, b - a) =~= s@.subrange(a as int, b as int));
    }
    sub.to_owned()
}

/// `str::replace` semantics for a non-empty needle: every non-overlapping
/// occurrence of `pat` in `s`, scanned left to right, replaced by `to`.
pub open spec fn spec_replace_sub(s: Seq<char>, pat: Seq<char>, to: Seq<char>) -> Seq<char>
    decreases s.len(),
{
    if pat.len() <= 0 {
        s
    } else if s.len() < pat.len() {
        s
    } else if s.take(pat.len() as int) == pat {
        to + spec_replace_sub(s.skip(pat.len() as int), pat, to)
    } else {
        seq![s[0]] + spec_replace_sub(s.drop_first(), pat, to)
    }
}

/// Whether `pat` occurs in `s` at position `i`.
fn matches_at(s: &str, n: usize, i: usize, pat: &str) -> (r: bool)
    requires
        n == s@.len(),
        i <= n,
    ensures
        r == (i + pat@.len() <= s@.len() && s@.subrange(i as int, i + pat@.len()) =~= pat@),
{
    let m = pat.unicode_len();
    if m > n - i {
        return false;
    }
    let mut k: usize = 0;
    while k < m
        invariant
            n == s@.len(),
            m == pat@.len(),
            i + m <= n,
            0 <= k <= m,
            forall|j: int| 0 <= j < k ==> s@[i + j] == pat@[j],
        decreases m - k,
    {
        if s.get_char(i + k) != pat.get_char(k) {
            return false;
        }
        k += 1;
    }
    proof {
        assert(s@.subrange(i as int, i + pat@.len()) =~= pat@);
    }
    true
}

/// Replace every occurrence of the non-empty needle `pat` in `s` by `to`.
pub fn replace_sub(s: &str, pat: &str, to: &str) -> (r: String)
    requires
        pat@.len() > 0,
    ensures
        r@ == spec_replace_sub(s@, pat@, to@),
{
    let n = s.unicode_len();
    let m = pat.unicode_len();
    let mut out = String::new();
    let mut i: usize = 0;
    proof {
        assert(s@.skip(0) =~= s@);
    }
    while i < n
        invariant
            n == s@.len(),
            m == pat@.len(),
            m > 0,
            0 <= i <= n,
            spec_replace_sub(s@, pat@, to@) =~= out@ + spec_replace_sub(
                s@.skip(i as int),
                pat@,
                to@,
            ),
        decreases n - i,
    {
        let ghost out0 = out@;
        let ghost rem = s@.skip(i as int);
        if matches_at(s, n, i, pat) {
            out.append(to);
            proof {
                assert(rem.take(m as int) =~= s@.subrange(i as int, i + m));
                assert(rem.skip(m as int) =~= s@.skip(i + m));
                assert(spec_replace_sub(rem, pat@, to@) =~= to@ + spec_replace_sub(
                    s@.skip(i + m),
                    pat@,
                    to@,
                ));
            }
            i += m;
        } else {
            let c = s.get_char(i);
            out.push(c);
            proof {
                if rem.len() >= m {
                    assert(rem.take(m as int) =~= s@.subrange(i as int, i + m));
                    assert(rem.take(m as int) != pat@);
                }
                assert(rem.drop_first() =~= s@.skip(i + 1));
                assert(spec_replace_sub(rem, pat@, to@) =~= seq![s@[i as int]]
                    + spec_replace_sub(s@.skip(i + 1), pat@, to@));
            }
            i += 1;
        }
    }
    proof {
        assert(s@.skip(n as int) =~= Seq::empty());
        assert(spec_replace_sub(s@.skip(n as int), pat@, to@) =~= Seq::<char>::empty());
    }
    out
}

/// What the shared extraction does: apply the replace regex to the whole
/// response with a literal `\n` replacement, then take capture group 1 of
/// each match of the capture regex.
pub open spec fn spec_text_extract(rep: Seq<char>, cap: Seq<char>, content: Seq<char>) -> Seq<
    Seq<char>,
> {
    regex_captures_group1(cap, regex_replace_all(rep, content, seq!['\\', 'n']))
}

/// Which formatter family is in use.
pub enum FormatKind {
    Text,
    MTool,
    Replace,
}

/// A specification-level description of a formatter: everything its
/// observable behaviour depends on.
pub struct FormatSpec {
    pub kind: FormatKind,
    /// The shared replace pattern applied to the whole response.
    pub rep: Seq<char>,
    /// The shared capture pattern whose group 1 yields the per-line texts.
    pub cap: Seq<char>,
    /// The soft-wrap column for escaping.
    pub width: int,
    /// The user template holding `$trans` (template family only).
    pub expr: Seq<char>,
    /// The user capture pattern applied to the raw line (template family
    /// only).
    pub user_cap: Seq<char>,
}

/// What `extract_lines` yields for a formatter described by `fs`.
pub open spec fn spec_fs_extract(fs: FormatSpec, content: Seq<char>) -> Seq<Seq<char>> {
    spec_text_extract(fs.rep, fs.cap, content)
}

/// What `format_line` yields for a formatter described by `fs`.
pub open spec fn spec_fs_format(fs: FormatSpec, raw: Seq<char>, tran: Seq<char>) -> Seq<char> {
    match fs.kind {
        FormatKind::Text => tran.push('\n'),
        FormatKind::MTool => spec_mtool_format(raw, tran, fs.width),
        FormatKind::Replace => spec_replace_format(fs.user_cap, fs.expr, raw, tran, fs.width),
    }
}

/// The interface the rewriter needs from a formatter family: split one
/// response into per-line strings, and render one translated line.
pub trait RewriteOutput: Sized {
    /// The description of this formatter's behaviour.
    spec fn fs(&self) -> FormatSpec;

    fn extract_lines(&self, content: &str) -> (r: Vec<String>)
        ensures
            r.deep_view() == spec_fs_extract(self.fs(), content@),
    ;

    fn format_line(&self, raw: &str, content: &str) -> (r: String)
        ensures
            r@ == spec_fs_format(self.fs(), raw@, content@),
    ;
}

pub struct TextOutput {
    pub replace_rule: CompiledRegex,
    pub capture_rule: CompiledRegex,
}

impl TextOutput {
    pub fn new(replace_rule: &str, capture_rule: &str) -> (r: TextOutput)
        requires
            regex_valid(replace_rule@),
            regex_valid(capture_rule@),
        ensures
            r.replace_rule.pattern_view() == replace_rule@,
            r.capture_rule.pattern_view() == capture_rule@,
    {
        TextOutput {
            replace_rule: CompiledRegex::compile(replace_rule).unwrap(),
            capture_rule: CompiledRegex::compile(capture_rule).unwrap(),
        }
    }
}

impl RewriteOutput for TextOutput {
    open spec fn fs(&self) -> FormatSpec {
        FormatSpec {
            kind: FormatKind::Text,
            rep: self.replace_rule.pattern_view(),
            cap: self.capture_rule.pattern_view(),
            width: 3000,
            expr: Seq::empty(),
            user_cap: Seq::empty(),
        }
    }

    fn extract_lines(&self, content: &str) -> (r: Vec<String>) {
        proof {
            reveal_strlit("\\n");
            assert("\\n"@ =~= seq!['\\', 'n']);
        }
        let replaced = self.replace_rule.replace_all(content, "\\n");
        self.capture_rule.captures_group1(replaced.as_str())
    }

    fn format_line(&self, _raw: &str, content: &str) -> (r: String) {
        let mut out = content.to_owned();
        out.push('\n');
        out
    }
}

pub struct MToolOutput {
    pub text_output: TextOutput,
    pub line_width: Option<usize>,
}

impl MToolOutput {
    pub fn new(replace_rule: &str, capture_rule: &str) -> (r: MToolOutput)
        requires
            regex_valid(replace_rule@),
            regex_valid(capture_rule@),
        ensures
            r.text_output.replace_rule.pattern_view() == replace_rule@,
            r.text_output.capture_rule.pattern_view() == capture_rule@,
            r.line_width is None,
    {
        MToolOutput { text_output: TextOutput::new(replace_rule, capture_rule), line_width: None }
    }

    pub fn set_line_width(&mut self, line_width: Option<usize>)
        ensures
            final(self).line_width == line_width,
            final(self).text_output == old(self).text_output,
    {
        self.line_width = line_width;
    }
}

/// The `"key": "value",` line the map formatter writes.
pub open spec fn spec_mtool_format(raw: Seq<char>, tran: Seq<char>, width: int) -> Seq<char> {
    seq!['"'] + spec_trim_nl(raw) + seq!['"', ':', ' ', '"'] + spec_escape(tran, width) + seq![
        '"',
        ',',
        '\n',
    ]
}

impl RewriteOutput for MToolOutput {
    open spec fn fs(&self) -> FormatSpec {
        FormatSpec {
            kind: FormatKind::MTool,
            rep: self.text_output.replace_rule.pattern_view(),
            cap: self.text_output.capture_rule.pattern_view(),
            width: spec_escape_width(self.line_width),
            expr: Seq::empty(),
            user_cap: Seq::empty(),
        }
    }

    fn extract_lines(&self, content: &str) -> (r: Vec<String>) {
        self.text_output.extract_lines(content)
    }

    fn format_line(&self, raw: &str, content: &str) -> (r: String) {
        let mut out = String::new();
        out.push('"');
        let trimmed = trim_newlines(raw);
        out.append(trimmed.as_str());
        out.push('"');
        out.push(':');
        out.push(' ');
        out.push('"');
        let escaped = escape_json_string(content, self.line_width);
        out.append(escaped.as_str());
        out.push('"');
        out.push(',');
        out.push('\n');
        proof {
            assert(out@ =~= spec_fs_format(self.fs(), raw@, content@));
        }
        out
    }
}

pub struct ReplaceOutput {
    pub text_output: TextOutput,
    pub line_width: Option<usize>,
    pub replace_expression: String,
    pub capture_regex: CompiledRegex,
}

impl ReplaceOutput {
    pub fn new(replace_rule: &str, capture_rule: &str, replace_expression: &str, capture_regex: &str)
        -> (r: ReplaceOutput)
        requires
            regex_valid(replace_rule@),
            regex_valid(capture_rule@),
            regex_valid(capture_regex@),
        ensures
            r.text_output.replace_rule.pattern_view() == replace_rule@,
            r.text_output.capture_rule.pattern_view() == capture_rule@,
            r.replace_expression@ == replace_expression@,
            r.capture_regex.pattern_view() == capture_regex@,
            r.line_width is None,
    {
        ReplaceOutput {
            text_output: TextOutput::new(replace_rule, capture_rule),
            line_width: None,
            replace_expression: replace_expression.to_owned(),
            capture_regex: CompiledRegex::compile(capture_regex).unwrap(),
        }
    }

    pub fn set_line_width(&mut self, line_width: Option<usize>)
        ensures
            final(self).line_width == line_width,
            final(self).text_output == old(self).text_output,
            final(self).replace_expression == old(self).replace_expression,
            final(self).capture_regex == old(self).capture_regex,
    {
        self.line_width = line_width;
    }
}

/// The template formatter's output line: escape the translation, substitute
/// it for `$trans` in the user template, and replace the first match of the
/// user capture regex in the raw line with the filled template.
pub open spec fn spec_replace_format(
    cap: Seq<char>,
    expr: Seq<char>,
    raw: Seq<char>,
    tran: Seq<char>,
    width: int,
) -> Seq<char> {
    regex_replace_first(cap, raw, spec_replace_sub(expr, "$trans"@, spec_escape(tran, width)))
}

impl RewriteOutput for ReplaceOutput {
    open spec fn fs(&self) -> FormatSpec {
        FormatSpec {
            kind: FormatKind::Replace,
            rep: self.text_output.replace_rule.pattern_view(),
            cap: self.text_output.capture_rule.pattern_view(),
            width: spec_escape_width(self.line_width),
            expr: self.replace_expression@,
            user_cap: self.capture_regex.pattern_view(),
        }
    }

    fn extract_lines(&self, content: &str) -> (r: Vec<String>) {
        self.text_output.extract_lines(content)
    }

    fn format_line(&self, raw: &str, content: &str) -> (r: String) {
        let escaped = escape_json_string(content, self.line_width);
        proof {
            reveal_strlit("$trans");
        }
        let filled = replace_sub(self.replace_expression.as_str(), "$trans", escaped.as_str());
        self.capture_regex.replace_first(raw, filled.as_str())
    }
}

} // verus!
