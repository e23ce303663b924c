//! The chat-completion translator backend: the wire-format data model, the
//! token-bounded batcher, the round-robin credential pool, and the client's
//! request template.  The HTTP transport itself lives outside the library;
//! everything the request and response carry is built and checked here.

use vstd::prelude::*;
use vstd::string::*;

use crate::strutil::push_dec;
use crate::strutil::spec_dec;
use crate::textures::TextureLine;
use crate::textures::Textures;
use crate::textures::TranslatedLine;
use crate::textures::Translator;
use crate::tok::Tokenizer;
use crate::tok::cl100k_token_count;
use crate::translator::BatchPackage;
use crate::translator::Batchizer;
use crate::translator::ConcurrentTranslate;
use vstd::arithmetic::div_mod::lemma_fundamental_div_mod;
use vstd::arithmetic::div_mod::lemma_fundamental_div_mod_converse;

verus! {

#[derive(Debug, Clone, Copy, PartialEq, Eq, Structural)]
pub enum ChatCompletionRole {
    System,
    User,
    Assistant,
}

#[derive(Debug)]
pub struct ChatCompletionMessage {
    pub role: ChatCompletionRole,
    pub content: String,
}

impl ChatCompletionMessage {
    pub fn new(role: ChatCompletionRole, content: &str) -> (r: Self)
        ensures
            r.role == role,
            r.content@ == content@,
    {
        Self { role, content: content.to_owned() }
    }
}

impl Clone for ChatCompletionMessage {
    fn clone(&self) -> (r: Self)
        ensures
            r == *self,
    {
        ChatCompletionMessage { role: self.role, content: self.content.clone() }
    }
}

/// The request body of one chat-completion call.  The optional sampling
/// parameters the wire format also allows are filled in, unset, by the
/// transport layer.
#[derive(Debug)]
pub struct ChatCompletionRequest {
    pub model: String,
    pub messages: Vec<ChatCompletionMessage>,
    pub n: Option<u32>,
    pub stream: Option<bool>,
    pub stop: Option<Vec<String>>,
    pub max_tokens: Option<u32>,
    pub user: Option<String>,
}

impl Default for ChatCompletionRequest {
    fn default() -> (r: Self)
        ensures
            r.model@ == "gpt-3.5-turbo"@,
            r.messages@ == Seq::<ChatCompletionMessage>::empty(),
            r.n is None,
            r.stream == Some(false),
            r.stop is None,
            r.max_tokens is None,
            r.user is None,
    {
        Self {
            model: "gpt-3.5-turbo".to_owned(),
            messages: Vec::new(),
            n: None,
            stream: Some(false),
            stop: None,
            max_tokens: None,
            user: None,
        }
    }
}

#[derive(Debug)]
pub struct ChatCompletionResponse {
    pub id: String,
    pub object: String,
    pub created: u64,
    pub choices: Vec<ChatCompletionChoice>,
    pub usage: ChatComplectionUsage,
}

#[derive(Debug)]
pub struct ChatCompletionChoice {
    pub index: u32,
    pub message: ChatCompletionMessage,
    pub finish_reason: String,
}

#[derive(Debug)]
pub struct ChatComplectionUsage {
    pub prompt_tokens: u32,
    pub completion_tokens: u32,
    pub total_tokens: u32,
}

/// One credential of the API pool.
#[derive(Debug)]
pub struct ChatGPTAPI {
    pub api_key: String,
    pub api_url: String,
    pub org_id: Option<String>,
}

#[derive(Debug)]
pub struct ChatGPTOptions {
    pub api_pool: Vec<ChatGPTAPI>,
    pub prompt_path: Option<String>,
    pub max_concurrent: i32,
}

/// The per-worker client: one credential plus the request template whose
/// messages hold the configured prompt preamble.
#[derive(Debug)]
pub struct ChatGPTClient {
    pub api_key: String,
    pub api_url: String,
    pub org_id: Option<String>,
    pub request: ChatCompletionRequest,
}

impl ChatGPTClient {
    /// An empty key or URL is a fatal configuration error and is ruled out
    /// up front.
    pub fn new(
        api_key: &str,
        api_url: &str,
        prompts: Option<Vec<ChatCompletionMessage>>,
        org_id: Option<String>,
    ) -> (r: Self)
        requires
            api_key@.len() > 0,
            api_url@.len() > 0,
        ensures
            r.api_key@ == api_key@,
            r.api_url@ == api_url@,
            r.org_id == org_id,
            r.request.model@ == "gpt-3.5-turbo"@,
            r.request.stream == Some(false),
            (match prompts {
                Some(p) => r.request.messages@ == p@,
                None => r.request.messages@ == Seq::<ChatCompletionMessage>::empty(),
            }),
    {
        let mut request = ChatCompletionRequest::default();
        if let Some(p) = prompts {
            request.messages = p;
        }
        ChatGPTClient {
            api_key: api_key.to_owned(),
            api_url: api_url.to_owned(),
            org_id,
            request,
        }
    }

    /// The body of one call: the template's preamble messages followed by
    /// the batch's messages.
    pub fn build_request(&self, messages: Vec<ChatCompletionMessage>) -> (r: ChatCompletionRequest)
        ensures
            r.model@ == self.request.model@,
            r.messages@ == self.request.messages@ + messages@,
            r.n == self.request.n,
            r.stream == self.request.stream,
            r.stop is None,
            r.max_tokens == self.request.max_tokens,
            (match self.request.user {
                Some(ref u) => r.user matches Some(w) && w@ == u@,
                None => r.user is None,
            }),
    {
        let mut all: Vec<ChatCompletionMessage> = Vec::new();
        let mut i: usize = 0;
        while i < self.request.messages.len()
            invariant
                0 <= i <= self.request.messages@.len(),
                all@ =~= self.request.messages@.subrange(0, i as int),
            decreases self.request.messages@.len() - i,
        {
            all.push(self.request.messages[i].clone());
            i += 1;
        }
        proof {
            assert(all@ =~= self.request.messages@);
        }
        let mut j: usize = 0;
        while j < messages.len()
            invariant
                0 <= j <= messages@.len(),
                all@ =~= self.request.messages@ + messages@.subrange(0, j as int),
            decreases messages@.len() - j,
        {
            all.push(messages[j].clone());
            j += 1;
        }
        proof {
            assert(all@ =~= self.request.messages@ + messages@);
        }
        ChatCompletionRequest {
            model: self.request.model.clone(),
            messages: all,
            n: self.request.n,
            stream: self.request.stream,
            stop: None,
            max_tokens: self.request.max_tokens,
            user: clone_opt_string(&self.request.user),
        }
    }
}

fn clone_opt_string(s: &Option<String>) -> (r: Option<String>)
    ensures
        (match s {
            Some(v) => r matches Some(w) && w@ == v@,
            None => r is None,
        }),
{
    match s {
        Some(v) => Some(v.clone()),
        None => None,
    }
}

/// The first choice's message text, tagged for the batch range; `None`
/// when the response carries no choice at all.
pub fn translated_from_response(resp: &ChatCompletionResponse, start: usize, end: usize) -> (r:
    Option<TranslatedLine>)
    ensures
        r is Some <==> resp.choices@.len() > 0,
        r matches Some(t) ==> {
            &&& t.translator == Translator::ChatGPT
            &&& t.content@ == resp.choices@[0].message.content@
            &&& t.batch_range == (start, end)
        },
{
    if resp.choices.len() > 0 {
        Some(
            TranslatedLine::new(
                Translator::ChatGPT,
                resp.choices[0].message.content.clone(),
                start,
                end,
            ),
        )
    } else {
        None
    }
}

/// The first character of a line's content, if any: the batcher's
/// same-prefix grouping key.
pub open spec fn spec_first_char(s: Seq<char>) -> Option<char> {
    if s.len() > 0 {
        Some(s[0])
    } else {
        None
    }
}

/// Addition that saturates at the machine limit, as the running token
/// tally does.
pub open spec fn spec_sat_add(a: int, b: int) -> int {
    if a + b > usize::MAX {
        usize::MAX as int
    } else {
        a + b
    }
}

/// The first line index at which the token-bounded batch starting at
/// `start` ends, given that the walk has reached line `i` with `cum`
/// tokens tallied and `prefix` the previous line's first character.  The
/// walk stops before a line whose first character differs from the
/// previous line's once the tally exceeds the budget — but never before a
/// non-empty batch's first line.
pub open spec fn spec_batch_end(
    lines: Seq<TextureLine>,
    max: int,
    start: int,
    i: int,
    cum: int,
    prefix: Option<char>,
) -> int
    decreases lines.len() - i,
{
    if i < 0 || i >= lines.len() {
        i
    } else {
        let tok = cl100k_token_count(lines[i].content@) as int;
        let cum2 = spec_sat_add(cum, tok);
        let pa = spec_first_char(lines[i].content@);
        if pa != prefix && cum2 > max && i > start {
            i
        } else {
            spec_batch_end(lines, max, start, i + 1, cum2, pa)
        }
    }
}

/// How many consecutive lines the token-bounded batch starting at `start`
/// consumes.
pub open spec fn spec_batch_size(lines: Seq<TextureLine>, max: int, start: int) -> int {
    spec_batch_end(lines, max, start, start, 0, None) - start
}

/// One numbered prompt line: `(k) content` plus a newline.
pub open spec fn spec_numbered_line(k: int, content: Seq<char>) -> Seq<char> {
    seq!['('] + spec_dec(k) + seq![')', ' '] + content + seq!['\n']
}

/// The prompt body for the batch of `size` lines starting at `start`,
/// numbered from one.
pub open spec fn spec_batch_payload(lines: Seq<TextureLine>, start: int, size: int) -> Seq<char>
    decreases size,
{
    if size <= 0 {
        Seq::empty()
    } else {
        spec_batch_payload(lines, start, size - 1) + spec_numbered_line(
            size,
            lines[start + size - 1].content@,
        )
    }
}

proof fn lemma_batch_end_bounds(
    lines: Seq<TextureLine>,
    max: int,
    start: int,
    i: int,
    cum: int,
    prefix: Option<char>,
)
    requires
        0 <= start <= i <= lines.len(),
    ensures
        i <= spec_batch_end(lines, max, start, i, cum, prefix) <= lines.len(),
    decreases lines.len() - i,
{
    if i < lines.len() {
        let tok = cl100k_token_count(lines[i].content@) as int;
        let cum2 = spec_sat_add(cum, tok);
        let pa = spec_first_char(lines[i].content@);
        if !(pa != prefix && cum2 > max && i > start) {
            lemma_batch_end_bounds(lines, max, start, i + 1, cum2, pa);
        }
    }
}

/// The batcher always advances: a batch starting on an existing line takes
/// at least that line, and never runs past the end.
pub proof fn lemma_batcher_monotonic(lines: Seq<TextureLine>, max: int, start: int)
    requires
        0 <= start < lines.len(),
    ensures
        1 <= spec_batch_size(lines, max, start),
        start + spec_batch_size(lines, max, start) <= lines.len(),
{
    let tok = cl100k_token_count(lines[start].content@) as int;
    let cum2 = spec_sat_add(0, tok);
    let pa = spec_first_char(lines[start].content@);
    lemma_batch_end_bounds(lines, max, start, start + 1, cum2, pa);
}

/// The saturating token tally of lines `start..=k`.
pub open spec fn spec_tok_sum(lines: Seq<TextureLine>, start: int, k: int) -> int
    decreases k - start + 1,
{
    if k < start {
        0
    } else {
        spec_sat_add(spec_tok_sum(lines, start, k - 1), cl100k_token_count(lines[k].content@) as int)
    }
}

proof fn lemma_budget_walk(
    lines: Seq<TextureLine>,
    max: int,
    start: int,
    i: int,
    cum: int,
    prefix: Option<char>,
    k: int,
)
    requires
        0 <= start <= i <= k,
        start < k < lines.len(),
        cum == spec_tok_sum(lines, start, i - 1),
        i > start ==> prefix == spec_first_char(lines[i - 1].content@),
        i == start ==> prefix is None && cum == 0,
        k < spec_batch_end(lines, max, start, i, cum, prefix),
    ensures
        spec_first_char(lines[k].content@) == spec_first_char(lines[k - 1].content@)
            || spec_tok_sum(lines, start, k) <= max,
    decreases k - i,
{
    let tok = cl100k_token_count(lines[i].content@) as int;
    let cum2 = spec_sat_add(cum, tok);
    let pa = spec_first_char(lines[i].content@);
    assert(cum2 == spec_tok_sum(lines, start, i));
    if i == k {
        assert(!(pa != prefix && cum2 > max && i > start));
    } else {
        lemma_budget_walk(lines, max, start, i + 1, cum2, pa, k);
    }
}

/// Batch sizes respect the token budget unless same-prefix grouping holds
/// the batch open: every line of the batch after the first either shares
/// its first character with the line before it, or was taken while the
/// tally up to and including it still fit the budget.
pub proof fn lemma_batcher_budget(lines: Seq<TextureLine>, max: int, start: int, k: int)
    requires
        0 <= start < lines.len(),
        start < k < start + spec_batch_size(lines, max, start),
    ensures
        spec_first_char(lines[k].content@) == spec_first_char(lines[k - 1].content@)
            || spec_tok_sum(lines, start, k) <= max,
{
    lemma_batch_end_bounds(lines, max, start, start, 0, None);
    lemma_budget_walk(lines, max, start, start, 0, None, k);
}

/// Groups lines under a token budget, keeping runs of lines that share a
/// first character together even past the budget.
pub struct TokenizedBatchizer {
    pub bep: Tokenizer,
    pub max_tokens: usize,
}

fn opt_char_eq(a: Option<char>, b: Option<char>) -> (r: bool)
    ensures
        r == (a == b),
{
    match (a, b) {
        (Some(x), Some(y)) => x == y,
        (None, None) => true,
        _ => false,
    }
}

impl Batchizer<ChatCompletionMessage> for TokenizedBatchizer {
    open spec fn spec_size(&self, lines: Seq<TextureLine>, index: int) -> int {
        spec_batch_size(lines, self.max_tokens as int, index)
    }

    open spec fn spec_post(
        &self,
        lines: Seq<TextureLine>,
        index: int,
        msgs: Seq<ChatCompletionMessage>,
        size: int,
    ) -> bool {
        &&& msgs.len() == 1
        &&& msgs[0].role == ChatCompletionRole::User
        &&& msgs[0].content@ == spec_batch_payload(lines, index, size)
    }

    #[verifier::rlimit(100)]
    fn batchize(&self, textures: &Textures, start: usize) -> (r: (
        Vec<ChatCompletionMessage>,
        usize,
    )) {
        let ghost lines = textures.lines@;
        let ghost maxi = self.max_tokens as int;
        let n = textures.lines.len();
        let mut content_acc = String::new();
        let mut idx: usize = start;
        let mut size: usize = 0;
        let mut cum: usize = 0;
        let mut prefix: Option<char> = None;
        let mut done: bool = false;
        while !done && idx < n
            invariant
                lines == textures.lines@,
                n == lines.len(),
                maxi == self.max_tokens as int,
                start <= idx,
                idx <= n || idx == start,
                size == idx - start,
                content_acc@ == spec_batch_payload(lines, start as int, size as int),
                cum as int == spec_tok_sum(lines, start as int, idx - 1),
                idx > start ==> prefix == spec_first_char(lines[idx - 1].content@),
                idx == start ==> prefix is None && cum == 0,
                !done ==> spec_batch_end(lines, maxi, start as int, idx as int, cum as int, prefix)
                    == spec_batch_end(lines, maxi, start as int, start as int, 0, None),
                done ==> idx as int == spec_batch_end(
                    lines,
                    maxi,
                    start as int,
                    start as int,
                    0,
                    None,
                ),
            decreases n - idx + (if done {
                0int
            } else {
                1int
            }),
        {
            let tok = self.bep.count(textures.lines[idx].content.as_str());
            let cum2: usize = if tok > usize::MAX - cum {
                usize::MAX
            } else {
                cum + tok
            };
            let pa: Option<char> = if textures.lines[idx].content.as_str().unicode_len() > 0 {
                Some(textures.lines[idx].content.as_str().get_char(0))
            } else {
                None
            };
            proof {
                assert(pa == spec_first_char(lines[idx as int].content@));
                assert(cum2 as int == spec_sat_add(
                    cum as int,
                    cl100k_token_count(lines[idx as int].content@) as int,
                ));
            }
            let same = opt_char_eq(pa, prefix);
            if !same && cum2 > self.max_tokens && size > 0 {
                done = true;
            } else {
                let ghost acc0 = content_acc@;
                content_acc.push('(');
                push_dec(&mut content_acc, size + 1);
                content_acc.push(')');
                content_acc.push(' ');
                content_acc.append(textures.lines[idx].content.as_str());
                content_acc.push('\n');
                proof {
                    assert(content_acc@ =~= acc0 + spec_numbered_line(
                        size + 1,
                        lines[start + size].content@,
                    ));
                    assert(spec_batch_payload(lines, start as int, size + 1)
                        == spec_batch_payload(lines, start as int, size as int)
                        + spec_numbered_line(size + 1, lines[start + size].content@));
                }
                cum = cum2;
                prefix = pa;
                idx += 1;
                size += 1;
            }
        }
        proof {
            if !done {
                assert(idx >= n);
                assert(spec_batch_end(lines, maxi, start as int, idx as int, cum as int, prefix)
                    == idx as int);
            }
            assert(size as int == spec_batch_size(lines, maxi, start as int));
        }
        let msg = ChatCompletionMessage::new(ChatCompletionRole::User, content_acc.as_str());
        (vec![msg], size)
    }

    proof fn spec_size_progress(&self, lines: Seq<TextureLine>, index: int) {
        lemma_batcher_monotonic(lines, self.max_tokens as int, index);
    }
}

/// The fixed-size split of one reprocessing range: sub-ranges of at most
/// four lines, in order.
pub open spec fn spec_subranges(s: int, e: int) -> Seq<(int, int)>
    decreases e - s,
{
    if s > e {
        Seq::empty()
    } else if e - s < 4 {
        seq![(s, e)]
    } else {
        seq![(s, s + 3)] + spec_subranges(s + 4, e)
    }
}

/// All the sub-ranges of a reprocessing range list, in order.
pub open spec fn spec_ranges_flat(rs: Seq<(usize, usize)>) -> Seq<(int, int)>
    decreases rs.len(),
{
    if rs.len() == 0 {
        Seq::empty()
    } else {
        spec_subranges(rs[0].0 as int, rs[0].1 as int) + spec_ranges_flat(rs.drop_first())
    }
}

/// The prompt body of one fixed-size sub-batch of `cnt` lines starting at
/// `s`: each line numbered from two upward, a dot and space, the content,
/// and a newline.
pub open spec fn spec_sub_payload(lines: Seq<TextureLine>, s: int, cnt: int) -> Seq<char>
    decreases cnt,
{
    if cnt <= 0 {
        Seq::empty()
    } else {
        spec_sub_payload(lines, s, cnt - 1) + spec_dec(cnt + 1) + seq!['.', ' '] + lines[s + cnt
            - 1].content@ + seq!['\n']
    }
}

/// The index ranges of a queue's batches, in queue order.
pub open spec fn queue_ranges(q: Seq<BatchPackage<ChatCompletionMessage>>) -> Seq<(int, int)> {
    Seq::new(q.len(), |j: int| (q[j].1.0 as int, q[j].1.1 as int))
}

/// One well-formed sub-batch: a single user message whose content is the
/// numbered rendering of the lines its range covers.
pub open spec fn spec_sub_batch_wf(
    lines: Seq<TextureLine>,
    b: BatchPackage<ChatCompletionMessage>,
) -> bool {
    &&& b.0@.len() == 1
    &&& b.0@[0].role == ChatCompletionRole::User
    &&& b.0@[0].content@ == spec_sub_payload(lines, b.1.0 as int, b.1.1 - b.1.0 + 1)
    &&& b.1.0 <= b.1.1
}

proof fn lemma_flat_push(rs: Seq<(usize, usize)>, x: (usize, usize))
    ensures
        spec_ranges_flat(rs.push(x)) == spec_ranges_flat(rs) + spec_subranges(
            x.0 as int,
            x.1 as int,
        ),
    decreases rs.len(),
{
    if rs.len() == 0 {
        assert(rs.push(x)[0] == x);
        assert(rs.push(x).drop_first() =~= Seq::<(usize, usize)>::empty());
        assert(spec_ranges_flat(rs) == Seq::<(int, int)>::empty());
        assert(spec_ranges_flat(rs.push(x).drop_first()) == Seq::<(int, int)>::empty());
        assert(spec_ranges_flat(rs.push(x)) == spec_subranges(x.0 as int, x.1 as int)
            + spec_ranges_flat(rs.push(x).drop_first()));
        assert(spec_ranges_flat(rs.push(x)) =~= spec_ranges_flat(rs) + spec_subranges(
            x.0 as int,
            x.1 as int,
        ));
    } else {
        assert(rs.push(x)[0] == rs[0]);
        assert(rs.push(x).drop_first() =~= rs.drop_first().push(x));
        lemma_flat_push(rs.drop_first(), x);
        assert(spec_ranges_flat(rs.push(x)) == spec_subranges(rs[0].0 as int, rs[0].1 as int)
            + spec_ranges_flat(rs.drop_first().push(x)));
        assert(spec_ranges_flat(rs) == spec_subranges(rs[0].0 as int, rs[0].1 as int)
            + spec_ranges_flat(rs.drop_first()));
        assert(spec_ranges_flat(rs.push(x)) =~= spec_ranges_flat(rs) + spec_subranges(
            x.0 as int,
            x.1 as int,
        ));
    }
}

/// Reverse a vector (the queue is reversed so workers popping from the
/// tail drain in source order).
fn reversed<T>(v: Vec<T>) -> (r: Vec<T>)
    ensures
        r@.len() == v@.len(),
        forall|q: int| 0 <= q < v@.len() ==> r@[q] == v@[v@.len() - 1 - q],
{
    let mut src = v;
    let ghost v0 = src@;
    let mut out: Vec<T> = Vec::new();
    while src.len() > 0
        invariant
            out@.len() + src@.len() == v0.len(),
            src@ =~= v0.subrange(0, src@.len() as int),
            forall|q: int| 0 <= q < out@.len() ==> out@[q] == v0[v0.len() - 1 - q],
        decreases src@.len(),
    {
        let x = src.pop().unwrap();
        out.push(x);
    }
    out
}

/// Build the fixed-size sub-batch queue for a reprocessing range list:
/// each range split into sub-batches of at most four lines, the whole
/// queue reversed so that popping from the tail drains in source order.
/// With no range list the queue is empty.
#[verifier::rlimit(100)]
pub fn line_count_batchized(
    textures: &Textures,
    specify_range: &Option<Vec<(usize, usize)>>,
) -> (r: Vec<BatchPackage<ChatCompletionMessage>>)
    requires
        (match specify_range {
            Some(rs) => forall|q: int|
                0 <= q < rs@.len() ==> (#[trigger] rs@[q]).0 <= rs@[q].1 && (rs@[q].1 as int)
                    < textures.lines@.len(),
            None => true,
        }),
    ensures
        (match specify_range {
            None => r@.len() == 0,
            Some(rs) => {
                let flat = spec_ranges_flat(rs@);
                &&& r@.len() == flat.len()
                &&& forall|q: int|
                    0 <= q < flat.len() ==> {
                        let fr = flat[flat.len() - 1 - q];
                        &&& spec_sub_batch_wf(textures.lines@, #[trigger] r@[q])
                        &&& r@[q].1.0 as int == fr.0
                        &&& r@[q].1.1 as int == fr.1
                        &&& (r@[q].1.1 as int) < textures.lines@.len()
                    }
            },
        }),
{
    let ghost lines = textures.lines@;
    let nn: usize = textures.lines.len();
    let mut queue: Vec<BatchPackage<ChatCompletionMessage>> = Vec::new();
    match specify_range {
        None => {},
        Some(rs) => {
            let mut ri: usize = 0;
            while ri < rs.len()
                invariant
                    lines == textures.lines@,
                    nn == lines.len(),
                    0 <= ri <= rs@.len(),
                    forall|q: int|
                        0 <= q < rs@.len() ==> (#[trigger] rs@[q]).0 <= rs@[q].1 && (rs@[q].1
                            as int) < lines.len(),
                    queue_ranges(queue@) =~= spec_ranges_flat(rs@.subrange(0, ri as int)),
                    forall|q: int|
                        0 <= q < queue@.len() ==> spec_sub_batch_wf(lines, #[trigger] queue@[q])
                            && (queue@[q].1.1 as int) < lines.len(),
                decreases rs@.len() - ri,
            {
                let s = rs[ri].0;
                let e = rs[ri].1;
                let ghost flat_before = queue_ranges(queue@);
                let mut i: usize = s;
                let mut cs: usize = s;
                let mut size: usize = 0;
                let mut content = String::new();
                while i <= e
                    invariant
                        lines == textures.lines@,
                        nn == lines.len(),
                        s <= cs <= i,
                        i <= e + 1,
                        (e as int) < lines.len(),
                        size == i - cs,
                        size <= 3,
                        i > e ==> size == 0,
                        content@ == spec_sub_payload(lines, cs as int, size as int),
                        queue_ranges(queue@) + spec_subranges(cs as int, e as int) =~= flat_before
                            + spec_subranges(s as int, e as int),
                        forall|q: int|
                            0 <= q < queue@.len() ==> spec_sub_batch_wf(lines, #[trigger] queue@[q])
                                && (queue@[q].1.1 as int) < lines.len(),
                    decreases e + 1 - i,
                {
                    let ghost content0 = content@;
                    size += 1;
                    push_dec(&mut content, size + 1);
                    content.push('.');
                    content.push(' ');
                    content.append(textures.lines[i].content.as_str());
                    content.push('\n');
                    proof {
                        assert(cs + size - 1 == i);
                        assert(content@ =~= content0 + spec_dec(size + 1) + seq!['.', ' ']
                            + lines[i as int].content@ + seq!['\n']);
                        assert(content@ =~= spec_sub_payload(lines, cs as int, size as int));
                    }
                    if size == 4 || i == e {
                        let ghost q0 = queue@;
                        let msg = ChatCompletionMessage::new(
                            ChatCompletionRole::User,
                            content.as_str(),
                        );
                        queue.push((vec![msg], (cs, i)));
                        content = String::new();
                        proof {
                            assert(queue_ranges(queue@) =~= queue_ranges(q0).push(
                                (cs as int, i as int),
                            ));
                            assert(spec_subranges(cs as int, e as int) =~= seq![
                                (cs as int, i as int),
                            ] + spec_subranges(i + 1, e as int));
                            assert(spec_sub_batch_wf(lines, queue@[q0.len() as int]));
                            assert(queue_ranges(queue@) + spec_subranges(i + 1, e as int)
                                =~= queue_ranges(q0) + spec_subranges(cs as int, e as int));
                        }
                        size = 0;
                        cs = i + 1;
                    }
                    i += 1;
                }
                proof {
                    assert(cs as int > e as int);
                    assert(spec_subranges(cs as int, e as int) =~= Seq::<(int, int)>::empty());
                    assert(queue_ranges(queue@) =~= flat_before + spec_subranges(
                        s as int,
                        e as int,
                    ));
                    assert(rs@.subrange(0, ri + 1) =~= rs@.subrange(0, ri as int).push(
                        rs@[ri as int],
                    ));
                    lemma_flat_push(rs@.subrange(0, ri as int), rs@[ri as int]);
                    assert(queue_ranges(queue@) =~= spec_ranges_flat(rs@.subrange(0, ri + 1)));
                }
                ri += 1;
            }
            proof {
                assert(rs@.subrange(0, rs@.len() as int) =~= rs@);
            }
        },
    }
    let ghost qfinal = queue@;
    let r = reversed(queue);
    proof {
        match specify_range {
            Some(rs) => {
                let flat = spec_ranges_flat(rs@);
                assert(queue_ranges(qfinal) =~= flat);
                assert(qfinal.len() == flat.len());
                assert forall|q: int| 0 <= q < flat.len() implies {
                    let fr = flat[flat.len() - 1 - q];
                    &&& spec_sub_batch_wf(textures.lines@, #[trigger] r@[q])
                    &&& r@[q].1.0 as int == fr.0
                    &&& r@[q].1.1 as int == fr.1
                    &&& (r@[q].1.1 as int) < textures.lines@.len()
                } by {
                    assert(r@[q] == qfinal[qfinal.len() - 1 - q]);
                    assert(queue_ranges(qfinal)[qfinal.len() - 1 - q] == (
                        qfinal[qfinal.len() - 1 - q].1.0 as int,
                        qfinal[qfinal.len() - 1 - q].1.1 as int,
                    ));
                }
            },
            None => {},
        }
    }
    r
}

fn clone_messages(v: &Vec<ChatCompletionMessage>) -> (r: Vec<ChatCompletionMessage>)
    ensures
        r@ == v@,
{
    let mut out: Vec<ChatCompletionMessage> = Vec::new();
    let mut i: usize = 0;
    while i < v.len()
        invariant
            0 <= i <= v@.len(),
            out@ =~= v@.subrange(0, i as int),
        decreases v@.len() - i,
    {
        out.push(v[i].clone());
        i += 1;
    }
    proof {
        assert(out@ =~= v@);
    }
    out
}

/// The chat-completion translator backend: the credential pool, the
/// optional reprocessing range list, the prompt preamble, and a counter
/// that deals credentials out round-robin.
#[derive(Debug)]
pub struct TranslateChatGPT {
    pub specify_range: Option<Vec<(usize, usize)>>,
    pub api_pool: Vec<ChatGPTAPI>,
    pub prompt_path: Option<String>,
    pub max_concurrent: i32,
    /// How many clients have been created so far; advanced by
    /// `create_client`.
    pub client_count: usize,
    /// The prompt preamble messages, if any, handed in already loaded.
    pub prompts: Option<Vec<ChatCompletionMessage>>,
}

impl TranslateChatGPT {
    /// How many clients have been created so far.
    pub open spec fn spec_client_count(&self) -> int {
        self.client_count as int
    }

    /// The prompt preamble messages, if any.
    pub open spec fn spec_prompts(&self) -> Option<Seq<ChatCompletionMessage>> {
        match self.prompts {
            Some(ref p) => Some(p@),
            None => None,
        }
    }

    /// An empty API pool is a fatal configuration error and is ruled out
    /// up front.  The prompt preamble is handed in already loaded.
    pub fn new(
        opt: ChatGPTOptions,
        specify_range: Option<Vec<(usize, usize)>>,
        prompts: Option<Vec<ChatCompletionMessage>>,
    ) -> (r: Self)
        requires
            opt.api_pool@.len() > 0,
        ensures
            r.api_pool == opt.api_pool,
            r.prompt_path == opt.prompt_path,
            r.max_concurrent == opt.max_concurrent,
            r.specify_range == specify_range,
            r.spec_client_count() == 0,
            (match prompts {
                Some(p) => r.spec_prompts() matches Some(q) && q == p@,
                None => r.spec_prompts() is None,
            }),
    {
        Self {
            specify_range,
            api_pool: opt.api_pool,
            prompt_path: opt.prompt_path,
            max_concurrent: opt.max_concurrent,
            client_count: 0,
            prompts,
        }
    }
}

impl ConcurrentTranslate<ChatCompletionMessage> for TranslateChatGPT {
    type Client = ChatGPTClient;

    open spec fn spec_queue_wf(&self, textures: &Textures) -> bool {
        match self.specify_range {
            Some(ref rs) => forall|q: int|
                0 <= q < rs@.len() ==> (#[trigger] rs@[q]).0 <= rs@[q].1 && (rs@[q].1 as int)
                    < textures.lines@.len(),
            None => true,
        }
    }

    /// With a reprocessing range list the queue is its fixed-size split,
    /// reversed; without one it is the reversed chain of batches that
    /// covers every line from `curr_index` to the end.
    open spec fn spec_queue_post(
        &self,
        textures: &Textures,
        r: Seq<BatchPackage<ChatCompletionMessage>>,
    ) -> bool {
        match self.specify_range {
            Some(ref rs) => {
                let flat = spec_ranges_flat(rs@);
                &&& r.len() == flat.len()
                &&& forall|q: int|
                    0 <= q < flat.len() ==> {
                        let fr = flat[flat.len() - 1 - q];
                        &&& spec_sub_batch_wf(textures.lines@, #[trigger] r[q])
                        &&& r[q].1.0 as int == fr.0
                        &&& r[q].1.1 as int == fr.1
                    }
            },
            None => {
                &&& ((textures.curr_index as int) >= textures.lines@.len() ==> r.len() == 0)
                &&& ((textures.curr_index as int) < textures.lines@.len() ==> {
                    &&& r.len() > 0
                    &&& r[r.len() - 1].1.0 == textures.curr_index
                    &&& r[0].1.1 as int == textures.lines@.len() - 1
                    &&& forall|q: int|
                        0 <= q && q + 1 < r.len() ==> (#[trigger] r[q]).1.0 as int == r[q
                            + 1].1.1 + 1
                })
            },
        }
    }

    open spec fn spec_queue_from_batchizer(&self, textures: &Textures) -> bool {
        self.specify_range is None
    }

    open spec fn spec_client_pre(&self) -> bool {
        &&& self.api_pool@.len() > 0
        &&& self.spec_client_count() < usize::MAX
        &&& forall|q: int|
            0 <= q < self.api_pool@.len() ==> (#[trigger] self.api_pool@[q]).api_key@.len() > 0
                && self.api_pool@[q].api_url@.len() > 0
    }

    /// Credentials are dealt round-robin: the `c`-th creation uses pool
    /// entry `c mod pool size`.
    open spec fn spec_client_step(&self, next: Self, c: ChatGPTClient) -> bool {
        let idx = self.spec_client_count() % (self.api_pool@.len() as int);
        &&& next.api_pool == self.api_pool
        &&& next.specify_range == self.specify_range
        &&& next.prompt_path == self.prompt_path
        &&& next.max_concurrent == self.max_concurrent
        &&& next.spec_prompts() == self.spec_prompts()
        &&& next.spec_client_count() == self.spec_client_count() + 1
        &&& c.api_key@ == self.api_pool@[idx].api_key@
        &&& c.api_url@ == self.api_pool@[idx].api_url@
        &&& (match self.api_pool@[idx].org_id {
            Some(ref o) => c.org_id matches Some(co) && co@ == o@,
            None => c.org_id is None,
        })
        &&& (match self.spec_prompts() {
            Some(pm) => c.request.messages@ == pm,
            None => c.request.messages@ == Seq::<ChatCompletionMessage>::empty(),
        })
    }

    fn create_batch_queue<F: Batchizer<ChatCompletionMessage>>(
        &self,
        batchizer: &F,
        textures: &Textures,
    ) -> (r: Vec<BatchPackage<ChatCompletionMessage>>) {
        match &self.specify_range {
            Some(_) => line_count_batchized(textures, &self.specify_range),
            None => {
                let ghost lines = textures.lines@;
                let n = textures.lines.len();
                let mut queue: Vec<BatchPackage<ChatCompletionMessage>> = Vec::new();
                let mut i: usize = textures.curr_index;
                while i < n
                    invariant
                        lines == textures.lines@,
                        n == lines.len(),
                        textures.curr_index <= i,
                        i <= n || i == textures.curr_index,
                        queue@.len() == 0 ==> i == textures.curr_index,
                        queue@.len() > 0 ==> queue@[0].1.0 == textures.curr_index && (queue@[
                            queue@.len() - 1].1.1 as int) == i - 1,
                        forall|q: int|
                            0 <= q && q + 1 < queue@.len() ==> (#[trigger] queue@[q + 1]).1.0
                                as int == queue@[q].1.1 + 1,
                        forall|q: int|
                            0 <= q < queue@.len() ==> (#[trigger] queue@[q]).1.0 <= queue@[q].1.1
                                && (queue@[q].1.1 as int) < lines.len(),
                        forall|q: int|
                            0 <= q < queue@.len() ==> batchizer.spec_post(
                                lines,
                                (#[trigger] queue@[q]).1.0 as int,
                                queue@[q].0@,
                                queue@[q].1.1 - queue@[q].1.0 + 1,
                            ) && queue@[q].1.1 - queue@[q].1.0 + 1 == batchizer.spec_size(
                                lines,
                                queue@[q].1.0 as int,
                            ),
                    decreases n - i,
                {
                    let br = batchizer.batchize(textures, i);
                    proof {
                        batchizer.spec_size_progress(lines, i as int);
                    }
                    let size = br.1;
                    queue.push((br.0, (i, i + size - 1)));
                    i = i + size;
                }
                let ghost qfinal = queue@;
                let r = reversed(queue);
                proof {
                    let ll = qfinal.len() as int;
                    if (textures.curr_index as int) < lines.len() {
                        assert(ll > 0);
                        assert(r@[ll - 1] == qfinal[0]);
                        assert(r@[0] == qfinal[ll - 1]);
                        assert forall|q: int| 0 <= q && q + 1 < ll implies (#[trigger] r@[q]).1.0
                            as int == r@[q + 1].1.1 + 1 by {
                            assert(r@[q] == qfinal[ll - 1 - q]);
                            assert(r@[q + 1] == qfinal[ll - 2 - q]);
                            assert(qfinal[ll - 2 - q + 1].1.0 as int == qfinal[ll - 2 - q].1.1
                                + 1);
                        }
                    }
                    assert forall|q: int| 0 <= q < ll implies {
                        &&& (#[trigger] r@[q]).1.0 <= r@[q].1.1
                        &&& (r@[q].1.1 as int) < lines.len()
                        &&& batchizer.spec_post(
                            lines,
                            r@[q].1.0 as int,
                            r@[q].0@,
                            r@[q].1.1 - r@[q].1.0 + 1,
                        )
                        &&& r@[q].1.1 - r@[q].1.0 + 1 == batchizer.spec_size(
                            lines,
                            r@[q].1.0 as int,
                        )
                    } by {
                        assert(r@[q] == qfinal[ll - 1 - q]);
                    }
                }
                r
            },
        }
    }

    fn create_client(&mut self) -> (r: ChatGPTClient) {
        let idx = self.client_count % self.api_pool.len();
        let prompts = match &self.prompts {
            Some(p) => Some(clone_messages(p)),
            None => None,
        };
        let org_id = clone_opt_string(&self.api_pool[idx].org_id);
        let client = ChatGPTClient::new(
            self.api_pool[idx].api_key.as_str(),
            self.api_pool[idx].api_url.as_str(),
            prompts,
            org_id,
        );
        self.client_count = self.client_count + 1;
        client
    }

    fn max_concurrent(&self) -> i32 {
        self.max_concurrent
    }
}

/// How many of the first `k` round-robin deals over a pool of `p` land on
/// index `i`: the count of `j < k` with `j mod p == i`.
pub open spec fn spec_uses(k: int, p: int, i: int) -> int
    decreases k,
{
    if k <= 0 {
        0
    } else {
        spec_uses(k - 1, p, i) + (if (k - 1) % p == i {
            1int
        } else {
            0int
        })
    }
}

/// Round-robin assignment: with pool size `p`, after `k` client creations
/// credential `i` has been used exactly `⌈(k − i) / p⌉` times.  (Creation
/// `j` uses credential `j mod p`, as `spec_client_step` states.)
pub proof fn lemma_round_robin(k: int, p: int, i: int)
    requires
        p > 0,
        0 <= i < p,
        k >= 0,
    ensures
        spec_uses(k, p, i) == if k <= i {
            0int
        } else {
            (k - i + p - 1) / p
        },
    decreases k,
{
    if k > 0 {
        lemma_round_robin(k - 1, p, i);
        if k - 1 < i {
            assert((k - 1) == 0 * p + (k - 1)) by (nonlinear_arith);
            lemma_fundamental_div_mod_converse(k - 1, p, 0, k - 1);
            assert((k - 1) % p == k - 1);
        } else if k - 1 == i {
            assert((k - 1) == 0 * p + i) by (nonlinear_arith)
                requires
                    k - 1 == i,
            ;
            lemma_fundamental_div_mod_converse(k - 1, p, 0, i);
            assert((k - 1) % p == i);
            assert((k - i + p - 1) == 1 * p + 0) by (nonlinear_arith)
                requires
                    k - 1 == i,
            ;
            lemma_fundamental_div_mod_converse(k - i + p - 1, p, 1, 0);
            assert((k - i + p - 1) / p == 1);
        } else {
            let d = k - 1 - i;
            lemma_fundamental_div_mod(d, p);
            let qd = d / p;
            let rd = d % p;
            vstd::arithmetic::div_mod::lemma_mod_pos_bound(d, p);
            assert(0 <= rd < p);
            assert(d == p * qd + rd);
            assert(qd >= 0) by {
                vstd::arithmetic::div_mod::lemma_div_pos_is_pos(d, p);
            }
            assert(d + p == (qd + 1) * p + rd) by (nonlinear_arith)
                requires
                    d == p * qd + rd,
            ;
            lemma_fundamental_div_mod_converse(d + p, p, qd + 1, rd);
            assert((k - i + p - 1) / p == qd + 1);
            if rd == 0 {
                assert((k - 1) == qd * p + i) by (nonlinear_arith)
                    requires
                        d == p * qd + rd,
                        rd == 0,
                        d == k - 1 - i,
                ;
                lemma_fundamental_div_mod_converse(k - 1, p, qd, i);
                assert((k - 1) % p == i);
                assert(d + p - 1 == qd * p + (p - 1)) by (nonlinear_arith)
                    requires
                        d == p * qd + rd,
                        rd == 0,
                ;
                lemma_fundamental_div_mod_converse(d + p - 1, p, qd, p - 1);
                assert((k - 1 - i + p - 1) / p == qd);
            } else {
                if i + rd < p {
                    assert((k - 1) == qd * p + (i + rd)) by (nonlinear_arith)
                        requires
                            d == p * qd + rd,
                            d == k - 1 - i,
                    ;
                    lemma_fundamental_div_mod_converse(k - 1, p, qd, i + rd);
                    assert((k - 1) % p == i + rd);
                } else {
                    assert((k - 1) == (qd + 1) * p + (i + rd - p)) by (nonlinear_arith)
                        requires
                            d == p * qd + rd,
                            d == k - 1 - i,
                    ;
                    lemma_fundamental_div_mod_converse(k - 1, p, qd + 1, i + rd - p);
                    assert((k - 1) % p == i + rd - p);
                }
                assert((k - 1) % p != i);
                assert(d + p - 1 == (qd + 1) * p + (rd - 1)) by (nonlinear_arith)
                    requires
                        d == p * qd + rd,
                ;
                lemma_fundamental_div_mod_converse(d + p - 1, p, qd + 1, rd - 1);
                assert((k - 1 - i + p - 1) / p == qd + 1);
            }
        }
    }
}

} // verus!
