//! The three-level data model of one translation job: a `Textures` bundle
//! holds the ordered extracted `TextureLine`s, and each line may carry the
//! `TranslatedLine` results of one or more translator backends.

use vstd::prelude::*;

verus! {

/// Tagged identity of a translation backend.
#[derive(Debug, Clone, Copy, PartialEq, Eq, Hash, Structural)]
pub enum Translator {
    ChatGPT,
}

/// One translator's result for one batch of consecutive lines.
/// The record is stored only on the line at `batch_range.0`.
#[derive(Debug)]
pub struct TranslatedLine {
    pub translator: Translator,
    pub content: String,
    /// Inclusive `(start, end)` pair of line indices the content covers.
    pub batch_range: (usize, usize),
}

impl TranslatedLine {
    pub fn new(translator: Translator, content: String, start: usize, end: usize) -> (r: Self)
        ensures
            r.translator == translator,
            r.content == content,
            r.batch_range == (start, end),
    {
        Self { translator, content, batch_range: (start, end) }
    }
}

/// One extracted source line: `size` raw bytes starting at byte offset
/// `seek` of the original file, whose text is `content`.
#[derive(Debug)]
pub struct TextureLine {
    pub seek: usize,
    pub size: usize,
    pub content: String,
    pub skip: bool,
    pub translated: Vec<TranslatedLine>,
}

impl TextureLine {
    pub fn new(seek: usize, size: usize, content: String, skip: bool) -> (r: Self)
        ensures
            r.seek == seek,
            r.size == size,
            r.content == content,
            r.skip == skip,
            r.translated@ == Seq::<TranslatedLine>::empty(),
    {
        Self { seek, size, content, skip, translated: Vec::new() }
    }
}

/// The in-memory representation of one translation job.
#[derive(Debug)]
pub struct Textures {
    pub lines: Vec<TextureLine>,
    pub curr_index: usize,
    pub name: String,
}

/// Field-for-field sameness of two lines; the `translated` vectors are
/// compared by their contents.
pub open spec fn line_like(a: TextureLine, b: TextureLine) -> bool {
    &&& a.seek == b.seek
    &&& a.size == b.size
    &&& a.content == b.content
    &&& a.skip == b.skip
    &&& a.translated@ == b.translated@
}

/// Structural sameness of two `Textures` bundles.
pub open spec fn textures_like(a: Textures, b: Textures) -> bool {
    &&& a.curr_index == b.curr_index
    &&& a.name == b.name
    &&& a.lines@.len() == b.lines@.len()
    &&& forall|i: int| 0 <= i < a.lines@.len() ==> line_like(#[trigger] a.lines@[i], b.lines@[i])
}

impl Clone for TranslatedLine {
    fn clone(&self) -> (r: Self)
        ensures
            r == *self,
    {
        TranslatedLine {
            translator: self.translator,
            content: self.content.clone(),
            batch_range: self.batch_range,
        }
    }
}

impl Clone for TextureLine {
    fn clone(&self) -> (r: Self)
        ensures
            line_like(r, *self),
    {
        let mut translated: Vec<TranslatedLine> = Vec::new();
        let mut i: usize = 0;
        while i < self.translated.len()
            invariant
                0 <= i <= self.translated.len(),
                translated@ =~= self.translated@.subrange(0, i as int),
            decreases self.translated.len() - i,
        {
            translated.push(self.translated[i].clone());
            i += 1;
        }
        proof {
            assert(translated@ =~= self.translated@);
        }
        TextureLine {
            seek: self.seek,
            size: self.size,
            content: self.content.clone(),
            skip: self.skip,
            translated,
        }
    }
}

impl Clone for Textures {
    fn clone(&self) -> (r: Self)
        ensures
            textures_like(r, *self),
    {
        let mut lines: Vec<TextureLine> = Vec::new();
        let mut i: usize = 0;
        while i < self.lines.len()
            invariant
                0 <= i <= self.lines.len(),
                lines@.len() == i,
                forall|j: int| 0 <= j < i ==> line_like(#[trigger] lines@[j], self.lines@[j]),
            decreases self.lines.len() - i,
        {
            lines.push(self.lines[i].clone());
            i += 1;
        }
        Textures { lines, curr_index: self.curr_index, name: self.name.clone() }
    }
}

/// Index of the first record in `ts` from position `i` on whose translator
/// is `t`, or `-1` if there is none.
pub open spec fn spec_find_translator_from(ts: Seq<TranslatedLine>, t: Translator, i: int) -> int
    decreases ts.len() - i,
{
    if i < 0 || i >= ts.len() {
        -1
    } else if ts[i].translator == t {
        i
    } else {
        spec_find_translator_from(ts, t, i + 1)
    }
}

pub open spec fn spec_find_translator(ts: Seq<TranslatedLine>, t: Translator) -> int {
    spec_find_translator_from(ts, t, 0)
}

/// What `Textures::update` does to the `translated` list of the start line:
/// replace the first record by the same translator, or append.
pub open spec fn spec_apply_change(ts: Seq<TranslatedLine>, change: TranslatedLine) -> Seq<
    TranslatedLine,
> {
    let i = spec_find_translator(ts, change.translator);
    if i == -1 {
        ts.push(change)
    } else {
        ts.update(i, change)
    }
}

proof fn lemma_find_translator_props(ts: Seq<TranslatedLine>, t: Translator, i: int)
    requires
        0 <= i <= ts.len(),
    ensures
        ({
            let r = spec_find_translator_from(ts, t, i);
            &&& r == -1 ==> forall|j: int| i <= j < ts.len() ==> (#[trigger] ts[j]).translator != t
            &&& r != -1 ==> i <= r < ts.len() && ts[r].translator == t && forall|j: int|
                i <= j < r ==> (#[trigger] ts[j]).translator != t
        }),
    decreases ts.len() - i,
{
    if i < ts.len() && ts[i].translator != t {
        lemma_find_translator_props(ts, t, i + 1);
    }
}

/// After the change has been applied once, the same translator is found at
/// a position that already holds exactly `change`.
proof fn lemma_apply_change_fixpoint(ts: Seq<TranslatedLine>, change: TranslatedLine)
    ensures
        spec_apply_change(spec_apply_change(ts, change), change) == spec_apply_change(ts, change),
{
    let t = change.translator;
    let i = spec_find_translator(ts, t);
    lemma_find_translator_props(ts, t, 0);
    let ts1 = spec_apply_change(ts, change);
    if i == -1 {
        assert(ts1 == ts.push(change));
        lemma_find_prefix_unchanged(ts, ts1, t, 0, ts.len() as int);
        assert(spec_find_translator(ts1, t) == ts.len());
        assert(ts1.update(ts.len() as int, change) =~= ts1);
    } else {
        assert(ts1 == ts.update(i, change));
        lemma_find_prefix_unchanged(ts, ts1, t, 0, i);
        assert(spec_find_translator(ts1, t) == i);
        assert(ts1.update(i, change) =~= ts1);
    }
}

/// If no record in `ts[from..stop)` has translator `t`, and `ts2` agrees with
/// `ts` on `[from, stop)`, while `ts2[stop]` has translator `t`, then the find
/// on `ts2` from `from` stops exactly at `stop`.
proof fn lemma_find_prefix_unchanged(
    ts: Seq<TranslatedLine>,
    ts2: Seq<TranslatedLine>,
    t: Translator,
    from: int,
    stop: int,
)
    requires
        0 <= from <= stop < ts2.len(),
        stop <= ts.len(),
        forall|j: int| from <= j < stop ==> (#[trigger] ts[j]).translator != t,
        forall|j: int| from <= j < stop ==> ts2[j] == ts[j],
        ts2[stop].translator == t,
    ensures
        spec_find_translator_from(ts2, t, from) == stop,
    decreases stop - from,
{
    if from < stop {
        lemma_find_prefix_unchanged(ts, ts2, t, from + 1, stop);
    }
}

/// A successful search lands inside the vector, on a record by `t`.
pub proof fn lemma_find_translator_in_range(ts: Seq<TranslatedLine>, t: Translator)
    ensures
        ({
            let k = spec_find_translator(ts, t);
            k != -1 ==> 0 <= k < ts.len() && ts[k].translator == t
        }),
{
    lemma_find_translator_props(ts, t, 0);
}

/// If nothing in `ts[from..upto)` carries translator `t`, the search from
/// `from` stops at `upto` (or fails, when `upto` is the end).
pub proof fn lemma_find_from_skip(ts: Seq<TranslatedLine>, t: Translator, from: int, upto: int)
    requires
        0 <= from <= upto <= ts.len(),
        forall|k: int| from <= k < upto ==> (#[trigger] ts[k]).translator != t,
        upto < ts.len() ==> ts[upto].translator == t,
    ensures
        spec_find_translator_from(ts, t, from) == if upto < ts.len() {
            upto
        } else {
            -1
        },
    decreases upto - from,
{
    if from < upto {
        lemma_find_from_skip(ts, t, from + 1, upto);
    }
}

impl Textures {
    /// Record one translation result: advance `curr_index` to the batch end
    /// and store the record on the batch's start line, replacing any earlier
    /// record by the same translator.
    pub fn update(&mut self, change: TranslatedLine)
        requires
            change.batch_range.0 < old(self).lines@.len(),
        ensures
            final(self).curr_index == change.batch_range.1,
            final(self).name == old(self).name,
            final(self).lines@.len() == old(self).lines@.len(),
            forall|k: int|
                0 <= k < old(self).lines@.len() && k != change.batch_range.0
                    ==> final(self).lines@[k] == old(self).lines@[k],
            ({
                let k = change.batch_range.0 as int;
                let l0 = old(self).lines@[k];
                let l1 = final(self).lines@[k];
                &&& l1.seek == l0.seek
                &&& l1.size == l0.size
                &&& l1.content == l0.content
                &&& l1.skip == l0.skip
                &&& l1.translated@ == spec_apply_change(l0.translated@, change)
            }),
    {
        self.curr_index = change.batch_range.1;
        let r0 = change.batch_range.0;
        let mut line = self.lines.remove(r0);
        let ghost ts = line.translated@;
        let n = line.translated.len();
        let mut j: usize = 0;
        let mut found: bool = false;
        while j < n && !found
            invariant
                n == ts.len(),
                line.translated@ == ts,
                0 <= j <= n,
                !found ==> forall|k: int|
                    0 <= k < j ==> (#[trigger] ts[k]).translator != change.translator,
                found ==> j < n && ts[j as int].translator == change.translator && forall|k: int|
                    0 <= k < j ==> (#[trigger] ts[k]).translator != change.translator,
            decreases n - j + (if found { 0int } else { 1int }),
        {
            if line.translated[j].translator == change.translator {
                found = true;
            } else {
                j += 1;
            }
        }
        proof {
            lemma_find_translator_props(ts, change.translator, 0);
            if found {
                lemma_find_prefix_unchanged(ts, ts, change.translator, 0, j as int);
                assert(spec_find_translator(ts, change.translator) == j as int);
            } else {
                assert(spec_find_translator(ts, change.translator) == -1);
            }
        }
        if found {
            line.translated[j] = change;
        } else {
            line.translated.push(change);
        }
        self.lines.insert(r0, line);
        proof {
            assert(self.lines@ =~= old(self).lines@.update(r0 as int, self.lines@[r0 as int]));
        }
    }
}

/// Applying the same `TranslatedLine` twice leaves the same state as
/// applying it once: the second application replaces the stored record
/// with itself.
pub proof fn lemma_update_idempotent(ts: Seq<TranslatedLine>, change: TranslatedLine)
    ensures
        spec_apply_change(spec_apply_change(ts, change), change) == spec_apply_change(ts, change),
{
    lemma_apply_change_fixpoint(ts, change);
}

} // verus!
