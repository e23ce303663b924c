//! The rewrite engine: walk the finalized `Textures` against the original
//! bytes, splice each translated batch's formatted lines into the output in
//! place of the batch's source bytes, copy everything else through
//! unchanged, and record the `(start, end)` range of every batch whose
//! response did not split into exactly one string per source line.

use vstd::prelude::*;
use vstd::string::*;
use vstd::utf8::*;

use crate::Configuration;
use crate::input::TransType;
use crate::output::FormatKind;
use crate::output::FormatSpec;
use crate::output::MToolOutput;
use crate::output::ReplaceOutput;
use crate::output::RewriteOutput;
use crate::output::TextOutput;
use crate::output::spec_escape_width;
use crate::output::spec_fs_extract;
use crate::output::spec_fs_format;
use crate::re::CompiledRegex;
use crate::re::regex_valid;
use crate::textures::TextureLine;
use crate::textures::Textures;
use crate::textures::TranslatedLine;
use crate::textures::Translator;
use crate::textures::spec_find_translator;

verus! {

/// Lines lie inside the data and are ordered: each line ends at or before
/// the next line's start.
pub open spec fn wf_lines(lines: Seq<TextureLine>, data_len: int) -> bool {
    &&& forall|i: int|
        0 <= i < lines.len() ==> (#[trigger] lines[i]).seek + lines[i].size <= data_len
    &&& forall|i: int|
        0 <= i && i + 1 < lines.len() ==> (#[trigger] lines[i]).seek + lines[i].size <= lines[i
            + 1].seek
}

/// Every stored translation sits on its batch's start line and covers a
/// valid index range.
pub open spec fn wf_translations(lines: Seq<TextureLine>) -> bool {
    forall|i: int, k: int|
        0 <= i < lines.len() && 0 <= k < lines[i].translated@.len() ==> {
            let tr = #[trigger] lines[i].translated@[k];
            &&& tr.batch_range.0 == i
            &&& tr.batch_range.0 <= tr.batch_range.1 < lines.len()
        }
}

/// The bytes written for one translated batch: the formatted rendering of
/// each extracted line against its source line, in order, from `j` on.
pub open spec fn spec_format_batch(
    fs: FormatSpec,
    lines: Seq<TextureLine>,
    ex: Seq<Seq<char>>,
    start: int,
    j: int,
) -> Seq<u8>
    decreases ex.len() - j,
{
    if j < 0 || j >= ex.len() {
        Seq::empty()
    } else {
        encode_utf8(spec_fs_format(fs, lines[start + j].content@, ex[j])) + spec_format_batch(
            fs,
            lines,
            ex,
            start,
            j + 1,
        )
    }
}

/// Where the walk continues after handling the batch `(i, en)`: just past
/// the batch's end (the walk always moves forward, and never past the end
/// of the lines).
pub open spec fn spec_next_index(lines: Seq<TextureLine>, i: int, en: int) -> int {
    let n0 = if en + 1 > i {
        en + 1
    } else {
        i + 1
    };
    if n0 > lines.len() {
        lines.len() as int
    } else {
        n0
    }
}

/// The rewriter's walk from line `i` with read cursor `pre`: the output
/// bytes still to be written, and the failed ranges still to be recorded.
pub open spec fn spec_rewrite(
    fs: FormatSpec,
    data: Seq<u8>,
    lines: Seq<TextureLine>,
    t: Translator,
    i: int,
    pre: int,
) -> (Seq<u8>, Seq<(usize, usize)>)
    decreases lines.len() - i,
    via spec_rewrite_decreases
{
    if i < 0 || i >= lines.len() || pre < 0 || pre > data.len() {
        (
            if 0 <= pre <= data.len() {
                data.subrange(pre, data.len() as int)
            } else {
                Seq::empty()
            },
            Seq::empty(),
        )
    } else {
        let k = spec_find_translator(lines[i].translated@, t);
        if k == -1 {
            spec_rewrite(fs, data, lines, t, i + 1, pre)
        } else {
            let tr = lines[i].translated@[k];
            let s = tr.batch_range.0 as int;
            let en = tr.batch_range.1 as int;
            let gap = if lines[i].seek > pre {
                data.subrange(pre, lines[i].seek as int)
            } else {
                Seq::empty()
            };
            let pre1 = if lines[i].seek > pre {
                lines[i].seek as int
            } else {
                pre
            };
            let ex = spec_fs_extract(fs, tr.content@);
            let next = spec_next_index(lines, i, en);
            if ex.len() == en - s + 1 {
                let pre2 = lines[en].seek + lines[en].size;
                let emitted = spec_format_batch(fs, lines, ex, i, 0);
                let rest = spec_rewrite(fs, data, lines, t, next, pre2);
                (gap + emitted + rest.0, rest.1)
            } else {
                let rest = spec_rewrite(fs, data, lines, t, next, pre1);
                (gap + rest.0, seq![tr.batch_range] + rest.1)
            }
        }
    }
}

#[via_fn]
proof fn spec_rewrite_decreases(
    fs: FormatSpec,
    data: Seq<u8>,
    lines: Seq<TextureLine>,
    t: Translator,
    i: int,
    pre: int,
) {
}

proof fn lemma_step_none(
    fs: FormatSpec,
    data: Seq<u8>,
    lines: Seq<TextureLine>,
    t: Translator,
    i: int,
    pre: int,
)
    requires
        0 <= i < lines.len(),
        0 <= pre <= data.len(),
        spec_find_translator(lines[i].translated@, t) == -1,
    ensures
        spec_rewrite(fs, data, lines, t, i, pre) == spec_rewrite(fs, data, lines, t, i + 1, pre),
{
}

proof fn lemma_step_matched(
    fs: FormatSpec,
    data: Seq<u8>,
    lines: Seq<TextureLine>,
    t: Translator,
    i: int,
    pre: int,
)
    requires
        0 <= i < lines.len(),
        0 <= pre <= data.len(),
        wf_translations(lines),
        spec_find_translator(lines[i].translated@, t) != -1,
    ensures
        ({
            let k = spec_find_translator(lines[i].translated@, t);
            let tr = lines[i].translated@[k];
            let en = tr.batch_range.1 as int;
            let gap = if lines[i].seek > pre {
                data.subrange(pre, lines[i].seek as int)
            } else {
                Seq::<u8>::empty()
            };
            let pre1 = if lines[i].seek > pre {
                lines[i].seek as int
            } else {
                pre
            };
            let ex = spec_fs_extract(fs, tr.content@);
            if ex.len() == en - i + 1 {
                let pre2 = lines[en].seek + lines[en].size;
                let rest = spec_rewrite(fs, data, lines, t, en + 1, pre2);
                spec_rewrite(fs, data, lines, t, i, pre) == (
                    gap + spec_format_batch(fs, lines, ex, i, 0) + rest.0,
                    rest.1,
                )
            } else {
                let rest = spec_rewrite(fs, data, lines, t, en + 1, pre1);
                spec_rewrite(fs, data, lines, t, i, pre) == (
                    gap + rest.0,
                    seq![tr.batch_range] + rest.1,
                )
            }
        }),
{
    let k = spec_find_translator(lines[i].translated@, t);
    crate::textures::lemma_find_translator_in_range(lines[i].translated@, t);
    let tr = lines[i].translated@[k];
    assert(tr.batch_range.0 == i);
    let en = tr.batch_range.1 as int;
    assert(i <= en < lines.len());
    assert(spec_next_index(lines, i, en) == en + 1);
}

/// The first stored translation by `t` on this line, as an index into its
/// `translated` vector.
pub fn find_translation(line: &TextureLine, t: Translator) -> (r: Option<usize>)
    ensures
        match r {
            Some(k) => spec_find_translator(line.translated@, t) == k as int && (k as int)
                < line.translated@.len(),
            None => spec_find_translator(line.translated@, t) == -1,
        },
{
    let ghost ts = line.translated@;
    let n = line.translated.len();
    let mut j: usize = 0;
    while j < n
        invariant
            n == ts.len(),
            line.translated@ == ts,
            0 <= j <= n,
            forall|k: int| 0 <= k < j ==> (#[trigger] ts[k]).translator != t,
        decreases n - j,
    {
        if line.translated[j].translator == t {
            proof {
                crate::textures::lemma_find_from_skip(ts, t, 0, j as int);
            }
            return Some(j);
        }
        j += 1;
    }
    proof {
        crate::textures::lemma_find_from_skip(ts, t, 0, n as int);
    }
    None
}

/// Write `data[from..to)` onto the end of `out`.
fn push_bytes(out: &mut Vec<u8>, data: &[u8], from: usize, to: usize)
    requires
        from <= to <= data@.len(),
    ensures
        final(out)@ == old(out)@ + data@.subrange(from as int, to as int),
{
    let mut b: usize = from;
    while b < to
        invariant
            from <= b <= to <= data@.len(),
            out@ =~= old(out)@ + data@.subrange(from as int, b as int),
        decreases to - b,
    {
        out.push(data[b]);
        proof {
            assert(out@ =~= old(out)@ + data@.subrange(from as int, b + 1));
        }
        b += 1;
    }
}

/// Write the UTF-8 bytes of `s` onto the end of `out`.
fn push_str_bytes(out: &mut Vec<u8>, s: &str)
    ensures
        final(out)@ == old(out)@ + encode_utf8(s@),
{
    let bs: &[u8] = s.as_bytes();
    let n: usize = bs.len();
    let mut b: usize = 0;
    while b < n
        invariant
            n == bs@.len(),
            bs@ == s.spec_bytes(),
            0 <= b <= n,
            out@ =~= old(out)@ + bs@.subrange(0, b as int),
        decreases n - b,
    {
        out.push(bs[b]);
        proof {
            assert(out@ =~= old(out)@ + bs@.subrange(0, b + 1));
        }
        b += 1;
    }
    proof {
        assert(bs@.subrange(0, n as int) =~= encode_utf8(s@));
    }
}

/// Handle one translated batch during the walk: copy the gap before it,
/// then either emit its formatted lines or record its range as mismatched.
/// Returns the line index and read cursor the walk continues with.
#[verifier::rlimit(100)]
fn rewrite_batch<T: RewriteOutput>(
    fmt: &T,
    translator: Translator,
    textures: &Textures,
    data: &[u8],
    out: &mut Vec<u8>,
    ranges: &mut Vec<(usize, usize)>,
    i: usize,
    pre: usize,
    k: usize,
) -> (r: (usize, usize))
    requires
        wf_lines(textures.lines@, data@.len() as int),
        wf_translations(textures.lines@),
        (i as int) < textures.lines@.len(),
        pre <= data@.len(),
        spec_find_translator(textures.lines@[i as int].translated@, translator) == k as int,
        (k as int) < textures.lines@[i as int].translated@.len(),
    ensures
        ({
            let fs = fmt.fs();
            let lines = textures.lines@;
            let step = spec_rewrite(fs, data@, lines, translator, i as int, pre as int);
            let rest = spec_rewrite(fs, data@, lines, translator, r.0 as int, r.1 as int);
            &&& r.0 > i
            &&& r.0 <= textures.lines@.len()
            &&& r.1 <= data@.len()
            &&& final(out)@.len() >= old(out)@.len()
            &&& final(out)@.subrange(0, old(out)@.len() as int) == old(out)@
            &&& step.0 == final(out)@.subrange(
                old(out)@.len() as int,
                final(out)@.len() as int,
            ) + rest.0
            &&& final(ranges)@.len() >= old(ranges)@.len()
            &&& final(ranges)@.subrange(0, old(ranges)@.len() as int) == old(ranges)@
            &&& step.1 == final(ranges)@.subrange(
                old(ranges)@.len() as int,
                final(ranges)@.len() as int,
            ) + rest.1
        }),
{
    let ghost fs = fmt.fs();
    let ghost lines = textures.lines@;
    let ghost i0 = i as int;
    let ghost pre0 = pre as int;
    let ghost tr = lines[i0].translated@[k as int];
    let ghost step = spec_rewrite(fs, data@, lines, translator, i0, pre0);
    let dlen: usize = data.len();
    let nn: usize = textures.lines.len();
    let tr_start = textures.lines[i].translated[k].batch_range.0;
    let tr_end = textures.lines[i].translated[k].batch_range.1;
    let line_seek = textures.lines[i].seek;
    proof {
        assert(tr.batch_range.0 == i0);
        assert(tr_start == i);
        assert(i <= tr_end && tr_end < nn);
        lemma_step_matched(fs, data@, lines, translator, i0, pre0);
    }
    let mut pre2: usize = pre;
    let ghost gap = if lines[i0].seek > pre0 {
        data@.subrange(pre0, lines[i0].seek as int)
    } else {
        Seq::<u8>::empty()
    };
    if line_seek > pre {
        push_bytes(out, data, pre, line_seek);
        pre2 = line_seek;
    }
    proof {
        assert(out@ =~= old(out)@ + gap);
    }
    let ghost gap_done = out@;
    let ex = fmt.extract_lines(textures.lines[i].translated[k].content.as_str());
    let ghost exv = spec_fs_extract(fs, tr.content@);
    proof {
        assert(exv == ex.deep_view());
        assert(exv.len() == ex@.len());
    }
    if ex.len() == tr_end - tr_start + 1 {
        proof {
            assert(i + ex@.len() <= nn);
        }
        let mut j: usize = 0;
        while j < ex.len()
            invariant
                fs == fmt.fs(),
                lines == textures.lines@,
                nn == lines.len(),
                wf_lines(lines, data@.len() as int),
                exv == ex.deep_view(),
                exv.len() == ex@.len(),
                0 <= j <= ex@.len(),
                i0 == i,
                i + ex@.len() <= nn,
                out@ + spec_format_batch(fs, lines, exv, i0, j as int) =~= gap_done
                    + spec_format_batch(fs, lines, exv, i0, 0),
            decreases ex@.len() - j,
        {
            proof {
                assert(ex@[j as int]@ == exv[j as int]);
            }
            let fline = fmt.format_line(textures.lines[i + j].content.as_str(), ex[j].as_str());
            let ghost out_j = out@;
            push_str_bytes(out, fline.as_str());
            proof {
                assert(spec_format_batch(fs, lines, exv, i0, j as int) =~= encode_utf8(
                    spec_fs_format(fs, lines[i0 + j].content@, exv[j as int]),
                ) + spec_format_batch(fs, lines, exv, i0, j + 1));
                assert(out_j + spec_format_batch(fs, lines, exv, i0, j as int) =~= out@
                    + spec_format_batch(fs, lines, exv, i0, j + 1));
            }
            j += 1;
        }
        proof {
            assert(spec_format_batch(fs, lines, exv, i0, ex@.len() as int) =~= Seq::<u8>::empty());
            assert(out@ =~= gap_done + spec_format_batch(fs, lines, exv, i0, 0));
            assert(lines[tr_end as int].seek + lines[tr_end as int].size <= data@.len());
            assert(data@.len() == dlen as int);
        }
        let nxt_pre = textures.lines[tr_end].seek + textures.lines[tr_end].size;
        proof {
            let rest = spec_rewrite(
                fs,
                data@,
                lines,
                translator,
                tr_end + 1,
                nxt_pre as int,
            );
            assert(step.0 == gap + spec_format_batch(fs, lines, exv, i0, 0) + rest.0);
            assert(step.1 == rest.1);
            assert(out@ =~= old(out)@ + (gap + spec_format_batch(fs, lines, exv, i0, 0)));
            assert(out@.subrange(0, old(out)@.len() as int) =~= old(out)@);
            assert(out@.subrange(old(out)@.len() as int, out@.len() as int) =~= gap
                + spec_format_batch(fs, lines, exv, i0, 0));
            assert(ranges@.subrange(0, ranges@.len() as int) =~= ranges@);
            assert(ranges@.subrange(ranges@.len() as int, ranges@.len() as int) =~= Seq::<(
                usize,
                usize,
            )>::empty());
            assert(step.1 =~= ranges@.subrange(ranges@.len() as int, ranges@.len() as int)
                + rest.1);
        }
        (tr_end + 1, nxt_pre)
    } else {
        let ghost ranges0 = ranges@;
        ranges.push((tr_start, tr_end));
        proof {
            let ghost pre1 = if lines[i0].seek > pre0 {
                lines[i0].seek as int
            } else {
                pre0
            };
            assert(pre2 as int == pre1);
            let rest = spec_rewrite(fs, data@, lines, translator, tr_end + 1, pre2 as int);
            assert((tr_start, tr_end) == tr.batch_range);
            assert(step.0 == gap + rest.0);
            assert(step.1 == seq![tr.batch_range] + rest.1);
            assert(out@ =~= old(out)@ + gap);
            assert(out@.subrange(0, old(out)@.len() as int) =~= old(out)@);
            assert(out@.subrange(old(out)@.len() as int, out@.len() as int) =~= gap);
            assert(ranges@.subrange(0, ranges0.len() as int) =~= ranges0);
            assert(ranges@.subrange(ranges0.len() as int, ranges@.len() as int)
                =~= seq![tr.batch_range]);
            assert(lines[i0].seek + lines[i0].size <= data@.len());
            assert(data@.len() == dlen as int);
        }
        (tr_end + 1, pre2)
    }
}

/// Produce the rewritten output bytes and the list of shape-mismatched
/// batch ranges, walking the lines in index order as the rewrite engine
/// specifies.
#[verifier::rlimit(100)]
pub fn rewrite<T: RewriteOutput>(
    fmt: &T,
    translator: Translator,
    textures: &Textures,
    data: &[u8],
) -> (r: (Vec<u8>, Vec<(usize, usize)>))
    requires
        wf_lines(textures.lines@, data@.len() as int),
        wf_translations(textures.lines@),
    ensures
        r.0@ == spec_rewrite(fmt.fs(), data@, textures.lines@, translator, 0, 0).0,
        r.1@ == spec_rewrite(fmt.fs(), data@, textures.lines@, translator, 0, 0).1,
{
    let ghost fs = fmt.fs();
    let ghost lines = textures.lines@;
    let n = textures.lines.len();
    let dlen: usize = data.len();
    let mut out: Vec<u8> = Vec::new();
    let mut ranges: Vec<(usize, usize)> = Vec::new();
    let mut i: usize = 0;
    let mut pre: usize = 0;
    while i < n
        invariant
            fs == fmt.fs(),
            lines == textures.lines@,
            n == lines.len(),
            wf_lines(lines, data@.len() as int),
            wf_translations(lines),
            data@.len() == dlen,
            0 <= i,
            0 <= pre <= data@.len(),
            spec_rewrite(fs, data@, lines, translator, 0, 0).0 =~= out@ + spec_rewrite(
                fs,
                data@,
                lines,
                translator,
                i as int,
                pre as int,
            ).0,
            spec_rewrite(fs, data@, lines, translator, 0, 0).1 =~= ranges@ + spec_rewrite(
                fs,
                data@,
                lines,
                translator,
                i as int,
                pre as int,
            ).1,
        decreases n - i,
    {
        let ghost i0 = i as int;
        let ghost pre0 = pre as int;
        let ghost step = spec_rewrite(fs, data@, lines, translator, i0, pre0);
        let ghost out0 = out@;
        let ghost ranges0 = ranges@;
        match find_translation(&textures.lines[i], translator) {
            None => {
                proof {
                    lemma_step_none(fs, data@, lines, translator, i0, pre0);
                }
                i += 1;
            },
            Some(k) => {
                let nxt = rewrite_batch(
                    fmt,
                    translator,
                    textures,
                    data,
                    &mut out,
                    &mut ranges,
                    i,
                    pre,
                    k,
                );
                i = nxt.0;
                pre = nxt.1;
                proof {
                    let rest = spec_rewrite(fs, data@, lines, translator, i as int, pre as int);
                    let delta_o = out@.subrange(out0.len() as int, out@.len() as int);
                    let delta_r = ranges@.subrange(ranges0.len() as int, ranges@.len() as int);
                    assert(out@ =~= out0 + delta_o);
                    assert(ranges@ =~= ranges0 + delta_r);
                    assert(out0 + (delta_o + rest.0) =~= (out0 + delta_o) + rest.0);
                    assert(ranges0 + (delta_r + rest.1) =~= (ranges0 + delta_r) + rest.1);
                }
            },
        }
    }
    push_bytes(&mut out, data, pre, data.len());
    proof {
        assert(i >= n);
        assert(spec_rewrite(fs, data@, lines, translator, i as int, pre as int).0 =~= data@
            .subrange(pre as int, data@.len() as int));
        assert(spec_rewrite(fs, data@, lines, translator, i as int, pre as int).1 =~= Seq::<(
            usize,
            usize,
        )>::empty());
        assert(out@ =~= spec_rewrite(fs, data@, lines, translator, 0, 0).0);
        assert(ranges@ =~= spec_rewrite(fs, data@, lines, translator, 0, 0).1);
    }
    (out, ranges)
}

/// Within well-formed lines, line extents never move backward: an earlier
/// line ends at or before a later line starts.
pub proof fn lemma_seek_monotonic(lines: Seq<TextureLine>, data_len: int, a: int, b: int)
    requires
        wf_lines(lines, data_len),
        0 <= a < b < lines.len(),
    ensures
        lines[a].seek + lines[a].size <= lines[b].seek,
    decreases b - a,
{
    if a + 1 < b {
        lemma_seek_monotonic(lines, data_len, a + 1, b);
    }
}

/// The start byte of the first line at or after `i` that holds a
/// translation by `t`, or the end of the data when there is none: the point
/// up to which the walk copies the original through unchanged.
pub open spec fn spec_next_emit_seek(
    lines: Seq<TextureLine>,
    t: Translator,
    i: int,
    dlen: int,
) -> int
    decreases lines.len() - i,
{
    if i < 0 || i >= lines.len() {
        dlen
    } else if spec_find_translator(lines[i].translated@, t) != -1 {
        lines[i].seek as int
    } else {
        spec_next_emit_seek(lines, t, i + 1, dlen)
    }
}

proof fn lemma_next_emit_in_range(lines: Seq<TextureLine>, t: Translator, i: int, dlen: int)
    requires
        wf_lines(lines, dlen),
        0 <= i,
    ensures
        spec_next_emit_seek(lines, t, i, dlen) <= dlen,
    decreases lines.len() - i,
{
    if i < lines.len() && spec_find_translator(lines[i].translated@, t) == -1 {
        lemma_next_emit_in_range(lines, t, i + 1, dlen);
    }
}

proof fn lemma_next_emit_after(lines: Seq<TextureLine>, t: Translator, j0: int, e: int, dlen: int)
    requires
        wf_lines(lines, dlen),
        0 <= e < j0,
        e < lines.len(),
    ensures
        spec_next_emit_seek(lines, t, j0, dlen) >= lines[e].seek + lines[e].size,
    decreases lines.len() - j0,
{
    if j0 >= lines.len() {
    } else if spec_find_translator(lines[j0].translated@, t) != -1 {
        lemma_seek_monotonic(lines, dlen, e, j0);
    } else {
        lemma_next_emit_after(lines, t, j0 + 1, e, dlen);
    }
}

/// The walk's output always begins with the original bytes copied through
/// from the read cursor up to the next line that will emit a translation.
pub proof fn lemma_rewrite_prefix(
    fs: FormatSpec,
    data: Seq<u8>,
    lines: Seq<TextureLine>,
    t: Translator,
    i: int,
    pre: int,
)
    requires
        wf_lines(lines, data.len() as int),
        wf_translations(lines),
        0 <= i,
        0 <= pre <= data.len(),
        pre <= spec_next_emit_seek(lines, t, i, data.len() as int),
    ensures
        ({
            let nxt = spec_next_emit_seek(lines, t, i, data.len() as int);
            let o = spec_rewrite(fs, data, lines, t, i, pre).0;
            o.len() >= nxt - pre && o.subrange(0, nxt - pre) == data.subrange(pre, nxt)
        }),
    decreases lines.len() - i,
{
    let nxt = spec_next_emit_seek(lines, t, i, data.len() as int);
    lemma_next_emit_in_range(lines, t, i, data.len() as int);
    if i >= lines.len() {
        let o = spec_rewrite(fs, data, lines, t, i, pre).0;
        assert(o.subrange(0, nxt - pre) =~= data.subrange(pre, nxt));
    } else {
        let k = spec_find_translator(lines[i].translated@, t);
        if k == -1 {
            lemma_rewrite_prefix(fs, data, lines, t, i + 1, pre);
        } else {
            let tr = lines[i].translated@[k];
            let s = tr.batch_range.0 as int;
            let en = tr.batch_range.1 as int;
            let gap = if lines[i].seek > pre {
                data.subrange(pre, lines[i].seek as int)
            } else {
                Seq::<u8>::empty()
            };
            let o = spec_rewrite(fs, data, lines, t, i, pre).0;
            assert(nxt == lines[i].seek as int);
            if lines[i].seek > pre {
                assert(o.subrange(0, nxt - pre) =~= gap);
            } else {
                assert(o.subrange(0, nxt - pre) =~= data.subrange(pre, nxt));
            }
        }
    }
}

/// The lines of one batch follow one another with no bytes between them.
pub open spec fn spec_batch_contiguous(lines: Seq<TextureLine>, s: int, en: int) -> bool {
    forall|q: int| s <= q < en ==> (#[trigger] lines[q]).seek + lines[q].size == lines[q + 1].seek
}

/// At line `i`, a stored translation (if any) extracts to exactly one
/// string per covered line, the covered lines are contiguous, and each
/// formatted line reproduces its source line's bytes exactly.
pub open spec fn spec_line_identity_ok(
    fs: FormatSpec,
    data: Seq<u8>,
    lines: Seq<TextureLine>,
    t: Translator,
    i: int,
) -> bool {
    let k = spec_find_translator(lines[i].translated@, t);
    k != -1 ==> {
        let tr = lines[i].translated@[k];
        let ex = spec_fs_extract(fs, tr.content@);
        &&& ex.len() == tr.batch_range.1 - tr.batch_range.0 + 1
        &&& spec_batch_contiguous(lines, i, tr.batch_range.1 as int)
        &&& forall|q: int|
            0 <= q < ex.len() ==> encode_utf8(
                spec_fs_format(fs, (#[trigger] lines[i + q]).content@, ex[q]),
            ) == data.subrange(lines[i + q].seek as int, lines[i + q].seek + lines[i + q].size)
    }
}

/// The rewrite-identity premise: every stored translation reproduces its
/// source bytes exactly.
pub open spec fn spec_identity_premise(
    fs: FormatSpec,
    data: Seq<u8>,
    lines: Seq<TextureLine>,
    t: Translator,
) -> bool {
    forall|i: int| 0 <= i < lines.len() ==> #[trigger] spec_line_identity_ok(fs, data, lines, t, i)
}

#[verifier::rlimit(100)]
proof fn lemma_format_batch_bytes(
    fs: FormatSpec,
    data: Seq<u8>,
    lines: Seq<TextureLine>,
    ex: Seq<Seq<char>>,
    s: int,
    j: int,
)
    requires
        wf_lines(lines, data.len() as int),
        0 <= s,
        0 <= j <= ex.len(),
        s + ex.len() <= lines.len(),
        ex.len() > 0,
        spec_batch_contiguous(lines, s, s + ex.len() - 1),
        forall|q: int|
            0 <= q < ex.len() ==> encode_utf8(
                spec_fs_format(fs, (#[trigger] lines[s + q]).content@, ex[q]),
            ) == data.subrange(lines[s + q].seek as int, lines[s + q].seek + lines[s + q].size),
    ensures
        j < ex.len() ==> spec_format_batch(fs, lines, ex, s, j) == data.subrange(
            lines[s + j].seek as int,
            lines[s + ex.len() - 1].seek + lines[s + ex.len() - 1].size,
        ),
        j == ex.len() ==> spec_format_batch(fs, lines, ex, s, j) == Seq::<u8>::empty(),
    decreases ex.len() - j,
{
    if j < ex.len() {
        lemma_format_batch_bytes(fs, data, lines, ex, s, j + 1);
        let last = s + ex.len() - 1;
        let endb = lines[last].seek + lines[last].size;
        let a = lines[s + j].seek as int;
        let b = lines[s + j].seek + lines[s + j].size;
        assert(encode_utf8(spec_fs_format(fs, lines[s + j].content@, ex[j])) == data.subrange(
            a,
            b,
        ));
        assert(endb <= data.len());
        if j + 1 < ex.len() {
            assert(lines[s + j].seek + lines[s + j].size == lines[s + j + 1].seek);
            if s + j + 1 < last {
                lemma_seek_monotonic(lines, data.len() as int, s + j + 1, last);
            }
            assert(b <= endb);
            assert(spec_format_batch(fs, lines, ex, s, j + 1) == data.subrange(b, endb));
            assert(data.subrange(a, endb) =~= data.subrange(a, b) + data.subrange(b, endb));
            assert(spec_format_batch(fs, lines, ex, s, j) =~= data.subrange(a, endb));
        } else {
            assert(b == endb);
            assert(spec_format_batch(fs, lines, ex, s, j + 1) == Seq::<u8>::empty());
            assert(spec_format_batch(fs, lines, ex, s, j) =~= data.subrange(a, endb));
        }
    }
}

#[verifier::rlimit(100)]
proof fn lemma_rewrite_identity_from(
    fs: FormatSpec,
    data: Seq<u8>,
    lines: Seq<TextureLine>,
    t: Translator,
    i: int,
    pre: int,
)
    requires
        wf_lines(lines, data.len() as int),
        wf_translations(lines),
        spec_identity_premise(fs, data, lines, t),
        0 <= i,
        0 <= pre <= data.len(),
        forall|j: int|
            i <= j < lines.len() && spec_find_translator((#[trigger] lines[j]).translated@, t)
                != -1 ==> pre <= lines[j].seek,
    ensures
        spec_rewrite(fs, data, lines, t, i, pre).0 == data.subrange(pre, data.len() as int),
    decreases lines.len() - i,
{
    if i >= lines.len() {
    } else {
        let k = spec_find_translator(lines[i].translated@, t);
        if k == -1 {
            lemma_rewrite_identity_from(fs, data, lines, t, i + 1, pre);
        } else {
            assert(spec_line_identity_ok(fs, data, lines, t, i));
            let tr = lines[i].translated@[k];
            let s = tr.batch_range.0 as int;
            let en = tr.batch_range.1 as int;
            assert(s == i);
            let ex = spec_fs_extract(fs, tr.content@);
            assert(ex.len() == en - s + 1);
            assert(en == i + ex.len() - 1);
            assert(spec_next_index(lines, i, en) == en + 1);
            let gap = if lines[i].seek > pre {
                data.subrange(pre, lines[i].seek as int)
            } else {
                Seq::<u8>::empty()
            };
            assert(pre <= lines[i].seek);
            let pre2 = lines[en].seek + lines[en].size;
            if i < en {
                lemma_seek_monotonic(lines, data.len() as int, i, en);
            }
            assert(lines[i].seek <= pre2);
            assert(pre2 <= data.len());
            lemma_format_batch_bytes(fs, data, lines, ex, i, 0);
            let emitted = spec_format_batch(fs, lines, ex, i, 0);
            assert(emitted == data.subrange(lines[i].seek as int, pre2));
            assert forall|j: int|
                en + 1 <= j < lines.len() && spec_find_translator(
                    (#[trigger] lines[j]).translated@,
                    t,
                ) != -1 implies pre2 <= lines[j].seek by {
                lemma_seek_monotonic(lines, data.len() as int, en, j);
            }
            lemma_rewrite_identity_from(fs, data, lines, t, en + 1, pre2);
            let rest = spec_rewrite(fs, data, lines, t, en + 1, pre2);
            assert(rest.0 == data.subrange(pre2, data.len() as int));
            assert(spec_rewrite(fs, data, lines, t, i, pre).0 == gap + emitted + rest.0);
            assert(gap + emitted + rest.0 =~= data.subrange(pre, data.len() as int));
        }
    }
}

/// Rewrite identity: when every stored translation's extracted lines
/// format back to exactly the original bytes of the lines they cover (and
/// each batch covers contiguous bytes), the rewriter's output is
/// byte-identical to the input.
pub proof fn lemma_rewrite_identity(
    fs: FormatSpec,
    data: Seq<u8>,
    lines: Seq<TextureLine>,
    t: Translator,
)
    requires
        wf_lines(lines, data.len() as int),
        wf_translations(lines),
        spec_identity_premise(fs, data, lines, t),
    ensures
        spec_rewrite(fs, data, lines, t, 0, 0).0 == data,
{
    lemma_rewrite_identity_from(fs, data, lines, t, 0, 0);
    assert(data.subrange(0, data.len() as int) =~= data);
}

/// Pass-through of a shape-mismatched batch: when the walk reaches line
/// `i` whose stored translation does not extract to the batch's size, the
/// batch's source bytes appear in the output unchanged, at the position
/// just after the bytes copied before the batch.
pub proof fn lemma_mismatch_pass_through(
    fs: FormatSpec,
    data: Seq<u8>,
    lines: Seq<TextureLine>,
    t: Translator,
    i: int,
    pre: int,
)
    requires
        wf_lines(lines, data.len() as int),
        wf_translations(lines),
        0 <= i < lines.len(),
        0 <= pre <= lines[i].seek,
        ({
            let k = spec_find_translator(lines[i].translated@, t);
            k != -1 && spec_fs_extract(fs, lines[i].translated@[k].content@).len() != lines[
                i
            ].translated@[k].batch_range.1 - lines[i].translated@[k].batch_range.0 + 1
        }),
    ensures
        ({
            let k = spec_find_translator(lines[i].translated@, t);
            let en = lines[i].translated@[k].batch_range.1 as int;
            let endb = lines[en].seek + lines[en].size;
            let o = spec_rewrite(fs, data, lines, t, i, pre).0;
            o.len() >= endb - pre && o.subrange(lines[i].seek - pre, endb - pre) == data.subrange(
                lines[i].seek as int,
                endb,
            )
        }),
{
    let k = spec_find_translator(lines[i].translated@, t);
    let tr = lines[i].translated@[k];
    let s = tr.batch_range.0 as int;
    let en = tr.batch_range.1 as int;
    assert(s == i);
    let seek_i = lines[i].seek as int;
    let endb = lines[en].seek + lines[en].size;
    let gap = if seek_i > pre {
        data.subrange(pre, seek_i)
    } else {
        Seq::<u8>::empty()
    };
    if i < en {
        lemma_seek_monotonic(lines, data.len() as int, i, en);
    }
    assert(seek_i <= endb);
    let dlen = data.len() as int;
    let nxt = spec_next_emit_seek(lines, t, en + 1, dlen);
    lemma_next_emit_after(lines, t, en + 1, en, dlen);
    assert(nxt >= endb);
    lemma_next_emit_in_range(lines, t, en + 1, dlen);
    lemma_rewrite_prefix(fs, data, lines, t, en + 1, seek_i);
    let rest = spec_rewrite(fs, data, lines, t, en + 1, seek_i);
    assert(rest.0.subrange(0, nxt - seek_i) == data.subrange(seek_i, nxt));
    let o = spec_rewrite(fs, data, lines, t, i, pre).0;
    assert(o =~= gap + rest.0);
    assert(o.subrange(seek_i - pre, endb - pre) =~= rest.0.subrange(0, endb - seek_i));
    assert(rest.0.subrange(0, endb - seek_i) =~= data.subrange(seek_i, nxt).subrange(
        0,
        endb - seek_i,
    ));
    assert(data.subrange(seek_i, nxt).subrange(0, endb - seek_i) =~= data.subrange(seek_i, endb));
}

/// Soundness of the diagnostic record: every range the rewriter records
/// belongs to a stored translation whose extracted line count differs from
/// the size of the batch it covers.
#[verifier::rlimit(100)]
pub proof fn lemma_ranges_are_mismatches(
    fs: FormatSpec,
    data: Seq<u8>,
    lines: Seq<TextureLine>,
    t: Translator,
    i: int,
    pre: int,
)
    ensures
        forall|r: (usize, usize)|
            spec_rewrite(fs, data, lines, t, i, pre).1.contains(r) ==> exists|ii: int|
                0 <= ii < lines.len() && #[trigger] spec_range_is_mismatch(fs, lines, t, ii, r),
    decreases lines.len() - i,
{
    if i < 0 || i >= lines.len() || pre < 0 || pre > data.len() {
    } else {
        let k = spec_find_translator(lines[i].translated@, t);
        if k == -1 {
            lemma_ranges_are_mismatches(fs, data, lines, t, i + 1, pre);
            assert(spec_rewrite(fs, data, lines, t, i, pre).1 == spec_rewrite(
                fs,
                data,
                lines,
                t,
                i + 1,
                pre,
            ).1);
        } else {
            let tr = lines[i].translated@[k];
            let s = tr.batch_range.0 as int;
            let en = tr.batch_range.1 as int;
            let ex = spec_fs_extract(fs, tr.content@);
            let next = spec_next_index(lines, i, en);
            assert(next > i);
            if ex.len() == en - s + 1 {
                let pre2 = lines[en].seek + lines[en].size;
                lemma_ranges_are_mismatches(fs, data, lines, t, next, pre2);
                assert(spec_rewrite(fs, data, lines, t, i, pre).1 == spec_rewrite(
                    fs,
                    data,
                    lines,
                    t,
                    next,
                    pre2,
                ).1);
            } else {
                let pre1 = if lines[i].seek > pre {
                    lines[i].seek as int
                } else {
                    pre
                };
                lemma_ranges_are_mismatches(fs, data, lines, t, next, pre1);
                let here = spec_rewrite(fs, data, lines, t, i, pre).1;
                let rest = spec_rewrite(fs, data, lines, t, next, pre1).1;
                assert(here =~= seq![tr.batch_range] + rest);
                assert forall|r: (usize, usize)| here.contains(r) implies exists|ii: int|
                    0 <= ii < lines.len() && #[trigger] spec_range_is_mismatch(
                        fs,
                        lines,
                        t,
                        ii,
                        r,
                    ) by {
                    let idx = choose|idx: int| 0 <= idx < here.len() && here[idx] == r;
                    if idx == 0 {
                        assert(spec_range_is_mismatch(fs, lines, t, i, r));
                    } else {
                        assert(rest[idx - 1] == r);
                        assert(rest.contains(r));
                    }
                }
            }
        }
    }
}

/// A freshly extracted line vector is well-formed for the rewriter: its
/// lines are ordered inside the input bytes and carry no translations yet.
pub proof fn lemma_extracted_lines_wf(bytes: Seq<u8>, pats: Seq<Seq<char>>, lines: Seq<TextureLine>)
    requires
        crate::input::lines_to_spec(lines) == crate::input::spec_extract(bytes, pats, 0),
        forall|i: int|
            0 <= i < lines.len() ==> (#[trigger] lines[i]).translated@ == Seq::<
                TranslatedLine,
            >::empty(),
    ensures
        wf_lines(lines, bytes.len() as int),
        wf_translations(lines),
{
    crate::input::lemma_extract_byte_accounting(bytes, pats, 0);
    let sp = crate::input::spec_extract(bytes, pats, 0);
    assert(crate::input::lines_to_spec(lines).len() == lines.len());
    assert forall|i: int| 0 <= i < lines.len() implies (#[trigger] lines[i]).seek + lines[i].size
        <= bytes.len() by {
        assert(crate::input::lines_to_spec(lines)[i] == (
            lines[i].seek as int,
            lines[i].size as int,
            lines[i].content@,
        ));
        assert(sp[i].0 + sp[i].1 <= bytes.len());
    }
    assert forall|i: int| 0 <= i && i + 1 < lines.len() implies (#[trigger] lines[i]).seek
        + lines[i].size <= lines[i + 1].seek by {
        assert(crate::input::lines_to_spec(lines)[i] == (
            lines[i].seek as int,
            lines[i].size as int,
            lines[i].content@,
        ));
        assert(crate::input::lines_to_spec(lines)[i + 1] == (
            lines[i + 1].seek as int,
            lines[i + 1].size as int,
            lines[i + 1].content@,
        ));
        assert(sp[i].0 + sp[i].1 <= sp[i + 1].0);
    }
}

/// Recording one translation whose range is valid and starts on its own
/// line keeps the lines well-formed for the rewriter: byte extents are
/// untouched, and the start line's `translated` vector gains or replaces
/// only the well-placed record.
pub proof fn lemma_update_preserves_wf(
    before: Seq<TextureLine>,
    after: Seq<TextureLine>,
    change: TranslatedLine,
    data_len: int,
)
    requires
        wf_lines(before, data_len),
        wf_translations(before),
        change.batch_range.0 <= change.batch_range.1 < before.len(),
        after.len() == before.len(),
        forall|k: int|
            0 <= k < before.len() && k != change.batch_range.0 ==> #[trigger] after[k] == before[k],
        ({
            let r0 = change.batch_range.0 as int;
            &&& after[r0].seek == before[r0].seek
            &&& after[r0].size == before[r0].size
            &&& after[r0].translated@ == crate::textures::spec_apply_change(
                before[r0].translated@,
                change,
            )
        }),
    ensures
        wf_lines(after, data_len),
        wf_translations(after),
{
    let r0 = change.batch_range.0 as int;
    assert forall|i: int| 0 <= i < after.len() implies (#[trigger] after[i]).seek + after[i].size
        <= data_len by {
        assert(before[i].seek + before[i].size <= data_len);
    }
    assert forall|i: int| 0 <= i && i + 1 < after.len() implies (#[trigger] after[i]).seek
        + after[i].size <= after[i + 1].seek by {
        assert(before[i].seek + before[i].size <= before[i + 1].seek);
    }
    let old_ts = before[r0].translated@;
    let new_ts = after[r0].translated@;
    crate::textures::lemma_find_translator_in_range(old_ts, change.translator);
    assert forall|i: int, k: int|
        0 <= i < after.len() && 0 <= k < after[i].translated@.len() implies {
        let tr = #[trigger] after[i].translated@[k];
        &&& tr.batch_range.0 == i
        &&& tr.batch_range.0 <= tr.batch_range.1 < after.len()
    } by {
        if i == r0 {
            let f = crate::textures::spec_find_translator(old_ts, change.translator);
            if f == -1 {
                if k < old_ts.len() {
                    assert(new_ts[k] == old_ts[k]);
                    assert(before[i].translated@[k].batch_range.0 == i);
                } else {
                    assert(new_ts[k] == change);
                }
            } else {
                if k == f {
                    assert(new_ts[k] == change);
                } else {
                    assert(new_ts[k] == old_ts[k]);
                    assert(before[i].translated@[k].batch_range.0 == i);
                }
            }
        } else {
            assert(after[i] == before[i]);
            assert(before[i].translated@[k].batch_range.0 == i);
        }
    }
}

/// A formatter family paired with the rewrite engine: produce the output
/// bytes and the failed ranges for one finalized `Textures` against the
/// original bytes.  Every implementor is a formatter, so the result is
/// pinned to the walk `spec_rewrite` describes for it.
pub trait Output: RewriteOutput {
    fn output(&self, translator: Translator, textures: &Textures, data: &[u8]) -> (r: (
        Vec<u8>,
        Vec<(usize, usize)>,
    ))
        requires
            wf_lines(textures.lines@, data@.len() as int),
            wf_translations(textures.lines@),
        ensures
            r.0@ == spec_rewrite(self.fs(), data@, textures.lines@, translator, 0, 0).0,
            r.1@ == spec_rewrite(self.fs(), data@, textures.lines@, translator, 0, 0).1,
    ;
}

impl<T: RewriteOutput> Output for T {
    fn output(&self, translator: Translator, textures: &Textures, data: &[u8]) -> (r: (
        Vec<u8>,
        Vec<(usize, usize)>,
    )) {
        rewrite(self, translator, textures, data)
    }
}

/// What the output stage rejects about a configuration, checked in order:
/// fewer than two output regexes, a regex the engine refuses, or a
/// template family without its template or capture pattern.
#[derive(Debug, Clone, Copy, PartialEq, Eq, Structural)]
pub enum OutputError {
    TooFewRegexen,
    InvalidRegex,
    MissingTemplate,
}

/// Which error, if any, the output stage reports for this configuration.
pub open spec fn spec_output_check(c: &Configuration) -> Option<OutputError> {
    if c.output_regexen@.len() < 2 {
        Some(OutputError::TooFewRegexen)
    } else if !regex_valid(c.output_regexen@[0].regex@) || !regex_valid(
        c.output_regexen@[1].regex@,
    ) {
        Some(OutputError::InvalidRegex)
    } else {
        match c.trans_type {
            TransType::Replace => {
                match (c.capture_regex, c.replace_expression) {
                    (Some(cr), Some(_)) => {
                        if !regex_valid(cr@) {
                            Some(OutputError::InvalidRegex)
                        } else {
                            None
                        }
                    },
                    _ => Some(OutputError::MissingTemplate),
                }
            },
            _ => None,
        }
    }
}

/// The wrap column a configuration asks for.
pub open spec fn spec_config_width(c: &Configuration) -> int {
    match c.mtool_opt {
        Some(m) => spec_escape_width(m.line_width),
        None => 3000,
    }
}

/// The formatter a configuration selects, described at the spec level.
pub open spec fn spec_config_fs(c: &Configuration) -> FormatSpec {
    let rep = c.output_regexen@[0].regex@;
    let cap = c.output_regexen@[1].regex@;
    match c.trans_type {
        TransType::Text => FormatSpec {
            kind: FormatKind::Text,
            rep,
            cap,
            width: 3000,
            expr: Seq::empty(),
            user_cap: Seq::empty(),
        },
        TransType::MTool => FormatSpec {
            kind: FormatKind::MTool,
            rep,
            cap,
            width: spec_config_width(c),
            expr: Seq::empty(),
            user_cap: Seq::empty(),
        },
        TransType::Replace => FormatSpec {
            kind: FormatKind::Replace,
            rep,
            cap,
            width: spec_config_width(c),
            expr: (match c.replace_expression {
                Some(e) => e@,
                None => Seq::empty(),
            }),
            user_cap: (match c.capture_regex {
                Some(cr) => cr@,
                None => Seq::empty(),
            }),
        },
    }
}

/// Produce the translated output for the configured formatter family: the
/// rewritten bytes and the shape-mismatched ranges.  A configuration the
/// output stage cannot honour is rejected with the exact error
/// `spec_output_check` names.
pub fn output(config: &Configuration, textures: &Textures, data: &[u8]) -> (r: Result<
    (Vec<u8>, Vec<(usize, usize)>),
    OutputError,
>)
    requires
        wf_lines(textures.lines@, data@.len() as int),
        wf_translations(textures.lines@),
    ensures
        r is Err <==> spec_output_check(config) is Some,
        r matches Err(e) ==> spec_output_check(config) == Some(e),
        r matches Ok(p) ==> {
            let sp = spec_rewrite(
                spec_config_fs(config),
                data@,
                textures.lines@,
                Translator::ChatGPT,
                0,
                0,
            );
            p.0@ == sp.0 && p.1@ == sp.1
        },
{
    if config.output_regexen.len() < 2 {
        return Err(OutputError::TooFewRegexen);
    }
    let rep_s = &config.output_regexen[0].regex;
    let cap_s = &config.output_regexen[1].regex;
    if CompiledRegex::compile(rep_s.as_str()).is_none() {
        return Err(OutputError::InvalidRegex);
    }
    if CompiledRegex::compile(cap_s.as_str()).is_none() {
        return Err(OutputError::InvalidRegex);
    }
    let line_width: Option<usize> = match &config.mtool_opt {
        Some(m) => m.line_width,
        None => None,
    };
    match config.trans_type {
        TransType::Text => {
            let fmtr = TextOutput::new(rep_s.as_str(), cap_s.as_str());
            proof {
                assert(fmtr.fs() == spec_config_fs(config));
            }
            Ok(rewrite(&fmtr, Translator::ChatGPT, textures, data))
        },
        TransType::MTool => {
            let mut fmtr = MToolOutput::new(rep_s.as_str(), cap_s.as_str());
            fmtr.set_line_width(line_width);
            proof {
                assert(fmtr.fs() == spec_config_fs(config));
            }
            Ok(rewrite(&fmtr, Translator::ChatGPT, textures, data))
        },
        TransType::Replace => {
            match (&config.capture_regex, &config.replace_expression) {
                (Some(cr), Some(expr)) => {
                    if CompiledRegex::compile(cr.as_str()).is_none() {
                        Err(OutputError::InvalidRegex)
                    } else {
                        let mut fmtr = ReplaceOutput::new(
                            rep_s.as_str(),
                            cap_s.as_str(),
                            expr.as_str(),
                            cr.as_str(),
                        );
                        fmtr.set_line_width(line_width);
                        proof {
                            assert(fmtr.fs() == spec_config_fs(config));
                        }
                        Ok(rewrite(&fmtr, Translator::ChatGPT, textures, data))
                    }
                },
                _ => Err(OutputError::MissingTemplate),
            }
        },
    }
}

/// Completeness of the diagnostic record: a mismatched batch the walk
/// reaches — one on a line no earlier batch runs past — has its range
/// recorded.
pub proof fn lemma_mismatch_is_recorded(
    fs: FormatSpec,
    data: Seq<u8>,
    lines: Seq<TextureLine>,
    t: Translator,
    i: int,
    pre: int,
    m: int,
)
    requires
        wf_lines(lines, data.len() as int),
        wf_translations(lines),
        0 <= i <= m < lines.len(),
        0 <= pre <= data.len(),
        ({
            let k = spec_find_translator(lines[m].translated@, t);
            k != -1 && spec_fs_extract(fs, lines[m].translated@[k].content@).len() != lines[
                m
            ].translated@[k].batch_range.1 - lines[m].translated@[k].batch_range.0 + 1
        }),
        forall|j: int|
            i <= j < m && spec_find_translator((#[trigger] lines[j]).translated@, t) != -1 ==> (
            lines[j].translated@[spec_find_translator(lines[j].translated@, t)].batch_range.1
                as int) < m,
    ensures
        ({
            let k = spec_find_translator(lines[m].translated@, t);
            spec_rewrite(fs, data, lines, t, i, pre).1.contains(
                lines[m].translated@[k].batch_range,
            )
        }),
    decreases m - i,
{
    let km = spec_find_translator(lines[m].translated@, t);
    let target = lines[m].translated@[km].batch_range;
    let k = spec_find_translator(lines[i].translated@, t);
    if i == m {
        let here = spec_rewrite(fs, data, lines, t, i, pre).1;
        assert(here[0] == target);
        assert(here.contains(target));
    } else {
        if k == -1 {
            lemma_mismatch_is_recorded(fs, data, lines, t, i + 1, pre, m);
        } else {
            crate::textures::lemma_find_translator_in_range(lines[i].translated@, t);
            let tr = lines[i].translated@[k];
            let s = tr.batch_range.0 as int;
            let en = tr.batch_range.1 as int;
            assert(s == i);
            assert(en < m);
            let next = spec_next_index(lines, i, en);
            assert(next == en + 1);
            let ex = spec_fs_extract(fs, tr.content@);
            if ex.len() == en - s + 1 {
                let pre2 = lines[en].seek + lines[en].size;
                lemma_mismatch_is_recorded(fs, data, lines, t, next, pre2, m);
            } else {
                let pre1 = if lines[i].seek > pre {
                    lines[i].seek as int
                } else {
                    pre
                };
                lemma_mismatch_is_recorded(fs, data, lines, t, next, pre1, m);
                let rest = spec_rewrite(fs, data, lines, t, next, pre1).1;
                let here = spec_rewrite(fs, data, lines, t, i, pre).1;
                assert(here =~= seq![tr.batch_range] + rest);
                let idx = choose|idx: int| 0 <= idx < rest.len() && rest[idx] == target;
                assert(here[idx + 1] == target);
                assert(here.contains(target));
            }
        }
    }
}

/// Whole-walk pass-through: a mismatched batch the walk reaches — one on
/// a line no earlier batch runs past, not yet overtaken by the read
/// cursor — has its source bytes standing verbatim, as one block, in the
/// walk's output.
proof fn lemma_subrange_shift(a: Seq<u8>, b: Seq<u8>, x: int, y: int)
    requires
        0 <= x <= y <= b.len(),
    ensures
        (a + b).subrange(a.len() + x, a.len() + y) == b.subrange(x, y),
{
    assert((a + b).subrange(a.len() + x, a.len() + y) =~= b.subrange(x, y));
}

/// The walk's output from `(i, pre)` splits as some already-written block
/// followed by the walk's output from line `m`, whose read cursor has not
/// passed `m`'s start byte.
pub open spec fn spec_walk_suffix(
    fs: FormatSpec,
    data: Seq<u8>,
    lines: Seq<TextureLine>,
    t: Translator,
    m: int,
    o: Seq<u8>,
    a: Seq<u8>,
    pm: int,
) -> bool {
    &&& 0 <= pm <= data.len()
    &&& pm <= lines[m].seek
    &&& o == a + spec_rewrite(fs, data, lines, t, m, pm).0
}

proof fn lemma_walk_prefix_decompose(
    fs: FormatSpec,
    data: Seq<u8>,
    lines: Seq<TextureLine>,
    t: Translator,
    i: int,
    pre: int,
    m: int,
)
    requires
        wf_lines(lines, data.len() as int),
        wf_translations(lines),
        0 <= i <= m < lines.len(),
        0 <= pre <= data.len(),
        pre <= lines[m].seek,
        forall|j: int|
            i <= j < m && spec_find_translator((#[trigger] lines[j]).translated@, t) != -1 ==> (
            lines[j].translated@[spec_find_translator(lines[j].translated@, t)].batch_range.1
                as int) < m,
    ensures
        exists|a: Seq<u8>, pm: int|
            #[trigger] spec_walk_suffix(
                fs,
                data,
                lines,
                t,
                m,
                spec_rewrite(fs, data, lines, t, i, pre).0,
                a,
                pm,
            ),
    decreases m - i,
{
    let o = spec_rewrite(fs, data, lines, t, i, pre).0;
    if i == m {
        assert(o =~= Seq::<u8>::empty() + o);
        assert(spec_walk_suffix(fs, data, lines, t, m, o, Seq::<u8>::empty(), pre));
    } else {
        let k = spec_find_translator(lines[i].translated@, t);
        if k == -1 {
            lemma_step_none(fs, data, lines, t, i, pre);
            lemma_walk_prefix_decompose(fs, data, lines, t, i + 1, pre, m);
        } else {
            crate::textures::lemma_find_translator_in_range(lines[i].translated@, t);
            let tr = lines[i].translated@[k];
            let en = tr.batch_range.1 as int;
            assert(tr.batch_range.0 == i);
            assert(en < m);
            lemma_seek_monotonic(lines, data.len() as int, en, m);
            lemma_seek_monotonic(lines, data.len() as int, i, m);
            lemma_step_matched(fs, data, lines, t, i, pre);
            let gap = if lines[i].seek > pre {
                data.subrange(pre, lines[i].seek as int)
            } else {
                Seq::<u8>::empty()
            };
            let ex = spec_fs_extract(fs, tr.content@);
            let prefix = if ex.len() == en - i + 1 {
                gap + spec_format_batch(fs, lines, ex, i, 0)
            } else {
                gap
            };
            let pre_next = if ex.len() == en - i + 1 {
                lines[en].seek + lines[en].size
            } else {
                if lines[i].seek > pre {
                    lines[i].seek as int
                } else {
                    pre
                }
            };
            let rest = spec_rewrite(fs, data, lines, t, en + 1, pre_next).0;
            assert(o == prefix + rest);
            lemma_walk_prefix_decompose(fs, data, lines, t, en + 1, pre_next, m);
            let (a0, pm) = choose|a0: Seq<u8>, pm: int|
                #[trigger] spec_walk_suffix(fs, data, lines, t, m, rest, a0, pm);
            assert(o =~= (prefix + a0) + spec_rewrite(fs, data, lines, t, m, pm).0);
            assert(spec_walk_suffix(fs, data, lines, t, m, o, prefix + a0, pm));
        }
    }
}

/// Whole-walk pass-through: a mismatched batch the walk reaches - one on
/// a line no earlier batch runs past - has its source bytes standing
/// verbatim, as one block, in the walk's output.
#[verifier::rlimit(100)]
#[verifier::spinoff_prover]
pub proof fn lemma_mismatch_bytes_survive(
    fs: FormatSpec,
    data: Seq<u8>,
    lines: Seq<TextureLine>,
    t: Translator,
    i: int,
    pre: int,
    m: int,
)
    requires
        wf_lines(lines, data.len() as int),
        wf_translations(lines),
        0 <= i <= m < lines.len(),
        0 <= pre <= data.len(),
        pre <= lines[m].seek,
        ({
            let k = spec_find_translator(lines[m].translated@, t);
            k != -1 && spec_fs_extract(fs, lines[m].translated@[k].content@).len() != lines[
                m
            ].translated@[k].batch_range.1 - lines[m].translated@[k].batch_range.0 + 1
        }),
        forall|j: int|
            i <= j < m && spec_find_translator((#[trigger] lines[j]).translated@, t) != -1 ==> (
            lines[j].translated@[spec_find_translator(lines[j].translated@, t)].batch_range.1
                as int) < m,
    ensures
        ({
            let k = spec_find_translator(lines[m].translated@, t);
            let en = lines[m].translated@[k].batch_range.1 as int;
            let endb = lines[en].seek + lines[en].size;
            let seekm = lines[m].seek as int;
            let o = spec_rewrite(fs, data, lines, t, i, pre).0;
            exists|off: int|
                0 <= off && off + (endb - seekm) <= o.len() && #[trigger] o.subrange(
                    off,
                    off + (endb - seekm),
                ) == data.subrange(seekm, endb)
        }),
{
    let km = spec_find_translator(lines[m].translated@, t);
    let en = lines[m].translated@[km].batch_range.1 as int;
    let endb = lines[en].seek + lines[en].size;
    let seekm = lines[m].seek as int;
    let o = spec_rewrite(fs, data, lines, t, i, pre).0;
    assert(exists|off: int|
        0 <= off && off + (endb - seekm) <= o.len() && #[trigger] o.subrange(
            off,
            off + (endb - seekm),
        ) == data.subrange(seekm, endb)) by {
        lemma_walk_prefix_decompose(fs, data, lines, t, i, pre, m);
        let (a, pm) = choose|a: Seq<u8>, pm: int|
            #[trigger] spec_walk_suffix(fs, data, lines, t, m, o, a, pm);
        let tail = spec_rewrite(fs, data, lines, t, m, pm).0;
        lemma_mismatch_pass_through(fs, data, lines, t, m, pm);
        crate::textures::lemma_find_translator_in_range(lines[m].translated@, t);
        assert(m <= en < lines.len());
        if m < en {
            lemma_seek_monotonic(lines, data.len() as int, m, en);
        }
        assert(seekm <= endb);
        assert(tail.subrange(seekm - pm, endb - pm) == data.subrange(seekm, endb));
        lemma_subrange_shift(a, tail, seekm - pm, endb - pm);
        let off = a.len() + (seekm - pm);
        assert(o.subrange(off, off + (endb - seekm)) == data.subrange(seekm, endb));
    }
}

/// The mismatched stored batches from line `i` on, in ascending line
/// order: for each line holding a translation whose extracted count does
/// not equal its batch size, that batch's range.
pub open spec fn spec_mismatch_ranges(
    fs: FormatSpec,
    lines: Seq<TextureLine>,
    t: Translator,
    i: int,
) -> Seq<(usize, usize)>
    decreases lines.len() - i,
{
    if i < 0 || i >= lines.len() {
        Seq::empty()
    } else {
        let k = spec_find_translator(lines[i].translated@, t);
        let rest = spec_mismatch_ranges(fs, lines, t, i + 1);
        if k != -1 && spec_fs_extract(fs, lines[i].translated@[k].content@).len() != lines[
            i
        ].translated@[k].batch_range.1 - lines[i].translated@[k].batch_range.0 + 1 {
            seq![lines[i].translated@[k].batch_range] + rest
        } else {
            rest
        }
    }
}

proof fn lemma_mismatch_ranges_skip(
    fs: FormatSpec,
    lines: Seq<TextureLine>,
    t: Translator,
    a: int,
    b: int,
)
    requires
        0 <= a <= b <= lines.len(),
        forall|j: int|
            a <= j < b ==> spec_find_translator((#[trigger] lines[j]).translated@, t) == -1,
    ensures
        spec_mismatch_ranges(fs, lines, t, a) == spec_mismatch_ranges(fs, lines, t, b),
    decreases b - a,
{
    if a < b {
        lemma_mismatch_ranges_skip(fs, lines, t, a + 1, b);
    }
}

/// Exactness of the diagnostic record: when no batch runs past a later
/// translated line, the walk visits every stored batch, so the recorded
/// list is exactly the mismatched stored batches — no more, no fewer — in
/// ascending walk order.
pub proof fn lemma_failed_ranges_exact(
    fs: FormatSpec,
    data: Seq<u8>,
    lines: Seq<TextureLine>,
    t: Translator,
    i: int,
    pre: int,
)
    requires
        wf_lines(lines, data.len() as int),
        wf_translations(lines),
        0 <= i,
        0 <= pre <= data.len(),
        forall|j: int, j2: int|
            0 <= j < j2 < lines.len() && spec_find_translator(
                (#[trigger] lines[j]).translated@,
                t,
            ) != -1 && spec_find_translator((#[trigger] lines[j2]).translated@, t) != -1 ==> (
            lines[j].translated@[spec_find_translator(lines[j].translated@, t)].batch_range.1
                as int) < j2,
    ensures
        spec_rewrite(fs, data, lines, t, i, pre).1 == spec_mismatch_ranges(fs, lines, t, i),
    decreases lines.len() - i,
{
    if i >= lines.len() {
    } else {
        let k = spec_find_translator(lines[i].translated@, t);
        if k == -1 {
            lemma_step_none(fs, data, lines, t, i, pre);
            lemma_failed_ranges_exact(fs, data, lines, t, i + 1, pre);
        } else {
            crate::textures::lemma_find_translator_in_range(lines[i].translated@, t);
            let tr = lines[i].translated@[k];
            let en = tr.batch_range.1 as int;
            assert(tr.batch_range.0 == i);
            lemma_step_matched(fs, data, lines, t, i, pre);
            assert forall|j: int|
                i + 1 <= j < en + 1 implies spec_find_translator(
                (#[trigger] lines[j]).translated@,
                t,
            ) == -1 by {
                if spec_find_translator(lines[j].translated@, t) != -1 {
                    assert(en < j);
                }
            }
            lemma_mismatch_ranges_skip(fs, lines, t, i + 1, en + 1);
            let ex = spec_fs_extract(fs, tr.content@);
            if ex.len() == en - i + 1 {
                let pre2 = lines[en].seek + lines[en].size;
                lemma_failed_ranges_exact(fs, data, lines, t, en + 1, pre2);
            } else {
                let pre1 = if lines[i].seek > pre {
                    lines[i].seek as int
                } else {
                    pre
                };
                lemma_failed_ranges_exact(fs, data, lines, t, en + 1, pre1);
            }
        }
    }
}

/// The recorded ranges start on their own lines and come in strictly
/// ascending start order.
pub proof fn lemma_mismatch_ranges_sorted(
    fs: FormatSpec,
    lines: Seq<TextureLine>,
    t: Translator,
    i: int,
)
    requires
        wf_translations(lines),
        0 <= i,
    ensures
        forall|q: int|
            0 <= q < spec_mismatch_ranges(fs, lines, t, i).len() ==> i <= (
            #[trigger] spec_mismatch_ranges(fs, lines, t, i)[q]).0,
        forall|q: int|
            0 <= q && q + 1 < spec_mismatch_ranges(fs, lines, t, i).len() ==> (
            #[trigger] spec_mismatch_ranges(fs, lines, t, i)[q]).0 < spec_mismatch_ranges(
                fs,
                lines,
                t,
                i,
            )[q + 1].0,
    decreases lines.len() - i,
{
    if 0 <= i < lines.len() {
        lemma_mismatch_ranges_sorted(fs, lines, t, i + 1);
        let k = spec_find_translator(lines[i].translated@, t);
        let ls = spec_mismatch_ranges(fs, lines, t, i);
        let rest = spec_mismatch_ranges(fs, lines, t, i + 1);
        if k != -1 && spec_fs_extract(fs, lines[i].translated@[k].content@).len() != lines[
            i
        ].translated@[k].batch_range.1 - lines[i].translated@[k].batch_range.0 + 1 {
            crate::textures::lemma_find_translator_in_range(lines[i].translated@, t);
            assert(lines[i].translated@[k].batch_range.0 == i);
            assert forall|q: int| 0 <= q < ls.len() implies i <= (#[trigger] ls[q]).0 by {
                if q > 0 {
                    assert(ls[q] == rest[q - 1]);
                }
            }
            assert forall|q: int| 0 <= q && q + 1 < ls.len() implies (#[trigger] ls[q]).0 < ls[q
                + 1].0 by {
                assert(ls[q + 1] == rest[q]);
                if q > 0 {
                    assert(ls[q] == rest[q - 1]);
                }
            }
        }
    }
}

/// Line `ii` holds a translation by `t` whose batch range is `r` and whose
/// extracted line count does not match the batch size.
pub open spec fn spec_range_is_mismatch(
    fs: FormatSpec,
    lines: Seq<TextureLine>,
    t: Translator,
    ii: int,
    r: (usize, usize),
) -> bool {
    let k = spec_find_translator(lines[ii].translated@, t);
    &&& k != -1
    &&& lines[ii].translated@[k].batch_range == r
    &&& spec_fs_extract(fs, lines[ii].translated@[k].content@).len() != r.1 - r.0 + 1
}

} // verus!
