//! The input-side extractor: walk the input text line by line, tracking a
//! running byte offset, and keep each line the configured filter accepts.
//! With no filter configured every non-blank line is kept; with one or more
//! filter patterns a line is kept iff at least one of them matches.  The
//! stored content is the full raw line (newline included), because the
//! rewriter later needs the whole line verbatim.

use vstd::prelude::*;
use vstd::string::*;
use vstd::utf8::*;

use crate::re::CompiledRegex;
use crate::re::regex_is_match;
use crate::re::regex_valid;
use crate::strutil::char_is_whitespace;
use crate::strutil::is_whitespace_char;
use crate::textures::TextureLine;
use crate::textures::Textures;
use crate::textures::TranslatedLine;

verus! {

/// Which output family the job uses; extraction itself is the same
/// regex-filter walk for every family.
#[derive(Debug, Clone, Copy, PartialEq, Eq, Structural)]
pub enum TransType {
    Text,
    MTool,
    Replace,
}

/// Extraction fails only on a filter pattern the regex engine rejects.
#[derive(Debug, Clone, Copy, PartialEq, Eq, Structural)]
pub enum ExtractError {
    InvalidRegex,
}

/// One past the end of the raw line that starts at byte `pos`: just after
/// the first newline byte at or after `pos`, or the end of the input.
pub open spec fn spec_line_end(bytes: Seq<u8>, pos: int) -> int
    decreases bytes.len() - pos,
{
    if pos < 0 || pos >= bytes.len() {
        bytes.len() as int
    } else if bytes[pos] == 10u8 {
        pos + 1
    } else {
        spec_line_end(bytes, pos + 1)
    }
}

/// A line is blank when every character is white space.
pub open spec fn spec_blank(line: Seq<char>) -> bool {
    forall|i: int| 0 <= i < line.len() ==> char_is_whitespace(#[trigger] line[i])
}

/// Whether the extractor keeps a raw line, given the filter patterns.
pub open spec fn spec_keep(line: Seq<char>, pats: Seq<Seq<char>>) -> bool {
    if pats.len() == 0 {
        !spec_blank(line)
    } else {
        exists|i: int| 0 <= i < pats.len() && regex_is_match(#[trigger] pats[i], line)
    }
}

pub proof fn lemma_line_end_bounds(bytes: Seq<u8>, pos: int)
    requires
        0 <= pos < bytes.len(),
    ensures
        pos < spec_line_end(bytes, pos) <= bytes.len(),
    decreases bytes.len() - pos,
{
    if bytes[pos] != 10u8 {
        if pos + 1 < bytes.len() {
            lemma_line_end_bounds(bytes, pos + 1);
        } else {
            assert(spec_line_end(bytes, pos + 1) == bytes.len());
        }
    }
}

/// The extracted lines of the input from byte `pos` on, as
/// `(seek, size, content)` triples.
pub open spec fn spec_extract(bytes: Seq<u8>, pats: Seq<Seq<char>>, pos: int) -> Seq<
    (int, int, Seq<char>),
>
    decreases bytes.len() - pos,
    via spec_extract_decreases
{
    if pos < 0 || pos >= bytes.len() {
        Seq::empty()
    } else {
        let end = spec_line_end(bytes, pos);
        let content = decode_utf8(bytes.subrange(pos, end));
        let rest = spec_extract(bytes, pats, end);
        if spec_keep(content, pats) {
            seq![(pos, end - pos, content)] + rest
        } else {
            rest
        }
    }
}

#[via_fn]
proof fn spec_extract_decreases(bytes: Seq<u8>, pats: Seq<Seq<char>>, pos: int) {
    if 0 <= pos < bytes.len() {
        lemma_line_end_bounds(bytes, pos);
    }
}

/// The `(seek, size, content)` triples of a line vector.
pub open spec fn lines_to_spec(ls: Seq<TextureLine>) -> Seq<(int, int, Seq<char>)> {
    Seq::new(ls.len(), |i: int| (ls[i].seek as int, ls[i].size as int, ls[i].content@))
}

/// A newline byte is a one-byte character, so the position after it is
/// again a character boundary.
proof fn lemma_boundary_after_width1(bytes: Seq<u8>, j: int)
    requires
        valid_utf8(bytes),
        0 <= j < bytes.len(),
        is_char_boundary(bytes, j),
        is_leading_byte_width_1(bytes[j]),
    ensures
        is_char_boundary(bytes, j + 1),
    decreases bytes.len(),
{
    let l = length_of_first_scalar(bytes);
    let pop = pop_first_scalar(bytes);
    if j == 0 {
        assert(l == 1);
        assert(is_char_boundary(pop, 0));
    } else {
        assert(is_char_boundary(pop, j - l));
        assert(0 <= j - l);
        assert(bytes[j] == pop[j - l]);
        lemma_boundary_after_width1(pop, j - l);
        assert(is_char_boundary(pop, j - l + 1));
    }
}

pub struct TextInput {
    pub regexen: Vec<CompiledRegex>,
}

impl TextInput {
    /// The filter patterns this extractor was built from.
    pub open spec fn patterns(&self) -> Seq<Seq<char>> {
        Seq::new(self.regexen@.len(), |i: int| self.regexen@[i].pattern_view())
    }

    /// Compile the filter patterns; a malformed pattern is rejected up
    /// front, before any extraction work.
    pub fn new(regexen: &Vec<String>) -> (r: Result<TextInput, ExtractError>)
        ensures
            r is Ok <==> (forall|i: int|
                0 <= i < regexen@.len() ==> regex_valid((#[trigger] regexen@[i])@)),
            r matches Ok(t) ==> t.patterns() == regexen.deep_view(),
    {
        let mut compiled: Vec<CompiledRegex> = Vec::new();
        let mut i: usize = 0;
        while i < regexen.len()
            invariant
                0 <= i <= regexen@.len(),
                compiled@.len() == i,
                forall|j: int|
                    0 <= j < i ==> (#[trigger] compiled@[j]).pattern_view() == regexen@[j]@,
                forall|j: int| 0 <= j < i ==> regex_valid((#[trigger] regexen@[j])@),
            decreases regexen@.len() - i,
        {
            match CompiledRegex::compile(regexen[i].as_str()) {
                Some(c) => {
                    compiled.push(c);
                },
                None => {
                    return Err(ExtractError::InvalidRegex);
                },
            }
            i += 1;
        }
        let t = TextInput { regexen: compiled };
        proof {
            assert(t.patterns() =~~= regexen.deep_view());
        }
        Ok(t)
    }

    /// Whether one raw line is kept: any filter matches, or, with no filter
    /// configured, the line is not blank.
    pub fn extract_line(&self, line: &str) -> (keep: bool)
        ensures
            keep == spec_keep(line@, self.patterns()),
    {
        if self.regexen.len() == 0 {
            let n = line.unicode_len();
            let mut i: usize = 0;
            let mut found: bool = false;
            while i < n && !found
                invariant
                    n == line@.len(),
                    0 <= i <= n,
                    !found ==> forall|j: int| 0 <= j < i ==> char_is_whitespace(#[trigger] line@[j]),
                    found ==> exists|j: int| 0 <= j < line@.len() && !char_is_whitespace(
                        #[trigger] line@[j],
                    ),
                decreases n - i + (if found { 0int } else { 1int }),
            {
                let c = line.get_char(i);
                if !is_whitespace_char(c) {
                    found = true;
                } else {
                    i += 1;
                }
            }
            found
        } else {
            let mut i: usize = 0;
            let mut found: bool = false;
            while i < self.regexen.len() && !found
                invariant
                    0 <= i <= self.regexen@.len(),
                    !found ==> forall|j: int|
                        0 <= j < i ==> !regex_is_match(#[trigger] self.patterns()[j], line@),
                    found ==> exists|j: int|
                        0 <= j < self.patterns().len() && regex_is_match(
                            #[trigger] self.patterns()[j],
                            line@,
                        ),
                decreases self.regexen@.len() - i + (if found { 0int } else { 1int }),
            {
                if self.regexen[i].is_match(line) {
                    found = true;
                    proof {
                        assert(self.patterns()[i as int] == self.regexen@[i as int].pattern_view());
                        assert(regex_is_match(self.patterns()[i as int], line@));
                    }
                } else {
                    i += 1;
                    proof {
                        assert(self.patterns()[i - 1] == self.regexen@[i - 1].pattern_view());
                    }
                }
            }
            found
        }
    }

    /// Convert the input text into a `Textures` bundle: the kept lines with
    /// their byte offsets and sizes, `curr_index` zero, and the given name.
    pub fn parse(&self, name: &str, data: &str) -> (r: Textures)
        ensures
            r.curr_index == 0,
            r.name@ == name@,
            lines_to_spec(r.lines@) == spec_extract(data.spec_bytes(), self.patterns(), 0),
            forall|i: int|
                0 <= i < r.lines@.len() ==> !(#[trigger] r.lines@[i]).skip && r.lines@[
                    i
                ].translated@ == Seq::<TranslatedLine>::empty(),
    {
        let ghost pats = self.patterns();
        let bytes: &[u8] = data.as_bytes();
        let n: usize = bytes.len();
        let mut lines_vec: Vec<TextureLine> = Vec::new();
        let mut pos: usize = 0;
        proof {
            encode_utf8_valid_utf8(data@);
            assert(valid_utf8(data.spec_bytes()));
            assert(is_char_boundary(data.spec_bytes(), 0));
        }
        while pos < n
            invariant
                bytes@ == data.spec_bytes(),
                n == bytes@.len(),
                valid_utf8(bytes@),
                0 <= pos <= n,
                is_char_boundary(bytes@, pos as int),
                pats == self.patterns(),
                spec_extract(bytes@, pats, 0) =~= lines_to_spec(lines_vec@) + spec_extract(
                    bytes@,
                    pats,
                    pos as int,
                ),
                forall|i: int|
                    0 <= i < lines_vec@.len() ==> !(#[trigger] lines_vec@[i]).skip && lines_vec@[
                        i
                    ].translated@ == Seq::<TranslatedLine>::empty(),
            decreases n - pos,
        {
            let mut j: usize = pos;
            while j < n && bytes[j] != 10u8
                invariant
                    bytes@ == data.spec_bytes(),
                    n == bytes@.len(),
                    pos <= j <= n,
                    forall|k: int| pos <= k < j ==> bytes@[k] != 10u8,
                decreases n - j,
            {
                j += 1;
            }
            let end: usize = if j < n {
                j + 1
            } else {
                n
            };
            proof {
                lemma_line_end_scan(bytes@, pos as int, j as int);
                assert(end as int == spec_line_end(bytes@, pos as int));
                if (j as int) < n {
                    assert(!is_continuation_byte(bytes@[j as int]));
                    is_char_boundary_iff_not_is_continuation_byte(bytes@, j as int);
                    assert(is_char_boundary(bytes@, j as int));
                    assert(is_leading_byte_width_1(bytes@[j as int]));
                    lemma_boundary_after_width1(bytes@, j as int);
                } else {
                    is_char_boundary_start_end_of_seq(bytes@);
                }
                assert(is_char_boundary(bytes@, end as int));
            }
            let (_, tail) = data.split_at(pos);
            proof {
                assert(tail.spec_bytes() =~= bytes@.subrange(pos as int, n as int));
                encode_utf8_valid_utf8(tail@);
                assert(valid_utf8(tail.spec_bytes()));
                if end < n {
                    assert(tail.spec_bytes()[end - pos] == bytes@[end as int]);
                    is_char_boundary_iff_not_is_continuation_byte(bytes@, end as int);
                    assert(!is_continuation_byte(bytes@[end as int]));
                    is_char_boundary_iff_not_is_continuation_byte(tail.spec_bytes(), end - pos);
                    assert(is_char_boundary(tail.spec_bytes(), end - pos));
                } else {
                    assert(end - pos == tail.spec_bytes().len());
                    is_char_boundary_start_end_of_seq(tail.spec_bytes());
                    assert(is_char_boundary(tail.spec_bytes(), end - pos));
                }
            }
            let (line_str, _) = tail.split_at(end - pos);
            proof {
                assert(line_str.spec_bytes() =~= bytes@.subrange(pos as int, end as int));
                encode_utf8_decode_utf8(line_str@);
                assert(decode_utf8(encode_utf8(line_str@)) =~= line_str@);
                assert(line_str@ == decode_utf8(bytes@.subrange(pos as int, end as int)));
            }
            let keep = self.extract_line(line_str);
            let ghost lines_before = lines_vec@;
            if keep {
                let content = line_str.to_owned();
                let tl = TextureLine::new(pos, end - pos, content, false);
                lines_vec.push(tl);
            }
            proof {
                let item = (pos as int, end - pos as int, decode_utf8(
                    bytes@.subrange(pos as int, end as int),
                ));
                if keep {
                    assert(lines_to_spec(lines_vec@) =~= lines_to_spec(lines_before).push(item));
                    assert(spec_extract(bytes@, pats, pos as int) =~= seq![item] + spec_extract(
                        bytes@,
                        pats,
                        end as int,
                    ));
                } else {
                    assert(spec_extract(bytes@, pats, pos as int) =~= spec_extract(
                        bytes@,
                        pats,
                        end as int,
                    ));
                }
                assert(spec_extract(bytes@, pats, 0) =~= lines_to_spec(lines_vec@) + spec_extract(
                    bytes@,
                    pats,
                    end as int,
                ));
            }
            pos = end;
        }
        proof {
            assert(spec_extract(bytes@, pats, pos as int) =~= Seq::empty());
            assert(spec_extract(bytes@, pats, 0) =~= lines_to_spec(lines_vec@));
        }
        Textures { lines: lines_vec, curr_index: 0, name: name.to_owned() }
    }
}

proof fn lemma_line_end_scan(bytes: Seq<u8>, pos: int, j: int)
    requires
        0 <= pos <= j <= bytes.len(),
        forall|k: int| pos <= k < j ==> bytes[k] != 10u8,
        j < bytes.len() ==> bytes[j] == 10u8,
    ensures
        spec_line_end(bytes, pos) == if j < bytes.len() {
            j + 1
        } else {
            bytes.len() as int
        },
    decreases j - pos,
{
    if pos < j {
        lemma_line_end_scan(bytes, pos + 1, j);
    }
}

/// Convert input text into a `Textures` bundle.  Every output family uses
/// the same regex-filter extraction; a malformed filter pattern is a fatal
/// configuration error reported up front.
pub fn input(trans_type: TransType, file: &str, regexen: &Vec<String>, data: &str) -> (r: Result<
    Textures,
    ExtractError,
>)
    ensures
        r is Ok <==> (forall|i: int|
            0 <= i < regexen@.len() ==> regex_valid((#[trigger] regexen@[i])@)),
        r matches Ok(t) ==> {
            &&& t.curr_index == 0
            &&& t.name@ == file@
            &&& lines_to_spec(t.lines@) == spec_extract(data.spec_bytes(), regexen.deep_view(), 0)
            &&& forall|i: int|
                0 <= i < t.lines@.len() ==> !(#[trigger] t.lines@[i]).skip && t.lines@[
                    i
                ].translated@ == Seq::<TranslatedLine>::empty()
        },
{
    let extractor = match trans_type {
        TransType::Text => TextInput::new(regexen),
        TransType::MTool => TextInput::new(regexen),
        TransType::Replace => TextInput::new(regexen),
    };
    match extractor {
        Ok(t) => Ok(t.parse(file, data)),
        Err(e) => Err(e),
    }
}

/// For one input and one filter set the extraction is a function of the
/// bytes and the patterns alone: two extractions that both satisfy the
/// extractor's contract hold the same lines.
pub proof fn lemma_extract_deterministic(
    bytes: Seq<u8>,
    pats: Seq<Seq<char>>,
    a: Seq<TextureLine>,
    b: Seq<TextureLine>,
)
    requires
        lines_to_spec(a) == spec_extract(bytes, pats, 0),
        lines_to_spec(b) == spec_extract(bytes, pats, 0),
    ensures
        a.len() == b.len(),
        forall|i: int|
            0 <= i < a.len() ==> (#[trigger] a[i]).seek == b[i].seek && a[i].size == b[i].size
                && a[i].content@ == b[i].content@,
{
    assert(lines_to_spec(a).len() == a.len());
    assert(lines_to_spec(b).len() == b.len());
    assert forall|i: int| 0 <= i < a.len() implies (#[trigger] a[i]).seek == b[i].seek && a[
        i
    ].size == b[i].size && a[i].content@ == b[i].content@ by {
        assert(lines_to_spec(a)[i] == (a[i].seek as int, a[i].size as int, a[i].content@));
        assert(lines_to_spec(b)[i] == (b[i].seek as int, b[i].size as int, b[i].content@));
        assert(lines_to_spec(a)[i] == lines_to_spec(b)[i]);
    }
}

/// Byte accounting of an extraction: every line spans at least one byte,
/// lies inside the input, and ends at or before the next line's start; the
/// bytes not covered by any kept line are exactly the skipped bytes.
pub proof fn lemma_extract_byte_accounting(bytes: Seq<u8>, pats: Seq<Seq<char>>, pos: int)
    requires
        0 <= pos <= bytes.len(),
    ensures
        ({
            let sp = spec_extract(bytes, pats, pos);
            forall|i: int|
                0 <= i < sp.len() ==> {
                    &&& pos <= (#[trigger] sp[i]).0
                    &&& sp[i].1 >= 1
                    &&& sp[i].0 + sp[i].1 <= bytes.len()
                    &&& (i + 1 < sp.len() ==> sp[i].0 + sp[i].1 <= sp[i + 1].0)
                }
        }),
    decreases bytes.len() - pos,
{
    if pos < bytes.len() {
        lemma_line_end_bounds(bytes, pos);
        let end = spec_line_end(bytes, pos);
        lemma_extract_byte_accounting(bytes, pats, end);
        let content = decode_utf8(bytes.subrange(pos, end));
        let rest = spec_extract(bytes, pats, end);
        if spec_keep(content, pats) {
            let sp = spec_extract(bytes, pats, pos);
            assert(sp =~= seq![(pos, end - pos, content)] + rest);
            assert forall|i: int| 0 <= i < sp.len() implies {
                &&& pos <= (#[trigger] sp[i]).0
                &&& sp[i].1 >= 1
                &&& sp[i].0 + sp[i].1 <= bytes.len()
                &&& (i + 1 < sp.len() ==> sp[i].0 + sp[i].1 <= sp[i + 1].0)
            } by {
                if i > 0 {
                    assert(sp[i] == rest[i - 1]);
                    if i + 1 < sp.len() {
                        assert(sp[i + 1] == rest[i]);
                    }
                } else {
                    if sp.len() > 1 {
                        assert(sp[1] == rest[0]);
                    }
                }
            }
        }
    }
}

/// An extraction's first kept line starts at `pos` exactly when the raw
/// line at `pos` itself is kept.
proof fn lemma_extract_first_seek(bytes: Seq<u8>, pats: Seq<Seq<char>>, pos: int)
    requires
        0 <= pos < bytes.len(),
        spec_extract(bytes, pats, pos).len() > 0,
    ensures
        ({
            let sp = spec_extract(bytes, pats, pos);
            let end = spec_line_end(bytes, pos);
            sp[0].0 == pos <==> spec_keep(decode_utf8(bytes.subrange(pos, end)), pats)
        }),
{
    lemma_line_end_bounds(bytes, pos);
    let end = spec_line_end(bytes, pos);
    let sp = spec_extract(bytes, pats, pos);
    if !spec_keep(decode_utf8(bytes.subrange(pos, end)), pats) {
        assert(sp == spec_extract(bytes, pats, end));
        lemma_extract_byte_accounting(bytes, pats, end);
        assert(end <= spec_extract(bytes, pats, end)[0].0);
        assert(end <= sp[0].0);
    }
}

/// Between two adjacent kept lines the gap is strict exactly when the raw
/// line that starts where the first one ends was filtered out; they touch
/// exactly when that raw line was kept as the next line.
pub proof fn lemma_extract_adjacent_gap(bytes: Seq<u8>, pats: Seq<Seq<char>>, pos: int, i: int)
    requires
        0 <= pos <= bytes.len(),
        0 <= i,
        i + 1 < spec_extract(bytes, pats, pos).len(),
    ensures
        ({
            let sp = spec_extract(bytes, pats, pos);
            let endb = sp[i].0 + sp[i].1;
            &&& endb < bytes.len()
            &&& (endb == sp[i + 1].0 <==> spec_keep(
                decode_utf8(bytes.subrange(endb, spec_line_end(bytes, endb))),
                pats,
            ))
        }),
    decreases bytes.len() - pos,
{
    assert(pos < bytes.len());
    lemma_line_end_bounds(bytes, pos);
    let end = spec_line_end(bytes, pos);
    let content = decode_utf8(bytes.subrange(pos, end));
    let rest = spec_extract(bytes, pats, end);
    if spec_keep(content, pats) {
        let sp = spec_extract(bytes, pats, pos);
        assert(sp == seq![(pos, end - pos, content)] + rest);
        if i == 0 {
            assert(sp[1] == rest[0]);
            assert(rest.len() > 0);
            assert(end < bytes.len());
            lemma_extract_first_seek(bytes, pats, end);
        } else {
            lemma_extract_adjacent_gap(bytes, pats, end, i - 1);
            assert(sp[i] == rest[i - 1]);
            assert(sp[i + 1] == rest[i]);
        }
    } else {
        lemma_extract_adjacent_gap(bytes, pats, end, i);
    }
}

/// The total byte extent of every raw line read from `pos` on, kept or
/// not.
pub open spec fn spec_raw_size_sum(bytes: Seq<u8>, pos: int) -> int
    decreases bytes.len() - pos,
    via spec_raw_size_sum_decreases
{
    if pos < 0 || pos >= bytes.len() {
        0
    } else {
        let end = spec_line_end(bytes, pos);
        (end - pos) + spec_raw_size_sum(bytes, end)
    }
}

#[via_fn]
proof fn spec_raw_size_sum_decreases(bytes: Seq<u8>, pos: int) {
    if 0 <= pos < bytes.len() {
        lemma_line_end_bounds(bytes, pos);
    }
}

/// The raw lines partition the input exactly: the sizes of all lines read,
/// kept or not, sum to the total byte length.  With the kept extents
/// bounded below the total, the skipped bytes are exactly the difference.
pub proof fn lemma_raw_lines_partition(bytes: Seq<u8>, pos: int)
    requires
        0 <= pos <= bytes.len(),
    ensures
        spec_raw_size_sum(bytes, pos) == bytes.len() - pos,
    decreases bytes.len() - pos,
{
    if pos < bytes.len() {
        lemma_line_end_bounds(bytes, pos);
        lemma_raw_lines_partition(bytes, spec_line_end(bytes, pos));
    }
}

/// The total byte extent of the kept lines.
pub open spec fn spec_extent_sum(sp: Seq<(int, int, Seq<char>)>) -> int
    decreases sp.len(),
{
    if sp.len() == 0 {
        0
    } else {
        sp[0].1 + spec_extent_sum(sp.drop_first())
    }
}

/// The kept lines together cover at most the whole input: the difference is
/// the number of skipped bytes.
pub proof fn lemma_extract_sizes_bounded(bytes: Seq<u8>, pats: Seq<Seq<char>>, pos: int)
    requires
        0 <= pos <= bytes.len(),
    ensures
        0 <= spec_extent_sum(spec_extract(bytes, pats, pos)) <= bytes.len() - pos,
    decreases bytes.len() - pos,
{
    if pos < bytes.len() {
        lemma_line_end_bounds(bytes, pos);
        let end = spec_line_end(bytes, pos);
        lemma_extract_sizes_bounded(bytes, pats, end);
        let content = decode_utf8(bytes.subrange(pos, end));
        let rest = spec_extract(bytes, pats, end);
        if spec_keep(content, pats) {
            let sp = spec_extract(bytes, pats, pos);
            assert(sp == seq![(pos, end - pos, content)] + rest);
            assert(sp.drop_first() =~= rest);
        }
    }
}

} // verus!
