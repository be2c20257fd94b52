//! Splitting a markdown document into rule blocks.
//!
//! A document is cut into chunks of consecutive non-blank lines.  Headings
//! define a section path (`opening/validation`); a chunk that holds only
//! headings is attached to the chunk that follows it.  Every block gets a slug
//! `<prefix>/<section>/l<first line>`, a title, its text and its line range.
use vstd::prelude::*;

use crate::text::{
    append_chars, append_str, chars_of, char_is_ascii_alnum, char_to_lowercase, count_leading,
    copy_range, decimal, decimal_chars, in_class, is_ascii_alnum, join_chars, join_with,
    leading_count, lines_chars, lines_of, char_lowered, seq_views, split_on,
    string_from_chars, trim, trim_by, trim_chars, trim_end, trim_end_by, trim_end_chars,
    trim_start, trim_start_by, trim_start_chars, starts_with, chars_start_with, CharClass,
};

verus! {

/// How imported blocks are named.
#[derive(Debug)]
pub struct MarkdownImportOptions {
    pub slug_prefix: String,
    pub default_section: String,
}

/// One imported block.
#[derive(Debug)]
pub struct ImportedRuleBlock {
    pub slug: String,
    pub title: String,
    pub section: String,
    pub body: String,
    pub order_key: i64,
    pub source_start_line: i64,
    pub source_end_line: i64,
}

/// Mathematical view of an imported block.
pub struct BlockView {
    pub slug: Seq<char>,
    pub title: Seq<char>,
    pub section: Seq<char>,
    pub body: Seq<char>,
    pub order_key: int,
    pub start: int,
    pub end: int,
}

impl View for ImportedRuleBlock {
    type V = BlockView;

    open spec fn view(&self) -> BlockView {
        BlockView {
            slug: self.slug@,
            title: self.title@,
            section: self.section@,
            body: self.body@,
            order_key: self.order_key as int,
            start: self.source_start_line as int,
            end: self.source_end_line as int,
        }
    }
}

/// A run of consecutive non-blank lines, with its 1-based line range.
pub struct ChunkView {
    pub lines: Seq<Seq<char>>,
    pub start: int,
    pub end: int,
}

// ---------------------------------------------------------------------------
// Chunks

/// A line is blank when it holds only whitespace.
pub open spec fn is_blank(line: Seq<char>) -> bool {
    trim(line).len() == 0
}

/// Chunking state after the first lines: finished chunks and the open run.
pub struct ChunkScan {
    pub chunks: Seq<ChunkView>,
    pub current: Seq<Seq<char>>,
    pub start: int,
    pub end: int,
}

/// Chunking state after the first `n` lines.
pub open spec fn scan_lines(lines: Seq<Seq<char>>, n: nat) -> ChunkScan
    decreases n,
{
    if n == 0 || n > lines.len() {
        ChunkScan { chunks: Seq::empty(), current: Seq::empty(), start: 0, end: 0 }
    } else {
        let st = scan_lines(lines, (n - 1) as nat);
        let line = trim_end_by(lines[n - 1], CharClass::Only('\r'));
        if is_blank(line) {
            if st.current.len() > 0 {
                ChunkScan {
                    chunks: st.chunks.push(
                        ChunkView { lines: st.current, start: st.start, end: st.end },
                    ),
                    current: Seq::empty(),
                    start: st.start,
                    end: st.end,
                }
            } else {
                st
            }
        } else {
            ChunkScan {
                chunks: st.chunks,
                current: st.current.push(line),
                start: if st.current.len() == 0 {
                    n as int
                } else {
                    st.start
                },
                end: n as int,
            }
        }
    }
}

/// The chunks of a document, in order.
pub open spec fn markdown_chunks(content: Seq<char>) -> Seq<ChunkView> {
    let lines = lines_of(content);
    let st = scan_lines(lines, lines.len());
    if st.current.len() > 0 {
        st.chunks.push(ChunkView { lines: st.current, start: st.start, end: st.end })
    } else {
        st.chunks
    }
}

// ---------------------------------------------------------------------------
// Headings

/// The level of a markdown heading line (`#` to `######` then a space), or 0.
pub open spec fn heading_level(line: Seq<char>) -> nat {
    let t = trim_start(line);
    let h = leading_count(t, '#');
    if 0 < h <= 6 && h < t.len() && t[h as int] == ' ' {
        h
    } else {
        0
    }
}

/// The trimmed text of a heading line after its marker.
pub open spec fn heading_title(line: Seq<char>) -> Seq<char> {
    trim(trim_start(line).skip(heading_level(line) + 1int))
}

/// Level and title of the first heading line.
pub open spec fn heading_info(lines: Seq<Seq<char>>) -> Option<(nat, Seq<char>)>
    decreases lines.len(),
{
    if lines.len() == 0 {
        None
    } else if heading_level(lines[0]) > 0 {
        Some((heading_level(lines[0]), heading_title(lines[0])))
    } else {
        heading_info(lines.drop_first())
    }
}

/// Every line is a heading line.
pub open spec fn all_headings(lines: Seq<Seq<char>>) -> bool {
    forall|i: int| 0 <= i < lines.len() ==> heading_level(#[trigger] lines[i]) > 0
}

/// Every line begins, after leading whitespace, with the rule-api marker.
pub open spec fn is_generated_comment(lines: Seq<Seq<char>>) -> bool {
    forall|i: int| 0 <= i < lines.len() ==> starts_with(trim_start(#[trigger] lines[i]), "<!-- rule-api:"@)
}

/// The heading path after a heading of `level`: keep `level - 1` entries.
pub open spec fn update_path(path: Seq<Seq<char>>, level: nat, slug: Seq<char>) -> Seq<Seq<char>> {
    let keep = if level >= 1 { (level - 1) as nat } else { 0 };
    if keep < path.len() {
        path.take(keep as int).push(slug)
    } else {
        path.push(slug)
    }
}

// ---------------------------------------------------------------------------
// Slug components

/// Each character replaced by its Unicode lowercase mapping.
pub open spec fn lowered(s: Seq<char>) -> Seq<char>
    decreases s.len(),
{
    if s.len() == 0 {
        Seq::empty()
    } else {
        lowered(s.drop_last()) + char_lowered(s.last())
    }
}

/// ASCII letters and digits kept; every run of other characters becomes one
/// dash.  The flag records whether the output ends with such a dash.
pub open spec fn collapse(s: Seq<char>) -> (Seq<char>, bool)
    decreases s.len(),
{
    if s.len() == 0 {
        (Seq::empty(), false)
    } else {
        let (out, dash) = collapse(s.drop_last());
        let c = s.last();
        if is_ascii_alnum(c) {
            (out.push(c), false)
        } else if !dash {
            (out.push('-'), true)
        } else {
            (out, dash)
        }
    }
}

/// A heading or section name made into a slug component (`section` if
/// nothing is left).
pub open spec fn normalize_slug_component(input: Seq<char>) -> Seq<char> {
    slug_from_lowered(lowered(input))
}

/// The slug component made from text that is already lowercase: runs of
/// characters other than ASCII letters and digits become one dash, dashes
/// at either end go, and empty text gives `section`.
pub open spec fn slug_from_lowered(l: Seq<char>) -> Seq<char> {
    let n = trim_by(collapse(l).0, CharClass::Only('-'));
    if n.len() == 0 {
        "section"@
    } else {
        n
    }
}

// ---------------------------------------------------------------------------
// Block fields

/// Text of the first non-blank line: a heading's title, or a list item's text.
pub open spec fn first_text_line(lines: Seq<Seq<char>>) -> Seq<char>
    decreases lines.len(),
{
    if lines.len() == 0 {
        "Imported Block"@
    } else {
        let t = trim(lines[0]);
        if t.len() == 0 {
            first_text_line(lines.drop_first())
        } else if heading_level(t) > 0 {
            trim(t.skip(leading_count(t, '#') + 1int))
        } else {
            trim(trim_start_by(t, CharClass::ListMarker))
        }
    }
}

/// The title of a block: its first heading, else its first 80 text characters.
pub open spec fn block_title(lines: Seq<Seq<char>>) -> Seq<char> {
    match heading_info(lines) {
        Some((_, title)) => title,
        None => {
            let f = first_text_line(lines);
            if f.len() <= 80 {
                f
            } else {
                f.take(80)
            }
        },
    }
}

/// The lines joined by newlines, trailing whitespace removed.
pub open spec fn chunk_text(lines: Seq<Seq<char>>) -> Seq<char> {
    trim_end(join_with(lines, "\n"@))
}

/// Section name for the current heading path.
pub open spec fn section_of(path: Seq<Seq<char>>, default_section: Seq<char>) -> Seq<char> {
    if path.len() == 0 {
        normalize_slug_component(default_section)
    } else {
        join_with(path, "/"@)
    }
}

pub open spec fn block_of(chunk: ChunkView, section: Seq<char>, prefix: Seq<char>, order: int) -> BlockView {
    BlockView {
        slug: trim_by(prefix, CharClass::Only('/')) + "/"@ + section + "/l"@ + decimal(
            chunk.start as nat,
        ),
        title: block_title(chunk.lines),
        section,
        body: chunk_text(chunk.lines),
        order_key: order,
        start: chunk.start,
        end: chunk.end,
    }
}

pub open spec fn merge(first: ChunkView, second: ChunkView) -> ChunkView {
    ChunkView {
        lines: first.lines.push(Seq::empty()) + second.lines,
        start: first.start,
        end: second.end,
    }
}

/// Import state after some chunks: blocks so far, heading path, and a
/// heading-only chunk waiting for its body.
pub struct ImportScan {
    pub blocks: Seq<BlockView>,
    pub path: Seq<Seq<char>>,
    pub pending: Option<ChunkView>,
}

pub open spec fn import_step(st: ImportScan, chunk: ChunkView, prefix: Seq<char>, default_section: Seq<char>) -> ImportScan {
    if is_generated_comment(chunk.lines) {
        st
    } else {
        let info = heading_info(chunk.lines);
        let path = match info {
            Some((level, title)) => update_path(st.path, level, normalize_slug_component(title)),
            None => st.path,
        };
        if info is Some && all_headings(chunk.lines) {
            ImportScan { blocks: st.blocks, path, pending: Some(chunk) }
        } else {
            let merged = match st.pending {
                Some(h) => merge(h, chunk),
                None => chunk,
            };
            ImportScan {
                blocks: st.blocks.push(
                    block_of(
                        merged,
                        section_of(path, default_section),
                        prefix,
                        st.blocks.len() + 1int,
                    ),
                ),
                path,
                pending: None,
            }
        }
    }
}

pub open spec fn import_scan(chunks: Seq<ChunkView>, n: nat, prefix: Seq<char>, default_section: Seq<char>) -> ImportScan
    decreases n,
{
    if n == 0 || n > chunks.len() {
        ImportScan { blocks: Seq::empty(), path: Seq::empty(), pending: None }
    } else {
        import_step(
            import_scan(chunks, (n - 1) as nat, prefix, default_section),
            chunks[n - 1],
            prefix,
            default_section,
        )
    }
}

proof fn lemma_import_scan_order(chunks: Seq<ChunkView>, n: nat, prefix: Seq<char>, default_section: Seq<char>)
    ensures
        forall|i: int| 0 <= i < import_scan(chunks, n, prefix, default_section).blocks.len()
            ==> (#[trigger] import_scan(chunks, n, prefix, default_section).blocks[i]).order_key == i + 1,
    decreases n,
{
    if n > 0 && n <= chunks.len() {
        lemma_import_scan_order(chunks, (n - 1) as nat, prefix, default_section);
    }
}

/// Imported blocks are numbered in document order: the block at position
/// `i` has order key `i + 1`.
pub proof fn lemma_import_order_keys(content: Seq<char>, prefix: Seq<char>, default_section: Seq<char>)
    ensures
        forall|i: int| 0 <= i < import_blocks(content, prefix, default_section).len()
            ==> (#[trigger] import_blocks(content, prefix, default_section)[i]).order_key == i + 1,
{
    let chunks = markdown_chunks(content);
    lemma_import_scan_order(chunks, chunks.len(), prefix, default_section);
}

/// The blocks imported from a document.
pub open spec fn import_blocks(content: Seq<char>, prefix: Seq<char>, default_section: Seq<char>) -> Seq<BlockView> {
    let chunks = markdown_chunks(content);
    let st = import_scan(chunks, chunks.len(), prefix, default_section);
    match st.pending {
        Some(h) => st.blocks.push(
            block_of(h, section_of(st.path, default_section), prefix, st.blocks.len() + 1int),
        ),
        None => st.blocks,
    }
}

// ---------------------------------------------------------------------------
// Line ranges

/// Chunks within lines `1..=n`, each starting after the previous one ends.
spec fn chunks_ordered(cs: Seq<ChunkView>, n: int) -> bool {
    &&& forall|i: int| 0 <= i < cs.len() ==> 1 <= (#[trigger] cs[i]).start <= cs[i].end <= n
    &&& forall|i: int, j: int| #![trigger cs[i], cs[j]] 0 <= i < j < cs.len() ==> cs[i].end < cs[j].start
}

/// Blocks within lines `1..=n`, each starting after the previous one ends.
pub open spec fn blocks_ordered(bs: Seq<BlockView>, n: int) -> bool {
    &&& forall|i: int| 0 <= i < bs.len() ==> 1 <= (#[trigger] bs[i]).start <= bs[i].end <= n
    &&& forall|i: int, j: int| #![trigger bs[i], bs[j]] 0 <= i < j < bs.len() ==> bs[i].end < bs[j].start
}

proof fn lemma_scan_line_ranges(lines: Seq<Seq<char>>, n: nat)
    requires
        n <= lines.len(),
    ensures
        chunks_ordered(scan_lines(lines, n).chunks, n as int),
        scan_lines(lines, n).current.len() > 0 ==> {
            let st = scan_lines(lines, n);
            &&& 1 <= st.start <= st.end
            &&& st.end == n
            &&& forall|i: int| 0 <= i < st.chunks.len() ==> (#[trigger] st.chunks[i]).end < st.start
        },
    decreases n,
{
    if n > 0 {
        lemma_scan_line_ranges(lines, (n - 1) as nat);
        let st = scan_lines(lines, (n - 1) as nat);
        let cs = scan_lines(lines, n).chunks;
        if cs.len() > st.chunks.len() {
            assert forall|i: int, j: int| #![trigger cs[i], cs[j]] 0 <= i < j < cs.len() implies cs[i].end
                < cs[j].start by {
                if j < st.chunks.len() {
                    assert(st.chunks[i] == cs[i] && st.chunks[j] == cs[j]);
                } else {
                    assert(st.chunks[i] == cs[i]);
                }
            }
            assert forall|i: int| 0 <= i < cs.len() implies 1 <= (#[trigger] cs[i]).start <= cs[i].end
                <= n by {
                if i < st.chunks.len() {
                    assert(st.chunks[i] == cs[i]);
                }
            }
        } else {
            assert(cs == st.chunks);
        }
    }
}

proof fn lemma_markdown_chunk_ranges(content: Seq<char>)
    ensures
        chunks_ordered(markdown_chunks(content), lines_of(content).len() as int),
{
    let lines = lines_of(content);
    lemma_scan_line_ranges(lines, lines.len());
    let st = scan_lines(lines, lines.len());
    let cs = markdown_chunks(content);
    if st.current.len() > 0 {
        assert forall|i: int, j: int| #![trigger cs[i], cs[j]] 0 <= i < j < cs.len() implies cs[i].end
            < cs[j].start by {
            assert(st.chunks[i] == cs[i]);
            if j < st.chunks.len() {
                assert(st.chunks[j] == cs[j]);
            }
        }
        assert forall|i: int| 0 <= i < cs.len() implies 1 <= (#[trigger] cs[i]).start <= cs[i].end
            <= lines.len() by {
            if i < st.chunks.len() {
                assert(st.chunks[i] == cs[i]);
            }
        }
    }
}

/// What holds of the import state after the first `n` chunks.
spec fn import_ranges(chunks: Seq<ChunkView>, n: nat, st: ImportScan, total: int) -> bool {
    &&& blocks_ordered(st.blocks, total)
    &&& forall|i: int, k: int| #![trigger st.blocks[i], chunks[k]]
        0 <= i < st.blocks.len() && n <= k < chunks.len() ==> st.blocks[i].end < chunks[k].start
    &&& st.pending matches Some(h) ==> {
        &&& 1 <= h.start <= h.end <= total
        &&& forall|i: int| 0 <= i < st.blocks.len() ==> (#[trigger] st.blocks[i]).end < h.start
        &&& forall|k: int| n <= k < chunks.len() ==> h.end < (#[trigger] chunks[k]).start
    }
}

proof fn lemma_import_scan_ranges(
    chunks: Seq<ChunkView>,
    n: nat,
    prefix: Seq<char>,
    default_section: Seq<char>,
    total: int,
)
    requires
        chunks_ordered(chunks, total),
        n <= chunks.len(),
    ensures
        import_ranges(chunks, n, import_scan(chunks, n, prefix, default_section), total),
    decreases n,
{
    if n > 0 {
        lemma_import_scan_ranges(chunks, (n - 1) as nat, prefix, default_section, total);
        let prev = import_scan(chunks, (n - 1) as nat, prefix, default_section);
        let st = import_scan(chunks, n, prefix, default_section);
        let c = chunks[n - 1];
        assert(1 <= c.start <= c.end <= total);
        assert forall|k: int| n <= k < chunks.len() implies c.end < (#[trigger] chunks[k]).start by {
            assert(chunks[n - 1].end < chunks[k].start);
        }
        assert forall|i: int| 0 <= i < prev.blocks.len() implies (#[trigger] prev.blocks[i]).end < c.start by {
            assert(prev.blocks[i].end < chunks[n - 1].start);
        }
        if st.blocks.len() > prev.blocks.len() {
            let b = st.blocks[prev.blocks.len() as int];
            let bs = st.blocks;
            assert(b.end == c.end);
            assert(forall|i: int| 0 <= i < prev.blocks.len() ==> #[trigger] bs[i] == prev.blocks[i]);
            assert forall|i: int| 0 <= i < prev.blocks.len() implies (#[trigger] prev.blocks[i]).end < b.start by {
                match prev.pending {
                    Some(h) => {
                        if b.start == h.start {
                        } else {
                            assert(prev.blocks[i].end < c.start);
                        }
                    },
                    None => {
                        assert(prev.blocks[i].end < c.start);
                    },
                }
            }
            assert forall|i: int, j: int| #![trigger bs[i], bs[j]] 0 <= i < j < bs.len() implies bs[i].end
                < bs[j].start by {
                if j < prev.blocks.len() {
                    assert(bs[i] == prev.blocks[i] && bs[j] == prev.blocks[j]);
                } else {
                    assert(bs[i] == prev.blocks[i]);
                }
            }
            assert forall|i: int, k: int| #![trigger bs[i], chunks[k]]
                0 <= i < bs.len() && n <= k < chunks.len() implies bs[i].end < chunks[k].start by {
                if i < prev.blocks.len() {
                    assert(bs[i] == prev.blocks[i]);
                    assert(prev.blocks[i].end < chunks[k].start);
                }
            }
        } else {
            assert(st.blocks == prev.blocks);
            assert forall|i: int, k: int| #![trigger st.blocks[i], chunks[k]]
                0 <= i < st.blocks.len() && n <= k < chunks.len() implies st.blocks[i].end
                < chunks[k].start by {
                assert(prev.blocks[i].end < chunks[k].start);
            }
            match st.pending {
                Some(h) => {
                    if h == c {
                    } else {
                        assert(prev.pending == st.pending);
                        assert forall|k: int| n <= k < chunks.len() implies h.end < (
                        #[trigger] chunks[k]).start by {
                            assert(h.end < chunks[k - 1].start || k - 1 == n - 1);
                        }
                    }
                },
                None => {},
            }
        }
    }
}

/// Every imported block lies within the document's lines, starts no later
/// than it ends, and starts after the block before it ends: the blocks are
/// disjoint line ranges in document order.
pub proof fn lemma_import_line_ranges(content: Seq<char>, prefix: Seq<char>, default_section: Seq<char>)
    ensures
        blocks_ordered(import_blocks(content, prefix, default_section), lines_of(content).len() as int),
{
    let total = lines_of(content).len() as int;
    let chunks = markdown_chunks(content);
    lemma_markdown_chunk_ranges(content);
    lemma_import_scan_ranges(chunks, chunks.len(), prefix, default_section, total);
    let st = import_scan(chunks, chunks.len(), prefix, default_section);
    let bs = import_blocks(content, prefix, default_section);
    if bs.len() > st.blocks.len() {
        assert forall|i: int, j: int| #![trigger bs[i], bs[j]] 0 <= i < j < bs.len() implies bs[i].end
            < bs[j].start by {
            assert(bs[i] == st.blocks[i]);
            if j < st.blocks.len() {
                assert(bs[j] == st.blocks[j]);
            }
        }
        assert forall|i: int| 0 <= i < bs.len() implies 1 <= (#[trigger] bs[i]).start <= bs[i].end
            <= total by {
            if i < st.blocks.len() {
                assert(bs[i] == st.blocks[i]);
            }
        }
    }
}

// ---------------------------------------------------------------------------
// Line endings

/// The document with every line feed written as carriage return and line feed.
pub open spec fn crlf(s: Seq<char>) -> Seq<char>
    decreases s.len(),
{
    if s.len() == 0 {
        Seq::empty()
    } else if s.last() == '\n' {
        crlf(s.drop_last()) + seq!['\r', '\n']
    } else {
        crlf(s.drop_last()).push(s.last())
    }
}

/// The pieces of a split of the CRLF form: each piece but the last has one
/// more carriage return at its end.
spec fn crlf_pieces(pc: Seq<Seq<char>>, ps: Seq<Seq<char>>) -> bool {
    &&& pc.len() == ps.len()
    &&& ps.len() >= 1
    &&& forall|i: int| 0 <= i < ps.len() - 1 ==> #[trigger] pc[i] == ps[i].push('\r')
    &&& pc.last() == ps.last()
}

proof fn lemma_crlf_split(s: Seq<char>)
    ensures
        crlf_pieces(split_on(crlf(s), '\n'), split_on(s, '\n')),
        crlf(s).len() == 0 <==> s.len() == 0,
        s.len() > 0 ==> (crlf(s).last() == '\n' <==> s.last() == '\n'),
    decreases s.len(),
{
    if s.len() > 0 {
        let init = s.drop_last();
        lemma_crlf_split(init);
        crate::text::lemma_split_on_nonempty(init, '\n');
        crate::text::lemma_split_on_nonempty(crlf(init), '\n');
        let pc0 = split_on(crlf(init), '\n');
        let ps0 = split_on(init, '\n');
        if s.last() == '\n' {
            let x = crlf(init) + seq!['\r', '\n'];
            assert(x.drop_last() =~= crlf(init).push('\r'));
            assert(crlf(init).push('\r').drop_last() =~= crlf(init));
            let mid = split_on(crlf(init).push('\r'), '\n');
            assert(mid == pc0.update(pc0.len() - 1, pc0.last().push('\r')));
            let pc = split_on(x, '\n');
            let ps = split_on(s, '\n');
            assert(pc == mid.push(Seq::<char>::empty()));
            assert(ps == ps0.push(Seq::<char>::empty()));
            assert forall|i: int| 0 <= i < ps.len() - 1 implies #[trigger] pc[i] == ps[i].push('\r') by {
                if i < ps0.len() - 1 {
                    assert(pc0[i] == ps0[i].push('\r'));
                }
            }
        } else {
            let x = crlf(init).push(s.last());
            assert(x.drop_last() =~= crlf(init));
            let pc = split_on(x, '\n');
            let ps = split_on(s, '\n');
            assert(pc == pc0.update(pc0.len() - 1, pc0.last().push(s.last())));
            assert(ps == ps0.update(ps0.len() - 1, ps0.last().push(s.last())));
            assert forall|i: int| 0 <= i < ps.len() - 1 implies #[trigger] pc[i] == ps[i].push('\r') by {
                assert(pc0[i] == ps0[i].push('\r'));
            }
        }
    }
}

proof fn lemma_trim_cr_strip(p: Seq<char>)
    ensures
        trim_end_by(crate::text::strip_cr(p), CharClass::Only('\r')) == trim_end_by(p, CharClass::Only('\r')),
{
}

proof fn lemma_trim_cr_push(p: Seq<char>)
    ensures
        trim_end_by(p.push('\r'), CharClass::Only('\r')) == trim_end_by(p, CharClass::Only('\r')),
{
    assert(p.push('\r').drop_last() =~= p);
}

/// Lines that agree once trailing carriage returns are dropped.
spec fn same_lines_but_cr(a: Seq<Seq<char>>, b: Seq<Seq<char>>) -> bool {
    &&& a.len() == b.len()
    &&& forall|i: int| 0 <= i < a.len() ==>
        trim_end_by(#[trigger] a[i], CharClass::Only('\r')) == trim_end_by(b[i], CharClass::Only('\r'))
}

proof fn lemma_crlf_lines(s: Seq<char>)
    ensures
        same_lines_but_cr(lines_of(crlf(s)), lines_of(s)),
{
    lemma_crlf_split(s);
    let pc = split_on(crlf(s), '\n');
    let ps = split_on(s, '\n');
    let a = lines_of(crlf(s));
    let b = lines_of(s);
    assert forall|i: int| 0 <= i < a.len() implies
        trim_end_by(#[trigger] a[i], CharClass::Only('\r')) == trim_end_by(b[i], CharClass::Only('\r')) by {
        lemma_trim_cr_strip(pc[i]);
        lemma_trim_cr_strip(ps[i]);
        if i < ps.len() - 1 {
            lemma_trim_cr_push(ps[i]);
        }
    }
}

proof fn lemma_scan_same_lines(a: Seq<Seq<char>>, b: Seq<Seq<char>>, n: nat)
    requires
        same_lines_but_cr(a, b),
    ensures
        scan_lines(a, n) == scan_lines(b, n),
    decreases n,
{
    if n > 0 && n <= a.len() {
        lemma_scan_same_lines(a, b, (n - 1) as nat);
        assert(trim_end_by(a[n - 1], CharClass::Only('\r')) == trim_end_by(b[n - 1], CharClass::Only('\r')));
    }
}

/// A document with CRLF line endings is imported exactly as the same document
/// with LF line endings: the same chunks, hence the same blocks, slugs, line
/// numbers and bodies.
pub proof fn lemma_crlf_import_same(content: Seq<char>, prefix: Seq<char>, default_section: Seq<char>)
    ensures
        markdown_chunks(crlf(content)) == markdown_chunks(content),
        import_blocks(crlf(content), prefix, default_section) == import_blocks(content, prefix, default_section),
{
    lemma_crlf_lines(content);
    let a = lines_of(crlf(content));
    let b = lines_of(content);
    lemma_scan_same_lines(a, b, a.len());
}

pub open spec fn block_views(v: Seq<ImportedRuleBlock>) -> Seq<BlockView> {
    Seq::new(v.len(), |i: int| v[i]@)
}


// ---------------------------------------------------------------------------
// Executable import

struct Chunk {
    lines: Vec<Vec<char>>,
    start_line: i64,
    end_line: i64,
}

spec fn chunk_view(c: Chunk) -> ChunkView {
    ChunkView { lines: seq_views(c.lines@), start: c.start_line as int, end: c.end_line as int }
}

spec fn chunk_views(v: Seq<Chunk>) -> Seq<ChunkView> {
    Seq::new(v.len(), |i: int| chunk_view(v[i]))
}

pub proof fn lemma_split_len(s: Seq<char>, sep: char)
    ensures
        split_on(s, sep).len() <= s.len() + 1,
    decreases s.len(),
{
    if s.len() > 0 {
        lemma_split_len(s.drop_last(), sep);
        crate::text::lemma_split_on_nonempty(s.drop_last(), sep);
    }
}

fn copy_lines(v: &Vec<Vec<char>>) -> (r: Vec<Vec<char>>)
    ensures
        seq_views(r@) == seq_views(v@),
{
    let mut r: Vec<Vec<char>> = Vec::new();
    let mut i: usize = 0;
    while i < v.len()
        invariant
            0 <= i <= v@.len(),
            r@.len() == i,
            forall|j: int| 0 <= j < i ==> (#[trigger] r@[j])@ == v@[j]@,
        decreases v@.len() - i,
    {
        let line = copy_range(&v[i], 0, v[i].len());
        assert(line@ =~= v@[i as int]@);
        r.push(line);
        i += 1;
    }
    assert(seq_views(r@) =~= seq_views(v@));
    r
}

fn chunk_copy(c: &Chunk) -> (r: Chunk)
    ensures
        chunk_view(r) == chunk_view(*c),
{
    Chunk { lines: copy_lines(&c.lines), start_line: c.start_line, end_line: c.end_line }
}

fn markdown_chunks_exec(content: &Vec<char>) -> (r: Vec<Chunk>)
    requires
        content@.len() < 0x7fff_ffff_ffff_fff0,
    ensures
        chunk_views(r@) == markdown_chunks(content@),
        forall|j: int| 0 <= j < r@.len() ==> 1 <= (#[trigger] r@[j]).start_line,
        r@.len() <= content@.len() + 1,
{
    let lines = lines_chars(content);
    let ghost lv = lines_of(content@);
    proof {
        lemma_split_len(content@, '\n');
    }
    assert(lv.len() <= content@.len() + 1);
    let mut chunks: Vec<Chunk> = Vec::new();
    let mut current: Vec<Vec<char>> = Vec::new();
    let mut start: i64 = 0;
    let mut end: i64 = 0;
    let mut i: usize = 0;
    let cr = CharClass::Only('\r');
    let white = CharClass::White;
    assert(chunk_views(chunks@) =~= Seq::<ChunkView>::empty());
    assert(seq_views(current@) =~= Seq::<Seq<char>>::empty());
    while i < lines.len()
        invariant
            seq_views(lines@) == lv,
            lv.len() <= content@.len() + 1,
            content@.len() < 0x7fff_ffff_ffff_fff0,
            0 <= i <= lines@.len(),
            cr == CharClass::Only('\r'),
            white == CharClass::White,
            scan_lines(lv, i as nat) == (ChunkScan {
                chunks: chunk_views(chunks@),
                current: seq_views(current@),
                start: start as int,
                end: end as int,
            }),
            chunks@.len() + (if current@.len() > 0 { 1int } else { 0int }) <= i,
            forall|j: int| 0 <= j < chunks@.len() ==> 1 <= (#[trigger] chunks@[j]).start_line,
            current@.len() > 0 ==> 1 <= start,
            0 <= end <= i,
        decreases lines@.len() - i,
    {
        assert(lines@[i as int]@ == lv[i as int]);
        let line = trim_end_chars(&lines[i], &cr);
        let trimmed = trim_chars(&line, &white);
        let line_no: i64 = (i as i64) + 1;
        if trimmed.len() == 0 {
            if current.len() > 0 {
                let taken = copy_lines(&current);
                let ghost before = chunks@;
                chunks.push(Chunk { lines: taken, start_line: start, end_line: end });
                assert(chunk_views(chunks@) =~= chunk_views(before).push(
                    ChunkView { lines: seq_views(current@), start: start as int, end: end as int },
                ));
                current = Vec::new();
                assert(seq_views(current@) =~= Seq::<Seq<char>>::empty());
            }
        } else {
            if current.len() == 0 {
                start = line_no;
            }
            end = line_no;
            let ghost before = current@;
            current.push(line);
            assert(seq_views(current@) =~= seq_views(before).push(line@));
        }
        i += 1;
    }
    if current.len() > 0 {
        let ghost before = chunks@;
        chunks.push(Chunk { lines: current, start_line: start, end_line: end });
        assert(chunk_views(chunks@) =~= chunk_views(before).push(
            ChunkView { lines: scan_lines(lv, lv.len()).current, start: start as int, end: end as int },
        ));
    }
    chunks
}

fn heading_level_exec(line: &Vec<char>) -> (r: usize)
    ensures
        r == heading_level(line@),
        r <= 6,
{
    let t = trim_start_chars(line, &CharClass::White);
    let h = count_leading(&t, '#');
    if 0 < h && h <= 6 && h < t.len() && t[h] == ' ' {
        h
    } else {
        0
    }
}

fn heading_title_exec(line: &Vec<char>) -> (r: Vec<char>)
    requires
        heading_level(line@) > 0,
    ensures
        r@ == heading_title(line@),
{
    let t = trim_start_chars(line, &CharClass::White);
    let h = heading_level_exec(line);
    let rest = copy_range(&t, h + 1, t.len());
    assert(rest@ =~= trim_start(line@).skip(h + 1int));
    trim_chars(&rest, &CharClass::White)
}

proof fn lemma_heading_info_skip(s: Seq<Seq<char>>, i: int)
    requires
        0 <= i < s.len(),
        heading_level(s[i]) == 0,
    ensures
        heading_info(s.skip(i)) == heading_info(s.skip(i + 1)),
{
    assert(s.skip(i).drop_first() =~= s.skip(i + 1));
    assert(s.skip(i)[0] == s[i]);
}

fn heading_info_exec(lines: &Vec<Vec<char>>) -> (r: Option<(usize, Vec<char>)>)
    ensures
        match r {
            Some((level, title)) => heading_info(seq_views(lines@)) == Some(
                (level as nat, title@),
            ),
            None => heading_info(seq_views(lines@)) is None,
        },
{
    let ghost lv = seq_views(lines@);
    let mut i: usize = 0;
    assert(lv.skip(0) =~= lv);
    while i < lines.len()
        invariant
            lv == seq_views(lines@),
            0 <= i <= lines@.len(),
            heading_info(lv) == heading_info(lv.skip(i as int)),
        decreases lines@.len() - i,
    {
        assert(lv[i as int] == lines@[i as int]@);
        let level = heading_level_exec(&lines[i]);
        if level > 0 {
            let title = heading_title_exec(&lines[i]);
            assert(lv.skip(i as int)[0] == lv[i as int]);
            return Some((level, title));
        }
        proof {
            lemma_heading_info_skip(lv, i as int);
        }
        i += 1;
    }
    assert(lv.skip(i as int).len() == 0);
    None
}

fn all_headings_exec(lines: &Vec<Vec<char>>) -> (r: bool)
    ensures
        r == all_headings(seq_views(lines@)),
{
    let ghost lv = seq_views(lines@);
    let mut i: usize = 0;
    while i < lines.len()
        invariant
            lv == seq_views(lines@),
            0 <= i <= lines@.len(),
            forall|j: int| 0 <= j < i ==> heading_level(#[trigger] lv[j]) > 0,
        decreases lines@.len() - i,
    {
        assert(lv[i as int] == lines@[i as int]@);
        if heading_level_exec(&lines[i]) == 0 {
            return false;
        }
        i += 1;
    }
    true
}

fn is_generated_comment_exec(lines: &Vec<Vec<char>>) -> (r: bool)
    ensures
        r == is_generated_comment(seq_views(lines@)),
{
    let ghost lv = seq_views(lines@);
    let marker = chars_of("<!-- rule-api:");
    let mut i: usize = 0;
    while i < lines.len()
        invariant
            lv == seq_views(lines@),
            marker@ == "<!-- rule-api:"@,
            0 <= i <= lines@.len(),
            forall|j: int| 0 <= j < i ==> starts_with(trim_start(#[trigger] lv[j]), "<!-- rule-api:"@),
        decreases lines@.len() - i,
    {
        assert(lv[i as int] == lines@[i as int]@);
        let t = trim_start_chars(&lines[i], &CharClass::White);
        if !chars_start_with(&t, &marker) {
            return false;
        }
        i += 1;
    }
    true
}

fn update_path_exec(path: &mut Vec<Vec<char>>, level: usize, slug: Vec<char>)
    ensures
        seq_views(final(path)@) == update_path(seq_views(old(path)@), level as nat, slug@),
{
    let keep = if level >= 1 { level - 1 } else { 0 };
    let ghost before = seq_views(path@);
    if keep < path.len() {
        path.truncate(keep);
        assert(seq_views(path@) =~= before.take(keep as int));
    }
    let ghost mid = seq_views(path@);
    path.push(slug);
    assert(seq_views(path@) =~= mid.push(slug@));
}

proof fn lemma_lowered_snoc(s: Seq<char>, i: int)
    requires
        0 <= i < s.len(),
    ensures
        lowered(s.take(i + 1)) == lowered(s.take(i)) + char_lowered(s[i]),
{
    assert(s.take(i + 1).drop_last() =~= s.take(i));
}

/// Each character of `input` replaced by its lowercase mapping.
pub fn lowercase_chars(input: &Vec<char>) -> (r: Vec<char>)
    ensures
        r@ == lowered(input@),
{
    let mut out: Vec<char> = Vec::new();
    let mut i: usize = 0;
    while i < input.len()
        invariant
            0 <= i <= input@.len(),
            out@ == lowered(input@.take(i as int)),
        decreases input@.len() - i,
    {
        let lc = char_to_lowercase(input[i]);
        let mut j: usize = 0;
        let ghost base = out@;
        assert(base + lc@.take(0) =~= base);
        while j < lc.len()
            invariant
                0 <= j <= lc@.len(),
                out@ == base + lc@.take(j as int),
            decreases lc@.len() - j,
        {
            out.push(lc[j]);
            assert(base + lc@.take(j + 1) =~= (base + lc@.take(j as int)).push(lc@[j as int]));
            j += 1;
        }
        assert(lc@.take(lc@.len() as int) =~= lc@);
        proof {
            lemma_lowered_snoc(input@, i as int);
        }
        i += 1;
    }
    assert(input@.take(input@.len() as int) =~= input@);
    out
}

/// The slug component made from text that is already lowercase.
pub fn slug_from_lowered_exec(l: &Vec<char>) -> (r: Vec<char>)
    ensures
        r@ == slug_from_lowered(l@),
{
    let mut out: Vec<char> = Vec::new();
    let mut last_dash = false;
    let mut i: usize = 0;
    while i < l.len()
        invariant
            0 <= i <= l@.len(),
            collapse(l@.take(i as int)) == (out@, last_dash),
        decreases l@.len() - i,
    {
        let c = l[i];
        assert(l@.take(i + 1).drop_last() =~= l@.take(i as int));
        assert(l@.take(i + 1).last() == c);
        if char_is_ascii_alnum(c) {
            out.push(c);
            last_dash = false;
        } else if !last_dash {
            out.push('-');
            last_dash = true;
        }
        i += 1;
    }
    assert(l@.take(l@.len() as int) =~= l@);
    let n = trim_chars(&out, &CharClass::Only('-'));
    if n.len() == 0 {
        chars_of("section")
    } else {
        n
    }
}

/// The slug component made from a heading or section name.
pub fn normalize_slug_component_exec(input: &Vec<char>) -> (r: Vec<char>)
    ensures
        r@ == normalize_slug_component(input@),
{
    let l = lowercase_chars(input);
    slug_from_lowered_exec(&l)
}

proof fn lemma_first_text_skip(s: Seq<Seq<char>>, i: int)
    requires
        0 <= i < s.len(),
        trim(s[i]).len() == 0,
    ensures
        first_text_line(s.skip(i)) == first_text_line(s.skip(i + 1)),
{
    assert(s.skip(i).drop_first() =~= s.skip(i + 1));
    assert(s.skip(i)[0] == s[i]);
}

fn first_text_line_exec(lines: &Vec<Vec<char>>) -> (r: Vec<char>)
    ensures
        r@ == first_text_line(seq_views(lines@)),
{
    let ghost lv = seq_views(lines@);
    let mut i: usize = 0;
    assert(lv.skip(0) =~= lv);
    while i < lines.len()
        invariant
            lv == seq_views(lines@),
            0 <= i <= lines@.len(),
            first_text_line(lv) == first_text_line(lv.skip(i as int)),
        decreases lines@.len() - i,
    {
        assert(lv[i as int] == lines@[i as int]@);
        assert(lv.skip(i as int)[0] == lv[i as int]);
        let t = trim_chars(&lines[i], &CharClass::White);
        if t.len() > 0 {
            if heading_level_exec(&t) > 0 {
                let h = count_leading(&t, '#');
                let rest = copy_range(&t, h + 1, t.len());
                assert(rest@ =~= t@.skip(h + 1int));
                return trim_chars(&rest, &CharClass::White);
            } else {
                let a = trim_start_chars(&t, &CharClass::ListMarker);
                return trim_chars(&a, &CharClass::White);
            }
        }
        proof {
            lemma_first_text_skip(lv, i as int);
        }
        i += 1;
    }
    assert(lv.skip(i as int).len() == 0);
    chars_of("Imported Block")
}

fn block_title_exec(lines: &Vec<Vec<char>>) -> (r: Vec<char>)
    ensures
        r@ == block_title(seq_views(lines@)),
{
    match heading_info_exec(lines) {
        Some((_, title)) => title,
        None => {
            let f = first_text_line_exec(lines);
            if f.len() <= 80 {
                f
            } else {
                copy_range(&f, 0, 80)
            }
        },
    }
}

fn chunk_text_exec(lines: &Vec<Vec<char>>) -> (r: Vec<char>)
    ensures
        r@ == chunk_text(seq_views(lines@)),
{
    let sep = chars_of("\n");
    let joined = join_chars(lines, &sep);
    trim_end_chars(&joined, &CharClass::White)
}

fn section_of_exec(path: &Vec<Vec<char>>, default_section: &Vec<char>) -> (r: Vec<char>)
    ensures
        r@ == section_of(seq_views(path@), default_section@),
{
    if path.len() == 0 {
        normalize_slug_component_exec(default_section)
    } else {
        let sep = chars_of("/");
        join_chars(path, &sep)
    }
}

fn block_of_exec(chunk: &Chunk, section: Vec<char>, prefix: &Vec<char>, order: i64) -> (r: ImportedRuleBlock)
    requires
        chunk.start_line >= 1,
    ensures
        r@ == block_of(chunk_view(*chunk), section@, prefix@, order as int),
{
    let mut slug = trim_chars(prefix, &CharClass::Only('/'));
    append_str(&mut slug, "/");
    append_chars(&mut slug, &section);
    append_str(&mut slug, "/l");
    let digits = decimal_chars(chunk.start_line as u64);
    append_chars(&mut slug, &digits);
    let title = block_title_exec(&chunk.lines);
    let body = chunk_text_exec(&chunk.lines);
    ImportedRuleBlock {
        slug: string_from_chars(slug),
        title: string_from_chars(title),
        section: string_from_chars(section),
        body: string_from_chars(body),
        order_key: order,
        source_start_line: chunk.start_line,
        source_end_line: chunk.end_line,
    }
}

fn merge_exec(first: Chunk, second: Chunk) -> (r: Chunk)
    ensures
        chunk_view(r) == merge(chunk_view(first), chunk_view(second)),
        r.start_line == first.start_line,
{
    let mut lines = first.lines;
    let ghost a = seq_views(lines@);
    lines.push(Vec::new());
    assert(seq_views(lines@) =~= a.push(Seq::<char>::empty()));
    let ghost b = seq_views(lines@);
    let mut rest = second.lines;
    let mut i: usize = 0;
    let ghost sv = seq_views(rest@);
    while i < rest.len()
        invariant
            0 <= i <= rest@.len(),
            sv == seq_views(rest@),
            seq_views(lines@) == b + sv.take(i as int),
        decreases rest@.len() - i,
    {
        let line = copy_range(&rest[i], 0, rest[i].len());
        assert(line@ =~= rest@[i as int]@);
        assert(sv[i as int] == rest@[i as int]@);
        let ghost before = seq_views(lines@);
        lines.push(line);
        assert(seq_views(lines@) =~= before.push(sv[i as int]));
        assert(b + sv.take(i + 1) =~= (b + sv.take(i as int)).push(sv[i as int]));
        i += 1;
    }
    assert(sv.take(sv.len() as int) =~= sv);
    Chunk { lines, start_line: first.start_line, end_line: second.end_line }
}

/// Imports the blocks of a markdown document.
pub fn import_markdown_blocks(content: &str, options: &MarkdownImportOptions) -> (r: Vec<ImportedRuleBlock>)
    requires
        content@.len() < 0x7fff_ffff_ffff_fff0,
    ensures
        block_views(r@) == import_blocks(
            content@,
            options.slug_prefix@,
            options.default_section@,
        ),
{
    let text = chars_of(content);
    let chunks = markdown_chunks_exec(&text);
    let prefix = chars_of(options.slug_prefix.as_str());
    let default_section = chars_of(options.default_section.as_str());
    let ghost cv = markdown_chunks(content@);
    let ghost pv = prefix@;
    let ghost dv = default_section@;
    let mut blocks: Vec<ImportedRuleBlock> = Vec::new();
    let mut heading_path: Vec<Vec<char>> = Vec::new();
    let mut pending: Option<Chunk> = None;
    let mut i: usize = 0;
    assert(block_views(blocks@) =~= Seq::<BlockView>::empty());
    assert(seq_views(heading_path@) =~= Seq::<Seq<char>>::empty());
    while i < chunks.len()
        invariant
            0 <= i <= chunks@.len(),
            chunk_views(chunks@) == cv,
            chunks@.len() <= content@.len() + 1,
            content@.len() < 0x7fff_ffff_ffff_fff0,
            forall|j: int| 0 <= j < chunks@.len() ==> 1 <= (#[trigger] chunks@[j]).start_line,
            pv == options.slug_prefix@,
            dv == options.default_section@,
            prefix@ == pv,
            default_section@ == dv,
            blocks@.len() <= i,
            import_scan(cv, i as nat, pv, dv) == (ImportScan {
                blocks: block_views(blocks@),
                path: seq_views(heading_path@),
                pending: match pending {
                    Some(c) => Some(chunk_view(c)),
                    None => None,
                },
            }),
            pending matches Some(c) ==> 1 <= c.start_line,
        decreases chunks@.len() - i,
    {
        let chunk = chunk_copy(&chunks[i]);
        assert(chunk_view(chunk) == cv[i as int]);
        if !is_generated_comment_exec(&chunk.lines) {
            let info = heading_info_exec(&chunk.lines);
            let heading_only = match &info {
                Some(_) => all_headings_exec(&chunk.lines),
                None => false,
            };
            match info {
                Some((level, title)) => {
                    let slug = normalize_slug_component_exec(&title);
                    update_path_exec(&mut heading_path, level, slug);
                },
                None => {},
            }
            if heading_only {
                pending = Some(chunk);
            } else {
                let merged = match pending {
                    Some(h) => merge_exec(h, chunk),
                    None => chunk,
                };
                pending = None;
                let section = section_of_exec(&heading_path, &default_section);
                let order: i64 = (blocks.len() as i64) + 1;
                let block = block_of_exec(&merged, section, &prefix, order);
                let ghost before = blocks@;
                blocks.push(block);
                assert(block_views(blocks@) =~= block_views(before).push(blocks@.last()@));
            }
        }
        i += 1;
    }
    match pending {
        Some(h) => {
            let section = section_of_exec(&heading_path, &default_section);
            let order: i64 = (blocks.len() as i64) + 1;
            let block = block_of_exec(&h, section, &prefix, order);
            let ghost before = blocks@;
            blocks.push(block);
            assert(block_views(blocks@) =~= block_views(before).push(blocks@.last()@));
        },
        None => {},
    }
    blocks
}

/// The heading path after a heading of level `level` (at least 1): the
/// first `level - 1` entries of the old path are kept (all of them if it is
/// shorter) and the heading's slug follows; so a top-level heading starts a
/// new one-entry path.
pub proof fn lemma_heading_path(path: Seq<Seq<char>>, level: nat, slug: Seq<char>)
    requires
        level >= 1,
    ensures
        ({
            let keep = if path.len() < level - 1 { path.len() as int } else { level - 1 };
            let p = update_path(path, level, slug);
            &&& p.len() == keep + 1
            &&& forall|i: int| 0 <= i < keep ==> #[trigger] p[i] == path[i]
            &&& p[keep] == slug
        }),
        level == 1 ==> update_path(path, level, slug) == seq![slug],
{
    if level == 1 {
        assert(update_path(path, level, slug) =~= seq![slug]);
    }
}

/// A block that opens with a top-level heading (and holds more than
/// headings) lies in a one-component section: the heading's own slug
/// component, whatever sections came before.
pub proof fn lemma_top_heading_section(
    st: ImportScan,
    chunk: ChunkView,
    prefix: Seq<char>,
    default_section: Seq<char>,
    title: Seq<char>,
)
    requires
        !is_generated_comment(chunk.lines),
        heading_info(chunk.lines) == Some((1nat, title)),
        !all_headings(chunk.lines),
    ensures
        import_step(st, chunk, prefix, default_section).blocks.last().section
            == normalize_slug_component(title),
        import_step(st, chunk, prefix, default_section).path == seq![normalize_slug_component(title)],
{
    lemma_heading_path(st.path, 1, normalize_slug_component(title));
}

} // verus!
