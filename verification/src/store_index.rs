//! The rule catalog: how a rule is grouped, summarised, tagged and labelled
//! in the generated catalog.
use vstd::prelude::*;

use crate::manifest::{uuid_text, uuid_to_string, RuleId, RuleManifest};
use crate::targets_loader::last_segment;
use crate::text::{
    append_chars, append_str, chars_of, copy_range, decimal, decimal_chars, dedup_strings,
    dedup_texts, i64_decimal,
    is_white, join_chars, join_with, lines_chars, lines_of, str_lowered, opt_string_view,
    seq_views, signed_decimal, sort_texts, sorted_texts, split_chars, split_class,
    split_class_chars, split_on, starts_with, str_starts_with, str_to_lowercase,
    string_from_chars, string_views, trim, trim_by, trim_chars, trim_start_by, trim_start_chars,
    CharClass,
};

verus! {

/// The non-empty pieces, in order.
pub open spec fn nonempty_parts(parts: Seq<Seq<char>>) -> Seq<Seq<char>>
    decreases parts.len(),
{
    if parts.len() == 0 {
        Seq::empty()
    } else {
        let init = nonempty_parts(parts.drop_last());
        if parts.last().len() > 0 {
            init.push(parts.last())
        } else {
            init
        }
    }
}

fn nonempty_pieces(parts: &Vec<Vec<char>>) -> (r: Vec<Vec<char>>)
    ensures
        seq_views(r@) == nonempty_parts(seq_views(parts@)),
{
    let ghost pv = seq_views(parts@);
    let mut r: Vec<Vec<char>> = Vec::new();
    let mut i: usize = 0;
    while i < parts.len()
        invariant
            0 <= i <= parts@.len(),
            pv == seq_views(parts@),
            seq_views(r@) == nonempty_parts(pv.take(i as int)),
        decreases parts@.len() - i,
    {
        assert(pv.take(i + 1).drop_last() =~= pv.take(i as int));
        assert(pv.take(i + 1).last() == parts@[i as int]@);
        if parts[i].len() > 0 {
            let ghost before = seq_views(r@);
            r.push(parts[i].clone());
            assert(seq_views(r@) =~= before.push(parts@[i as int]@));
        }
        i += 1;
    }
    assert(pv.take(parts@.len() as int) =~= pv);
    r
}

fn strings_of(parts: &Vec<Vec<char>>) -> (r: Vec<String>)
    ensures
        string_views(r@) == seq_views(parts@),
{
    let mut r: Vec<String> = Vec::new();
    let mut i: usize = 0;
    while i < parts.len()
        invariant
            0 <= i <= parts@.len(),
            r@.len() == i,
            forall|j: int| 0 <= j < i ==> (#[trigger] r@[j])@ == parts@[j]@,
        decreases parts@.len() - i,
    {
        r.push(string_from_chars(parts[i].clone()));
        i += 1;
    }
    assert(string_views(r@) =~= seq_views(parts@));
    r
}

/// The non-empty `/`-separated segments of a slug.
pub open spec fn slug_segments(slug: Seq<char>) -> Seq<Seq<char>> {
    nonempty_parts(split_on(slug, '/'))
}

/// Tags derived from a slug: every segment but the leaf.
pub open spec fn group_tags(slug: Seq<char>) -> Seq<Seq<char>> {
    let s = slug_segments(slug);
    if s.len() <= 1 {
        Seq::empty()
    } else {
        s.drop_last()
    }
}

/// Group key + tag segments derived from a slug: every segment except the
/// leaf.
pub fn group_segments(slug: &str) -> (r: Vec<String>)
    ensures
        string_views(r@) == group_tags(slug@),
{
    let segs = nonempty_pieces(&split_chars(&chars_of(slug), '/'));
    if segs.len() <= 1 {
        let r: Vec<String> = Vec::new();
        assert(string_views(r@) =~= Seq::<Seq<char>>::empty());
        return r;
    }
    let mut all = strings_of(&segs);
    let ghost before = string_views(all@);
    all.pop();
    assert(string_views(all@) =~= before.drop_last());
    all
}

/// The markdown group of a slug: its first two segments, or `ungrouped`.
pub open spec fn group_name(slug: Seq<char>) -> Seq<char> {
    let s = slug_segments(slug);
    if s.len() == 0 {
        "ungrouped"@
    } else if s.len() == 1 {
        s[0]
    } else {
        s[0] + "/"@ + s[1]
    }
}

/// Markdown group header key: the first two slug segments (or fewer); a slug
/// with no segment groups under `ungrouped`.
pub fn group_key(slug: &str) -> (r: String)
    ensures
        r@ == group_name(slug@),
{
    let segs = nonempty_pieces(&split_chars(&chars_of(slug), '/'));
    if segs.len() == 0 {
        return "ungrouped".to_owned();
    }
    if segs.len() == 1 {
        return string_from_chars(segs[0].clone());
    }
    let mut key = segs[0].clone();
    append_str(&mut key, "/");
    append_chars(&mut key, &segs[1]);
    string_from_chars(key)
}

// ---------------------------------------------------------------------------
// Summaries

/// `str::split_whitespace`: the maximal runs of non-whitespace characters.
pub open spec fn words(s: Seq<char>) -> Seq<Seq<char>>
    decreases s.len(),
{
    if s.len() == 0 {
        Seq::empty()
    } else if is_white(s.last()) {
        words(s.drop_last())
    } else if s.len() > 1 && !is_white(s[s.len() - 2]) {
        let w = words(s.drop_last());
        w.update(w.len() - 1, w.last().push(s.last()))
    } else {
        words(s.drop_last()).push(seq![s.last()])
    }
}

proof fn lemma_words_nonempty(s: Seq<char>)
    requires
        s.len() > 0,
        !is_white(s.last()),
    ensures
        words(s).len() > 0,
    decreases s.len(),
{
    if s.len() > 1 && !is_white(s[s.len() - 2]) {
        let t = s.drop_last();
        assert(t.last() == s[s.len() - 2]);
        lemma_words_nonempty(t);
    }
}

fn split_words(v: &Vec<char>) -> (r: Vec<Vec<char>>)
    ensures
        seq_views(r@) == words(v@),
{
    let mut parts: Vec<Vec<char>> = Vec::new();
    let mut in_word = false;
    let mut i: usize = 0;
    assert(seq_views(parts@) =~= words(v@.take(0)));
    while i < v.len()
        invariant
            0 <= i <= v@.len(),
            seq_views(parts@) == words(v@.take(i as int)),
            in_word == (i > 0 && !is_white(v@[i - 1])),
            in_word ==> parts@.len() > 0,
        decreases v@.len() - i,
    {
        let c = v[i];
        let ghost t = v@.take(i + 1);
        assert(t.drop_last() =~= v@.take(i as int));
        assert(t.last() == c);
        let ghost before = seq_views(parts@);
        if crate::text::char_is_white(c) {
            in_word = false;
        } else if in_word {
            assert(t[t.len() - 2] == v@[i - 1]);
            let last = parts.len() - 1;
            let mut w = parts.remove(last);
            w.push(c);
            parts.push(w);
            assert(seq_views(parts@) =~= before.update(before.len() - 1, before.last().push(c)));
        } else {
            if i > 0 {
                assert(t[t.len() - 2] == v@[i - 1]);
            }
            let mut w: Vec<char> = Vec::new();
            w.push(c);
            assert(w@ =~= seq![c]);
            parts.push(w);
            assert(seq_views(parts@) =~= before.push(seq![c]));
            in_word = true;
        }
        i += 1;
    }
    assert(v@.take(v@.len() as int) =~= v@);
    parts
}

/// At most `max` characters: a longer text keeps its first `max - 1` and ends
/// with `…`.
pub open spec fn truncated(text: Seq<char>, max: nat) -> Seq<char> {
    if text.len() <= max {
        text
    } else if max == 0 {
        seq!['…']
    } else {
        text.take(max - 1).push('…')
    }
}

pub fn truncate_chars(text: &str, max: usize) -> (r: String)
    ensures
        r@ == truncated(text@, max as nat),
{
    let v = chars_of(text);
    if v.len() <= max {
        return text.to_owned();
    }
    let keep = if max == 0 {
        0
    } else {
        max - 1
    };
    let mut out = copy_range(&v, 0, keep);
    out.push('…');
    assert(max == 0 ==> out@ =~= seq!['…']);
    string_from_chars(out)
}

/// The summary a line gives: not empty, not a heading, not a fence; list and
/// quote markers stripped, whitespace collapsed, at most 200 characters.
pub open spec fn summary_line(line: Seq<char>) -> Option<Seq<char>> {
    let t = trim(line);
    if t.len() == 0 || starts_with(t, "#"@) || starts_with(t, "```"@) {
        None
    } else {
        let stripped = trim(trim_start_by(t, CharClass::SummaryMarker));
        if stripped.len() == 0 {
            None
        } else {
            Some(truncated(join_with(words(stripped), " "@), 200))
        }
    }
}

/// The first line that gives a summary.
pub open spec fn first_summary(lines: Seq<Seq<char>>) -> Option<Seq<char>>
    decreases lines.len(),
{
    if lines.len() == 0 {
        None
    } else {
        match first_summary(lines.drop_last()) {
            Some(s) => Some(s),
            None => summary_line(lines.last()),
        }
    }
}

/// A rule body collapsed into one summary line (empty when none qualifies).
pub open spec fn summary_of(body: Seq<char>) -> Seq<char> {
    match first_summary(lines_of(body)) {
        Some(s) => s,
        None => Seq::empty(),
    }
}

fn summary_of_line(line: &Vec<char>) -> (r: Option<String>)
    ensures
        match r {
            Some(s) => summary_line(line@) == Some(s@),
            None => summary_line(line@) is None,
        },
{
    let t = trim_chars(line, &CharClass::White);
    if t.len() == 0 || crate::text::chars_start_with(&t, &chars_of("#"))
        || crate::text::chars_start_with(&t, &chars_of("```")) {
        return None;
    }
    let stripped = trim_chars(&trim_start_chars(&t, &CharClass::SummaryMarker), &CharClass::White);
    if stripped.len() == 0 {
        return None;
    }
    let collapsed = join_chars(&split_words(&stripped), &chars_of(" "));
    Some(truncate_chars(string_from_chars(collapsed).as_str(), 200))
}

proof fn lemma_first_summary_prefix(lines: Seq<Seq<char>>, n: int)
    requires
        0 <= n <= lines.len(),
        first_summary(lines.take(n)) is Some,
    ensures
        first_summary(lines) == first_summary(lines.take(n)),
    decreases lines.len() - n,
{
    if n < lines.len() {
        assert(lines.take(n + 1).drop_last() =~= lines.take(n));
        lemma_first_summary_prefix(lines, n + 1);
    } else {
        assert(lines.take(n) =~= lines);
    }
}

/// Collapse a rule body into a single normalized summary line: the first
/// non-empty, non-heading, non-fence text line, leading markdown markers
/// stripped, whitespace collapsed, truncated to 200 characters.
pub fn normalize_summary(body: &str) -> (r: String)
    ensures
        r@ == summary_of(body@),
{
    let lines = lines_chars(&chars_of(body));
    let ghost lv = seq_views(lines@);
    let mut i: usize = 0;
    while i < lines.len()
        invariant
            0 <= i <= lines@.len(),
            lv == seq_views(lines@),
            lv == lines_of(body@),
            first_summary(lv.take(i as int)) is None,
        decreases lines@.len() - i,
    {
        assert(lv.take(i + 1).drop_last() =~= lv.take(i as int));
        assert(lv.take(i + 1).last() == lines@[i as int]@);
        if let Some(s) = summary_of_line(&lines[i]) {
            proof {
                lemma_first_summary_prefix(lv, i + 1);
            }
            return s;
        }
        i += 1;
    }
    assert(lv.take(lines@.len() as int) =~= lv);
    String::new()
}

// ---------------------------------------------------------------------------
// Feedback

/// A rule is low-rated when negative feedback meets or exceeds positive
/// feedback and at least one "not helpful" rating exists.
pub open spec fn low_rated(rule: RuleManifest) -> bool {
    let not_helpful = match rule.spec_not_helpful() {
        Some(n) => n,
        None => 0,
    };
    let helpful = match rule.spec_helpful() {
        Some(n) => n,
        None => 0,
    };
    not_helpful > 0 && not_helpful >= helpful
}

pub fn is_low_rated(rule: &RuleManifest) -> (r: bool)
    ensures
        r == low_rated(*rule),
{
    let not_helpful = match rule.feedback_not_helpful_count() {
        Some(n) => n,
        None => 0,
    };
    let helpful = match rule.feedback_helpful_count() {
        Some(n) => n,
        None => 0,
    };
    not_helpful > 0 && not_helpful >= helpful
}

// ---------------------------------------------------------------------------
// Keywords and tags

/// Keyword candidates: the words of the title, then the parts of the slug's
/// last segment.
pub open spec fn keyword_candidates(title: Seq<char>, slug: Seq<char>) -> Seq<Seq<char>> {
    words(title) + split_class(last_segment(slug), CharClass::SlugSeparator)
}

pub open spec fn lowered_all(s: Seq<Seq<char>>) -> Seq<Seq<char>> {
    Seq::new(s.len(), |i: int| str_lowered(s[i]))
}

/// Lowered candidates trimmed of non-alphanumeric ends, keeping those longer
/// than three characters.
pub open spec fn long_terms(s: Seq<Seq<char>>) -> Seq<Seq<char>>
    decreases s.len(),
{
    if s.len() == 0 {
        Seq::empty()
    } else {
        let init = long_terms(s.drop_last());
        let t = trim_by(s.last(), CharClass::NotAlphanumeric);
        if t.len() > 3 {
            init.push(t)
        } else {
            init
        }
    }
}

/// The keywords from lowered candidates: long terms, sorted, each once.
pub open spec fn keywords_of(lowered: Seq<Seq<char>>) -> Seq<Seq<char>> {
    dedup_texts(sorted_texts(long_terms(lowered)))
}

/// Keywords from already lower-cased candidate words: trimmed of
/// non-alphanumeric ends, longer than three characters, sorted and distinct.
pub fn keywords_from_lowered(lowered: &Vec<String>) -> (r: Vec<String>)
    ensures
        string_views(r@) == keywords_of(string_views(lowered@)),
{
    let ghost lv = string_views(lowered@);
    let mut terms: Vec<String> = Vec::new();
    let mut i: usize = 0;
    while i < lowered.len()
        invariant
            0 <= i <= lowered@.len(),
            lv == string_views(lowered@),
            string_views(terms@) == long_terms(lv.take(i as int)),
        decreases lowered@.len() - i,
    {
        assert(lv.take(i + 1).drop_last() =~= lv.take(i as int));
        assert(lv.take(i + 1).last() == lowered@[i as int]@);
        let t = trim_chars(&chars_of(lowered[i].as_str()), &CharClass::NotAlphanumeric);
        if t.len() > 3 {
            let ghost before = string_views(terms@);
            terms.push(string_from_chars(t));
            assert(string_views(terms@) =~= before.push(trim_by(lv[i as int], CharClass::NotAlphanumeric)));
        }
        i += 1;
    }
    assert(lv.take(lowered@.len() as int) =~= lv);
    dedup_strings(&sort_texts(terms))
}

/// Extract lower-cased keyword terms from the title and the slug's leaf.
pub fn keywords_for(title: &str, slug: &str) -> (r: Vec<String>)
    ensures
        string_views(r@) == keywords_of(lowered_all(keyword_candidates(title@, slug@))),
{
    let slug_chars = chars_of(slug);
    let leaf = match crate::paths::last_index_exec(&slug_chars, slug_chars.len(), '/') {
        Some(k) => copy_range(&slug_chars, k + 1, slug_chars.len()),
        None => copy_range(&slug_chars, 0, slug_chars.len()),
    };
    proof {
        crate::paths::lemma_last_index_of(slug@, '/');
        assert(slug_chars@.take(slug_chars@.len() as int) =~= slug_chars@);
        match crate::paths::last_index_of(slug@, '/') {
            Some(k) => {
                assert(leaf@ =~= slug@.skip(k + 1));
            },
            None => {
                assert(leaf@ =~= slug@);
            },
        }
    }
    let mut parts = split_words(&chars_of(title));
    let mut rest = split_class_chars(&leaf, &CharClass::SlugSeparator);
    let ghost p0 = seq_views(parts@);
    let ghost r0 = seq_views(rest@);
    parts.append(&mut rest);
    assert(seq_views(parts@) =~= p0 + r0);
    let ghost cands = seq_views(parts@);
    let mut lowered: Vec<String> = Vec::new();
    let mut i: usize = 0;
    while i < parts.len()
        invariant
            0 <= i <= parts@.len(),
            cands == seq_views(parts@),
            lowered@.len() == i,
            forall|j: int| 0 <= j < i ==> (#[trigger] lowered@[j])@ == str_lowered(cands[j]),
        decreases parts@.len() - i,
    {
        lowered.push(str_to_lowercase(string_from_chars(parts[i].clone()).as_str()));
        i += 1;
    }
    assert(string_views(lowered@) =~= lowered_all(cands));
    keywords_from_lowered(&lowered)
}

/// Tags lower-cased, sorted, each once.
pub open spec fn normalized_tags(tags: Seq<Seq<char>>) -> Seq<Seq<char>> {
    dedup_texts(sorted_texts(lowered_all(tags)))
}

pub fn normalize_tags(tags: &mut Vec<String>)
    ensures
        string_views(final(tags)@) == normalized_tags(string_views(old(tags)@)),
{
    let ghost tv = string_views(tags@);
    let mut lowered: Vec<String> = Vec::new();
    let mut i: usize = 0;
    while i < tags.len()
        invariant
            0 <= i <= tags@.len(),
            tv == string_views(tags@),
            lowered@.len() == i,
            forall|j: int| 0 <= j < i ==> (#[trigger] lowered@[j])@ == str_lowered(tv[j]),
        decreases tags@.len() - i,
    {
        lowered.push(str_to_lowercase(tags[i].as_str()));
        i += 1;
    }
    assert(string_views(lowered@) =~= lowered_all(tv));
    *tags = dedup_strings(&sort_texts(lowered));
}

// ---------------------------------------------------------------------------
// Feedback labels

/// `helpful <h> / mixed <m> / not-helpful <n>`, or nothing without feedback.
pub open spec fn rating_text(helpful: int, mixed: int, not_helpful: int) -> Option<Seq<char>> {
    if helpful == 0 && mixed == 0 && not_helpful == 0 {
        None
    } else {
        Some(
            "helpful "@ + signed_decimal(helpful) + " / mixed "@ + signed_decimal(mixed)
                + " / not-helpful "@ + signed_decimal(not_helpful),
        )
    }
}

/// Per-rule display data of the catalog that its digest does not cover.
pub struct RuleDisplayExtra {
    pub section: Option<String>,
    pub helpful: i64,
    pub mixed: i64,
    pub not_helpful: i64,
}

impl RuleDisplayExtra {
    pub fn from_manifest(manifest: &RuleManifest) -> (r: RuleDisplayExtra)
        ensures
            opt_string_view(r.section) == match manifest.spec_section() {
                Some(s) => if s.len() > 0 {
                    Some(s)
                } else {
                    None
                },
                None => None,
            },
            r.helpful as int == match manifest.spec_helpful() {
                Some(n) => n,
                None => 0,
            },
            r.mixed as int == match manifest.spec_mixed() {
                Some(n) => n,
                None => 0,
            },
            r.not_helpful as int == match manifest.spec_not_helpful() {
                Some(n) => n,
                None => 0,
            },
    {
        let section = match manifest.section() {
            Some(s) => if chars_of(s).len() > 0 {
                Some(s.to_owned())
            } else {
                None
            },
            None => None,
        };
        RuleDisplayExtra {
            section,
            helpful: match manifest.feedback_helpful_count() {
                Some(n) => n,
                None => 0,
            },
            mixed: match manifest.feedback_mixed_count() {
                Some(n) => n,
                None => 0,
            },
            not_helpful: match manifest.feedback_not_helpful_count() {
                Some(n) => n,
                None => 0,
            },
        }
    }

    /// Compact feedback rating label, or `None` when there is no feedback.
    pub fn rating_label(&self) -> (r: Option<String>)
        ensures
            opt_string_view(r) == rating_text(
                self.helpful as int,
                self.mixed as int,
                self.not_helpful as int,
            ),
    {
        if self.helpful == 0 && self.mixed == 0 && self.not_helpful == 0 {
            return None;
        }
        let mut out = chars_of("helpful ");
        append_chars(&mut out, &i64_decimal(self.helpful));
        append_str(&mut out, " / mixed ");
        append_chars(&mut out, &i64_decimal(self.mixed));
        append_str(&mut out, " / not-helpful ");
        append_chars(&mut out, &i64_decimal(self.not_helpful));
        Some(string_from_chars(out))
    }
}

// ---------------------------------------------------------------------------
// Catalog entries

/// One rule of the catalog.
pub struct CatalogEntry {
    pub id: RuleId,
    pub slug: String,
    pub title: String,
    pub summary: String,
    pub keywords: Vec<String>,
    pub tags: Vec<String>,
    pub source_path: String,
    pub digest: String,
}

/// A catalog entry as values.
pub struct CatalogEntryView {
    pub id: RuleId,
    pub slug: Seq<char>,
    pub title: Seq<char>,
    pub summary: Seq<char>,
    pub keywords: Seq<Seq<char>>,
    pub tags: Seq<Seq<char>>,
    pub source_path: Seq<char>,
    pub digest: Seq<char>,
}

impl View for CatalogEntry {
    type V = CatalogEntryView;

    open spec fn view(&self) -> CatalogEntryView {
        CatalogEntryView {
            id: self.id,
            slug: self.slug@,
            title: self.title@,
            summary: self.summary@,
            keywords: string_views(self.keywords@),
            tags: string_views(self.tags@),
            source_path: self.source_path@,
            digest: self.digest@,
        }
    }
}

/// A rule manifest joined with the path of its entry.
pub struct RuleCatalogSource<'a> {
    pub manifest: &'a RuleManifest,
    pub source_path: String,
}

pub open spec fn or_empty(o: Option<Seq<char>>) -> Seq<char> {
    match o {
        Some(s) => s,
        None => Seq::empty(),
    }
}

/// The title shown for a rule: its title, else its slug, else its UUID.
pub open spec fn display_title(rule: RuleManifest) -> Seq<char> {
    let slug = or_empty(rule.spec_slug());
    match rule.spec_title() {
        Some(t) => if t.len() > 0 {
            t
        } else if slug.len() == 0 {
            uuid_text(rule.id)
        } else {
            slug
        },
        None => if slug.len() == 0 {
            uuid_text(rule.id)
        } else {
            slug
        },
    }
}

/// Tags of a rule before normalizing: slug groups, its state, `low-rated`.
pub open spec fn raw_tags(rule: RuleManifest) -> Seq<Seq<char>> {
    let slug = or_empty(rule.spec_slug());
    let state = or_empty(rule.spec_state());
    let with_state = if state.len() > 0 {
        group_tags(slug).push(state)
    } else {
        group_tags(slug)
    };
    if low_rated(rule) {
        with_state.push("low-rated"@)
    } else {
        with_state
    }
}

/// The catalog entry of a rule (its digest not yet computed).
pub open spec fn entry_of(rule: RuleManifest, source_path: Seq<char>) -> CatalogEntryView {
    let slug = or_empty(rule.spec_slug());
    let title = display_title(rule);
    CatalogEntryView {
        id: rule.id,
        slug,
        title,
        summary: summary_of(or_empty(rule.spec_body())),
        keywords: keywords_of(lowered_all(keyword_candidates(title, slug))),
        tags: normalized_tags(raw_tags(rule)),
        source_path,
        digest: Seq::empty(),
    }
}

fn str_or_empty(o: Option<&str>) -> (r: String)
    ensures
        r@ == or_empty(crate::manifest::opt_view(o)),
{
    match o {
        Some(s) => s.to_owned(),
        None => String::new(),
    }
}

/// The catalog entry of a rule source: title, summary, keywords and tags
/// derived from the manifest.
pub fn make_entry(source: &RuleCatalogSource) -> (r: CatalogEntry)
    ensures
        r@ == entry_of(*source.manifest, source.source_path@),
{
    let manifest = source.manifest;
    let slug = str_or_empty(manifest.slug());
    let title = match manifest.title() {
        Some(t) => if chars_of(t).len() > 0 {
            t.to_owned()
        } else if chars_of(slug.as_str()).len() == 0 {
            uuid_to_string(manifest.id)
        } else {
            slug.clone()
        },
        None => if chars_of(slug.as_str()).len() == 0 {
            uuid_to_string(manifest.id)
        } else {
            slug.clone()
        },
    };
    let body = str_or_empty(manifest.body());
    let summary = normalize_summary(body.as_str());
    let state = str_or_empty(manifest.state());
    let mut tags = group_segments(slug.as_str());
    if chars_of(state.as_str()).len() > 0 {
        let ghost before = string_views(tags@);
        tags.push(state);
        assert(string_views(tags@) =~= before.push(or_empty(manifest.spec_state())));
    }
    if is_low_rated(manifest) {
        let ghost before = string_views(tags@);
        tags.push("low-rated".to_owned());
        assert(string_views(tags@) =~= before.push("low-rated"@));
    }
    assert(string_views(tags@) == raw_tags(*manifest));
    normalize_tags(&mut tags);
    let keywords = keywords_for(title.as_str(), slug.as_str());
    CatalogEntry {
        id: manifest.id,
        slug,
        title,
        summary,
        keywords,
        tags,
        source_path: source.source_path.clone(),
        digest: String::new(),
    }
}

// ---------------------------------------------------------------------------
// Rendering the catalog

/// The first twelve characters of a digest.
pub open spec fn digest_prefix(digest: Seq<char>) -> Seq<char> {
    if digest.len() <= 12 {
        digest
    } else {
        digest.take(12)
    }
}

pub fn first12(digest: &str) -> (r: String)
    ensures
        r@ == digest_prefix(digest@),
{
    let v = chars_of(digest);
    let end = if v.len() < 12 {
        v.len()
    } else {
        12
    };
    let out = copy_range(&v, 0, end);
    assert(v.len() <= 12 ==> out@ =~= digest@);
    string_from_chars(out)
}

/// The provenance marker of a catalog entry.
pub open spec fn block_marker(e: CatalogEntryView) -> Seq<char> {
    "<!-- rule-catalog:entry id="@ + uuid_text(e.id) + " slug="@ + e.slug + " digest="@
        + digest_prefix(e.digest) + " -->\n"@
}

/// The heading of a catalog entry, badged when the rule is low-rated.
pub open spec fn block_heading(e: CatalogEntryView) -> Seq<char> {
    "### "@ + e.title + (if e.tags.contains("low-rated"@) {
        " **[low-rated]**"@
    } else {
        Seq::empty()
    }) + "\n"@
}

/// The summary paragraph, when there is a summary.
pub open spec fn block_summary(e: CatalogEntryView) -> Seq<char> {
    if e.summary.len() > 0 {
        "\n"@ + e.summary + "\n"@
    } else {
        Seq::empty()
    }
}

/// The metadata bullets: slug, section, tags, feedback, and the reference.
pub open spec fn block_bullets(e: CatalogEntryView, extra: Option<RuleDisplayExtra>) -> Seq<char> {
    let slug = if e.slug.len() > 0 {
        "- slug: `"@ + e.slug + "`\n"@
    } else {
        Seq::empty()
    };
    let section = match extra {
        Some(x) => match x.section {
            Some(s) => "- section: `"@ + s@ + "`\n"@,
            None => Seq::empty(),
        },
        None => Seq::empty(),
    };
    let tags = if e.tags.len() > 0 {
        "- tags: "@ + join_with(e.tags, ", "@) + "\n"@
    } else {
        Seq::empty()
    };
    let feedback = match extra {
        Some(x) => match rating_text(x.helpful as int, x.mixed as int, x.not_helpful as int) {
            Some(r) => "- feedback: "@ + r + "\n"@,
            None => Seq::empty(),
        },
        None => Seq::empty(),
    };
    slug + section + tags + feedback + "- ref: `"@ + e.source_path + "`\n"@
}

/// The markdown block of one catalog entry.
pub open spec fn entry_block(e: CatalogEntryView, extra: Option<RuleDisplayExtra>) -> Seq<char> {
    block_marker(e) + block_heading(e) + block_summary(e) + "\n"@ + block_bullets(e, extra)
}

fn contains_text(v: &Vec<String>, s: &str) -> (r: bool)
    ensures
        r == string_views(v@).contains(s@),
{
    let mut i: usize = 0;
    while i < v.len()
        invariant
            0 <= i <= v@.len(),
            forall|j: int| 0 <= j < i ==> (#[trigger] v@[j])@ != s@,
        decreases v@.len() - i,
    {
        if crate::text::str_eq(v[i].as_str(), s) {
            assert(string_views(v@)[i as int] == s@);
            return true;
        }
        i += 1;
    }
    assert forall|j: int| 0 <= j < string_views(v@).len() implies string_views(v@)[j] != s@ by {
        assert(string_views(v@)[j] == v@[j]@);
    }
    false
}

fn join_strings(parts: &Vec<String>, sep: &str) -> (r: Vec<char>)
    ensures
        r@ == join_with(string_views(parts@), sep@),
{
    let mut pieces: Vec<Vec<char>> = Vec::new();
    let mut i: usize = 0;
    while i < parts.len()
        invariant
            0 <= i <= parts@.len(),
            pieces@.len() == i,
            forall|j: int| 0 <= j < i ==> (#[trigger] pieces@[j])@ == parts@[j]@,
        decreases parts@.len() - i,
    {
        pieces.push(chars_of(parts[i].as_str()));
        i += 1;
    }
    assert(seq_views(pieces@) =~= string_views(parts@));
    join_chars(&pieces, &chars_of(sep))
}

fn marker_chars(entry: &CatalogEntry) -> (r: Vec<char>)
    ensures
        r@ == block_marker(entry@),
{
    let mut out = chars_of("<!-- rule-catalog:entry id=");
    append_str(&mut out, uuid_to_string(entry.id).as_str());
    append_str(&mut out, " slug=");
    append_str(&mut out, entry.slug.as_str());
    append_str(&mut out, " digest=");
    append_str(&mut out, first12(entry.digest.as_str()).as_str());
    append_str(&mut out, " -->\n");
    out
}

fn heading_chars(entry: &CatalogEntry) -> (r: Vec<char>)
    ensures
        r@ == block_heading(entry@),
{
    let mut out = chars_of("### ");
    append_str(&mut out, entry.title.as_str());
    if contains_text(&entry.tags, "low-rated") {
        append_str(&mut out, " **[low-rated]**");
    } else {
        assert(out@ =~= out@ + Seq::<char>::empty());
    }
    append_str(&mut out, "\n");
    out
}

fn summary_chars(entry: &CatalogEntry) -> (r: Vec<char>)
    ensures
        r@ == block_summary(entry@),
{
    let mut out: Vec<char> = Vec::new();
    if chars_of(entry.summary.as_str()).len() > 0 {
        append_str(&mut out, "\n");
        append_str(&mut out, entry.summary.as_str());
        append_str(&mut out, "\n");
        assert(out@ =~= "\n"@ + entry.summary@ + "\n"@);
    }
    out
}

fn bullet_chars(entry: &CatalogEntry, extra: Option<&RuleDisplayExtra>) -> (r: Vec<char>)
    ensures
        r@ == block_bullets(entry@, match extra {
            Some(x) => Some(*x),
            None => None,
        }),
{
    let mut slug: Vec<char> = Vec::new();
    if chars_of(entry.slug.as_str()).len() > 0 {
        append_str(&mut slug, "- slug: `");
        append_str(&mut slug, entry.slug.as_str());
        append_str(&mut slug, "`\n");
        assert(slug@ =~= "- slug: `"@ + entry.slug@ + "`\n"@);
    }
    let mut section: Vec<char> = Vec::new();
    let mut feedback: Vec<char> = Vec::new();
    if let Some(x) = extra {
        if let Some(s) = &x.section {
            append_str(&mut section, "- section: `");
            append_str(&mut section, s.as_str());
            append_str(&mut section, "`\n");
            assert(section@ =~= "- section: `"@ + s@ + "`\n"@);
        }
        if let Some(rating) = x.rating_label() {
            append_str(&mut feedback, "- feedback: ");
            append_str(&mut feedback, rating.as_str());
            append_str(&mut feedback, "\n");
            assert(feedback@ =~= "- feedback: "@ + rating@ + "\n"@);
        }
    }
    let mut tags: Vec<char> = Vec::new();
    if entry.tags.len() > 0 {
        append_str(&mut tags, "- tags: ");
        let joined = join_strings(&entry.tags, ", ");
        append_chars(&mut tags, &joined);
        append_str(&mut tags, "\n");
        assert(tags@ =~= "- tags: "@ + joined@ + "\n"@);
    }
    let mut out = slug;
    append_chars(&mut out, &section);
    append_chars(&mut out, &tags);
    append_chars(&mut out, &feedback);
    append_str(&mut out, "- ref: `");
    append_str(&mut out, entry.source_path.as_str());
    append_str(&mut out, "`\n");
    out
}

pub fn render_entry_block(entry: &CatalogEntry, extra: Option<&RuleDisplayExtra>) -> (r: String)
    ensures
        r@ == entry_block(entry@, match extra {
            Some(x) => Some(*x),
            None => None,
        }),
{
    let mut out = marker_chars(entry);
    append_chars(&mut out, &heading_chars(entry));
    append_chars(&mut out, &summary_chars(entry));
    append_str(&mut out, "\n");
    append_chars(&mut out, &bullet_chars(entry, extra));
    string_from_chars(out)
}

pub open spec fn entry_views(v: Seq<CatalogEntry>) -> Seq<CatalogEntryView> {
    Seq::new(v.len(), |i: int| v[i]@)
}

/// The display extra recorded for an id (the last one recorded).
pub open spec fn extra_for(extras: Seq<(RuleId, RuleDisplayExtra)>, id: RuleId) -> Option<RuleDisplayExtra>
    decreases extras.len(),
{
    if extras.len() == 0 {
        None
    } else if extras.last().0 == id {
        Some(extras.last().1)
    } else {
        extra_for(extras.drop_last(), id)
    }
}

/// The group keys of the entries, sorted, each once.
pub open spec fn catalog_groups(es: Seq<CatalogEntryView>) -> Seq<Seq<char>> {
    dedup_texts(sorted_texts(Seq::new(es.len(), |i: int| group_name(es[i].slug))))
}

/// The blocks of the entries of one group, in entry order.
pub open spec fn group_blocks(
    es: Seq<CatalogEntryView>,
    key: Seq<char>,
    extras: Seq<(RuleId, RuleDisplayExtra)>,
) -> Seq<char>
    decreases es.len(),
{
    if es.len() == 0 {
        Seq::empty()
    } else {
        let e = es.last();
        group_blocks(es.drop_last(), key, extras) + if group_name(e.slug) == key {
            "\n"@ + entry_block(e, extra_for(extras, e.id))
        } else {
            Seq::empty()
        }
    }
}

/// Every group under its `##` header, in key order.
pub open spec fn groups_text(
    es: Seq<CatalogEntryView>,
    keys: Seq<Seq<char>>,
    extras: Seq<(RuleId, RuleDisplayExtra)>,
) -> Seq<char>
    decreases keys.len(),
{
    if keys.len() == 0 {
        Seq::empty()
    } else {
        groups_text(es, keys.drop_last(), extras) + "\n## "@ + keys.last() + "\n"@ + group_blocks(
            es,
            keys.last(),
            extras,
        )
    }
}

/// The catalog page: its provenance comment, then the entries grouped by
/// slug prefix.
pub open spec fn catalog_markdown(es: Seq<CatalogEntryView>, extras: Seq<(RuleId, RuleDisplayExtra)>) -> Seq<char> {
    "<!-- rule-catalog:file generated=true -->"@ + "\n"@ + groups_text(es, catalog_groups(es), extras)
}

fn extra_position(extras: &Vec<(RuleId, RuleDisplayExtra)>, id: RuleId) -> (r: Option<usize>)
    ensures
        match r {
            Some(i) => i < extras@.len() && extra_for(extras@, id) == Some(extras@[i as int].1),
            None => extra_for(extras@, id) is None,
        },
{
    let ghost xs = extras@;
    let mut found: Option<usize> = None;
    let mut i: usize = 0;
    while i < extras.len()
        invariant
            0 <= i <= xs.len(),
            xs == extras@,
            match found {
                Some(k) => k < i && extra_for(xs.take(i as int), id) == Some(xs[k as int].1),
                None => extra_for(xs.take(i as int), id) is None,
            },
        decreases xs.len() - i,
    {
        assert(xs.take(i + 1).drop_last() =~= xs.take(i as int));
        assert(xs.take(i + 1).last() == xs[i as int]);
        if extras[i].0 == id {
            found = Some(i);
        }
        i += 1;
    }
    assert(xs.take(xs.len() as int) =~= xs);
    found
}

fn group_keys(entries: &Vec<CatalogEntry>) -> (r: Vec<String>)
    ensures
        string_views(r@) == catalog_groups(entry_views(entries@)),
{
    let ghost ev = entry_views(entries@);
    let mut keys: Vec<String> = Vec::new();
    let mut i: usize = 0;
    while i < entries.len()
        invariant
            0 <= i <= entries@.len(),
            ev == entry_views(entries@),
            keys@.len() == i,
            forall|j: int| 0 <= j < i ==> (#[trigger] keys@[j])@ == group_name(ev[j].slug),
        decreases entries@.len() - i,
    {
        keys.push(group_key(entries[i].slug.as_str()));
        i += 1;
    }
    assert(string_views(keys@) =~= Seq::new(ev.len(), |i: int| group_name(ev[i].slug)));
    dedup_strings(&sort_texts(keys))
}

fn group_blocks_chars(
    entries: &Vec<CatalogEntry>,
    key: &str,
    extras: &Vec<(RuleId, RuleDisplayExtra)>,
) -> (r: Vec<char>)
    ensures
        r@ == group_blocks(entry_views(entries@), key@, extras@),
{
    let ghost ev = entry_views(entries@);
    let kc = chars_of(key);
    let mut out: Vec<char> = Vec::new();
    let mut i: usize = 0;
    while i < entries.len()
        invariant
            0 <= i <= entries@.len(),
            ev == entry_views(entries@),
            kc@ == key@,
            out@ == group_blocks(ev.take(i as int), key@, extras@),
        decreases entries@.len() - i,
    {
        assert(ev.take(i + 1).drop_last() =~= ev.take(i as int));
        assert(ev.take(i + 1).last() == entries@[i as int]@);
        let e = &entries[i];
        let g = chars_of(group_key(e.slug.as_str()).as_str());
        if crate::text::chars_eq(&g, &kc) {
            append_str(&mut out, "\n");
            let block = match extra_position(extras, e.id) {
                Some(k) => render_entry_block(e, Some(&extras[k].1)),
                None => render_entry_block(e, None),
            };
            append_str(&mut out, block.as_str());
        } else {
            assert(out@ =~= out@ + Seq::<char>::empty());
        }
        i += 1;
    }
    assert(ev.take(entries@.len() as int) =~= ev);
    out
}

/// Renders the catalog page: a slug-prefix-grouped list of the entries.
pub fn render_catalog_markdown(entries: &Vec<CatalogEntry>, extras: &Vec<(RuleId, RuleDisplayExtra)>) -> (r:
    String)
    ensures
        r@ == catalog_markdown(entry_views(entries@), extras@),
{
    let keys = group_keys(entries);
    let ghost kv = string_views(keys@);
    let ghost ev = entry_views(entries@);
    let mut body: Vec<char> = Vec::new();
    let mut i: usize = 0;
    while i < keys.len()
        invariant
            0 <= i <= keys@.len(),
            kv == string_views(keys@),
            ev == entry_views(entries@),
            body@ == groups_text(ev, kv.take(i as int), extras@),
        decreases keys@.len() - i,
    {
        assert(kv.take(i + 1).drop_last() =~= kv.take(i as int));
        assert(kv.take(i + 1).last() == keys@[i as int]@);
        append_str(&mut body, "\n## ");
        append_str(&mut body, keys[i].as_str());
        append_str(&mut body, "\n");
        append_chars(&mut body, &group_blocks_chars(entries, keys[i].as_str(), extras));
        i += 1;
    }
    assert(kv.take(keys@.len() as int) =~= kv);
    let mut out = chars_of("<!-- rule-catalog:file generated=true -->");
    append_str(&mut out, "\n");
    append_chars(&mut out, &body);
    string_from_chars(out)
}

/// Number of low-rated entries.
pub open spec fn low_rated_count(es: Seq<CatalogEntryView>) -> nat
    decreases es.len(),
{
    if es.len() == 0 {
        0
    } else {
        low_rated_count(es.drop_last()) + if es.last().tags.contains("low-rated"@) {
            1nat
        } else {
            0nat
        }
    }
}

/// The agent-hook page: where the catalog is, how many rules, which groups,
/// how many low-rated rules.
pub open spec fn agent_hook(es: Seq<CatalogEntryView>, store_dir: Seq<char>) -> Seq<char> {
    let groups = join_with(catalog_groups(es), ", "@);
    "<!-- rule-catalog:agent-hook generated=true -->"@ + "\n\n# Rules Catalog\n\n"@
        + "The full guidance-rules catalog is generated at `"@ + store_dir
        + "/README.md`\n(machine-readable sidecar: `"@ + store_dir + "/index.toon`\n\n"@
        + "- Total rules: "@ + decimal(es.len()) + "\n"@ + (if groups.len() > 0 {
        "- Groups: "@ + groups + "\n"@
    } else {
        Seq::empty()
    }) + "- Low-rated rules needing attention: "@ + decimal(low_rated_count(es)) + "\n"@
}

pub fn render_agent_hook(entries: &Vec<CatalogEntry>, store_dir: &str) -> (r: String)
    ensures
        r@ == agent_hook(entry_views(entries@), store_dir@),
{
    let ghost ev = entry_views(entries@);
    let mut low: usize = 0;
    let mut i: usize = 0;
    while i < entries.len()
        invariant
            0 <= i <= entries@.len(),
            ev == entry_views(entries@),
            low == low_rated_count(ev.take(i as int)),
            low <= i,
        decreases entries@.len() - i,
    {
        assert(ev.take(i + 1).drop_last() =~= ev.take(i as int));
        assert(ev.take(i + 1).last() == entries@[i as int]@);
        if contains_text(&entries[i].tags, "low-rated") {
            low = low + 1;
        }
        i += 1;
    }
    assert(ev.take(entries@.len() as int) =~= ev);
    let groups = join_strings(&group_keys(entries), ", ");
    let mut out = chars_of("<!-- rule-catalog:agent-hook generated=true -->");
    append_str(&mut out, "\n\n# Rules Catalog\n\n");
    append_str(&mut out, "The full guidance-rules catalog is generated at `");
    append_str(&mut out, store_dir);
    append_str(&mut out, "/README.md`\n(machine-readable sidecar: `");
    append_str(&mut out, store_dir);
    append_str(&mut out, "/index.toon`\n\n");
    append_str(&mut out, "- Total rules: ");
    append_chars(&mut out, &decimal_chars(entries.len() as u64));
    append_str(&mut out, "\n");
    let ghost before_groups = out@;
    if groups.len() > 0 {
        append_str(&mut out, "- Groups: ");
        append_chars(&mut out, &groups);
        append_str(&mut out, "\n");
    } else {
        assert(out@ =~= before_groups + Seq::<char>::empty());
    }
    append_str(&mut out, "- Low-rated rules needing attention: ");
    append_chars(&mut out, &decimal_chars(low as u64));
    append_str(&mut out, "\n");
    string_from_chars(out)
}

/// The feedback line of a rule: nothing when every count is zero; otherwise
/// the helpful, mixed and not-helpful counts, in that order, each written
/// in decimal after its own name.
pub proof fn lemma_rating_text_counts(helpful: int, mixed: int, not_helpful: int)
    ensures
        helpful == 0 && mixed == 0 && not_helpful == 0 ==> rating_text(helpful, mixed, not_helpful) is None,
        !(helpful == 0 && mixed == 0 && not_helpful == 0) ==> rating_text(helpful, mixed, not_helpful)
            == Some(
            "helpful "@
                + signed_decimal(helpful)
                + " / mixed "@
                + signed_decimal(mixed)
                + " / not-helpful "@
                + signed_decimal(not_helpful),
        ),
{
}

} // verus!
